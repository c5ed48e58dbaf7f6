# tiny_multipart

A small, zero-copy, resumable parser for `multipart/form-data` bodies, with
its behaviour stated in contracts and proved.

The caller owns the input buffer. `MultipartParser::parse_next` parses one
entry at a time and answers `NeedMore` when the bytes seen so far cannot
decide; the caller appends bytes and retries with the whole retained slice,
and discards the `consumed` prefix after each entry. `MultipartParser::entries`
walks a complete body. `boundary_from_content_type` extracts the boundary from
a `Content-Type` value.

## Layout

- `src/grammar.rs`: the grammar as spec functions on byte sequences.
- `src/primitives.rs`, `src/trivia.rs`, `src/rules.rs`: the executable rules,
  each proved to compute its spec function.
- `src/state.rs`, `src/parser.rs`, `src/cache.rs`: the resumable delimiter
  search and what its cached state must satisfy to be trusted.
- `src/stability.rs`, `src/bounds.rs`: lemmas that decisions made on a prefix
  hold of every extension, and that positions stay in range.
- `src/lib.rs`: the public parser, whose calls are specified by
  `spec_parse_next`.
- `src/truncation.rs`: where a partial input asks for more bytes, the same
  bytes taken as a whole body fail.
- `src/laws.rs`: properties across calls: more input never changes a decided
  step, `NeedMore` loses nothing and at the end of the transport means a
  truncated body, splitting a body into other chunks never changes the
  entries, parsing ends for good.
- `src/capi.rs` and `app/`: the C ABI; `app/` holds the FFI glue.
