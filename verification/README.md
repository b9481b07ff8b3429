# packet_core

A library for `.pkt` packet schemas: it reads schema text into a syntax
tree, checks a schema against the language's rules, and encodes `#[send]`
structs to bytes and decodes bytes as `#[receive]` structs. The library is
written in Verus: the functions in `src/` carry contracts that Verus
proves, apart from a few small wrappers around standard-library calls that
Verus has no specification for, whose contracts are trusted.

## Layout

- `src/lexer.rs`, `src/parser.rs`, `src/source.rs`: tokens, the grammar, and
  parsing of schema text with the line and column of errors.
- `src/ast.rs`: schemas, structs, fields, types and values.
- `src/validator.rs`: the schema rules and their error codes.
- `src/wire.rs`: integers in either byte order, bit fields, checksums.
- `src/encode.rs`, `src/decode.rs`, `src/receive.rs`, `src/codec.rs`:
  encoding and decoding, each described by spec functions.
- `src/size.rs`: the byte size of a value as the size calculator counts it.
- `src/merge.rs`: merging imported schemas.
- `src/properties.rs`, `src/bit_groups.rs`: laws relating encoding and
  decoding.
- `src/error.rs`, `src/messages.rs`, `src/render.rs`, `src/text.rs`: errors
  and their texts.
- `app/lib.rs`: reading schema files from disk, following imports, and
  giving floating-point literals their IEEE 754 bits.

Floating-point literals are kept as written, with their bit patterns once
resolved; encoding a literal without resolved bits is an error.
