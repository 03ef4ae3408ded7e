# binsard

A compact binary serialization format with bit-packing, verified with Verus.

An encoded message has two regions: a data region of whole bytes at the
front (big-endian integers, length-prefixed strings and byte vectors, byte
arrays, list elements), and a bit-packed region at the back (booleans,
`Option` discriminants, integers packed into N bits, enum tags), stored
reversed so that a decoder reads it from the end of the buffer.

## Layout

- `src/` — the verified library.
  - `bits.rs` — the bit stream model: how bits sit in reversed bytes.
  - `encode_helper.rs`, `decode_helper.rs` — the writer and reader of the
    bit-packed region.
  - `codec.rs` — the data region: big-endian integers, length prefixes,
    strings, byte vectors, enum tags.
  - `message.rs` — layouts (`Schema`), values (`Value`), whole-message
    encoding and decoding, and the proof that decoding gives back what
    encoding wrote.
  - `laws.rs` — laws of the bit-packed and data regions.
  - `schema.rs` — the rules that decide a field's layout: type
    classification, attributes, tag widths, field codecs.
  - `definition.rs` — reading a struct or enum definition into classified
    fields.
  - `error.rs`, `traits.rs` — `DecodeError`, `Encode`, `Decode`.
- `tests/` — tests of the library.
- `app/` — the derive side: converts `syn` syntax trees into the library's
  descriptions, reads attributes with `deluxe`, and writes the `Encode` and
  `Decode` impls with `quote`.
