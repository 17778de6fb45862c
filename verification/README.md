# bilrost

A library for the bilrost binary encoding, written in Verus: every function in `src/` carries a
contract, and Verus proves the code against it.

## Layout

- `src/varint.rs`: the bijective varint format. `varint_encoding` and `varint_decode` are the
  model; the laws say that decoding gives back what was encoded, that every decodable input is
  the encoding of its value, and which errors come from which inputs.
- `src/lib.rs`: length delimiters, the recursion limit, tag-list checks.
- `src/buf.rs`: `ReverseBuf`, buffers that are written back to front, and `ReverseBuffer`, a
  chunked implementation whose view is the bytes written so far; the laws cover what advancing
  undoes and how planned reservations are kept.
- `src/encoding.rs`: wire types, field keys (`TagWriter`, `TagRevWriter`, `TagMeasurer`,
  `TagReader`), skipping fields, the canonicity of distinguished decoding, and the decoding loops
  over a message's fields (`merge` and its borrowing and distinguished variants), each stated
  against a model of the whole loop.
- `src/encoding/encoding_traits.rs`: the value and field encoding traits and their generic
  implementations (the key and wire type around a value, `Option` as an optional field).
- `src/encoding/value_encodings.rs`: the `Varint` and `Fixed` value encodings.
- `src/encoding/oneof.rs`: oneofs, and `Option`/`Box` around them.
- `src/message.rs`: the `Message`, `OwnedMessage`, `BorrowedMessage` and distinguished decoding
  traits, implemented for every raw message; `EncodingRoundTrip` and
  `DistinguishedRepresentation` (and their borrowing forms), the obligations a message type
  proves so that the laws of a distinguished representation hold of it.
- `src/error.rs`, `src/types.rs`, `src/iter.rs`, `src/schema.rs`: errors, `Blob`, flattening
  adapters and the schema registry.
- `src/byte_bufs.rs` (beside `remaining_mut`) and the `ThinVec` declarations in `src/error.rs` hold the contracts given to
  the `bytes` and `thin-vec` crates; these are trusted, not proved.
- `app/`: adapters to the `bytes::Buf` trait and the floating-point prepends, which stay outside
  the verified code.
- `tests/`: tests of the library through its public interface.
