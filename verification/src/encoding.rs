//! Wire types, decoding contexts and the encoding traits.
use crate::buf::ReverseBuf;
use crate::byte_bufs::{bytes_advance, bytes_as_slice, bytes_contents, bytes_mut_contents};
use crate::varint::{
    decode_varint_slice, encode_varint, prepend_varint, varint_decode, varint_encoding,
};
use crate::error::{DecodeError, DecodeErrorKind};
use bytes::{Bytes, BytesMut};
use crate::RECURSION_LIMIT;
use vstd::prelude::*;

pub mod encoding_traits;
pub mod oneof;
pub mod value_encodings;

verus! {

/// The wire type of an encoded field: how the field's value is laid out on the wire.
#[derive(Clone, Copy, Debug, PartialEq, Eq, Structural)]
pub enum WireType {
    /// A varint.
    Varint,
    /// A length delimiter followed by that many bytes.
    LengthDelimited,
    /// Four bytes.
    ThirtyTwoBit,
    /// Eight bytes.
    SixtyFourBit,
}

/// The fixed number of bytes a value of the wire type takes, if it is fixed.
pub open spec fn spec_fixed_size(wire_type: WireType) -> Option<usize> {
    match wire_type {
        WireType::ThirtyTwoBit => Some(4usize),
        WireType::SixtyFourBit => Some(8usize),
        _ => None,
    }
}

impl WireType {
    /// Returns the fixed number of bytes a value of this wire type takes, or `None` when it varies.
    pub fn fixed_size(self) -> (r: Option<usize>)
        ensures
            r == spec_fixed_size(self),
    {
        match self {
            WireType::ThirtyTwoBit => Some(4),
            WireType::SixtyFourBit => Some(8),
            _ => None,
        }
    }
}

/// The wire type that a field key carries in its two low bits.
pub open spec fn key_wire_type(key: u64) -> WireType {
    if key % 4 == 0 {
        WireType::Varint
    } else if key % 4 == 1 {
        WireType::LengthDelimited
    } else if key % 4 == 2 {
        WireType::ThirtyTwoBit
    } else {
        WireType::SixtyFourBit
    }
}

impl WireType {
    /// Returns the wire type held in the two low bits of a field key.
    pub fn from_key(key: u64) -> (r: WireType)
        ensures
            r == key_wire_type(key),
    {
        let low = key % 4;
        if low == 0 {
            WireType::Varint
        } else if low == 1 {
            WireType::LengthDelimited
        } else if low == 2 {
            WireType::ThirtyTwoBit
        } else {
            WireType::SixtyFourBit
        }
    }
}

/// Checks that a field's wire type is the one its encoding expects.
pub fn check_wire_type(expected: WireType, actual: WireType) -> (r: Result<(), DecodeError>)
    ensures
        r is Ok <==> expected == actual,
        r matches Err(e) ==> e.spec_kind() == DecodeErrorKind::WrongWireType && e.spec_path().len()
            == 0,
{
    if expected != actual {
        return Err(DecodeError::new(DecodeErrorKind::WrongWireType));
    }
    Ok(())
}

/// How canonical an encoding was found to be when decoding in distinguished mode.
#[derive(Clone, Copy, Debug, PartialEq, Eq, Structural)]
pub enum Canonicity {
    /// Some known field was not encoded canonically.
    NotCanonical,
    /// Every known field was canonical, but unknown fields were present.
    HasExtensions,
    /// The encoding was fully canonical.
    Canonical,
}

/// The rank of a canonicity: `NotCanonical` below `HasExtensions` below `Canonical`.
pub open spec fn canonicity_rank(c: Canonicity) -> nat {
    match c {
        Canonicity::NotCanonical => 0,
        Canonicity::HasExtensions => 1,
        Canonicity::Canonical => 2,
    }
}

/// The lesser of two canonicities: how canonical an encoding is when two of its parts are.
pub open spec fn least_canonicity(a: Canonicity, b: Canonicity) -> Canonicity {
    if canonicity_rank(a) <= canonicity_rank(b) {
        a
    } else {
        b
    }
}

/// What a restriction to `restrict_to` makes of the canonicity found so far: it is kept when
/// it reaches the restriction; otherwise unknown fields are `UnknownField` and any other shortfall
/// is `NotCanonical`.
pub open spec fn restriction_outcome(restrict_to: Canonicity, found: Canonicity) -> Result<
    Canonicity,
    DecodeErrorKind,
> {
    if canonicity_rank(found) >= canonicity_rank(restrict_to) {
        Ok(found)
    } else if found == Canonicity::HasExtensions {
        Err(DecodeErrorKind::UnknownField)
    } else {
        Err(DecodeErrorKind::NotCanonical)
    }
}

impl Canonicity {
    /// Lowers the canonicity to `other` when that is less canonical.
    pub fn update(&mut self, other: Canonicity)
        ensures
            *final(self) == least_canonicity(*old(self), other),
    {
        let lower = match (*self, other) {
            (Canonicity::NotCanonical, _) => false,
            (Canonicity::HasExtensions, Canonicity::NotCanonical) => true,
            (Canonicity::HasExtensions, _) => false,
            (Canonicity::Canonical, Canonicity::Canonical) => false,
            (Canonicity::Canonical, _) => true,
        };
        if lower {
            *self = other;
        }
    }
}

/// Context carried through decoding: how many more levels of nesting may be entered.
#[derive(Clone, Copy, Debug)]
pub struct DecodeContext {
    recurse_count: u32,
}

impl DecodeContext {
    /// How many more levels of nesting may be entered.
    pub closed spec fn depth_left(&self) -> u32 {
        self.recurse_count
    }

    /// A context for decoding at the top level: the full recursion limit is available.
    pub fn new() -> (r: Self)
        ensures
            r.depth_left() == RECURSION_LIMIT,
    {
        DecodeContext { recurse_count: RECURSION_LIMIT }
    }

    /// The context for decoding one level of nesting deeper.
    pub fn enter_recursion(&self) -> (r: Self)
        requires
            self.depth_left() > 0,
        ensures
            r.depth_left() == self.depth_left() - 1,
    {
        DecodeContext { recurse_count: self.recurse_count - 1 }
    }

    /// Fails with `RecursionLimitReached` when no more nesting may be entered.
    pub fn limit_reached(&self) -> (r: Result<(), DecodeError>)
        ensures
            r is Ok <==> self.depth_left() > 0,
            r matches Err(e) ==> e.spec_kind() == DecodeErrorKind::RecursionLimitReached
                && e.spec_path().len() == 0,
    {
        if self.recurse_count == 0 {
            Err(DecodeError::new(DecodeErrorKind::RecursionLimitReached))
        } else {
            Ok(())
        }
    }
}

/// Context carried through distinguished decoding: the recursion context and the least
/// canonicity that decoding must reach.
#[derive(Clone, Copy, Debug)]
pub struct RestrictedDecodeContext {
    context: DecodeContext,
    restrict_to: Canonicity,
}

impl RestrictedDecodeContext {
    /// The recursion context.
    pub closed spec fn spec_context(&self) -> DecodeContext {
        self.context
    }

    /// The least canonicity that decoding must reach.
    pub closed spec fn spec_restrict_to(&self) -> Canonicity {
        self.restrict_to
    }

    /// A top-level context that requires at least `restrict_to`.
    pub fn new(restrict_to: Canonicity) -> (r: Self)
        ensures
            r.spec_context().depth_left() == RECURSION_LIMIT,
            r.spec_restrict_to() == restrict_to,
    {
        RestrictedDecodeContext { context: DecodeContext::new(), restrict_to }
    }

    /// The recursion context.
    pub fn context(&self) -> (r: DecodeContext)
        ensures
            r == self.spec_context(),
    {
        self.context
    }

    /// Checks the canonicity found so far against the restriction, failing as
    /// `restriction_outcome` says.
    pub fn check(&self, found: Canonicity) -> (r: Result<Canonicity, DecodeError>)
        ensures
            match restriction_outcome(self.spec_restrict_to(), found) {
                Ok(c) => r == Ok::<Canonicity, DecodeError>(c),
                Err(k) => r matches Err(e) && e.spec_kind() == k && e.spec_path().len() == 0,
            },
    {
        let enough = match (found, self.restrict_to) {
            (Canonicity::Canonical, _) => true,
            (Canonicity::HasExtensions, Canonicity::Canonical) => false,
            (Canonicity::HasExtensions, _) => true,
            (Canonicity::NotCanonical, Canonicity::NotCanonical) => true,
            (Canonicity::NotCanonical, _) => false,
        };
        if enough {
            Ok(found)
        } else if found == Canonicity::HasExtensions {
            Err(DecodeError::new(DecodeErrorKind::UnknownField))
        } else {
            Err(DecodeError::new(DecodeErrorKind::NotCanonical))
        }
    }
}

/// The basic encoding functionality of a message type, usually derived. An implementation's
/// encoding functions all agree on one byte string, `raw_encoding`.
pub trait RawMessage: Sized {
    /// The bytes that encode the message, without a length delimiter.
    spec fn raw_encoding(&self) -> Seq<u8>;

    /// Whether the message is in its empty state.
    spec fn spec_is_empty(&self) -> bool;

    /// The new message that `empty` returns.
    spec fn empty_value() -> Self;

    /// The message once `clear` has reset every field that decoding fills.
    spec fn cleared(&self) -> Self;

    /// Returns a new message in the empty state.
    fn empty() -> (r: Self)
        ensures
            r.spec_is_empty(),
            r == Self::empty_value(),
    ;

    /// Returns whether the message is in the empty state.
    fn is_empty(&self) -> (r: bool)
        ensures
            r == self.spec_is_empty(),
    ;

    /// Resets the message to the empty state.
    fn clear(&mut self)
        ensures
            final(self).spec_is_empty(),
            *final(self) == old(self).cleared(),
    ;

    /// Encodes the message's fields at the end of the buffer.
    fn raw_encode(&self, buf: &mut BytesMut)
        requires
            bytes_mut_contents(*old(buf)).len() + self.raw_encoding().len() <= isize::MAX,
        ensures
            bytes_mut_contents(*final(buf)) == bytes_mut_contents(*old(buf)) + self.raw_encoding(),
    ;

    /// Prepends the message's fields to the buffer; when they fit in the buffer's spare room, no
    /// allocation is made.
    fn raw_prepend<B: ReverseBuf>(&self, buf: &mut B)
        requires
            old(buf).is_valid(),
            self.raw_encoding().len() <= old(buf).writable(),
        ensures
            final(buf).is_valid(),
            final(buf).contents() == self.raw_encoding() + old(buf).contents(),
            final(buf).writable() == old(buf).writable() - self.raw_encoding().len(),
            self.raw_encoding().len() <= old(buf).spare() ==> final(buf).allocations() == old(
                buf,
            ).allocations() && final(buf).spare() == old(buf).spare() - self.raw_encoding().len(),
    ;

    /// Returns the number of bytes the message's fields encode to.
    fn raw_encoded_len(&self) -> (r: usize)
        ensures
            r == self.raw_encoding().len(),
    ;
}

/// The number a wire type stands for in the two low bits of a field key.
pub open spec fn wire_type_bits(wire_type: WireType) -> u64 {
    match wire_type {
        WireType::Varint => 0,
        WireType::LengthDelimited => 1,
        WireType::ThirtyTwoBit => 2,
        WireType::SixtyFourBit => 3,
    }
}

/// The key of a field whose tag is `delta` more than the previous field's.
pub open spec fn field_key(delta: u32, wire_type: WireType) -> u64 {
    (delta * 4 + wire_type_bits(wire_type)) as u64
}

/// The encoded key of a field with tag `tag` that follows a field with tag `last_tag`.
pub open spec fn key_encoding(last_tag: u32, tag: u32, wire_type: WireType) -> Seq<u8> {
    varint_encoding(field_key((tag - last_tag) as u32, wire_type))
}

/// Returns the key of a field whose tag is `delta` more than the previous field's.
fn key_value(delta: u32, wire_type: WireType) -> (r: u64)
    ensures
        r == field_key(delta, wire_type),
{
    let bits: u64 = match wire_type {
        WireType::Varint => 0,
        WireType::LengthDelimited => 1,
        WireType::ThirtyTwoBit => 2,
        WireType::SixtyFourBit => 3,
    };
    (delta as u64) * 4 + bits
}

/// A key takes as many bytes whatever the wire type it carries.
pub proof fn lemma_key_len_any_wire_type(delta: u32, a: WireType, b: WireType)
    ensures
        varint_encoding(field_key(delta, a)).len() == varint_encoding(field_key(delta, b)).len(),
{
    let base = ((delta as u64) * 4) as u64;
    crate::varint::lemma_varint_len_low_bits(base, wire_type_bits(a));
    crate::varint::lemma_varint_len_low_bits(base, wire_type_bits(b));
}

/// Writes field keys, each relative to the previous field's tag; fields must come in order of
/// their tags.
pub struct TagWriter {
    last_tag: u32,
}

impl TagWriter {
    /// The tag of the field written last (0 before any).
    pub closed spec fn spec_last_tag(&self) -> u32 {
        self.last_tag
    }

    /// A writer before the first field.
    pub fn new() -> (r: Self)
        ensures
            r.spec_last_tag() == 0,
    {
        TagWriter { last_tag: 0 }
    }

    /// Encodes the key of the field with the given tag and wire type at the end of the buffer.
    pub fn encode_key(&mut self, tag: u32, wire_type: WireType, buf: &mut BytesMut)
        requires
            old(self).spec_last_tag() <= tag,
            bytes_mut_contents(*old(buf)).len() + key_encoding(
                old(self).spec_last_tag(),
                tag,
                wire_type,
            ).len() <= isize::MAX,
        ensures
            bytes_mut_contents(*final(buf)) == bytes_mut_contents(*old(buf)) + key_encoding(
                old(self).spec_last_tag(),
                tag,
                wire_type,
            ),
            final(self).spec_last_tag() == tag,
    {
        let key = key_value(tag - self.last_tag, wire_type);
        encode_varint(key, buf);
        self.last_tag = tag;
    }
}

/// The key still owed to the field at the front of a buffer that fields are being prepended to,
/// once the field before it turns out to have tag `below`: nothing when no field is pending.
pub open spec fn pending_key(pending: Option<(u32, WireType)>, below: u32) -> Seq<u8> {
    match pending {
        Some((tag, wire_type)) => key_encoding(below, tag, wire_type),
        None => Seq::empty(),
    }
}

/// Writes field keys while fields are prepended, the field with the highest tag first. A key
/// depends on the tag of the field before it, so each field's key is written only when the field
/// before it begins, or when the writer is finalized.
pub struct TagRevWriter {
    pending: Option<(u32, WireType)>,
}

impl TagRevWriter {
    /// The tag and wire type of the field begun last, whose key is still to be written.
    pub closed spec fn spec_pending(&self) -> Option<(u32, WireType)> {
        self.pending
    }

    /// A writer before the first field.
    pub fn new() -> (r: Self)
        ensures
            r.spec_pending() is None,
    {
        TagRevWriter { pending: None }
    }

    /// Prepends the key that the pending field is owed now that it follows the given tag.
    fn settle<B: ReverseBuf>(&self, below: u32, buf: &mut B)
        requires
            self.spec_pending() matches Some((t, _)) ==> below <= t,
            old(buf).is_valid(),
            pending_key(self.spec_pending(), below).len() <= old(buf).writable(),
        ensures
            final(buf).is_valid(),
            final(buf).contents() == pending_key(self.spec_pending(), below) + old(buf).contents(),
            final(buf).writable() == old(buf).writable() - pending_key(
                self.spec_pending(),
                below,
            ).len(),
    {
        match self.pending {
            Some((tag, wire_type)) => {
                let key = key_value(tag - below, wire_type);
                prepend_varint(key, buf);
            },
            None => {
                assert(Seq::<u8>::empty() + buf.contents() =~= buf.contents());
            },
        }
    }

    /// Begins prepending the field with the given tag and wire type, before its value is
    /// prepended: prepends the key of the field begun before, which follows this one.
    pub fn begin_field<B: ReverseBuf>(&mut self, tag: u32, wire_type: WireType, buf: &mut B)
        requires
            old(self).spec_pending() matches Some((t, _)) ==> tag <= t,
            old(buf).is_valid(),
            pending_key(old(self).spec_pending(), tag).len() <= old(buf).writable(),
        ensures
            final(buf).is_valid(),
            final(buf).contents() == pending_key(old(self).spec_pending(), tag) + old(
                buf,
            ).contents(),
            final(buf).writable() == old(buf).writable() - pending_key(
                old(self).spec_pending(),
                tag,
            ).len(),
            final(self).spec_pending() == Some((tag, wire_type)),
    {
        self.settle(tag, buf);
        self.pending = Some((tag, wire_type));
    }

    /// Prepends the key of the first field, whose tag counts from 0.
    pub fn finalize<B: ReverseBuf>(self, buf: &mut B)
        requires
            old(buf).is_valid(),
            pending_key(self.spec_pending(), 0).len() <= old(buf).writable(),
        ensures
            final(buf).is_valid(),
            final(buf).contents() == pending_key(self.spec_pending(), 0) + old(buf).contents(),
            final(buf).writable() == old(buf).writable() - pending_key(
                self.spec_pending(),
                0,
            ).len(),
    {
        self.settle(0, buf);
    }
}

/// The bytes of fields written in order through a `TagWriter` that last wrote tag `last_tag`:
/// each field's key, then its value bytes.
pub open spec fn fields_encoding(last_tag: u32, fields: Seq<(u32, WireType, Seq<u8>)>) -> Seq<u8>
    decreases fields.len(),
{
    if fields.len() == 0 {
        Seq::empty()
    } else {
        key_encoding(last_tag, fields[0].0, fields[0].1) + fields[0].2 + fields_encoding(
            fields[0].0,
            fields.drop_first(),
        )
    }
}

/// The bytes that prepending the fields through a `TagRevWriter`, the last field first, puts in
/// front of a buffer while the field `pending` is owed its key: each field's value is prepended
/// after its `begin_field` has prepended the key owed to the field after it.
pub open spec fn fields_prepended(
    pending: Option<(u32, WireType)>,
    fields: Seq<(u32, WireType, Seq<u8>)>,
) -> Seq<u8>
    decreases fields.len(),
{
    if fields.len() == 0 {
        Seq::empty()
    } else {
        fields_prepended(Some((fields.last().0, fields.last().1)), fields.drop_last())
            + fields.last().2 + pending_key(pending, fields.last().0)
    }
}

/// The fields come in order of their tags.
pub open spec fn tags_in_order(fields: Seq<(u32, WireType, Seq<u8>)>) -> bool {
    forall|i: int, j: int| 0 <= i <= j < fields.len() ==> fields[i].0 <= fields[j].0
}

/// Writing one more field at the end adds its key, counted from the tag before it, and its
/// value.
proof fn lemma_fields_encoding_push(
    last_tag: u32,
    fields: Seq<(u32, WireType, Seq<u8>)>,
    field: (u32, WireType, Seq<u8>),
)
    ensures
        fields_encoding(last_tag, fields.push(field)) == fields_encoding(last_tag, fields)
            + key_encoding(
            if fields.len() == 0 {
                last_tag
            } else {
                fields.last().0
            },
            field.0,
            field.1,
        ) + field.2,
    decreases fields.len(),
{
    let pushed = fields.push(field);
    if fields.len() == 0 {
        assert(pushed.drop_first() =~= Seq::<(u32, WireType, Seq<u8>)>::empty());
        assert(fields_encoding(field.0, pushed.drop_first()) =~= Seq::<u8>::empty());
        assert(fields_encoding(last_tag, pushed) =~= key_encoding(last_tag, field.0, field.1)
            + field.2);
        assert(fields_encoding(last_tag, fields) =~= Seq::<u8>::empty());
    } else {
        let rest = fields.drop_first();
        assert(pushed.drop_first() =~= rest.push(field));
        lemma_fields_encoding_push(fields[0].0, rest, field);
        let before = if rest.len() == 0 {
            fields[0].0
        } else {
            rest.last().0
        };
        assert(before == fields.last().0);
        assert(fields_encoding(last_tag, pushed) =~= key_encoding(last_tag, fields[0].0, fields[0].1)
            + fields[0].2 + fields_encoding(fields[0].0, rest.push(field)));
        assert(fields_encoding(last_tag, pushed) =~= fields_encoding(last_tag, fields)
            + key_encoding(before, field.0, field.1) + field.2);
    }
}

/// Prepending fields through a `TagRevWriter`, the last field first, then finalizing the writer,
/// gives the bytes that writing the same fields in order through a `TagWriter` gives, followed by
/// the key owed to the field that was pending before.
pub proof fn lemma_prepended_fields_match_written(
    pending: Option<(u32, WireType)>,
    fields: Seq<(u32, WireType, Seq<u8>)>,
)
    requires
        fields.len() > 0,
        tags_in_order(fields),
        pending matches Some((t, _)) ==> fields.last().0 <= t,
    ensures
        pending_key(Some((fields[0].0, fields[0].1)), 0) + fields_prepended(pending, fields)
            == fields_encoding(0, fields) + pending_key(pending, fields.last().0),
    decreases fields.len(),
{
    let last = fields.last();
    let init = fields.drop_last();
    if fields.len() == 1 {
        assert(init =~= Seq::<(u32, WireType, Seq<u8>)>::empty());
        assert(fields.drop_first() =~= Seq::<(u32, WireType, Seq<u8>)>::empty());
        assert(fields_encoding(fields[0].0, fields.drop_first()) =~= Seq::<u8>::empty());
        assert(fields_prepended(Some((last.0, last.1)), init) =~= Seq::<u8>::empty());
        assert(pending_key(Some((fields[0].0, fields[0].1)), 0) + fields_prepended(pending, fields)
            =~= fields_encoding(0, fields) + pending_key(pending, last.0));
    } else {
        assert forall|i: int, j: int| 0 <= i <= j < init.len() implies init[i].0 <= init[j].0 by {
            assert(init[i] == fields[i] && init[j] == fields[j]);
        }
        assert(init.last() == fields[fields.len() - 2]);
        lemma_prepended_fields_match_written(Some((last.0, last.1)), init);
        assert(init[0] == fields[0]);
        lemma_fields_encoding_push(0, init, last);
        assert(init.push(last) =~= fields);
        assert(pending_key(Some((last.0, last.1)), init.last().0) == key_encoding(
            init.last().0,
            last.0,
            last.1,
        ));
        assert(pending_key(Some((fields[0].0, fields[0].1)), 0) + fields_prepended(pending, fields)
            =~= fields_encoding(0, fields) + pending_key(pending, last.0));
    }
}

/// Measures the keys that a `TagWriter` would write, without writing them.
pub struct TagMeasurer {
    last_tag: u32,
}

impl TagMeasurer {
    /// The tag of the field measured last (0 before any).
    pub closed spec fn spec_last_tag(&self) -> u32 {
        self.last_tag
    }

    /// A measurer before the first field.
    pub fn new() -> (r: Self)
        ensures
            r.spec_last_tag() == 0,
    {
        TagMeasurer { last_tag: 0 }
    }

    /// Returns the length of the key of the field with the given tag, which is the same for
    /// every wire type.
    pub fn key_len(&mut self, tag: u32) -> (r: usize)
        requires
            old(self).spec_last_tag() <= tag,
        ensures
            forall|wire_type: WireType|
                r == #[trigger] key_encoding(old(self).spec_last_tag(), tag, wire_type).len(),
            final(self).spec_last_tag() == tag,
    {
        let delta = tag - self.last_tag;
        let r = crate::varint::encoded_len_varint(key_value(delta, WireType::Varint));
        proof {
            assert forall|wire_type: WireType|
                r == #[trigger] key_encoding(self.last_tag, tag, wire_type).len() by {
                lemma_key_len_any_wire_type(delta, WireType::Varint, wire_type);
            }
        }
        self.last_tag = tag;
        r
    }
}

/// Reads field keys. A key is a varint holding the difference between the field's tag and the
/// previous field's tag, shifted left past the two bits of the wire type.
pub struct TagReader {
    last_tag: u32,
}

impl TagReader {
    /// The tag of the field read last (0 before any).
    pub closed spec fn spec_last_tag(&self) -> u32 {
        self.last_tag
    }

    /// A reader before the first field.
    pub fn new() -> (r: Self)
        ensures
            r.spec_last_tag() == 0,
    {
        TagReader { last_tag: 0 }
    }

    /// Decodes a field key from the front of the buffer, returning the field's tag and wire type.
    /// A tag beyond `u32::MAX` is `TagOverflowed`.
    pub fn decode_key(&mut self, buf: &mut Bytes) -> (r: Result<(u32, WireType), DecodeError>)
        ensures
            match varint_decode(bytes_contents(*old(buf))) {
                Err(k) => r matches Err(e) && e.spec_kind() == k && bytes_contents(*final(buf))
                    == bytes_contents(*old(buf)) && *final(self) == *old(self),
                Ok((key, n)) => bytes_contents(*final(buf)) == bytes_contents(*old(buf)).skip(
                    n as int,
                ) && if old(self).spec_last_tag() + key / 4 > u32::MAX {
                    r matches Err(e) && e.spec_kind() == DecodeErrorKind::TagOverflowed
                        && *final(self) == *old(self)
                } else {
                    r == Ok::<(u32, WireType), DecodeError>(
                        ((old(self).spec_last_tag() + key / 4) as u32, key_wire_type(key)),
                    ) && final(self).spec_last_tag() == old(self).spec_last_tag() + key / 4
                },
            },
    {
        let decoded = decode_varint_slice(bytes_as_slice(buf));
        let (key, n) = match decoded {
            Ok(pair) => pair,
            Err(e) => return Err(e),
        };
        bytes_advance(buf, n);
        self.tag_from_key(key)
    }

    /// Decodes a field key from the front of the slice, as `decode_key` does from a buffer.
    pub fn decode_key_in_slice(&mut self, buf: &mut &[u8]) -> (r: Result<(u32, WireType), DecodeError>)
        ensures
            match varint_decode((*old(buf))@) {
                Err(k) => r matches Err(e) && e.spec_kind() == k && (*final(buf))@ == (*old(buf))@
                    && *final(self) == *old(self),
                Ok((key, n)) => (*final(buf))@ == (*old(buf))@.skip(n as int) && if old(
                    self,
                ).spec_last_tag() + key / 4 > u32::MAX {
                    r matches Err(e) && e.spec_kind() == DecodeErrorKind::TagOverflowed
                        && *final(self) == *old(self)
                } else {
                    r == Ok::<(u32, WireType), DecodeError>(
                        ((old(self).spec_last_tag() + key / 4) as u32, key_wire_type(key)),
                    ) && final(self).spec_last_tag() == old(self).spec_last_tag() + key / 4
                },
            },
    {
        let bytes: &[u8] = *buf;
        let (key, n) = match decode_varint_slice(bytes) {
            Ok(pair) => pair,
            Err(e) => return Err(e),
        };
        *buf = vstd::slice::slice_subrange(bytes, n, bytes.len());
        assert((*buf)@ =~= bytes@.skip(n as int));
        self.tag_from_key(key)
    }

    /// Takes the tag and wire type out of a key that follows the last field read.
    fn tag_from_key(&mut self, key: u64) -> (r: Result<(u32, WireType), DecodeError>)
        ensures
            if old(self).spec_last_tag() + key / 4 > u32::MAX {
                r matches Err(e) && e.spec_kind() == DecodeErrorKind::TagOverflowed && *final(self)
                    == *old(self)
            } else {
                r == Ok::<(u32, WireType), DecodeError>(
                    ((old(self).spec_last_tag() + key / 4) as u32, key_wire_type(key)),
                ) && final(self).spec_last_tag() == old(self).spec_last_tag() + key / 4
            },
    {
        let delta = key / 4;
        if delta > (u32::MAX - self.last_tag) as u64 {
            return Err(DecodeError::new(DecodeErrorKind::TagOverflowed));
        }
        let tag = self.last_tag + delta as u32;
        self.last_tag = tag;
        Ok((tag, WireType::from_key(key)))
    }
}

/// `after` is what is left of `before` once some bytes have been read from its front.
pub open spec fn read_from_front(before: Seq<u8>, after: Seq<u8>) -> bool {
    &&& after.len() <= before.len()
    &&& after == before.skip(before.len() - after.len())
}

/// How many bytes a field value of the given wire type spans at the start of `s`, or the kind of
/// error: a varint; a length delimiter and that many bytes; four bytes; eight bytes.
pub open spec fn field_value_extent(wire_type: WireType, s: Seq<u8>) -> Result<nat, DecodeErrorKind> {
    match wire_type {
        WireType::Varint => match varint_decode(s) {
            Ok((_, n)) => Ok(n),
            Err(k) => Err(k),
        },
        WireType::LengthDelimited => match varint_decode(s) {
            Ok((len, n)) => if len as int <= s.len() - n {
                Ok((n + len) as nat)
            } else {
                Err(DecodeErrorKind::Truncated)
            },
            Err(k) => Err(k),
        },
        WireType::ThirtyTwoBit => if s.len() >= 4 {
            Ok(4)
        } else {
            Err(DecodeErrorKind::Truncated)
        },
        WireType::SixtyFourBit => if s.len() >= 8 {
            Ok(8)
        } else {
            Err(DecodeErrorKind::Truncated)
        },
    }
}

/// A field value lies within the input it is read from, and takes at least one byte.
pub proof fn lemma_field_value_extent_within(wire_type: WireType, s: Seq<u8>)
    ensures
        field_value_extent(wire_type, s) matches Ok(n) ==> 1 <= n <= s.len(),
{
    if varint_decode(s) is Ok {
        crate::varint::lemma_varint_decode_extent(s);
    }
}

/// Returns how many bytes a field value of the given wire type spans at the front of the bytes.
fn field_value_len(wire_type: WireType, bytes: &[u8]) -> (r: Result<usize, DecodeError>)
    ensures
        match field_value_extent(wire_type, bytes@) {
            Ok(n) => r matches Ok(m) && m == n && n <= bytes@.len(),
            Err(k) => r matches Err(e) && e.spec_kind() == k,
        },
{
    proof {
        if varint_decode(bytes@) is Ok {
            crate::varint::lemma_varint_decode_extent(bytes@);
        }
    }
    let available = bytes.len();
    match wire_type {
        WireType::Varint => match decode_varint_slice(bytes) {
            Ok((_, n)) => Ok(n),
            Err(e) => Err(e),
        },
        WireType::LengthDelimited => match decode_varint_slice(bytes) {
            Ok((len, n)) => {
                if len > (available - n) as u64 {
                    return Err(DecodeError::new(DecodeErrorKind::Truncated));
                }
                Ok(n + len as usize)
            },
            Err(e) => Err(e),
        },
        WireType::ThirtyTwoBit => {
            if available < 4 {
                return Err(DecodeError::new(DecodeErrorKind::Truncated));
            }
            Ok(4)
        },
        WireType::SixtyFourBit => {
            if available < 8 {
                return Err(DecodeError::new(DecodeErrorKind::Truncated));
            }
            Ok(8)
        },
    }
}

/// Skips a field value of the given wire type at the front of the buffer. When the value is
/// malformed or truncated, the buffer is left as it was.
pub fn skip_field(wire_type: WireType, buf: &mut Bytes) -> (r: Result<(), DecodeError>)
    ensures
        match field_value_extent(wire_type, bytes_contents(*old(buf))) {
            Ok(n) => r is Ok && bytes_contents(*final(buf)) == bytes_contents(*old(buf)).skip(
                n as int,
            ),
            Err(k) => r matches Err(e) && e.spec_kind() == k && bytes_contents(*final(buf))
                == bytes_contents(*old(buf)),
        },
        read_from_front(bytes_contents(*old(buf)), bytes_contents(*final(buf))),
{
    proof {
        let s = bytes_contents(*buf);
        assert(s.skip(0) =~= s);
    }
    let n = match field_value_len(wire_type, bytes_as_slice(buf)) {
        Ok(n) => n,
        Err(e) => return Err(e),
    };
    bytes_advance(buf, n);
    proof {
        let s = bytes_contents(*old(buf));
        assert(bytes_contents(*buf) =~= s.skip(s.len() - bytes_contents(*buf).len()));
    }
    Ok(())
}

/// Skips a field value of the given wire type at the front of the slice. When the value is
/// malformed or truncated, the slice is left as it was.
pub fn skip_field_in_slice(wire_type: WireType, buf: &mut &[u8]) -> (r: Result<(), DecodeError>)
    ensures
        match field_value_extent(wire_type, (*old(buf))@) {
            Ok(n) => r is Ok && (*final(buf))@ == (*old(buf))@.skip(n as int),
            Err(k) => r matches Err(e) && e.spec_kind() == k && (*final(buf))@ == (*old(buf))@,
        },
        read_from_front((*old(buf))@, (*final(buf))@),
{
    let bytes: &[u8] = *buf;
    proof {
        assert(bytes@.skip(0) =~= bytes@);
    }
    let n = match field_value_len(wire_type, bytes) {
        Ok(n) => n,
        Err(e) => return Err(e),
    };
    *buf = vstd::slice::slice_subrange(bytes, n, bytes.len());
    assert((*buf)@ =~= bytes@.skip(n as int));
    Ok(())
}

/// Relaxed decoding of a message's fields, usually derived.
pub trait RawMessageDecoder: RawMessage {
    /// What decoding the value of the field with the given tag and wire type from the front of
    /// `input` does to the message: the message afterwards and how many bytes the value took, or
    /// the kind of error. `duplicated` tells whether the previous field had the same tag, and
    /// `depth` how many more levels of nesting may be entered.
    spec fn field_decoding(
        &self,
        tag: u32,
        wire_type: WireType,
        duplicated: bool,
        input: Seq<u8>,
        depth: u32,
    ) -> Result<(Self, nat), DecodeErrorKind>;

    /// A field value is read from within the input.
    proof fn lemma_field_decoding_within(
        &self,
        tag: u32,
        wire_type: WireType,
        duplicated: bool,
        input: Seq<u8>,
        depth: u32,
    )
        ensures
            self.field_decoding(tag, wire_type, duplicated, input, depth) matches Ok((_, n)) ==> n
                <= input.len(),
    ;

    /// Decodes the value of the field with the given tag and wire type from the front of the
    /// buffer. `duplicated` tells whether the previous field had the same tag.
    fn raw_decode_field(
        &mut self,
        tag: u32,
        wire_type: WireType,
        duplicated: bool,
        buf: &mut Bytes,
        ctx: DecodeContext,
    ) -> (r: Result<(), DecodeError>)
        ensures
            read_from_front(bytes_contents(*old(buf)), bytes_contents(*final(buf))),
            match old(self).field_decoding(
                tag,
                wire_type,
                duplicated,
                bytes_contents(*old(buf)),
                ctx.depth_left(),
            ) {
                Ok((m, n)) => r is Ok && *final(self) == m && bytes_contents(*final(buf))
                    == bytes_contents(*old(buf)).skip(n as int),
                Err(k) => r matches Err(e) && e.spec_kind() == k,
            },
    ;
}

/// The tag that field keys count from: that of the previous field, or 0 before any.
pub open spec fn tag_base(last: Option<u32>) -> u32 {
    match last {
        Some(t) => t,
        None => 0,
    }
}

/// What decoding the fields in `input` into `msg` gives, `last` being the tag of the field
/// decoded before them: each field's key is read, then the message decodes the field's value;
/// the first error ends decoding.
pub open spec fn merge_outcome<T: RawMessageDecoder>(
    msg: T,
    last: Option<u32>,
    input: Seq<u8>,
    depth: u32,
) -> Result<T, DecodeErrorKind>
    decreases input.len(),
{
    if input.len() == 0 {
        Ok(msg)
    } else {
        match varint_decode(input) {
            Err(k) => Err(k),
            Ok((key, n)) => {
                if tag_base(last) + key / 4 > u32::MAX {
                    Err(DecodeErrorKind::TagOverflowed)
                } else {
                    let tag = (tag_base(last) + key / 4) as u32;
                    let rest = input.skip(n as int);
                    let duplicated = last == Some(tag);
                    match msg.field_decoding(tag, key_wire_type(key), duplicated, rest, depth) {
                        Err(k) => Err(k),
                        Ok((next, used)) => {
                            proof {
                                crate::varint::lemma_varint_decode_extent(input);
                                msg.lemma_field_decoding_within(
                                    tag,
                                    key_wire_type(key),
                                    duplicated,
                                    rest,
                                    depth,
                                );
                            }
                            merge_outcome(next, Some(tag), rest.skip(used as int), depth)
                        },
                    }
                }
            },
        }
    }
}

/// Decodes fields from the buffer into the message until the buffer is used up: reads each
/// field's key and hands the field to the message.
pub fn merge<T: RawMessageDecoder>(value: &mut T, buf: &mut Bytes, ctx: DecodeContext) -> (r: Result<
    (),
    DecodeError,
>)
    ensures
        read_from_front(bytes_contents(*old(buf)), bytes_contents(*final(buf))),
        match merge_outcome(*old(value), None, bytes_contents(*old(buf)), ctx.depth_left()) {
            Ok(m) => r is Ok && *final(value) == m && bytes_contents(*final(buf)).len() == 0,
            Err(k) => r matches Err(e) && e.spec_kind() == k,
        },
{
    let mut reader = TagReader::new();
    let mut last: Option<u32> = None;
    proof {
        assert(bytes_contents(*buf).skip(0) =~= bytes_contents(*buf));
    }
    while bytes_as_slice(buf).len() > 0
        invariant
            read_from_front(bytes_contents(*old(buf)), bytes_contents(*buf)),
            reader.spec_last_tag() == tag_base(last),
            merge_outcome(*old(value), None, bytes_contents(*old(buf)), ctx.depth_left())
                == merge_outcome(*value, last, bytes_contents(*buf), ctx.depth_left()),
        decreases bytes_contents(*buf).len(),
    {
        let ghost before = bytes_contents(*buf);
        let ghost before_value = *value;
        let ghost before_last = last;
        let key_result = reader.decode_key(buf);
        proof {
            if varint_decode(before) is Ok {
                crate::varint::lemma_varint_decode_extent(before);
            }
            assert(bytes_contents(*buf) =~= bytes_contents(*old(buf)).skip(
                bytes_contents(*old(buf)).len() - bytes_contents(*buf).len(),
            ));
        }
        let (tag, wire_type) = match key_result {
            Ok(key) => key,
            Err(e) => return Err(e),
        };
        let duplicated = match last {
            Some(t) => t == tag,
            None => false,
        };
        last = Some(tag);
        let ghost mid = bytes_contents(*buf);
        let result = value.raw_decode_field(tag, wire_type, duplicated, buf, ctx);
        proof {
            assert(bytes_contents(*buf) =~= bytes_contents(*old(buf)).skip(
                bytes_contents(*old(buf)).len() - bytes_contents(*buf).len(),
            ));
            assert(duplicated == (before_last == Some(tag)));
        }
        match result {
            Ok(()) => {},
            Err(e) => return Err(e),
        }
    }
    Ok(())
}

/// Relaxed decoding of a message's fields from a slice, possibly borrowing from it; usually
/// derived.
pub trait RawMessageBorrowDecoder<'a>: RawMessage {
    /// What decoding the value of the field with the given tag and wire type from the front of
    /// `input` does to the message: the message afterwards and how many bytes the value took, or
    /// the kind of error.
    spec fn field_borrow_decoding(
        &self,
        tag: u32,
        wire_type: WireType,
        duplicated: bool,
        input: Seq<u8>,
        depth: u32,
    ) -> Result<(Self, nat), DecodeErrorKind>;

    /// A field value is read from within the input.
    proof fn lemma_field_borrow_decoding_within(
        &self,
        tag: u32,
        wire_type: WireType,
        duplicated: bool,
        input: Seq<u8>,
        depth: u32,
    )
        ensures
            self.field_borrow_decoding(tag, wire_type, duplicated, input, depth) matches Ok(
                (_, n),
            ) ==> n <= input.len(),
    ;

    /// Decodes the value of the field with the given tag and wire type from the front of the
    /// slice. `duplicated` tells whether the previous field had the same tag.
    fn raw_borrow_decode_field(
        &mut self,
        tag: u32,
        wire_type: WireType,
        duplicated: bool,
        buf: &mut &'a [u8],
        ctx: DecodeContext,
    ) -> (r: Result<(), DecodeError>)
        ensures
            read_from_front((*old(buf))@, (*final(buf))@),
            match old(self).field_borrow_decoding(
                tag,
                wire_type,
                duplicated,
                (*old(buf))@,
                ctx.depth_left(),
            ) {
                Ok((m, n)) => r is Ok && *final(self) == m && (*final(buf))@ == (*old(buf))@.skip(
                    n as int,
                ),
                Err(k) => r matches Err(e) && e.spec_kind() == k,
            },
    ;
}

/// What decoding the fields in `input` into `msg` from a slice gives, `last` being the tag of the
/// field decoded before them; as `merge_outcome`, with the message's borrowing field decoding.
pub open spec fn borrow_merge_outcome<'a, T: RawMessageBorrowDecoder<'a>>(
    msg: T,
    last: Option<u32>,
    input: Seq<u8>,
    depth: u32,
) -> Result<T, DecodeErrorKind>
    decreases input.len(),
{
    if input.len() == 0 {
        Ok(msg)
    } else {
        match varint_decode(input) {
            Err(k) => Err(k),
            Ok((key, n)) => {
                if tag_base(last) + key / 4 > u32::MAX {
                    Err(DecodeErrorKind::TagOverflowed)
                } else {
                    let tag = (tag_base(last) + key / 4) as u32;
                    let rest = input.skip(n as int);
                    let duplicated = last == Some(tag);
                    match msg.field_borrow_decoding(
                        tag,
                        key_wire_type(key),
                        duplicated,
                        rest,
                        depth,
                    ) {
                        Err(k) => Err(k),
                        Ok((next, used)) => {
                            proof {
                                crate::varint::lemma_varint_decode_extent(input);
                                msg.lemma_field_borrow_decoding_within(
                                    tag,
                                    key_wire_type(key),
                                    duplicated,
                                    rest,
                                    depth,
                                );
                            }
                            borrow_merge_outcome(next, Some(tag), rest.skip(used as int), depth)
                        },
                    }
                }
            },
        }
    }
}

/// Decodes fields from the slice into the message until the slice is used up: reads each field's
/// key and hands the field to the message.
pub fn borrow_merge<'a, T: RawMessageBorrowDecoder<'a>>(
    value: &mut T,
    buf: &mut &'a [u8],
    ctx: DecodeContext,
) -> (r: Result<(), DecodeError>)
    ensures
        read_from_front((*old(buf))@, (*final(buf))@),
        match borrow_merge_outcome(*old(value), None, (*old(buf))@, ctx.depth_left()) {
            Ok(m) => r is Ok && *final(value) == m && (*final(buf))@.len() == 0,
            Err(k) => r matches Err(e) && e.spec_kind() == k,
        },
{
    let mut reader = TagReader::new();
    let mut last: Option<u32> = None;
    proof {
        assert((*buf)@.skip(0) =~= (*buf)@);
    }
    while buf.len() > 0
        invariant
            read_from_front((*old(buf))@, (*buf)@),
            reader.spec_last_tag() == tag_base(last),
            borrow_merge_outcome(*old(value), None, (*old(buf))@, ctx.depth_left())
                == borrow_merge_outcome(*value, last, (*buf)@, ctx.depth_left()),
        decreases (*buf)@.len(),
    {
        let ghost before = (*buf)@;
        let ghost before_last = last;
        let key_result = reader.decode_key_in_slice(buf);
        proof {
            if varint_decode(before) is Ok {
                crate::varint::lemma_varint_decode_extent(before);
            }
            assert((*buf)@ =~= (*old(buf))@.skip((*old(buf))@.len() - (*buf)@.len()));
        }
        let (tag, wire_type) = match key_result {
            Ok(key) => key,
            Err(e) => return Err(e),
        };
        let duplicated = match last {
            Some(t) => t == tag,
            None => false,
        };
        last = Some(tag);
        let result = value.raw_borrow_decode_field(tag, wire_type, duplicated, buf, ctx);
        proof {
            assert((*buf)@ =~= (*old(buf))@.skip((*old(buf))@.len() - (*buf)@.len()));
            assert(duplicated == (before_last == Some(tag)));
        }
        match result {
            Ok(()) => {},
            Err(e) => return Err(e),
        }
    }
    Ok(())
}

/// Distinguished decoding of a message's fields, usually derived.
pub trait RawDistinguishedMessageDecoder: RawMessage {
    /// What decoding the value of the field with the given tag and wire type from the front of
    /// `input` does to the message in distinguished mode: the message afterwards, how many bytes
    /// the value took and how canonical they were, or the kind of error.
    spec fn field_decoding_distinguished(
        &self,
        tag: u32,
        wire_type: WireType,
        duplicated: bool,
        input: Seq<u8>,
        depth: u32,
        restrict_to: Canonicity,
    ) -> Result<(Self, nat, Canonicity), DecodeErrorKind>;

    /// A field value is read from within the input.
    proof fn lemma_field_decoding_distinguished_within(
        &self,
        tag: u32,
        wire_type: WireType,
        duplicated: bool,
        input: Seq<u8>,
        depth: u32,
        restrict_to: Canonicity,
    )
        ensures
            self.field_decoding_distinguished(
                tag,
                wire_type,
                duplicated,
                input,
                depth,
                restrict_to,
            ) matches Ok((_, n, _)) ==> n <= input.len(),
    ;

    /// Decodes the value of the field with the given tag and wire type from the front of the
    /// buffer in distinguished mode, returning how canonical it was.
    fn raw_decode_field_distinguished(
        &mut self,
        tag: u32,
        wire_type: WireType,
        duplicated: bool,
        buf: &mut Bytes,
        ctx: RestrictedDecodeContext,
    ) -> (r: Result<Canonicity, DecodeError>)
        ensures
            read_from_front(bytes_contents(*old(buf)), bytes_contents(*final(buf))),
            match old(self).field_decoding_distinguished(
                tag,
                wire_type,
                duplicated,
                bytes_contents(*old(buf)),
                ctx.spec_context().depth_left(),
                ctx.spec_restrict_to(),
            ) {
                Ok((m, n, c)) => r == Ok::<Canonicity, DecodeError>(c) && *final(self) == m
                    && bytes_contents(*final(buf)) == bytes_contents(*old(buf)).skip(n as int),
                Err(k) => r matches Err(e) && e.spec_kind() == k,
            },
    ;
}

/// What decoding the fields in `input` into `msg` in distinguished mode gives: the message and
/// the least canonicity of its fields, starting from `found`. Each field's key is read, the
/// message decodes the field's value, and the canonicity so far must meet the restriction; the
/// first error ends decoding.
pub open spec fn merge_distinguished_outcome<T: RawDistinguishedMessageDecoder>(
    msg: T,
    last: Option<u32>,
    input: Seq<u8>,
    depth: u32,
    restrict_to: Canonicity,
    found: Canonicity,
) -> Result<(T, Canonicity), DecodeErrorKind>
    decreases input.len(),
{
    if input.len() == 0 {
        Ok((msg, found))
    } else {
        match varint_decode(input) {
            Err(k) => Err(k),
            Ok((key, n)) => {
                if tag_base(last) + key / 4 > u32::MAX {
                    Err(DecodeErrorKind::TagOverflowed)
                } else {
                    let tag = (tag_base(last) + key / 4) as u32;
                    let rest = input.skip(n as int);
                    let duplicated = last == Some(tag);
                    match msg.field_decoding_distinguished(
                        tag,
                        key_wire_type(key),
                        duplicated,
                        rest,
                        depth,
                        restrict_to,
                    ) {
                        Err(k) => Err(k),
                        Ok((next, used, c)) => {
                            match restriction_outcome(restrict_to, least_canonicity(found, c)) {
                                Err(k) => Err(k),
                                Ok(so_far) => {
                                    proof {
                                        crate::varint::lemma_varint_decode_extent(input);
                                        msg.lemma_field_decoding_distinguished_within(
                                            tag,
                                            key_wire_type(key),
                                            duplicated,
                                            rest,
                                            depth,
                                            restrict_to,
                                        );
                                    }
                                    merge_distinguished_outcome(
                                        next,
                                        Some(tag),
                                        rest.skip(used as int),
                                        depth,
                                        restrict_to,
                                        so_far,
                                    )
                                },
                            }
                        },
                    }
                }
            },
        }
    }
}

/// Decodes fields from the buffer into the message in distinguished mode until the buffer is
/// used up, returning the least canonicity of the fields.
pub fn merge_distinguished<T: RawDistinguishedMessageDecoder>(
    value: &mut T,
    buf: &mut Bytes,
    ctx: RestrictedDecodeContext,
) -> (r: Result<Canonicity, DecodeError>)
    ensures
        read_from_front(bytes_contents(*old(buf)), bytes_contents(*final(buf))),
        match merge_distinguished_outcome(
            *old(value),
            None,
            bytes_contents(*old(buf)),
            ctx.spec_context().depth_left(),
            ctx.spec_restrict_to(),
            Canonicity::Canonical,
        ) {
            Ok((m, c)) => r == Ok::<Canonicity, DecodeError>(c) && *final(value) == m
                && bytes_contents(*final(buf)).len() == 0,
            Err(k) => r matches Err(e) && e.spec_kind() == k,
        },
{
    let mut reader = TagReader::new();
    let mut last: Option<u32> = None;
    let mut canon = Canonicity::Canonical;
    proof {
        assert(bytes_contents(*buf).skip(0) =~= bytes_contents(*buf));
    }
    while bytes_as_slice(buf).len() > 0
        invariant
            read_from_front(bytes_contents(*old(buf)), bytes_contents(*buf)),
            reader.spec_last_tag() == tag_base(last),
            merge_distinguished_outcome(
                *old(value),
                None,
                bytes_contents(*old(buf)),
                ctx.spec_context().depth_left(),
                ctx.spec_restrict_to(),
                Canonicity::Canonical,
            ) == merge_distinguished_outcome(
                *value,
                last,
                bytes_contents(*buf),
                ctx.spec_context().depth_left(),
                ctx.spec_restrict_to(),
                canon,
            ),
        decreases bytes_contents(*buf).len(),
    {
        let ghost before = bytes_contents(*buf);
        let ghost before_last = last;
        let key_result = reader.decode_key(buf);
        proof {
            if varint_decode(before) is Ok {
                crate::varint::lemma_varint_decode_extent(before);
            }
            assert(bytes_contents(*buf) =~= bytes_contents(*old(buf)).skip(
                bytes_contents(*old(buf)).len() - bytes_contents(*buf).len(),
            ));
        }
        let (tag, wire_type) = match key_result {
            Ok(key) => key,
            Err(e) => return Err(e),
        };
        let duplicated = match last {
            Some(t) => t == tag,
            None => false,
        };
        last = Some(tag);
        let result = value.raw_decode_field_distinguished(tag, wire_type, duplicated, buf, ctx);
        proof {
            assert(bytes_contents(*buf) =~= bytes_contents(*old(buf)).skip(
                bytes_contents(*old(buf)).len() - bytes_contents(*buf).len(),
            ));
            assert(duplicated == (before_last == Some(tag)));
        }
        let field_canon = match result {
            Ok(c) => c,
            Err(e) => return Err(e),
        };
        canon.update(field_canon);
        canon = match ctx.check(canon) {
            Ok(c) => c,
            Err(e) => return Err(e),
        };
    }
    Ok(canon)
}

/// Distinguished decoding of a message's fields from a slice, possibly borrowing from it;
/// usually derived.
pub trait RawDistinguishedMessageBorrowDecoder<'a>: RawMessage {
    /// What decoding the value of the field with the given tag and wire type from the front of
    /// `input` does to the message in distinguished mode.
    spec fn field_borrow_decoding_distinguished(
        &self,
        tag: u32,
        wire_type: WireType,
        duplicated: bool,
        input: Seq<u8>,
        depth: u32,
        restrict_to: Canonicity,
    ) -> Result<(Self, nat, Canonicity), DecodeErrorKind>;

    /// A field value is read from within the input.
    proof fn lemma_field_borrow_decoding_distinguished_within(
        &self,
        tag: u32,
        wire_type: WireType,
        duplicated: bool,
        input: Seq<u8>,
        depth: u32,
        restrict_to: Canonicity,
    )
        ensures
            self.field_borrow_decoding_distinguished(
                tag,
                wire_type,
                duplicated,
                input,
                depth,
                restrict_to,
            ) matches Ok((_, n, _)) ==> n <= input.len(),
    ;

    /// Decodes the value of the field with the given tag and wire type from the front of the
    /// slice in distinguished mode, returning how canonical it was.
    fn raw_borrow_decode_field_distinguished(
        &mut self,
        tag: u32,
        wire_type: WireType,
        duplicated: bool,
        buf: &mut &'a [u8],
        ctx: RestrictedDecodeContext,
    ) -> (r: Result<Canonicity, DecodeError>)
        ensures
            read_from_front((*old(buf))@, (*final(buf))@),
            match old(self).field_borrow_decoding_distinguished(
                tag,
                wire_type,
                duplicated,
                (*old(buf))@,
                ctx.spec_context().depth_left(),
                ctx.spec_restrict_to(),
            ) {
                Ok((m, n, c)) => r == Ok::<Canonicity, DecodeError>(c) && *final(self) == m
                    && (*final(buf))@ == (*old(buf))@.skip(n as int),
                Err(k) => r matches Err(e) && e.spec_kind() == k,
            },
    ;
}

/// What decoding the fields in `input` into `msg` from a slice in distinguished mode gives; as
/// `merge_distinguished_outcome`, with the message's borrowing field decoding.
pub open spec fn borrow_merge_distinguished_outcome<'a, T: RawDistinguishedMessageBorrowDecoder<'a>>(
    msg: T,
    last: Option<u32>,
    input: Seq<u8>,
    depth: u32,
    restrict_to: Canonicity,
    found: Canonicity,
) -> Result<(T, Canonicity), DecodeErrorKind>
    decreases input.len(),
{
    if input.len() == 0 {
        Ok((msg, found))
    } else {
        match varint_decode(input) {
            Err(k) => Err(k),
            Ok((key, n)) => {
                if tag_base(last) + key / 4 > u32::MAX {
                    Err(DecodeErrorKind::TagOverflowed)
                } else {
                    let tag = (tag_base(last) + key / 4) as u32;
                    let rest = input.skip(n as int);
                    let duplicated = last == Some(tag);
                    match msg.field_borrow_decoding_distinguished(
                        tag,
                        key_wire_type(key),
                        duplicated,
                        rest,
                        depth,
                        restrict_to,
                    ) {
                        Err(k) => Err(k),
                        Ok((next, used, c)) => {
                            match restriction_outcome(restrict_to, least_canonicity(found, c)) {
                                Err(k) => Err(k),
                                Ok(so_far) => {
                                    proof {
                                        crate::varint::lemma_varint_decode_extent(input);
                                        msg.lemma_field_borrow_decoding_distinguished_within(
                                            tag,
                                            key_wire_type(key),
                                            duplicated,
                                            rest,
                                            depth,
                                            restrict_to,
                                        );
                                    }
                                    borrow_merge_distinguished_outcome(
                                        next,
                                        Some(tag),
                                        rest.skip(used as int),
                                        depth,
                                        restrict_to,
                                        so_far,
                                    )
                                },
                            }
                        },
                    }
                }
            },
        }
    }
}

/// Decodes fields from the slice into the message in distinguished mode until the slice is used
/// up, returning the least canonicity of the fields.
pub fn borrow_merge_distinguished<'a, T: RawDistinguishedMessageBorrowDecoder<'a>>(
    value: &mut T,
    buf: &mut &'a [u8],
    ctx: RestrictedDecodeContext,
) -> (r: Result<Canonicity, DecodeError>)
    ensures
        read_from_front((*old(buf))@, (*final(buf))@),
        match borrow_merge_distinguished_outcome(
            *old(value),
            None,
            (*old(buf))@,
            ctx.spec_context().depth_left(),
            ctx.spec_restrict_to(),
            Canonicity::Canonical,
        ) {
            Ok((m, c)) => r == Ok::<Canonicity, DecodeError>(c) && *final(value) == m
                && (*final(buf))@.len() == 0,
            Err(k) => r matches Err(e) && e.spec_kind() == k,
        },
{
    let mut reader = TagReader::new();
    let mut last: Option<u32> = None;
    let mut canon = Canonicity::Canonical;
    proof {
        assert((*buf)@.skip(0) =~= (*buf)@);
    }
    while buf.len() > 0
        invariant
            read_from_front((*old(buf))@, (*buf)@),
            reader.spec_last_tag() == tag_base(last),
            borrow_merge_distinguished_outcome(
                *old(value),
                None,
                (*old(buf))@,
                ctx.spec_context().depth_left(),
                ctx.spec_restrict_to(),
                Canonicity::Canonical,
            ) == borrow_merge_distinguished_outcome(
                *value,
                last,
                (*buf)@,
                ctx.spec_context().depth_left(),
                ctx.spec_restrict_to(),
                canon,
            ),
        decreases (*buf)@.len(),
    {
        let ghost before = (*buf)@;
        let ghost before_last = last;
        let key_result = reader.decode_key_in_slice(buf);
        proof {
            if varint_decode(before) is Ok {
                crate::varint::lemma_varint_decode_extent(before);
            }
            assert((*buf)@ =~= (*old(buf))@.skip((*old(buf))@.len() - (*buf)@.len()));
        }
        let (tag, wire_type) = match key_result {
            Ok(key) => key,
            Err(e) => return Err(e),
        };
        let duplicated = match last {
            Some(t) => t == tag,
            None => false,
        };
        last = Some(tag);
        let result = value.raw_borrow_decode_field_distinguished(
            tag,
            wire_type,
            duplicated,
            buf,
            ctx,
        );
        proof {
            assert((*buf)@ =~= (*old(buf))@.skip((*old(buf))@.len() - (*buf)@.len()));
            assert(duplicated == (before_last == Some(tag)));
        }
        let field_canon = match result {
            Ok(c) => c,
            Err(e) => return Err(e),
        };
        canon.update(field_canon);
        canon = match ctx.check(canon) {
            Ok(c) => c,
            Err(e) => return Err(e),
        };
    }
    Ok(canon)
}

/// Distinguished decoding that succeeds meets its restriction: starting from a canonicity that
/// meets it, the canonicity it returns meets it too.
pub proof fn lemma_distinguished_outcome_meets_restriction<T: RawDistinguishedMessageDecoder>(
    msg: T,
    last: Option<u32>,
    input: Seq<u8>,
    depth: u32,
    restrict_to: Canonicity,
    found: Canonicity,
)
    requires
        canonicity_rank(found) >= canonicity_rank(restrict_to),
    ensures
        merge_distinguished_outcome(msg, last, input, depth, restrict_to, found) matches Ok(
            (_, c),
        ) ==> canonicity_rank(c) >= canonicity_rank(restrict_to) && canonicity_rank(c)
            <= canonicity_rank(found),
    decreases input.len(),
{
    if input.len() > 0 {
        if let Ok((key, n)) = varint_decode(input) {
            if tag_base(last) + key / 4 <= u32::MAX {
                let tag = (tag_base(last) + key / 4) as u32;
                let rest = input.skip(n as int);
                let duplicated = last == Some(tag);
                if let Ok((next, used, c)) = msg.field_decoding_distinguished(
                    tag,
                    key_wire_type(key),
                    duplicated,
                    rest,
                    depth,
                    restrict_to,
                ) {
                    if let Ok(so_far) = restriction_outcome(
                        restrict_to,
                        least_canonicity(found, c),
                    ) {
                        crate::varint::lemma_varint_decode_extent(input);
                        msg.lemma_field_decoding_distinguished_within(
                            tag,
                            key_wire_type(key),
                            duplicated,
                            rest,
                            depth,
                            restrict_to,
                        );
                        lemma_distinguished_outcome_meets_restriction(
                            next,
                            Some(tag),
                            rest.skip(used as int),
                            depth,
                            restrict_to,
                            so_far,
                        );
                    }
                }
            }
        }
    }
}

/// Distinguished decoding from a slice that succeeds meets its restriction, as
/// `lemma_distinguished_outcome_meets_restriction` says of decoding from a buffer.
pub proof fn lemma_borrowed_distinguished_outcome_meets_restriction<
    'a,
    T: RawDistinguishedMessageBorrowDecoder<'a>,
>(
    msg: T,
    last: Option<u32>,
    input: Seq<u8>,
    depth: u32,
    restrict_to: Canonicity,
    found: Canonicity,
)
    requires
        canonicity_rank(found) >= canonicity_rank(restrict_to),
    ensures
        borrow_merge_distinguished_outcome(msg, last, input, depth, restrict_to, found) matches Ok(
            (_, c),
        ) ==> canonicity_rank(c) >= canonicity_rank(restrict_to) && canonicity_rank(c)
            <= canonicity_rank(found),
    decreases input.len(),
{
    if input.len() > 0 {
        if let Ok((key, n)) = varint_decode(input) {
            if tag_base(last) + key / 4 <= u32::MAX {
                let tag = (tag_base(last) + key / 4) as u32;
                let rest = input.skip(n as int);
                let duplicated = last == Some(tag);
                if let Ok((next, used, c)) = msg.field_borrow_decoding_distinguished(
                    tag,
                    key_wire_type(key),
                    duplicated,
                    rest,
                    depth,
                    restrict_to,
                ) {
                    if let Ok(so_far) = restriction_outcome(
                        restrict_to,
                        least_canonicity(found, c),
                    ) {
                        crate::varint::lemma_varint_decode_extent(input);
                        msg.lemma_field_borrow_decoding_distinguished_within(
                            tag,
                            key_wire_type(key),
                            duplicated,
                            rest,
                            depth,
                            restrict_to,
                        );
                        lemma_borrowed_distinguished_outcome_meets_restriction(
                            next,
                            Some(tag),
                            rest.skip(used as int),
                            depth,
                            restrict_to,
                            so_far,
                        );
                    }
                }
            }
        }
    }
}

/// A key that a `TagWriter` writes is read back by a `TagReader` that is at the same tag: the
/// same tag and wire type come out, and the rest of the input is left.
pub proof fn lemma_key_roundtrip(last_tag: u32, tag: u32, wire_type: WireType, rest: Seq<u8>)
    requires
        last_tag <= tag,
    ensures
        ({
            let key = field_key((tag - last_tag) as u32, wire_type);
            &&& varint_decode(varint_encoding(key) + rest) == Ok::<(u64, nat), DecodeErrorKind>(
                (key, varint_encoding(key).len()),
            )
            &&& last_tag + key / 4 == tag
            &&& key_wire_type(key) == wire_type
        }),
{
    let key = field_key((tag - last_tag) as u32, wire_type);
    crate::varint::lemma_varint_roundtrip(key, rest);
}

/// Combining two canonicities gives the lesser of the two: its rank is the smaller rank, and it
/// is one of them; a canonicity is determined by its rank.
pub proof fn lemma_least_canonicity(a: Canonicity, b: Canonicity)
    ensures
        canonicity_rank(least_canonicity(a, b)) == vstd::math::min(
            canonicity_rank(a) as int,
            canonicity_rank(b) as int,
        ),
        least_canonicity(a, b) == a || least_canonicity(a, b) == b,
        least_canonicity(a, b) == least_canonicity(b, a),
        canonicity_rank(a) == canonicity_rank(b) ==> a == b,
{
}

/// Field values of each wire type are skipped in full: a varint by its encoding, a fixed-size
/// value by its four or eight bytes, and a length-delimited value by its delimiter and exactly as
/// many bytes as the delimiter says, whatever follows; a length-delimited value with fewer bytes
/// than its delimiter says, or a fixed-size value with fewer bytes than its size, is `Truncated`.
pub proof fn lemma_field_value_extents(v: u64, len: u64, body: Seq<u8>, tail: Seq<u8>)
    ensures
        field_value_extent(WireType::Varint, varint_encoding(v) + tail) == Ok::<
            nat,
            DecodeErrorKind,
        >(varint_encoding(v).len()),
        body.len() == len ==> field_value_extent(
            WireType::LengthDelimited,
            varint_encoding(len) + body + tail,
        ) == Ok::<nat, DecodeErrorKind>((varint_encoding(len).len() + len) as nat),
        body.len() < len ==> field_value_extent(
            WireType::LengthDelimited,
            varint_encoding(len) + body,
        ) == Err::<nat, DecodeErrorKind>(DecodeErrorKind::Truncated),
        body.len() == 4 ==> field_value_extent(WireType::ThirtyTwoBit, body + tail) == Ok::<
            nat,
            DecodeErrorKind,
        >(4),
        body.len() < 4 ==> field_value_extent(WireType::ThirtyTwoBit, body) == Err::<
            nat,
            DecodeErrorKind,
        >(DecodeErrorKind::Truncated),
        body.len() == 8 ==> field_value_extent(WireType::SixtyFourBit, body + tail) == Ok::<
            nat,
            DecodeErrorKind,
        >(8),
        body.len() < 8 ==> field_value_extent(WireType::SixtyFourBit, body) == Err::<
            nat,
            DecodeErrorKind,
        >(DecodeErrorKind::Truncated),
{
    crate::varint::lemma_varint_roundtrip(v, tail);
    crate::varint::lemma_varint_roundtrip(len, body + tail);
    crate::varint::lemma_varint_roundtrip(len, body);
    assert(varint_encoding(len) + body + tail =~= varint_encoding(len) + (body + tail));
}

/// Distinguished decoding ends no more canonical than it started, and no more canonical than the
/// first field it decodes: a field that is not canonical makes the whole decoding not canonical.
pub proof fn lemma_distinguished_outcome_at_most<T: RawDistinguishedMessageDecoder>(
    msg: T,
    last: Option<u32>,
    input: Seq<u8>,
    depth: u32,
    restrict_to: Canonicity,
    found: Canonicity,
)
    ensures
        merge_distinguished_outcome(msg, last, input, depth, restrict_to, found) matches Ok(
            (_, c),
        ) ==> canonicity_rank(c) <= canonicity_rank(found),
        input.len() > 0 ==> (merge_distinguished_outcome(
            msg,
            last,
            input,
            depth,
            restrict_to,
            found,
        ) matches Ok((_, c)) ==> (varint_decode(input) matches Ok((key, n)) && msg.field_decoding_distinguished(
            (tag_base(last) + key / 4) as u32,
            key_wire_type(key),
            last == Some((tag_base(last) + key / 4) as u32),
            input.skip(n as int),
            depth,
            restrict_to,
        ) matches Ok((_, _, c1)) && canonicity_rank(c) <= canonicity_rank(c1))),
    decreases input.len(),
{
    if input.len() > 0 {
        if let Ok((key, n)) = varint_decode(input) {
            if tag_base(last) + key / 4 <= u32::MAX {
                let tag = (tag_base(last) + key / 4) as u32;
                let rest = input.skip(n as int);
                let duplicated = last == Some(tag);
                if let Ok((next, used, c)) = msg.field_decoding_distinguished(
                    tag,
                    key_wire_type(key),
                    duplicated,
                    rest,
                    depth,
                    restrict_to,
                ) {
                    lemma_least_canonicity(found, c);
                    if let Ok(so_far) = restriction_outcome(
                        restrict_to,
                        least_canonicity(found, c),
                    ) {
                        crate::varint::lemma_varint_decode_extent(input);
                        msg.lemma_field_decoding_distinguished_within(
                            tag,
                            key_wire_type(key),
                            duplicated,
                            rest,
                            depth,
                            restrict_to,
                        );
                        lemma_distinguished_outcome_at_most(
                            next,
                            Some(tag),
                            rest.skip(used as int),
                            depth,
                            restrict_to,
                            so_far,
                        );
                    }
                }
            }
        }
    }
}

} // verus!
