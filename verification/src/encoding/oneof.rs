//! Oneofs: groups of mutually exclusive fields, of which a message holds at most one.
//!
//! `Oneof` values can be represented in messages because they have an "empty" state (typically a
//! dedicated empty enum variant or `Option::None`). A oneof without an empty variant implements
//! `NonEmptyOneof` instead and is wrapped in `Option`, which supplies the empty state and is
//! responsible for detecting fields that collide and for attaching the field's name to errors.
//! Both kinds can also be boxed.
use crate::buf::ReverseBuf;
use crate::byte_bufs::{bytes_contents, bytes_mut_contents};
use crate::encoding::encoding_traits::{
    occurrences_encoding, occurrences_prepended, pending_after, tag_after,
};
use crate::encoding::{
    Canonicity, DecodeContext, RestrictedDecodeContext, TagMeasurer, TagRevWriter, TagWriter,
    WireType,
};
use crate::error::{DecodeError, DecodeErrorKind, FieldName, max_error_path};
use bytes::{Bytes, BytesMut};
use vstd::prelude::*;

verus! {

/// The kind of error when a field of a oneof arrives while the oneof already holds the field
/// `current`: the same field again is a repetition, another field a conflict.
pub open spec fn collision_kind(current: u32, tag: u32) -> DecodeErrorKind {
    if current == tag {
        DecodeErrorKind::UnexpectedlyRepeated
    } else {
        DecodeErrorKind::ConflictingFields
    }
}

/// A oneof that has an empty state.
pub trait Oneof: Sized {
    /// The tags of the oneof's fields.
    const FIELD_TAGS: &'static [u32];

    /// The tag of the field the oneof holds, if any.
    spec fn spec_current_tag(&self) -> Option<u32>;

    /// The (oneof name, field name) of the field with the given tag.
    spec fn spec_variant_name(tag: u32) -> (&'static str, &'static str);

    /// Returns a new empty oneof.
    fn empty() -> (r: Self)
        ensures
            r.spec_current_tag() is None,
    ;

    /// Returns whether the oneof is empty.
    fn is_empty(&self) -> (r: bool)
        ensures
            r == self.spec_current_tag() is None,
    ;

    /// Resets the oneof to empty.
    fn clear(&mut self)
        ensures
            final(self).spec_current_tag() is None,
    ;

    /// The occurrences that the field the oneof holds encodes to: none when the oneof is empty.
    spec fn oneof_occurrences(&self) -> Seq<(WireType, Seq<u8>)>;

    /// Encodes the field the oneof holds, if any, at the end of the buffer.
    fn oneof_encode(&self, buf: &mut BytesMut, tw: &mut TagWriter)
        requires
            self.spec_current_tag() matches Some(t) ==> old(tw).spec_last_tag() <= t
                && bytes_mut_contents(*old(buf)).len() + occurrences_encoding(
                old(tw).spec_last_tag(),
                t,
                self.oneof_occurrences(),
            ).len() <= isize::MAX,
        ensures
            match self.spec_current_tag() {
                Some(t) => bytes_mut_contents(*final(buf)) == bytes_mut_contents(*old(buf))
                    + occurrences_encoding(old(tw).spec_last_tag(), t, self.oneof_occurrences())
                    && final(tw).spec_last_tag() == tag_after(
                    old(tw).spec_last_tag(),
                    t,
                    self.oneof_occurrences(),
                ),
                None => bytes_mut_contents(*final(buf)) == bytes_mut_contents(*old(buf))
                    && *final(tw) == *old(tw),
            },
    ;

    /// Prepends the field the oneof holds, if any, to the buffer.
    fn oneof_prepend<B: ReverseBuf>(&self, buf: &mut B, tw: &mut TagRevWriter)
        requires
            old(buf).is_valid(),
            self.spec_current_tag() matches Some(t) ==> (old(tw).spec_pending() matches Some(
                (p, _),
            ) ==> t <= p) && occurrences_prepended(
                old(tw).spec_pending(),
                t,
                self.oneof_occurrences(),
            ).len() <= old(buf).writable(),
        ensures
            final(buf).is_valid(),
            match self.spec_current_tag() {
                Some(t) => final(buf).contents() == occurrences_prepended(
                    old(tw).spec_pending(),
                    t,
                    self.oneof_occurrences(),
                ) + old(buf).contents() && final(buf).writable() == old(buf).writable()
                    - occurrences_prepended(
                    old(tw).spec_pending(),
                    t,
                    self.oneof_occurrences(),
                ).len() && final(tw).spec_pending() == pending_after(
                    old(tw).spec_pending(),
                    t,
                    self.oneof_occurrences(),
                ),
                None => final(buf).contents() == old(buf).contents() && final(buf).writable()
                    == old(buf).writable() && *final(tw) == *old(tw),
            },
    ;

    /// Returns the number of bytes that the field the oneof holds encodes to, keys included.
    fn oneof_encoded_len(&self, tm: &mut TagMeasurer) -> (r: usize)
        requires
            self.spec_current_tag() matches Some(t) ==> old(tm).spec_last_tag() <= t
                && occurrences_encoding(
                old(tm).spec_last_tag(),
                t,
                self.oneof_occurrences(),
            ).len() <= usize::MAX,
        ensures
            match self.spec_current_tag() {
                Some(t) => r == occurrences_encoding(
                    old(tm).spec_last_tag(),
                    t,
                    self.oneof_occurrences(),
                ).len() && final(tm).spec_last_tag() == tag_after(
                    old(tm).spec_last_tag(),
                    t,
                    self.oneof_occurrences(),
                ),
                None => r == 0 && *final(tm) == *old(tm),
            },
    ;

    /// Returns the tag of the field the oneof holds, if any.
    fn oneof_current_tag(&self) -> (r: Option<u32>)
        ensures
            r == self.spec_current_tag(),
    ;

    /// Returns the diagnostic name of the field with the given tag: the name of the oneof, then
    /// the name of the field.
    fn oneof_variant_name(tag: u32) -> (r: (&'static str, &'static str))
        ensures
            r == Self::spec_variant_name(tag),
    ;
}

/// The error-path entry naming the field with the given tag of the non-empty oneof `T`.
pub open spec fn nonempty_variant_field<T: NonEmptyOneof>(tag: u32) -> FieldName {
    FieldName { message: T::spec_variant_name(tag).0, field: T::spec_variant_name(tag).1 }
}

/// Relaxed owned decoding of oneofs.
pub trait OneofDecoder: Oneof {
    /// What decoding the field with the given tag from the front of `input` into the oneof
    /// gives: the oneof afterwards and how many bytes the field's value took, or the kind of
    /// error.
    spec fn oneof_decoding(&self, tag: u32, wire_type: WireType, input: Seq<u8>, depth: u32) -> Result<
        (Self, nat),
        DecodeErrorKind,
    >;

    /// Decodes the field with the given tag into the oneof.
    fn oneof_decode_field(
        value: &mut Self,
        tag: u32,
        wire_type: WireType,
        buf: &mut Bytes,
        ctx: DecodeContext,
    ) -> (r: Result<(), DecodeError>)
        ensures
            r is Ok ==> final(value).spec_current_tag() == Some(tag),
            match old(value).oneof_decoding(
                tag,
                wire_type,
                bytes_contents(*old(buf)),
                ctx.depth_left(),
            ) {
                Ok((v, n)) => r is Ok && *final(value) == v && bytes_contents(*final(buf))
                    == bytes_contents(*old(buf)).skip(n as int),
                Err(k) => r matches Err(e) && e.spec_kind() == k,
            },
    ;
}

/// Distinguished owned decoding of oneofs.
pub trait DistinguishedOneofDecoder: Oneof {
    /// What decoding the field with the given tag from the front of `input` into the oneof in
    /// distinguished mode gives: the oneof afterwards, how many bytes the field's value took and
    /// how canonical they were, or the kind of error.
    spec fn oneof_decoding_distinguished(
        &self,
        tag: u32,
        wire_type: WireType,
        input: Seq<u8>,
        depth: u32,
        restrict_to: Canonicity,
    ) -> Result<(Self, nat, Canonicity), DecodeErrorKind>;

    /// Decodes the field with the given tag into the oneof in distinguished mode.
    fn oneof_decode_field_distinguished(
        value: &mut Self,
        tag: u32,
        wire_type: WireType,
        buf: &mut Bytes,
        ctx: RestrictedDecodeContext,
    ) -> (r: Result<Canonicity, DecodeError>)
        ensures
            r is Ok ==> final(value).spec_current_tag() == Some(tag),
            match old(value).oneof_decoding_distinguished(
                tag,
                wire_type,
                bytes_contents(*old(buf)),
                ctx.spec_context().depth_left(),
                ctx.spec_restrict_to(),
            ) {
                Ok((v, n, c)) => r == Ok::<Canonicity, DecodeError>(c) && *final(value) == v
                    && bytes_contents(*final(buf)) == bytes_contents(*old(buf)).skip(n as int),
                Err(k) => r matches Err(e) && e.spec_kind() == k,
            },
    ;
}

/// Relaxed borrowed decoding of oneofs.
pub trait OneofBorrowDecoder<'a>: Oneof {
    /// What decoding the field with the given tag from the front of the slice `input` into the
    /// oneof gives: the oneof afterwards and how many bytes the field's value took, or the kind
    /// of error.
    spec fn oneof_borrow_decoding(
        &self,
        tag: u32,
        wire_type: WireType,
        input: Seq<u8>,
        depth: u32,
    ) -> Result<(Self, nat), DecodeErrorKind>;

    /// Decodes the field with the given tag into the oneof, borrowing from the input.
    fn oneof_borrow_decode_field(
        value: &mut Self,
        tag: u32,
        wire_type: WireType,
        buf: &mut &'a [u8],
        ctx: DecodeContext,
    ) -> (r: Result<(), DecodeError>)
        ensures
            r is Ok ==> final(value).spec_current_tag() == Some(tag),
            match old(value).oneof_borrow_decoding(
                tag,
                wire_type,
                (*old(buf))@,
                ctx.depth_left(),
            ) {
                Ok((v, n)) => r is Ok && *final(value) == v && (*final(buf))@ == (*old(
                    buf,
                ))@.skip(n as int),
                Err(k) => r matches Err(e) && e.spec_kind() == k,
            },
    ;
}

/// Distinguished borrowed decoding of oneofs.
pub trait DistinguishedOneofBorrowDecoder<'a>: Oneof {
    /// What decoding the field with the given tag from the front of the slice `input` into the
    /// oneof in distinguished mode gives.
    spec fn oneof_borrow_decoding_distinguished(
        &self,
        tag: u32,
        wire_type: WireType,
        input: Seq<u8>,
        depth: u32,
        restrict_to: Canonicity,
    ) -> Result<(Self, nat, Canonicity), DecodeErrorKind>;

    /// Decodes the field with the given tag into the oneof in distinguished mode, borrowing from
    /// the input.
    fn oneof_borrow_decode_field_distinguished(
        value: &mut Self,
        tag: u32,
        wire_type: WireType,
        buf: &mut &'a [u8],
        ctx: RestrictedDecodeContext,
    ) -> (r: Result<Canonicity, DecodeError>)
        ensures
            r is Ok ==> final(value).spec_current_tag() == Some(tag),
            match old(value).oneof_borrow_decoding_distinguished(
                tag,
                wire_type,
                (*old(buf))@,
                ctx.spec_context().depth_left(),
                ctx.spec_restrict_to(),
            ) {
                Ok((v, n, c)) => r == Ok::<Canonicity, DecodeError>(c) && *final(value) == v
                    && (*final(buf))@ == (*old(buf))@.skip(n as int),
                Err(k) => r matches Err(e) && e.spec_kind() == k,
            },
    ;
}

/// A oneof without an empty state; `Option` of it is a `Oneof`.
pub trait NonEmptyOneof: Sized {
    /// The tags of the oneof's fields.
    const FIELD_TAGS: &'static [u32];

    /// The tag of the field the oneof holds.
    spec fn spec_current_tag(&self) -> u32;

    /// The (oneof name, field name) of the field with the given tag.
    spec fn spec_variant_name(tag: u32) -> (&'static str, &'static str);

    /// The occurrences that the field the oneof holds encodes to.
    spec fn oneof_occurrences(&self) -> Seq<(WireType, Seq<u8>)>;

    /// Encodes the field the oneof holds at the end of the buffer.
    fn oneof_encode(&self, buf: &mut BytesMut, tw: &mut TagWriter)
        requires
            old(tw).spec_last_tag() <= self.spec_current_tag(),
            bytes_mut_contents(*old(buf)).len() + occurrences_encoding(
                old(tw).spec_last_tag(),
                self.spec_current_tag(),
                self.oneof_occurrences(),
            ).len() <= isize::MAX,
        ensures
            bytes_mut_contents(*final(buf)) == bytes_mut_contents(*old(buf)) + occurrences_encoding(
                old(tw).spec_last_tag(),
                self.spec_current_tag(),
                self.oneof_occurrences(),
            ),
            final(tw).spec_last_tag() == tag_after(
                old(tw).spec_last_tag(),
                self.spec_current_tag(),
                self.oneof_occurrences(),
            ),
    ;

    /// Prepends the field the oneof holds to the buffer.
    fn oneof_prepend<B: ReverseBuf>(&self, buf: &mut B, tw: &mut TagRevWriter)
        requires
            old(buf).is_valid(),
            old(tw).spec_pending() matches Some((p, _)) ==> self.spec_current_tag() <= p,
            occurrences_prepended(
                old(tw).spec_pending(),
                self.spec_current_tag(),
                self.oneof_occurrences(),
            ).len() <= old(buf).writable(),
        ensures
            final(buf).is_valid(),
            final(buf).contents() == occurrences_prepended(
                old(tw).spec_pending(),
                self.spec_current_tag(),
                self.oneof_occurrences(),
            ) + old(buf).contents(),
            final(buf).writable() == old(buf).writable() - occurrences_prepended(
                old(tw).spec_pending(),
                self.spec_current_tag(),
                self.oneof_occurrences(),
            ).len(),
            final(tw).spec_pending() == pending_after(
                old(tw).spec_pending(),
                self.spec_current_tag(),
                self.oneof_occurrences(),
            ),
    ;

    /// Returns the number of bytes that the field the oneof holds encodes to, keys included.
    fn oneof_encoded_len(&self, tm: &mut TagMeasurer) -> (r: usize)
        requires
            old(tm).spec_last_tag() <= self.spec_current_tag(),
            occurrences_encoding(
                old(tm).spec_last_tag(),
                self.spec_current_tag(),
                self.oneof_occurrences(),
            ).len() <= usize::MAX,
        ensures
            r == occurrences_encoding(
                old(tm).spec_last_tag(),
                self.spec_current_tag(),
                self.oneof_occurrences(),
            ).len(),
            final(tm).spec_last_tag() == tag_after(
                old(tm).spec_last_tag(),
                self.spec_current_tag(),
                self.oneof_occurrences(),
            ),
    ;

    /// Returns the tag of the field the oneof holds.
    fn oneof_current_tag(&self) -> (r: u32)
        ensures
            r == self.spec_current_tag(),
    ;

    /// Returns the diagnostic name of the field with the given tag: the name of the oneof, then
    /// the name of the field.
    fn oneof_variant_name(tag: u32) -> (r: (&'static str, &'static str))
        ensures
            r == Self::spec_variant_name(tag),
    ;
}

/// Relaxed owned decoding of non-empty oneofs. A decoding error carries a path shorter than
/// `max_error_path()`, so that callers can add the field's name.
pub trait NonEmptyOneofDecoder: NonEmptyOneof {
    /// What decoding the field with the given tag from the front of `input` gives: the oneof
    /// holding that field and how many bytes its value took, or the kind of error.
    spec fn oneof_field_decoding(tag: u32, wire_type: WireType, input: Seq<u8>, depth: u32) -> Result<
        (Self, nat),
        DecodeErrorKind,
    >;

    /// The location path of the error that decoding the field with the given tag from the front
    /// of `input` gives, where it fails.
    spec fn oneof_field_error_path(tag: u32, wire_type: WireType, input: Seq<u8>, depth: u32) -> Seq<
        FieldName,
    >;

    /// Decodes the field with the given tag.
    fn oneof_decode_field(
        tag: u32,
        wire_type: WireType,
        buf: &mut Bytes,
        ctx: DecodeContext,
    ) -> (r: Result<Self, DecodeError>)
        ensures
            r matches Ok(v) ==> v.spec_current_tag() == tag,
            r matches Err(e) ==> e.spec_path().len() < max_error_path(),
            match Self::oneof_field_decoding(
                tag,
                wire_type,
                bytes_contents(*old(buf)),
                ctx.depth_left(),
            ) {
                Ok((v, n)) => r == Ok::<Self, DecodeError>(v) && bytes_contents(*final(buf))
                    == bytes_contents(*old(buf)).skip(n as int),
                Err(k) => r matches Err(e) && e.spec_kind() == k && e.spec_path()
                    == Self::oneof_field_error_path(
                    tag,
                    wire_type,
                    bytes_contents(*old(buf)),
                    ctx.depth_left(),
                ),
            },
    ;
}

/// Distinguished owned decoding of non-empty oneofs.
pub trait NonEmptyDistinguishedOneofDecoder: NonEmptyOneof {
    /// What decoding the field with the given tag from the front of `input` in distinguished
    /// mode gives: the oneof holding that field, how many bytes its value took and how canonical
    /// they were, or the kind of error.
    spec fn oneof_field_decoding_distinguished(
        tag: u32,
        wire_type: WireType,
        input: Seq<u8>,
        depth: u32,
        restrict_to: Canonicity,
    ) -> Result<(Self, nat, Canonicity), DecodeErrorKind>;

    /// The location path of the error that decoding the field with the given tag in
    /// distinguished mode gives, where it fails.
    spec fn oneof_field_error_path_distinguished(
        tag: u32,
        wire_type: WireType,
        input: Seq<u8>,
        depth: u32,
        restrict_to: Canonicity,
    ) -> Seq<FieldName>;

    /// Decodes the field with the given tag in distinguished mode.
    fn oneof_decode_field_distinguished(
        tag: u32,
        wire_type: WireType,
        buf: &mut Bytes,
        ctx: RestrictedDecodeContext,
    ) -> (r: Result<(Self, Canonicity), DecodeError>)
        ensures
            r matches Ok((v, _)) ==> v.spec_current_tag() == tag,
            r matches Err(e) ==> e.spec_path().len() < max_error_path(),
            match Self::oneof_field_decoding_distinguished(
                tag,
                wire_type,
                bytes_contents(*old(buf)),
                ctx.spec_context().depth_left(),
                ctx.spec_restrict_to(),
            ) {
                Ok((v, n, c)) => r == Ok::<(Self, Canonicity), DecodeError>((v, c))
                    && bytes_contents(*final(buf)) == bytes_contents(*old(buf)).skip(n as int),
                Err(k) => r matches Err(e) && e.spec_kind() == k && e.spec_path()
                    == Self::oneof_field_error_path_distinguished(
                    tag,
                    wire_type,
                    bytes_contents(*old(buf)),
                    ctx.spec_context().depth_left(),
                    ctx.spec_restrict_to(),
                ),
            },
    ;
}

/// Relaxed borrowed decoding of non-empty oneofs.
pub trait NonEmptyOneofBorrowDecoder<'a>: NonEmptyOneof {
    /// What decoding the field with the given tag from the front of the slice `input` gives:
    /// the oneof holding that field and how many bytes its value took, or the kind of error.
    spec fn oneof_field_borrow_decoding(
        tag: u32,
        wire_type: WireType,
        input: Seq<u8>,
        depth: u32,
    ) -> Result<(Self, nat), DecodeErrorKind>;

    /// The location path of the error that decoding the field with the given tag from the front
    /// of the slice `input` gives, where it fails.
    spec fn oneof_field_borrow_error_path(
        tag: u32,
        wire_type: WireType,
        input: Seq<u8>,
        depth: u32,
    ) -> Seq<FieldName>;

    /// Decodes the field with the given tag, borrowing from the input.
    fn oneof_borrow_decode_field(
        tag: u32,
        wire_type: WireType,
        buf: &mut &'a [u8],
        ctx: DecodeContext,
    ) -> (r: Result<Self, DecodeError>)
        ensures
            r matches Ok(v) ==> v.spec_current_tag() == tag,
            r matches Err(e) ==> e.spec_path().len() < max_error_path(),
            match Self::oneof_field_borrow_decoding(tag, wire_type, (*old(buf))@, ctx.depth_left()) {
                Ok((v, n)) => r == Ok::<Self, DecodeError>(v) && (*final(buf))@ == (*old(
                    buf,
                ))@.skip(n as int),
                Err(k) => r matches Err(e) && e.spec_kind() == k && e.spec_path()
                    == Self::oneof_field_borrow_error_path(
                    tag,
                    wire_type,
                    (*old(buf))@,
                    ctx.depth_left(),
                ),
            },
    ;
}

/// Distinguished borrowed decoding of non-empty oneofs.
pub trait NonEmptyDistinguishedOneofBorrowDecoder<'a>: NonEmptyOneof {
    /// What decoding the field with the given tag from the front of the slice `input` in
    /// distinguished mode gives.
    spec fn oneof_field_borrow_decoding_distinguished(
        tag: u32,
        wire_type: WireType,
        input: Seq<u8>,
        depth: u32,
        restrict_to: Canonicity,
    ) -> Result<(Self, nat, Canonicity), DecodeErrorKind>;

    /// The location path of the error that decoding the field with the given tag from the front
    /// of the slice `input` in distinguished mode gives, where it fails.
    spec fn oneof_field_borrow_error_path_distinguished(
        tag: u32,
        wire_type: WireType,
        input: Seq<u8>,
        depth: u32,
        restrict_to: Canonicity,
    ) -> Seq<FieldName>;

    /// Decodes the field with the given tag in distinguished mode, borrowing from the input.
    fn oneof_borrow_decode_field_distinguished(
        tag: u32,
        wire_type: WireType,
        buf: &mut &'a [u8],
        ctx: RestrictedDecodeContext,
    ) -> (r: Result<(Self, Canonicity), DecodeError>)
        ensures
            r matches Ok((v, _)) ==> v.spec_current_tag() == tag,
            r matches Err(e) ==> e.spec_path().len() < max_error_path(),
            match Self::oneof_field_borrow_decoding_distinguished(
                tag,
                wire_type,
                (*old(buf))@,
                ctx.spec_context().depth_left(),
                ctx.spec_restrict_to(),
            ) {
                Ok((v, n, c)) => r == Ok::<(Self, Canonicity), DecodeError>((v, c))
                    && (*final(buf))@ == (*old(buf))@.skip(n as int),
                Err(k) => r matches Err(e) && e.spec_kind() == k && e.spec_path()
                    == Self::oneof_field_borrow_error_path_distinguished(
                    tag,
                    wire_type,
                    (*old(buf))@,
                    ctx.spec_context().depth_left(),
                    ctx.spec_restrict_to(),
                ),
            },
    ;
}

impl<T: NonEmptyOneof> Oneof for Option<T> {
    const FIELD_TAGS: &'static [u32] = T::FIELD_TAGS;

    open spec fn spec_current_tag(&self) -> Option<u32> {
        match self {
            Some(v) => Some(v.spec_current_tag()),
            None => None,
        }
    }

    open spec fn spec_variant_name(tag: u32) -> (&'static str, &'static str) {
        T::spec_variant_name(tag)
    }

    open spec fn oneof_occurrences(&self) -> Seq<(WireType, Seq<u8>)> {
        match self {
            Some(v) => v.oneof_occurrences(),
            None => Seq::empty(),
        }
    }

    fn empty() -> (r: Self) {
        None
    }

    fn is_empty(&self) -> (r: bool) {
        self.is_none()
    }

    fn clear(&mut self) {
        *self = None;
    }

    fn oneof_encode(&self, buf: &mut BytesMut, tw: &mut TagWriter) {
        match self {
            Some(v) => v.oneof_encode(buf, tw),
            None => {},
        }
    }

    fn oneof_prepend<B: ReverseBuf>(&self, buf: &mut B, tw: &mut TagRevWriter) {
        match self {
            Some(v) => v.oneof_prepend(buf, tw),
            None => {},
        }
    }

    fn oneof_encoded_len(&self, tm: &mut TagMeasurer) -> (r: usize) {
        match self {
            Some(v) => v.oneof_encoded_len(tm),
            None => 0,
        }
    }

    fn oneof_current_tag(&self) -> (r: Option<u32>) {
        match self {
            Some(v) => Some(v.oneof_current_tag()),
            None => None,
        }
    }

    fn oneof_variant_name(tag: u32) -> (r: (&'static str, &'static str)) {
        T::oneof_variant_name(tag)
    }
}

/// The error for a field that arrives while the oneof already holds `already`, naming the
/// arriving field.
fn collision_error<T: NonEmptyOneof>(already: &T, tag: u32) -> (r: DecodeError)
    ensures
        r.spec_kind() == collision_kind(already.spec_current_tag(), tag),
        r.spec_path() == seq![nonempty_variant_field::<T>(tag)],
{
    let kind = if already.oneof_current_tag() == tag {
        DecodeErrorKind::UnexpectedlyRepeated
    } else {
        DecodeErrorKind::ConflictingFields
    };
    let mut err = DecodeError::new(kind);
    let (message, field) = T::oneof_variant_name(tag);
    err.push(message, field);
    assert(err.spec_path() =~= seq![nonempty_variant_field::<T>(tag)]);
    err
}

/// Places the outcome of decoding the field with the given tag into an empty optional oneof: a
/// decoded value is stored, and an error gets the field's name appended to its path.
pub fn settle_decoded<T: NonEmptyOneof, C>(
    value: &mut Option<T>,
    tag: u32,
    decoded: Result<(T, C), DecodeError>,
) -> (r: Result<C, DecodeError>)
    requires
        decoded matches Err(e) ==> e.spec_path().len() < max_error_path(),
    ensures
        match decoded {
            Ok((v, c)) => r == Ok::<C, DecodeError>(c) && *final(value) == Some(v),
            Err(e) => r matches Err(e2) && e2.spec_kind() == e.spec_kind() && e2.spec_path()
                == e.spec_path().push(nonempty_variant_field::<T>(tag)) && *final(value)
                == *old(value),
        },
{
    match decoded {
        Ok((v, c)) => {
            *value = Some(v);
            Ok(c)
        },
        Err(e) => {
            let mut e = e;
            let (message, field) = T::oneof_variant_name(tag);
            e.push(message, field);
            Err(e)
        },
    }
}

impl<T: NonEmptyOneofDecoder> OneofDecoder for Option<T> {
    open spec fn oneof_decoding(&self, tag: u32, wire_type: WireType, input: Seq<u8>, depth: u32) -> Result<
        (Self, nat),
        DecodeErrorKind,
    > {
        match self {
            Some(a) => Err(collision_kind(a.spec_current_tag(), tag)),
            None => match T::oneof_field_decoding(tag, wire_type, input, depth) {
                Ok((v, n)) => Ok((Some(v), n)),
                Err(k) => Err(k),
            },
        }
    }

    fn oneof_decode_field(
        value: &mut Self,
        tag: u32,
        wire_type: WireType,
        buf: &mut Bytes,
        ctx: DecodeContext,
    ) -> (r: Result<(), DecodeError>)
        ensures
            *old(value) matches Some(a) ==> (r matches Err(e) && e.spec_kind() == collision_kind(
                a.spec_current_tag(),
                tag,
            ) && e.spec_path() == seq![nonempty_variant_field::<T>(tag)] && *final(value) == *old(
                value,
            ) && bytes_contents(*final(buf)) == bytes_contents(*old(buf))),
            *old(value) is None ==> (r matches Err(e) ==> e.spec_path()
                == T::oneof_field_error_path(
                tag,
                wire_type,
                bytes_contents(*old(buf)),
                ctx.depth_left(),
            ).push(nonempty_variant_field::<T>(tag)) && *final(value) is None),
            *old(value) is None ==> match T::oneof_field_decoding(
                tag,
                wire_type,
                bytes_contents(*old(buf)),
                ctx.depth_left(),
            ) {
                Ok((v, n)) => r is Ok && *final(value) == Some(v) && bytes_contents(*final(buf))
                    == bytes_contents(*old(buf)).skip(n as int),
                Err(k) => r matches Err(e) && e.spec_kind() == k,
            },
    {
        match value {
            Some(already) => Err(collision_error(already, tag)),
            None => {
                let decoded = match T::oneof_decode_field(tag, wire_type, buf, ctx) {
                    Ok(v) => Ok((v, ())),
                    Err(e) => Err(e),
                };
                settle_decoded(value, tag, decoded)
            },
        }
    }
}

impl<T: NonEmptyDistinguishedOneofDecoder> DistinguishedOneofDecoder for Option<T> {
    open spec fn oneof_decoding_distinguished(
        &self,
        tag: u32,
        wire_type: WireType,
        input: Seq<u8>,
        depth: u32,
        restrict_to: Canonicity,
    ) -> Result<(Self, nat, Canonicity), DecodeErrorKind> {
        match self {
            Some(a) => Err(collision_kind(a.spec_current_tag(), tag)),
            None => match T::oneof_field_decoding_distinguished(
                tag,
                wire_type,
                input,
                depth,
                restrict_to,
            ) {
                Ok((v, n, c)) => Ok((Some(v), n, c)),
                Err(k) => Err(k),
            },
        }
    }

    fn oneof_decode_field_distinguished(
        value: &mut Self,
        tag: u32,
        wire_type: WireType,
        buf: &mut Bytes,
        ctx: RestrictedDecodeContext,
    ) -> (r: Result<Canonicity, DecodeError>)
        ensures
            *old(value) matches Some(a) ==> (r matches Err(e) && e.spec_kind() == collision_kind(
                a.spec_current_tag(),
                tag,
            ) && e.spec_path() == seq![nonempty_variant_field::<T>(tag)] && *final(value) == *old(
                value,
            ) && bytes_contents(*final(buf)) == bytes_contents(*old(buf))),
            *old(value) is None ==> (r matches Err(e) ==> e.spec_path()
                == T::oneof_field_error_path_distinguished(
                tag,
                wire_type,
                bytes_contents(*old(buf)),
                ctx.spec_context().depth_left(),
                ctx.spec_restrict_to(),
            ).push(nonempty_variant_field::<T>(tag)) && *final(value) is None),
            *old(value) is None ==> match T::oneof_field_decoding_distinguished(
                tag,
                wire_type,
                bytes_contents(*old(buf)),
                ctx.spec_context().depth_left(),
                ctx.spec_restrict_to(),
            ) {
                Ok((v, n, c)) => r == Ok::<Canonicity, DecodeError>(c) && *final(value) == Some(v)
                    && bytes_contents(*final(buf)) == bytes_contents(*old(buf)).skip(n as int),
                Err(k) => r matches Err(e) && e.spec_kind() == k,
            },
    {
        match value {
            Some(already) => Err(collision_error(already, tag)),
            None => {
                let decoded = T::oneof_decode_field_distinguished(tag, wire_type, buf, ctx);
                settle_decoded(value, tag, decoded)
            },
        }
    }
}

impl<'a, T: NonEmptyOneofBorrowDecoder<'a>> OneofBorrowDecoder<'a> for Option<T> {
    open spec fn oneof_borrow_decoding(
        &self,
        tag: u32,
        wire_type: WireType,
        input: Seq<u8>,
        depth: u32,
    ) -> Result<(Self, nat), DecodeErrorKind> {
        match self {
            Some(a) => Err(collision_kind(a.spec_current_tag(), tag)),
            None => match T::oneof_field_borrow_decoding(tag, wire_type, input, depth) {
                Ok((v, n)) => Ok((Some(v), n)),
                Err(k) => Err(k),
            },
        }
    }

    fn oneof_borrow_decode_field(
        value: &mut Self,
        tag: u32,
        wire_type: WireType,
        buf: &mut &'a [u8],
        ctx: DecodeContext,
    ) -> (r: Result<(), DecodeError>)
        ensures
            *old(value) matches Some(a) ==> (r matches Err(e) && e.spec_kind() == collision_kind(
                a.spec_current_tag(),
                tag,
            ) && e.spec_path() == seq![nonempty_variant_field::<T>(tag)] && *final(value) == *old(
                value,
            ) && (*final(buf))@ == (*old(buf))@),
            *old(value) is None ==> (r matches Err(e) ==> e.spec_path()
                == T::oneof_field_borrow_error_path(
                tag,
                wire_type,
                (*old(buf))@,
                ctx.depth_left(),
            ).push(nonempty_variant_field::<T>(tag)) && *final(value) is None),
            *old(value) is None ==> match T::oneof_field_borrow_decoding(
                tag,
                wire_type,
                (*old(buf))@,
                ctx.depth_left(),
            ) {
                Ok((v, n)) => r is Ok && *final(value) == Some(v) && (*final(buf))@ == (*old(
                    buf,
                ))@.skip(n as int),
                Err(k) => r matches Err(e) && e.spec_kind() == k,
            },
    {
        match value {
            Some(already) => Err(collision_error(already, tag)),
            None => {
                let decoded = match T::oneof_borrow_decode_field(tag, wire_type, buf, ctx) {
                    Ok(v) => Ok((v, ())),
                    Err(e) => Err(e),
                };
                settle_decoded(value, tag, decoded)
            },
        }
    }
}

impl<'a, T: NonEmptyDistinguishedOneofBorrowDecoder<'a>> DistinguishedOneofBorrowDecoder<'a> for Option<
    T,
> {
    open spec fn oneof_borrow_decoding_distinguished(
        &self,
        tag: u32,
        wire_type: WireType,
        input: Seq<u8>,
        depth: u32,
        restrict_to: Canonicity,
    ) -> Result<(Self, nat, Canonicity), DecodeErrorKind> {
        match self {
            Some(a) => Err(collision_kind(a.spec_current_tag(), tag)),
            None => match T::oneof_field_borrow_decoding_distinguished(
                tag,
                wire_type,
                input,
                depth,
                restrict_to,
            ) {
                Ok((v, n, c)) => Ok((Some(v), n, c)),
                Err(k) => Err(k),
            },
        }
    }

    fn oneof_borrow_decode_field_distinguished(
        value: &mut Self,
        tag: u32,
        wire_type: WireType,
        buf: &mut &'a [u8],
        ctx: RestrictedDecodeContext,
    ) -> (r: Result<Canonicity, DecodeError>)
        ensures
            *old(value) matches Some(a) ==> (r matches Err(e) && e.spec_kind() == collision_kind(
                a.spec_current_tag(),
                tag,
            ) && e.spec_path() == seq![nonempty_variant_field::<T>(tag)] && *final(value) == *old(
                value,
            ) && (*final(buf))@ == (*old(buf))@),
            *old(value) is None ==> (r matches Err(e) ==> e.spec_path()
                == T::oneof_field_borrow_error_path_distinguished(
                tag,
                wire_type,
                (*old(buf))@,
                ctx.spec_context().depth_left(),
                ctx.spec_restrict_to(),
            ).push(nonempty_variant_field::<T>(tag)) && *final(value) is None),
            *old(value) is None ==> match T::oneof_field_borrow_decoding_distinguished(
                tag,
                wire_type,
                (*old(buf))@,
                ctx.spec_context().depth_left(),
                ctx.spec_restrict_to(),
            ) {
                Ok((v, n, c)) => r == Ok::<Canonicity, DecodeError>(c) && *final(value) == Some(v)
                    && (*final(buf))@ == (*old(buf))@.skip(n as int),
                Err(k) => r matches Err(e) && e.spec_kind() == k,
            },
    {
        match value {
            Some(already) => Err(collision_error(already, tag)),
            None => {
                let decoded = T::oneof_borrow_decode_field_distinguished(tag, wire_type, buf, ctx);
                settle_decoded(value, tag, decoded)
            },
        }
    }
}


/// Decoding a field into an empty optional oneof gives exactly what decoding that field into the
/// inner oneof gives, wrapped in `Some`: the same number of bytes read and, in distinguished mode,
/// the same canonicity; into an optional oneof that already holds a field it fails with a
/// collision.
pub proof fn lemma_optional_oneof_decoding<T: NonEmptyOneofDecoder>(
    held: Option<T>,
    tag: u32,
    wire_type: WireType,
    input: Seq<u8>,
    depth: u32,
)
    ensures
        match T::oneof_field_decoding(tag, wire_type, input, depth) {
            Ok((v, n)) => None::<T>.oneof_decoding(tag, wire_type, input, depth) == Ok::<
                (Option<T>, nat),
                DecodeErrorKind,
            >((Some(v), n)),
            Err(k) => None::<T>.oneof_decoding(tag, wire_type, input, depth) == Err::<
                (Option<T>, nat),
                DecodeErrorKind,
            >(k),
        },
        held matches Some(a) ==> held.oneof_decoding(tag, wire_type, input, depth) == Err::<
            (Option<T>, nat),
            DecodeErrorKind,
        >(collision_kind(a.spec_current_tag(), tag)),
{
}

/// In distinguished mode, decoding a field into an empty optional oneof passes on the inner
/// oneof's outcome, its canonicity included.
pub proof fn lemma_optional_oneof_decoding_distinguished<T: NonEmptyDistinguishedOneofDecoder>(
    held: Option<T>,
    tag: u32,
    wire_type: WireType,
    input: Seq<u8>,
    depth: u32,
    restrict_to: Canonicity,
)
    ensures
        match T::oneof_field_decoding_distinguished(tag, wire_type, input, depth, restrict_to) {
            Ok((v, n, c)) => None::<T>.oneof_decoding_distinguished(
                tag,
                wire_type,
                input,
                depth,
                restrict_to,
            ) == Ok::<(Option<T>, nat, Canonicity), DecodeErrorKind>((Some(v), n, c)),
            Err(k) => None::<T>.oneof_decoding_distinguished(
                tag,
                wire_type,
                input,
                depth,
                restrict_to,
            ) == Err::<(Option<T>, nat, Canonicity), DecodeErrorKind>(k),
        },
        held matches Some(a) ==> held.oneof_decoding_distinguished(
            tag,
            wire_type,
            input,
            depth,
            restrict_to,
        ) == Err::<(Option<T>, nat, Canonicity), DecodeErrorKind>(
            collision_kind(a.spec_current_tag(), tag),
        ),
{
}

/// From slices as from buffers, decoding a field into an empty optional oneof passes on the inner
/// oneof's outcome.
pub proof fn lemma_optional_oneof_borrow_decoding<'a, T: NonEmptyOneofBorrowDecoder<'a>>(
    held: Option<T>,
    tag: u32,
    wire_type: WireType,
    input: Seq<u8>,
    depth: u32,
)
    ensures
        match T::oneof_field_borrow_decoding(tag, wire_type, input, depth) {
            Ok((v, n)) => None::<T>.oneof_borrow_decoding(tag, wire_type, input, depth) == Ok::<
                (Option<T>, nat),
                DecodeErrorKind,
            >((Some(v), n)),
            Err(k) => None::<T>.oneof_borrow_decoding(tag, wire_type, input, depth) == Err::<
                (Option<T>, nat),
                DecodeErrorKind,
            >(k),
        },
        held matches Some(a) ==> held.oneof_borrow_decoding(tag, wire_type, input, depth) == Err::<
            (Option<T>, nat),
            DecodeErrorKind,
        >(collision_kind(a.spec_current_tag(), tag)),
{
}

/// From slices in distinguished mode, decoding a field into an empty optional oneof passes on the
/// inner oneof's outcome, its canonicity included.
pub proof fn lemma_optional_oneof_borrow_decoding_distinguished<
    'a,
    T: NonEmptyDistinguishedOneofBorrowDecoder<'a>,
>(
    held: Option<T>,
    tag: u32,
    wire_type: WireType,
    input: Seq<u8>,
    depth: u32,
    restrict_to: Canonicity,
)
    ensures
        match T::oneof_field_borrow_decoding_distinguished(
            tag,
            wire_type,
            input,
            depth,
            restrict_to,
        ) {
            Ok((v, n, c)) => None::<T>.oneof_borrow_decoding_distinguished(
                tag,
                wire_type,
                input,
                depth,
                restrict_to,
            ) == Ok::<(Option<T>, nat, Canonicity), DecodeErrorKind>((Some(v), n, c)),
            Err(k) => None::<T>.oneof_borrow_decoding_distinguished(
                tag,
                wire_type,
                input,
                depth,
                restrict_to,
            ) == Err::<(Option<T>, nat, Canonicity), DecodeErrorKind>(k),
        },
        held matches Some(a) ==> held.oneof_borrow_decoding_distinguished(
            tag,
            wire_type,
            input,
            depth,
            restrict_to,
        ) == Err::<(Option<T>, nat, Canonicity), DecodeErrorKind>(
            collision_kind(a.spec_current_tag(), tag),
        ),
{
}

impl<T: Oneof> Oneof for Box<T> {
    const FIELD_TAGS: &'static [u32] = T::FIELD_TAGS;

    open spec fn spec_current_tag(&self) -> Option<u32> {
        (**self).spec_current_tag()
    }

    open spec fn spec_variant_name(tag: u32) -> (&'static str, &'static str) {
        T::spec_variant_name(tag)
    }

    open spec fn oneof_occurrences(&self) -> Seq<(WireType, Seq<u8>)> {
        (**self).oneof_occurrences()
    }

    fn empty() -> (r: Self) {
        Box::new(T::empty())
    }

    fn is_empty(&self) -> (r: bool) {
        (**self).is_empty()
    }

    fn clear(&mut self) {
        (**self).clear()
    }

    fn oneof_encode(&self, buf: &mut BytesMut, tw: &mut TagWriter) {
        (**self).oneof_encode(buf, tw)
    }

    fn oneof_prepend<B: ReverseBuf>(&self, buf: &mut B, tw: &mut TagRevWriter) {
        (**self).oneof_prepend(buf, tw)
    }

    fn oneof_encoded_len(&self, tm: &mut TagMeasurer) -> (r: usize) {
        (**self).oneof_encoded_len(tm)
    }

    fn oneof_current_tag(&self) -> (r: Option<u32>) {
        (**self).oneof_current_tag()
    }

    fn oneof_variant_name(tag: u32) -> (r: (&'static str, &'static str)) {
        T::oneof_variant_name(tag)
    }
}

impl<T: OneofDecoder> OneofDecoder for Box<T> {
    open spec fn oneof_decoding(&self, tag: u32, wire_type: WireType, input: Seq<u8>, depth: u32) -> Result<
        (Self, nat),
        DecodeErrorKind,
    > {
        match (**self).oneof_decoding(tag, wire_type, input, depth) {
            Ok((v, n)) => Ok((Box::new(v), n)),
            Err(k) => Err(k),
        }
    }

    fn oneof_decode_field(
        value: &mut Self,
        tag: u32,
        wire_type: WireType,
        buf: &mut Bytes,
        ctx: DecodeContext,
    ) -> (r: Result<(), DecodeError>) {
        T::oneof_decode_field(&mut **value, tag, wire_type, buf, ctx)
    }
}

impl<T: DistinguishedOneofDecoder> DistinguishedOneofDecoder for Box<T> {
    open spec fn oneof_decoding_distinguished(
        &self,
        tag: u32,
        wire_type: WireType,
        input: Seq<u8>,
        depth: u32,
        restrict_to: Canonicity,
    ) -> Result<(Self, nat, Canonicity), DecodeErrorKind> {
        match (**self).oneof_decoding_distinguished(tag, wire_type, input, depth, restrict_to) {
            Ok((v, n, c)) => Ok((Box::new(v), n, c)),
            Err(k) => Err(k),
        }
    }

    fn oneof_decode_field_distinguished(
        value: &mut Self,
        tag: u32,
        wire_type: WireType,
        buf: &mut Bytes,
        ctx: RestrictedDecodeContext,
    ) -> (r: Result<Canonicity, DecodeError>) {
        T::oneof_decode_field_distinguished(&mut **value, tag, wire_type, buf, ctx)
    }
}

impl<'a, T: OneofBorrowDecoder<'a>> OneofBorrowDecoder<'a> for Box<T> {
    open spec fn oneof_borrow_decoding(
        &self,
        tag: u32,
        wire_type: WireType,
        input: Seq<u8>,
        depth: u32,
    ) -> Result<(Self, nat), DecodeErrorKind> {
        match (**self).oneof_borrow_decoding(tag, wire_type, input, depth) {
            Ok((v, n)) => Ok((Box::new(v), n)),
            Err(k) => Err(k),
        }
    }

    fn oneof_borrow_decode_field(
        value: &mut Self,
        tag: u32,
        wire_type: WireType,
        buf: &mut &'a [u8],
        ctx: DecodeContext,
    ) -> (r: Result<(), DecodeError>) {
        T::oneof_borrow_decode_field(&mut **value, tag, wire_type, buf, ctx)
    }
}

impl<'a, T: DistinguishedOneofBorrowDecoder<'a>> DistinguishedOneofBorrowDecoder<'a> for Box<T> {
    open spec fn oneof_borrow_decoding_distinguished(
        &self,
        tag: u32,
        wire_type: WireType,
        input: Seq<u8>,
        depth: u32,
        restrict_to: Canonicity,
    ) -> Result<(Self, nat, Canonicity), DecodeErrorKind> {
        match (**self).oneof_borrow_decoding_distinguished(
            tag,
            wire_type,
            input,
            depth,
            restrict_to,
        ) {
            Ok((v, n, c)) => Ok((Box::new(v), n, c)),
            Err(k) => Err(k),
        }
    }

    fn oneof_borrow_decode_field_distinguished(
        value: &mut Self,
        tag: u32,
        wire_type: WireType,
        buf: &mut &'a [u8],
        ctx: RestrictedDecodeContext,
    ) -> (r: Result<Canonicity, DecodeError>) {
        T::oneof_borrow_decode_field_distinguished(&mut **value, tag, wire_type, buf, ctx)
    }
}

impl<T: NonEmptyOneof> NonEmptyOneof for Box<T> {
    const FIELD_TAGS: &'static [u32] = T::FIELD_TAGS;

    open spec fn spec_current_tag(&self) -> u32 {
        (**self).spec_current_tag()
    }

    open spec fn spec_variant_name(tag: u32) -> (&'static str, &'static str) {
        T::spec_variant_name(tag)
    }

    open spec fn oneof_occurrences(&self) -> Seq<(WireType, Seq<u8>)> {
        (**self).oneof_occurrences()
    }

    fn oneof_encode(&self, buf: &mut BytesMut, tw: &mut TagWriter) {
        (**self).oneof_encode(buf, tw)
    }

    fn oneof_prepend<B: ReverseBuf>(&self, buf: &mut B, tw: &mut TagRevWriter) {
        (**self).oneof_prepend(buf, tw)
    }

    fn oneof_encoded_len(&self, tm: &mut TagMeasurer) -> (r: usize) {
        (**self).oneof_encoded_len(tm)
    }

    fn oneof_current_tag(&self) -> (r: u32) {
        (**self).oneof_current_tag()
    }

    fn oneof_variant_name(tag: u32) -> (r: (&'static str, &'static str)) {
        T::oneof_variant_name(tag)
    }
}

impl<T: NonEmptyOneofDecoder> NonEmptyOneofDecoder for Box<T> {
    open spec fn oneof_field_error_path(tag: u32, wire_type: WireType, input: Seq<u8>, depth: u32) -> Seq<
        FieldName,
    > {
        T::oneof_field_error_path(tag, wire_type, input, depth)
    }

    open spec fn oneof_field_decoding(tag: u32, wire_type: WireType, input: Seq<u8>, depth: u32) -> Result<
        (Self, nat),
        DecodeErrorKind,
    > {
        match T::oneof_field_decoding(tag, wire_type, input, depth) {
            Ok((v, n)) => Ok((Box::new(v), n)),
            Err(k) => Err(k),
        }
    }

    fn oneof_decode_field(
        tag: u32,
        wire_type: WireType,
        buf: &mut Bytes,
        ctx: DecodeContext,
    ) -> (r: Result<Self, DecodeError>) {
        match T::oneof_decode_field(tag, wire_type, buf, ctx) {
            Ok(v) => Ok(Box::new(v)),
            Err(e) => Err(e),
        }
    }
}

impl<T: NonEmptyDistinguishedOneofDecoder> NonEmptyDistinguishedOneofDecoder for Box<T> {
    open spec fn oneof_field_error_path_distinguished(
        tag: u32,
        wire_type: WireType,
        input: Seq<u8>,
        depth: u32,
        restrict_to: Canonicity,
    ) -> Seq<FieldName> {
        T::oneof_field_error_path_distinguished(tag, wire_type, input, depth, restrict_to)
    }

    open spec fn oneof_field_decoding_distinguished(
        tag: u32,
        wire_type: WireType,
        input: Seq<u8>,
        depth: u32,
        restrict_to: Canonicity,
    ) -> Result<(Self, nat, Canonicity), DecodeErrorKind> {
        match T::oneof_field_decoding_distinguished(tag, wire_type, input, depth, restrict_to) {
            Ok((v, n, c)) => Ok((Box::new(v), n, c)),
            Err(k) => Err(k),
        }
    }

    fn oneof_decode_field_distinguished(
        tag: u32,
        wire_type: WireType,
        buf: &mut Bytes,
        ctx: RestrictedDecodeContext,
    ) -> (r: Result<(Self, Canonicity), DecodeError>) {
        match T::oneof_decode_field_distinguished(tag, wire_type, buf, ctx) {
            Ok((v, canon)) => Ok((Box::new(v), canon)),
            Err(e) => Err(e),
        }
    }
}

impl<'a, T: NonEmptyOneofBorrowDecoder<'a>> NonEmptyOneofBorrowDecoder<'a> for Box<T> {
    open spec fn oneof_field_borrow_error_path(
        tag: u32,
        wire_type: WireType,
        input: Seq<u8>,
        depth: u32,
    ) -> Seq<FieldName> {
        T::oneof_field_borrow_error_path(tag, wire_type, input, depth)
    }

    open spec fn oneof_field_borrow_decoding(
        tag: u32,
        wire_type: WireType,
        input: Seq<u8>,
        depth: u32,
    ) -> Result<(Self, nat), DecodeErrorKind> {
        match T::oneof_field_borrow_decoding(tag, wire_type, input, depth) {
            Ok((v, n)) => Ok((Box::new(v), n)),
            Err(k) => Err(k),
        }
    }

    fn oneof_borrow_decode_field(
        tag: u32,
        wire_type: WireType,
        buf: &mut &'a [u8],
        ctx: DecodeContext,
    ) -> (r: Result<Self, DecodeError>) {
        match T::oneof_borrow_decode_field(tag, wire_type, buf, ctx) {
            Ok(v) => Ok(Box::new(v)),
            Err(e) => Err(e),
        }
    }
}

impl<'a, T: NonEmptyDistinguishedOneofBorrowDecoder<'a>> NonEmptyDistinguishedOneofBorrowDecoder<
    'a,
> for Box<T> {
    open spec fn oneof_field_borrow_error_path_distinguished(
        tag: u32,
        wire_type: WireType,
        input: Seq<u8>,
        depth: u32,
        restrict_to: Canonicity,
    ) -> Seq<FieldName> {
        T::oneof_field_borrow_error_path_distinguished(tag, wire_type, input, depth, restrict_to)
    }

    open spec fn oneof_field_borrow_decoding_distinguished(
        tag: u32,
        wire_type: WireType,
        input: Seq<u8>,
        depth: u32,
        restrict_to: Canonicity,
    ) -> Result<(Self, nat, Canonicity), DecodeErrorKind> {
        match T::oneof_field_borrow_decoding_distinguished(
            tag,
            wire_type,
            input,
            depth,
            restrict_to,
        ) {
            Ok((v, n, c)) => Ok((Box::new(v), n, c)),
            Err(k) => Err(k),
        }
    }

    fn oneof_borrow_decode_field_distinguished(
        tag: u32,
        wire_type: WireType,
        buf: &mut &'a [u8],
        ctx: RestrictedDecodeContext,
    ) -> (r: Result<(Self, Canonicity), DecodeError>) {
        match T::oneof_borrow_decode_field_distinguished(tag, wire_type, buf, ctx) {
            Ok((v, canon)) => Ok((Box::new(v), canon)),
            Err(e) => Err(e),
        }
    }
}
} // verus!
