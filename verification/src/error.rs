//! Encoding and decoding errors.
use thin_vec::ThinVec;
use vstd::prelude::*;

verus! {

/// Message decoding error kinds.
#[derive(Clone, Copy, Debug, PartialEq, Eq, Hash, Structural)]
#[non_exhaustive]
pub enum DecodeErrorKind {
    /// Decoded data was truncated.
    Truncated,
    /// Invalid varint. (The only invalid varints are ones that would encode values > `u64::MAX`.)
    InvalidVarint,
    /// A field key encoded a tag greater than `u32::MAX`.
    TagOverflowed,
    /// A field's wire type was encountered that cannot encode a valid value.
    WrongWireType,
    /// Value was out of domain for its type.
    OutOfDomainValue,
    /// Value was invalid, such as non-UTF-8 data in a `String` field or an unsupported number of
    /// items in a container.
    InvalidValue,
    /// Conflicting mutually exclusive fields.
    ConflictingFields,
    /// A field or part of a value occurred multiple times when it should not.
    UnexpectedlyRepeated,
    /// A value was not encoded canonically. (distinguished decoding error)
    NotCanonical,
    /// Unknown fields were encountered. (distinguished decoding error)
    UnknownField,
    /// Recursion limit was reached when parsing.
    RecursionLimitReached,
    /// Size of a length-delimited region exceeds what is supported on this platform.
    Oversize,
    /// Something else.
    Other,
}

/// The longest location path to which a decoding error can still add an entry (decoders push
/// one entry per level of nesting, far fewer than this). A `ThinVec` that is full doubles its
/// capacity, and its allocation holds a header of two words and four words per `FieldName`; up to
/// this length, the doubled allocation stays within `isize::MAX` bytes on 32-bit and on 64-bit
/// platforms.
pub open spec fn max_error_path() -> nat {
    if usize::BITS == 32 {
        0x0400_0000
    } else {
        0x0200_0000_0000_0000
    }
}

/// A (message, field) name pair locating where in a nested structure decoding failed.
#[derive(Clone, Copy, Debug, PartialEq, Eq)]
pub struct FieldName {
    pub message: &'static str,
    pub field: &'static str,
}

#[verifier::external_type_specification]
#[verifier::external_body]
#[verifier::reject_recursive_types(T)]
pub struct ExThinVec<T>(ThinVec<T>);

/// The sequence of (message, field) pairs held by a `ThinVec<FieldName>`, in insertion order.
pub uninterp spec fn field_stack(stack: ThinVec<FieldName>) -> Seq<FieldName>;

/// Calls `ThinVec::new`, which creates a vector holding no elements.
#[verifier::external_body]
fn thin_vec_new() -> (r: ThinVec<FieldName>)
    ensures
        field_stack(r) == Seq::<FieldName>::empty(),
{
    ThinVec::new()
}

/// Calls `ThinVec::push`, which appends one element at the end. It panics only when the grown
/// allocation would exceed `isize::MAX` bytes, which the length bound rules out on 32-bit and on
/// 64-bit platforms (see `max_error_path`).
#[verifier::external_body]
fn thin_vec_push(stack: &mut ThinVec<FieldName>, item: FieldName)
    requires
        field_stack(*old(stack)).len() < max_error_path(),
    ensures
        field_stack(*final(stack)) == field_stack(*old(stack)).push(item),
{
    stack.push(item)
}

/// Calls `ThinVec::as_slice`, which views all the elements in order.
#[verifier::external_body]
fn thin_vec_as_slice(stack: &ThinVec<FieldName>) -> (r: &[FieldName])
    ensures
        r@ == field_stack(*stack),
{
    stack.as_slice()
}

/// Calls `ThinVec::clone`, which clones every element in order; `FieldName` is `Copy`, so the
/// clone holds equal elements.
#[verifier::external_body]
fn thin_vec_clone(stack: &ThinVec<FieldName>) -> (r: ThinVec<FieldName>)
    ensures
        field_stack(r) == field_stack(*stack),
{
    stack.clone()
}

/// A message decoding error.
///
/// `DecodeError` indicates that the input buffer does not contain a valid message. The error
/// details are 'best effort': in general it is not possible to exactly pinpoint why data is
/// malformed.
#[derive(Debug, PartialEq, Eq)]
pub struct DecodeError {
    /// A 'best effort' root cause description.
    kind: DecodeErrorKind,
    /// A stack of (message, field) name pairs identifying the specific message type and field where
    /// decoding failed, one entry per level of nesting, deepest first.
    stack: ThinVec<FieldName>,
}

impl DecodeError {
    /// The kind of this error.
    pub closed spec fn spec_kind(&self) -> DecodeErrorKind {
        self.kind
    }

    /// The location path of this error, deepest field first.
    pub closed spec fn spec_path(&self) -> Seq<FieldName> {
        field_stack(self.stack)
    }

    /// Creates a new `DecodeError` with a 'best effort' root cause description and an empty path.
    pub fn new(kind: DecodeErrorKind) -> (r: DecodeError)
        ensures
            r.spec_kind() == kind,
            r.spec_path() == Seq::<FieldName>::empty(),
    {
        DecodeError { kind, stack: thin_vec_new() }
    }

    /// Returns the kind of this error.
    pub fn kind(&self) -> (r: DecodeErrorKind)
        ensures
            r == self.spec_kind(),
    {
        self.kind
    }

    /// Returns the path inside the structure at which the error was encountered. The deepest field
    /// is listed first and the most top-level field last.
    pub fn path(&self) -> (r: &[FieldName])
        ensures
            r@ == self.spec_path(),
    {
        thin_vec_as_slice(&self.stack)
    }

    /// Pushes a (message, field) name location pair on to the location stack.
    pub fn push(&mut self, message: &'static str, field: &'static str)
        requires
            old(self).spec_path().len() < max_error_path(),
        ensures
            final(self).spec_kind() == old(self).spec_kind(),
            final(self).spec_path() == old(self).spec_path().push(FieldName { message, field }),
    {
        thin_vec_push(&mut self.stack, FieldName { message, field });
    }
}

impl Clone for DecodeError {
    fn clone(&self) -> (r: Self)
        ensures
            r.spec_kind() == self.spec_kind(),
            r.spec_path() == self.spec_path(),
    {
        DecodeError { kind: self.kind, stack: thin_vec_clone(&self.stack) }
    }
}

impl From<DecodeErrorKind> for DecodeError {
    fn from(kind: DecodeErrorKind) -> (r: Self)
        ensures
            r.spec_kind() == kind,
            r.spec_path() == Seq::<FieldName>::empty(),
    {
        DecodeError::new(kind)
    }
}

impl vstd::std_specs::convert::FromSpecImpl<DecodeErrorKind> for DecodeError {
    open spec fn obeys_from_spec() -> bool {
        false
    }

    /// An error of the kind with an empty path; the path's container is opaque, so `from`
    /// states its result by `spec_kind` and `spec_path` instead.
    open spec fn from_spec(v: DecodeErrorKind) -> DecodeError {
        choose|e: DecodeError| e.spec_kind() == v && e.spec_path() == Seq::<FieldName>::empty()
    }
}

impl From<&DecodeErrorKind> for DecodeErrorKind {
    fn from(value: &DecodeErrorKind) -> (r: Self) {
        *value
    }
}

impl vstd::std_specs::convert::FromSpecImpl<&DecodeErrorKind> for DecodeErrorKind {
    open spec fn obeys_from_spec() -> bool {
        true
    }

    open spec fn from_spec(v: &DecodeErrorKind) -> DecodeErrorKind {
        *v
    }
}

impl From<DecodeError> for DecodeErrorKind {
    fn from(value: DecodeError) -> (r: Self) {
        value.kind
    }
}

impl vstd::std_specs::convert::FromSpecImpl<DecodeError> for DecodeErrorKind {
    open spec fn obeys_from_spec() -> bool {
        true
    }

    open spec fn from_spec(v: DecodeError) -> DecodeErrorKind {
        v.spec_kind()
    }
}

impl From<&DecodeError> for DecodeErrorKind {
    fn from(value: &DecodeError) -> (r: Self) {
        value.kind
    }
}

impl vstd::std_specs::convert::FromSpecImpl<&DecodeError> for DecodeErrorKind {
    open spec fn obeys_from_spec() -> bool {
        true
    }

    open spec fn from_spec(v: &DecodeError) -> DecodeErrorKind {
        v.spec_kind()
    }
}

/// A message encoding error.
///
/// `EncodeError` always indicates that a message failed to encode because the provided buffer had
/// insufficient capacity. Message encoding is otherwise infallible.
#[derive(Copy, Clone, Debug, PartialEq, Eq, Structural)]
pub struct EncodeError {
    required: usize,
    remaining: usize,
}

impl EncodeError {
    /// The capacity that was required.
    pub closed spec fn spec_required(&self) -> usize {
        self.required
    }

    /// The capacity that remained.
    pub closed spec fn spec_remaining(&self) -> usize {
        self.remaining
    }

    /// Creates a new `EncodeError`.
    pub(crate) fn new(required: usize, remaining: usize) -> (r: EncodeError)
        ensures
            r.spec_required() == required,
            r.spec_remaining() == remaining,
    {
        EncodeError { required, remaining }
    }

    /// Returns the required buffer capacity to encode the message.
    pub fn required_capacity(&self) -> (r: usize)
        ensures
            r == self.spec_required(),
    {
        self.required
    }

    /// Returns the remaining length in the provided buffer at the time of encoding.
    pub fn remaining(&self) -> (r: usize)
        ensures
            r == self.spec_remaining(),
    {
        self.remaining
    }
}

} // verus!
