//! The codec's error model: a stable kind taxonomy plus a human-readable
//! message.  Kind equality is the contract for programmatic handling.

use vstd::prelude::*;

verus! {

/// Every way an encode or decode operation can fail.
#[derive(Clone, Copy, Debug, PartialEq, Eq, Structural)]
pub enum ErrorKind {
    /// The underlying byte source or sink failed, or the input ran out.
    IOError,
    Custom,
    MissingFormatVersion,
    EnumVariantIndexTooBig,
    /// A value does not fit in the 62 bits a varint can carry.
    VarIntTooBig,
    VarIntTooSmall,
    /// The caller's data model has no representation in this format.
    SerdeModelUnsupported,
    /// A section holds more than `MAX_NUM_SECTION_FIELDS` pairs.
    TooManySectionFields,
    /// A compound's length was not known ahead of time.
    NoLength,
    /// A map key position held a non-string value.
    KeyBadType,
    KeyBadEncoding,
    /// A key is longer than the 1-byte length prefix allows.
    KeyTooLong,
    /// A string/blob is longer than `MAX_STRING_LEN_POSSIBLE`.
    StringTooLong,
    StringBadEncoding,
    /// An array element's type code differs from the array's first element.
    ArrayMixedTypes,
    /// An array was opened directly inside another array.
    NestedArrays,
    /// An array holds more than `MAX_NUM_SECTION_FIELDS` elements.
    ArrayTooLong,
    TupleTooLong,
    /// A tag byte's low 7 bits are 0 or greater than 12.
    BadTypeCode,
    ExpectedArray,
    ExpectedArrayEnd,
    /// A root stream did not begin with the 9-byte signature.
    ExpectedFormatSignature,
    ExpectedEnd,
    ExpectedScalar,
    NotExpectingArray,
    NotExpectingSection,
    NotExpectingScalar,
    /// A wire uint32 in char position is not a Unicode scalar value.
    BadUnicodeScalar,
    SizeHintMismatch,
    CompoundMissingArrayType,
    /// A key length byte of 0 was read.
    EmptySectionKey,
    TypeMismatch,
}

/// A codec failure: a stable kind plus a human-readable message.
#[derive(Debug)]
pub struct Error {
    pub kind: ErrorKind,
    pub msg: String,
}

impl Error {
    /// Builds an error of the given kind carrying a message.
    pub fn new(kind: ErrorKind, msg: String) -> (r: Self)
        ensures
            r.kind == kind,
            r.msg == msg,
    {
        Self { kind, msg }
    }

    /// Builds an error of the given kind with an empty message.
    pub fn new_no_msg(kind: ErrorKind) -> (r: Self)
        ensures
            r.kind == kind,
    {
        Self { kind, msg: String::new() }
    }

    /// Returns the stable kind of this error.
    pub fn kind(&self) -> (r: ErrorKind)
        ensures
            r == self.kind,
    {
        self.kind
    }

    /// Returns the human-readable message of this error.
    pub fn message(&self) -> (r: &String)
        ensures
            r == self.msg,
    {
        &self.msg
    }
}

} // verus!
