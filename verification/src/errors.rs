//! Error types of the payload core.
//!
//! No error here is fatal: every one of them is returned to the caller,
//! which at worst cancels a single verification session.

use vstd::prelude::*;

verus! {

/// Returned by the payload constructors when the caller supplied arguments
/// that can never form a meaningful payload: an empty MAC mapping, or a key
/// identifier that does not have the `<algorithm>:<id>` shape.
#[derive(Clone, Copy, Debug, PartialEq, Eq, Structural)]
pub struct InvalidArgument;

/// Ghost image of [`DecodeError`], used by the decoding specifications.
#[verifier::ext_equal]
pub enum DecodeFail {
    /// A mandatory field of the wire object is absent; the field's name.
    MissingField(Seq<char>),
    /// A field's value has the wrong shape; the field's name, or the empty
    /// name for the document itself.
    TypeMismatch(Seq<char>),
}

/// Returned when a wire document does not have the expected shape.
///
/// `MissingField` names the mandatory field that was absent.
/// `TypeMismatch` names the field whose value had the wrong type; the empty
/// name stands for the document itself (input that is not an object, or
/// trailing text after the object).
#[derive(Clone, Debug, PartialEq, Eq)]
pub enum DecodeError {
    MissingField(String),
    TypeMismatch(String),
}

impl View for DecodeError {
    type V = DecodeFail;

    open spec fn view(&self) -> DecodeFail {
        match self {
            DecodeError::MissingField(f) => DecodeFail::MissingField(f@),
            DecodeError::TypeMismatch(f) => DecodeFail::TypeMismatch(f@),
        }
    }
}

/// The decode failure that names the document itself.
pub open spec fn doc_err() -> DecodeFail {
    DecodeFail::TypeMismatch(Seq::empty())
}

/// The decode error that names the document itself.
pub(crate) fn document_error() -> (r: DecodeError)
    ensures
        r@ == doc_err(),
{
    DecodeError::TypeMismatch(String::new())
}

/// Returned by the explicit validation step, in the order in which the
/// checks run: non-empty MAC mapping, key-identifier shape, Base64 shape
/// of the aggregate MAC and, on the conversation channel, the relation.
#[derive(Clone, Copy, Debug, PartialEq, Eq, Structural)]
pub enum ValidationError {
    /// The MAC mapping confirms no key at all.
    EmptyMac,
    /// A key identifier in the MAC mapping is not `<algorithm>:<id>`.
    BadKeyIdFormat,
    /// The aggregate MAC is not lexically valid unpadded Base64.
    BadBase64,
    /// The relation link has an empty event identifier or relation kind.
    BadRelation,
}

} // verus!
