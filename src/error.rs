//! The errors of reading and writing a tensor container.
use crate::dtype::Dtype;
use vstd::prelude::*;

verus! {

#[verifier::external_type_specification]
#[verifier::external_body]
pub struct ExJsonError(serde_json::Error);

#[verifier::external_type_specification]
#[verifier::external_body]
pub struct ExIoError(std::io::Error);

/// What can go wrong while reading or writing a container.
#[derive(Debug)]
pub enum X8DsubByteError {
    /// The header is not valid UTF-8.
    InvalidHeader(core::str::Utf8Error),
    /// The header does not start with `{`.
    InvalidHeaderStart,
    /// The header is text but not a header in the expected JSON shape.
    InvalidHeaderDeserialization(serde_json::Error),
    /// The header is longer than the limit.
    HeaderTooLarge,
    /// The buffer is shorter than the eight-byte length prefix.
    HeaderTooSmall,
    /// The declared header length overflows or runs past the buffer.
    InvalidHeaderLength,
    /// No tensor of this name.
    TensorNotFound(String),
    /// A tensor's shape and dtype do not match its byte range.
    TensorInvalidInfo,
    /// Two tensors have this name.
    DuplicateName(String),
    /// The byte range of the named tensor does not follow the previous one.
    InvalidOffset(String),
    /// Reading or writing storage failed.
    IoError(std::io::Error),
    /// Encoding JSON failed.
    JsonError(serde_json::Error),
    /// A view cannot be made: these bytes do not hold this dtype and shape.
    InvalidTensorView(Dtype, Vec<usize>, usize),
    /// The tensors do not cover the payload exactly.
    MetadataIncompleteBuffer,
    /// Computing a size from a shape and a dtype overflows.
    ValidationOverflow,
    /// A sub-byte tensor does not end on a byte boundary.
    MisalignedSlice,
}

} // verus!
