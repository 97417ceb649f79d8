use vstd::prelude::*;

verus! {

/// Declares `std::io::Error` to the verifier, which sees nothing inside it.
#[verifier::external_type_specification]
#[verifier::external_body]
pub struct ExIoError(std::io::Error);

/// An error which can occur while deserializing.
#[derive(Debug)]
pub enum DeserializeError {
    /// The bytes hold a value that matches none of the variants of the enum named `enum_name`.
    InvalidEnumValue { enum_name: &'static str },
}

/// An error which can occur while deserializing from a data stream.
#[derive(Debug)]
pub enum DeserializeFromError {
    /// An io error occured while reading from the stream.
    IoError(std::io::Error),
    /// The bytes read from the stream could not be deserialized.
    DeserializeError(DeserializeError),
}

impl From<DeserializeError> for DeserializeFromError {
    fn from(e: DeserializeError) -> (r: Self) {
        DeserializeFromError::DeserializeError(e)
    }
}

impl vstd::std_specs::convert::FromSpecImpl<DeserializeError> for DeserializeFromError {
    open spec fn obeys_from_spec() -> bool {
        true
    }

    open spec fn from_spec(e: DeserializeError) -> Self {
        DeserializeFromError::DeserializeError(e)
    }
}

impl From<std::io::Error> for DeserializeFromError {
    fn from(e: std::io::Error) -> (r: Self) {
        DeserializeFromError::IoError(e)
    }
}

impl vstd::std_specs::convert::FromSpecImpl<std::io::Error> for DeserializeFromError {
    open spec fn obeys_from_spec() -> bool {
        true
    }

    open spec fn from_spec(e: std::io::Error) -> Self {
        DeserializeFromError::IoError(e)
    }
}

/// An error which can occur while serializing into or deserializing from a
/// bounds-checked buffer.
#[derive(Debug)]
pub enum BinarySerdeBufSafeError {
    /// The bytes read from the buffer could not be deserialized.
    DeserializeError(DeserializeError),
    /// The index is out of the bounds of the buffer.
    OutOfBounds { index: usize, buf_len: usize },
}

impl From<DeserializeError> for BinarySerdeBufSafeError {
    fn from(e: DeserializeError) -> (r: Self) {
        BinarySerdeBufSafeError::DeserializeError(e)
    }
}

impl vstd::std_specs::convert::FromSpecImpl<DeserializeError> for BinarySerdeBufSafeError {
    open spec fn obeys_from_spec() -> bool {
        true
    }

    open spec fn from_spec(e: DeserializeError) -> Self {
        BinarySerdeBufSafeError::DeserializeError(e)
    }
}

} // verus!
