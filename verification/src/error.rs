//! The errors that a request can end in, each tagged with the stage that failed.

use vstd::prelude::*;

verus! {

/// The stage of a request at which an error arose.
#[derive(Clone, Copy, Debug, PartialEq, Eq, Structural)]
pub enum Stage {
    /// Reading the request: the algorithm selector.
    Selection,
    /// Fetching the image bytes from the object store.
    Fetch,
    /// Turning the bytes into pixels.
    Decode,
    /// Turning the pixels into bits.
    Transform,
}

impl Stage {
    /// The name of the kind of error that a failure at this stage is.
    pub open spec fn name_spec(self) -> Seq<char> {
        match self {
            Stage::Selection => "UnsupportedAlgorithm"@,
            Stage::Fetch => "FetchError"@,
            Stage::Decode => "DecodeError"@,
            Stage::Transform => "TransformError"@,
        }
    }

    /// The name of the kind of error that a failure at this stage is.
    pub fn name(&self) -> (text: String)
        ensures
            text@ == self.name_spec(),
    {
        match self {
            Stage::Selection => String::from_str("UnsupportedAlgorithm"),
            Stage::Fetch => String::from_str("FetchError"),
            Stage::Decode => String::from_str("DecodeError"),
            Stage::Transform => String::from_str("TransformError"),
        }
    }
}

/// Why a request produced no hash.
#[derive(Debug)]
pub enum TypedError {
    /// The object store did not answer the request for the object.
    S3Get,
    /// The object was found but its body could not be read; holds the reason.
    S3Download(String),
    /// The bytes are not an image that can be decoded; holds the reason,
    /// which names the format that was detected or attempted.
    InvalidFormat(String),
    /// The selector names no known algorithm; holds the selector as given.
    UnsupportedAlgorithm(String),
    /// The image is larger than the algorithm can take on this machine.
    TooLarge,
}

impl TypedError {
    /// The stage that each error belongs to.
    pub open spec fn stage_spec(self) -> Stage {
        match self {
            TypedError::S3Get => Stage::Fetch,
            TypedError::S3Download(_) => Stage::Fetch,
            TypedError::InvalidFormat(_) => Stage::Decode,
            TypedError::UnsupportedAlgorithm(_) => Stage::Selection,
            TypedError::TooLarge => Stage::Transform,
        }
    }

    /// The text of the error, as a sequence of characters.
    pub open spec fn message_spec(self) -> Seq<char> {
        match self {
            TypedError::S3Get => "Failed to retrieve from S3"@,
            TypedError::S3Download(reason) => "Failed to download from S3: `"@ + reason@ + "`"@,
            TypedError::InvalidFormat(reason) => "Invalid image format `"@ + reason@ + "` guessed"@,
            TypedError::UnsupportedAlgorithm(selector) => "Unsupported hash algorithm `"@
                + selector@ + "`"@,
            TypedError::TooLarge => "Image too large for the hash algorithm"@,
        }
    }

    /// Which stage failed.
    pub fn stage(&self) -> (stage: Stage)
        ensures
            stage == self.stage_spec(),
    {
        match self {
            TypedError::S3Get => Stage::Fetch,
            TypedError::S3Download(_) => Stage::Fetch,
            TypedError::InvalidFormat(_) => Stage::Decode,
            TypedError::UnsupportedAlgorithm(_) => Stage::Selection,
            TypedError::TooLarge => Stage::Transform,
        }
    }

    /// The text that reports this error.
    pub fn message(&self) -> (text: String)
        ensures
            text@ == self.message_spec(),
    {
        match self {
            TypedError::S3Get => String::from_str("Failed to retrieve from S3"),
            TypedError::S3Download(reason) => String::from_str(
                "Failed to download from S3: `",
            ).concat(reason.as_str()).concat("`"),
            TypedError::InvalidFormat(reason) => String::from_str("Invalid image format `").concat(
                reason.as_str(),
            ).concat("` guessed"),
            TypedError::UnsupportedAlgorithm(selector) => String::from_str(
                "Unsupported hash algorithm `",
            ).concat(selector.as_str()).concat("`"),
            TypedError::TooLarge => String::from_str("Image too large for the hash algorithm"),
        }
    }
}

} // verus!
