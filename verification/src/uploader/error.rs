//! What can go wrong while a file is uploaded.

use crate::text::decimal;
use crate::text::decimal_text;
use vstd::prelude::*;
use vstd::string::*;

verus! {

/// The result of a step of an upload.
pub type UploadResult<T> = Result<T, UploadError>;

/// An error of an upload. The texts are those of the causes.
#[derive(Debug)]
pub enum UploadError {
    SessionCreationFailed(String),
    ChunkUploadFailed(usize, String),
    CompletionFailed(String),
    FileReadError(String),
    SessionDeletionFailed(String),
    EncryptionError(String),
    IoError(String),
    RequestError(String),
}

impl UploadError {
    /// The sentence that a user reads.
    pub open spec fn text(self) -> Seq<char> {
        match self {
            UploadError::SessionCreationFailed(cause) => "Failed to create upload session: "@
                + cause@,
            UploadError::ChunkUploadFailed(index, cause) => "Failed to upload chunk "@ + decimal(
                index as nat,
            ) + ": "@ + cause@,
            UploadError::CompletionFailed(cause) => "Failed to complete upload: "@ + cause@,
            UploadError::FileReadError(cause) => "Failed to read file: "@ + cause@,
            UploadError::SessionDeletionFailed(cause) => "Failed to delete session: "@ + cause@,
            UploadError::EncryptionError(cause) => "Encryption error: "@ + cause@,
            UploadError::IoError(cause) => "IO error: "@ + cause@,
            UploadError::RequestError(cause) => "Request error: "@ + cause@,
        }
    }

    /// The sentence that a user reads.
    pub fn message(&self) -> (r: String)
        ensures
            r@ == self.text(),
    {
        match self {
            UploadError::SessionCreationFailed(cause) => {
                "Failed to create upload session: ".to_owned().concat(cause.as_str())
            },
            UploadError::ChunkUploadFailed(index, cause) => {
                let number: String = decimal_text(*index as u64);
                "Failed to upload chunk ".to_owned().concat(number.as_str()).concat(": ").concat(
                    cause.as_str(),
                )
            },
            UploadError::CompletionFailed(cause) => {
                "Failed to complete upload: ".to_owned().concat(cause.as_str())
            },
            UploadError::FileReadError(cause) => {
                "Failed to read file: ".to_owned().concat(cause.as_str())
            },
            UploadError::SessionDeletionFailed(cause) => {
                "Failed to delete session: ".to_owned().concat(cause.as_str())
            },
            UploadError::EncryptionError(cause) => {
                "Encryption error: ".to_owned().concat(cause.as_str())
            },
            UploadError::IoError(cause) => "IO error: ".to_owned().concat(cause.as_str()),
            UploadError::RequestError(cause) => "Request error: ".to_owned().concat(cause.as_str()),
        }
    }
}

}
