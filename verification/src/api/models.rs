//! The parts of the server's messages that an upload reads and writes.

use crate::uploader::providers::PolicyType;
use vstd::prelude::*;

verus! {

/// The ciphers that a client can offer for an upload.
#[derive(Debug, Clone, Copy, PartialEq, Eq, Structural)]
pub enum EncryptionCipher {
    Aes256Ctr,
}

/// The key and the initial counter of an encrypted upload, both in base64.
#[derive(Debug)]
pub struct EncryptMetadata {
    pub key_plain_text: String,
    pub iv: String,
}

impl Clone for EncryptMetadata {
    fn clone(&self) -> (r: Self)
        ensures
            r == *self,
    {
        EncryptMetadata { key_plain_text: self.key_plain_text.clone(), iv: self.iv.clone() }
    }
}

/// The storage policy that the server applies to an upload.
#[derive(Debug, Clone, Copy)]
pub struct StoragePolicy {
    pub policy_type: PolicyType,
    pub relay: Option<bool>,
    pub streaming_encryption: Option<bool>,
    pub chunk_concurrency: Option<i32>,
}

/// What the server hands out when it opens an upload session.
#[derive(Debug, Clone)]
pub struct UploadCredential {
    pub session_id: String,
    pub upload_urls: Option<Vec<String>>,
    pub credential: String,
    pub callback_secret: String,
    pub complete_url: Option<String>,
    pub upload_policy: Option<String>,
    pub mime_type: Option<String>,
    pub chunk_size: i64,
    pub expires: i64,
    pub storage_policy: Option<StoragePolicy>,
    pub encrypt_metadata: Option<EncryptMetadata>,
}

/// The request that opens an upload session.
#[derive(Debug, Clone)]
pub struct UploadSessionRequest {
    pub uri: String,
    pub size: i64,
    pub policy_id: String,
    pub last_modified: Option<i64>,
    pub previous: Option<String>,
    pub entity_type: Option<String>,
    pub mime_type: Option<String>,
    pub metadata: Option<Vec<(String, String)>>,
    pub encryption_supported: Option<Vec<EncryptionCipher>>,
}

/// The request that closes an upload session without completing it.
#[derive(Debug, Clone)]
pub struct DeleteUploadSessionService {
    pub id: String,
    pub uri: String,
}

}
