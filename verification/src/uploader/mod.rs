//! The upload engine: what an upload is told, and the order of its steps.

pub mod chunk;
pub mod clock;
pub mod course;
pub mod encrypt;
pub mod error;
pub mod laws;
pub mod pool;
pub mod progress;
pub mod providers;
pub mod retry;
pub mod session;
pub mod workers;

use crate::api::models::DeleteUploadSessionService;
use crate::api::models::EncryptionCipher;
use crate::api::models::UploadCredential;
use crate::api::models::UploadSessionRequest;
use crate::uploader::clock::latest_timestamp;
use crate::uploader::providers::PolicyType;
use crate::uploader::session::UploadSession;
use uuid::Uuid;
use vstd::arithmetic::power2::pow2;
use vstd::prelude::*;
use vstd::string::*;

verus! {

/// A span of time.
#[derive(Debug, Clone, Copy, PartialEq, Eq, Structural)]
pub struct Delay {
    pub nanos: u128,
}

impl Delay {
    /// So many seconds.
    pub fn from_secs(secs: u64) -> (r: Self)
        ensures
            r.nanos == secs * 1_000_000_000,
    {
        Delay { nanos: secs as u128 * 1_000_000_000 }
    }

    /// So many milliseconds.
    pub fn from_millis(millis: u64) -> (r: Self)
        ensures
            r.nanos == millis * 1_000_000,
    {
        Delay { nanos: millis as u128 * 1_000_000 }
    }

    /// The whole milliseconds.
    pub fn as_millis(&self) -> (r: u128)
        ensures
            r == self.nanos / 1_000_000,
    {
        self.nanos / 1_000_000
    }
}

/// How an upload behaves when the network does not.
#[derive(Debug, Clone, Copy, PartialEq, Eq, Structural)]
pub struct UploaderConfig {
    pub max_retries: u32,
    pub retry_base_delay: Delay,
    pub retry_max_delay: Delay,
    pub request_timeout: Delay,
}

impl UploaderConfig {
    /// The wait that is doubled, in whole milliseconds.
    pub open spec fn base_millis(self) -> nat {
        (self.retry_base_delay.nanos / 1_000_000) as u64 as nat
    }

    /// Whether the wait before an attempt, before it is cut to the longest, can be
    /// told in milliseconds.
    pub open spec fn wait_fits(self, attempt: nat) -> bool {
        let doublings: nat = if attempt < 10 {
            attempt
        } else {
            10
        };
        self.base_millis() * pow2(doublings) <= u64::MAX
    }

    /// Whether the wait before an attempt can be told in milliseconds.
    pub fn can_wait(&self, attempt: u32) -> (r: bool)
        ensures
            r == self.wait_fits(attempt as nat),
    {
        let base: u64 = self.retry_base_delay.as_millis() as u64;
        let doublings: u64 = if attempt < 10 {
            attempt as u64
        } else {
            10
        };
        proof {
            vstd::arithmetic::power2::lemma2_to64();
            if doublings < 10 {
                vstd::arithmetic::power2::lemma_pow2_strictly_increases(doublings as nat, 10);
            }
            vstd::bits::lemma_u64_shl_is_mul(1, doublings);
        }
        base.checked_mul(1u64 << doublings).is_some()
    }

    /// If the wait before an attempt can be told, then so can that before an earlier
    /// one.
    pub proof fn earlier_waits_fit(self, earlier: nat, attempt: nat)
        requires
            self.wait_fits(attempt),
            earlier <= attempt,
        ensures
            self.wait_fits(earlier),
    {
        let a: nat = if earlier < 10 {
            earlier
        } else {
            10
        };
        let b: nat = if attempt < 10 {
            attempt
        } else {
            10
        };
        if a < b {
            vstd::arithmetic::power2::lemma_pow2_strictly_increases(a, b);
        }
        let base = self.base_millis();
        assert(base * pow2(a) <= base * pow2(b)) by (nonlinear_arith)
            requires
                pow2(a) <= pow2(b),
        ;
    }
}

impl Default for UploaderConfig {
    /// Three retries, the first after two seconds and none after more than thirty.
    fn default() -> (r: Self)
        ensures
            r.max_retries == 3,
            r.retry_base_delay.nanos == 1_000_000_000,
            r.retry_max_delay.nanos == 30_000_000_000,
            r.request_timeout.nanos == 60_000_000_000,
            forall|attempt: nat| attempt <= 3 ==> #[trigger] r.wait_fits(attempt),
    {
        let config: UploaderConfig = UploaderConfig {
            max_retries: 3,
            retry_base_delay: Delay::from_secs(1),
            retry_max_delay: Delay::from_secs(30),
            request_timeout: Delay::from_secs(60),
        };
        proof {
            vstd::arithmetic::power2::lemma2_to64();
            assert(config.base_millis() == 1000);
            assert(config.wait_fits(3));
            assert forall|attempt: nat| attempt <= 3 implies #[trigger] config.wait_fits(
                attempt,
            ) by {
                config.earlier_waits_fit(attempt, 3);
            }
        }
        config
    }
}

/// What is to be uploaded, and where to. The local path is given as text.
#[derive(Debug, Clone)]
pub struct UploadParams {
    pub local_path: String,
    pub remote_uri: String,
    pub file_size: u64,
    pub mime_type: Option<String>,
    pub last_modified: Option<i64>,
    pub overwrite: bool,
    pub previous_version: String,
}

impl UploadParams {
    /// Whether `request` is the one that opens a session for this upload.
    pub open spec fn asks(self, request: UploadSessionRequest) -> bool {
        &&& request.uri == self.remote_uri
        &&& request.size == self.file_size as i64
        &&& request.policy_id@ == Seq::<char>::empty()
        &&& request.last_modified == self.last_modified
        &&& request.previous == if self.previous_version@.len() == 0 {
            None
        } else {
            Some(self.previous_version)
        }
        &&& match request.entity_type {
            Some(t) => self.overwrite && t@ == "version"@,
            None => !self.overwrite,
        }
        &&& request.mime_type == self.mime_type
        &&& request.metadata is None
        &&& request.encryption_supported matches Some(ciphers) && ciphers@ == seq![
            EncryptionCipher::Aes256Ctr,
        ]
    }

    /// The request that opens a session for this upload.
    pub fn session_request(&self) -> (r: UploadSessionRequest)
        ensures
            self.asks(r),
    {
        let previous: Option<String> = if self.previous_version.as_str().is_empty() {
            None
        } else {
            Some(self.previous_version.clone())
        };
        let entity_type: Option<String> = if self.overwrite {
            Some("version".to_owned())
        } else {
            None
        };
        let mut ciphers: Vec<EncryptionCipher> = Vec::new();
        ciphers.push(EncryptionCipher::Aes256Ctr);
        assert(ciphers@ =~= seq![EncryptionCipher::Aes256Ctr]);
        UploadSessionRequest {
            uri: self.remote_uri.clone(),
            size: self.file_size as i64,
            policy_id: String::new(),
            last_modified: self.last_modified,
            previous,
            entity_type,
            mime_type: self.mime_type.clone(),
            metadata: None,
            encryption_supported: Some(ciphers),
        }
    }

    /// Whether `session` is one just opened for this upload, the task and the time
    /// apart.
    pub open spec fn opens(self, session: UploadSession, credential: UploadCredential) -> bool {
        &&& session.opened(
            session.task_id,
            session.drive_id,
            self.local_path,
            self.remote_uri,
            self.file_size,
            credential,
        )
        &&& session.drive_id@ == "default"@
    }

    /// The session that the server's answer opens now, as a task of its own.
    pub fn create_session(&self, credential: UploadCredential) -> (r: UploadSession)
        requires
            UploadSession::can_open(self.file_size, credential.chunk_size as u64),
        ensures
            self.opens(r, credential),
            is_random_uuid(r.task_id@),
            0 <= r.created_at <= latest_timestamp(),
    {
        let task_id: String = random_uuid();
        UploadSession::new(
            task_id,
            "default".to_owned(),
            self.local_path.clone(),
            self.remote_uri.clone(),
            self.file_size,
            credential,
        )
    }

    /// The session that the server's answer opens at the time `now`, as the task
    /// `task_id`.
    pub fn create_session_at(
        &self,
        credential: UploadCredential,
        task_id: String,
        now: i64,
    ) -> (r: UploadSession)
        requires
            UploadSession::can_open(self.file_size, credential.chunk_size as u64),
        ensures
            self.opens(r, credential),
            r.task_id == task_id,
            r.created_at == now,
    {
        UploadSession::new_at(
            task_id,
            "default".to_owned(),
            self.local_path.clone(),
            self.remote_uri.clone(),
            self.file_size,
            credential,
            now,
        )
    }
}

/// Whether a character is a hexadecimal digit in lower case.
pub open spec fn is_hex(c: char) -> bool {
    ('0' <= c && c <= '9') || ('a' <= c && c <= 'f')
}

/// Whether a text has the form of a random UUID.
pub open spec fn is_random_uuid(text: Seq<char>) -> bool {
    &&& text.len() == 36
    &&& forall|i: int|
        0 <= i < 36 ==> if i == 8 || i == 13 || i == 18 || i == 23 {
            #[trigger] text[i] == '-'
        } else {
            is_hex(text[i])
        }
    &&& text[14] == '4'
    &&& text[19] == '8' || text[19] == '9' || text[19] == 'a' || text[19] == 'b'
}

/// Calls `uuid::Uuid::new_v4` and writes what it returns.
///
/// Claimed of them: the text has 36 characters, hyphens at the four places where
/// a UUID has them, and else hexadecimal digits in lower case, of which the one
/// behind the second hyphen tells the version and the one behind the third the
/// variant. The other digits are random. `new_v4` panics where the machine has no
/// randomness to give.
#[verifier::external_body]
fn random_uuid() -> (r: String)
    ensures
        is_random_uuid(r@),
{
    Uuid::new_v4().to_string()
}

impl UploadSession {
    /// Where the chunks go: through the server, where it relays, and else to the
    /// back end of the storage policy.
    pub fn effective_policy(&self) -> (r: PolicyType)
        ensures
            r == if self.relay {
                PolicyType::Local
            } else {
                self.policy_type
            },
            r == self.sends_to(),
    {
        if self.is_relay() {
            PolicyType::Local
        } else {
            self.policy_type()
        }
    }

    /// Whether a request closes this session.
    pub open spec fn closes(self, request: DeleteUploadSessionService) -> bool {
        &&& request.id@ == self.credential.session_id@
        &&& request.uri == self.remote_uri
    }

    /// The request that closes the session without completing it.
    pub fn deletion_request(&self) -> (r: DeleteUploadSessionService)
        ensures
            r.id@ == self.credential.session_id@,
            r.uri == self.remote_uri,
            self.closes(r),
    {
        DeleteUploadSessionService {
            id: self.session_id().to_owned(),
            uri: self.remote_uri.clone(),
        }
    }
}

/// What is said when a session could not be closed.
pub fn deletion_failure(cause: &str) -> (r: String)
    ensures
        r@ == "Failed to delete upload session: "@ + cause@,
{
    "Failed to delete upload session: ".to_owned().concat(cause)
}

/// How far an upload has come. `E` is what its steps fail with.
pub enum UploadStage<E> {
    /// The session is being opened.
    Creating,
    /// The chunks are being sent.
    Sending,
    /// The upload is being completed.
    Completing,
    /// The session is being closed after this failure.
    Deleting(E),
    /// The upload is over.
    Over,
}

/// What is done next for an upload.
pub enum UploadAction<E> {
    /// Send the chunks.
    SendChunks,
    /// Complete the upload.
    Complete,
    /// Close the session.
    DeleteSession,
    /// The upload ends so.
    Return(Result<(), E>),
}

/// The stage and the action that follow when the step of a stage has ended.
pub open spec fn after_step<E>(stage: UploadStage<E>, result: Result<(), E>) -> (
    UploadStage<E>,
    UploadAction<E>,
) {
    match (stage, result) {
        (UploadStage::Creating, Ok(())) => (UploadStage::Sending, UploadAction::SendChunks),
        (UploadStage::Sending, Ok(())) => (UploadStage::Completing, UploadAction::Complete),
        (UploadStage::Sending, Err(e)) => (UploadStage::Deleting(e), UploadAction::DeleteSession),
        (UploadStage::Deleting(e), _) => (UploadStage::Over, UploadAction::Return(Err(e))),
        (_, result) => (UploadStage::Over, UploadAction::Return(result)),
    }
}

impl<E> UploadStage<E> {
    /// Goes on with an upload when the step of its stage has ended. A failure to
    /// close the session changes nothing.
    pub fn step(self, result: Result<(), E>) -> (r: (UploadStage<E>, UploadAction<E>))
        ensures
            r == after_step(self, result),
    {
        match self {
            UploadStage::Creating => match result {
                Ok(()) => (UploadStage::Sending, UploadAction::SendChunks),
                Err(e) => (UploadStage::Over, UploadAction::Return(Err(e))),
            },
            UploadStage::Sending => match result {
                Ok(()) => (UploadStage::Completing, UploadAction::Complete),
                Err(e) => (UploadStage::Deleting(e), UploadAction::DeleteSession),
            },
            UploadStage::Completing => (UploadStage::Over, UploadAction::Return(result)),
            UploadStage::Deleting(e) => (UploadStage::Over, UploadAction::Return(Err(e))),
            UploadStage::Over => (UploadStage::Over, UploadAction::Return(result)),
        }
    }
}

/// How an upload ends whose steps end as given: the chunks are sent if the session
/// opens, the upload is completed if they arrive, and the session is closed if
/// they do not.
pub open spec fn upload_result<E>(
    stage: UploadStage<E>,
    created: Result<(), E>,
    sent: Result<(), E>,
    completed: Result<(), E>,
    deleted: Result<(), E>,
) -> Result<(), E>
    decreases
            (match stage {
                UploadStage::Creating => 4nat,
                UploadStage::Sending => 3nat,
                UploadStage::Completing => 2nat,
                UploadStage::Deleting(_) => 2nat,
                UploadStage::Over => 1nat,
            }),
{
    let result = match stage {
        UploadStage::Creating => created,
        UploadStage::Sending => sent,
        UploadStage::Completing => completed,
        UploadStage::Deleting(_) => deleted,
        UploadStage::Over => Ok(()),
    };
    let (next, action) = after_step(stage, result);
    match action {
        UploadAction::Return(r) => r,
        _ => upload_result(next, created, sent, completed, deleted),
    }
}

/// An upload succeeds exactly when its session opens, its chunks arrive and it is
/// completed; else it ends with the first of the failures, and never with that of
/// closing the session.
pub proof fn upload_ends_with_the_first_failure<E>(
    created: Result<(), E>,
    sent: Result<(), E>,
    completed: Result<(), E>,
    deleted: Result<(), E>,
)
    ensures
        upload_result(UploadStage::Creating, created, sent, completed, deleted)
            == if created is Err {
            created
        } else if sent is Err {
            sent
        } else {
            completed
        },
{
    reveal_with_fuel(upload_result, 4);
}

/// A session is closed exactly when it was opened and its chunks did not arrive.
pub proof fn session_is_closed_when_chunks_fail<E>(stage: UploadStage<E>, result: Result<(), E>)
    ensures
        after_step(stage, result).1 is DeleteSession <==> stage is Sending && result is Err,
        after_step(stage, result).1 is Complete <==> stage is Sending && result is Ok,
        after_step(stage, result).1 is SendChunks <==> stage is Creating && result is Ok,
{
}

/// A request asks for a new version exactly when the file is to be overwritten, whatever
/// the previous version is; it names that one exactly when it is known; and the rest it
/// says of the file as it was told.
pub proof fn request_says_what_is_to_be_uploaded(
    params: UploadParams,
    request: UploadSessionRequest,
)
    requires
        params.asks(request),
    ensures
        request.entity_type is Some <==> params.overwrite,
        request.entity_type matches Some(t) ==> t@ == "version"@,
        request.previous is Some <==> params.previous_version@.len() > 0,
        request.previous matches Some(p) ==> p@ == params.previous_version@,
        request.uri@ == params.remote_uri@,
        params.file_size <= i64::MAX ==> request.size == params.file_size,
        request.last_modified == params.last_modified,
        request.mime_type == params.mime_type,
        request.policy_id@.len() == 0,
        request.metadata is None,
        request.encryption_supported matches Some(ciphers) && ciphers@.len() == 1 && ciphers@[0]
            == EncryptionCipher::Aes256Ctr,
{
}

/// A session that is opened holds what the server said and what was to be uploaded, and
/// nothing has arrived yet. It is encrypted exactly when the server gave a key, whatever
/// the storage policy says; its chunks go through the server where there is no policy,
/// where the policy names the server or where the server relays; and a request to close
/// it names what the server named.
pub proof fn opened_session_is_what_the_server_said(
    session: UploadSession,
    params: UploadParams,
    credential: UploadCredential,
    request: DeleteUploadSessionService,
)
    requires
        params.opens(session, credential),
        session.closes(request),
    ensures
        session.id@ == credential.session_id@,
        session.credential == credential,
        session.drive_id@ == "default"@,
        session.local_path == params.local_path,
        session.remote_uri == params.remote_uri,
        session.file_size == params.file_size,
        credential.chunk_size >= 0 ==> session.chunk_size == credential.chunk_size,
        session.encrypt_metadata == credential.encrypt_metadata,
        session.expires_at == credential.expires,
        session.updated_at == session.created_at,
        session.sends_to() == match credential.storage_policy {
            None => PolicyType::Local,
            Some(p) => if p.relay == Some(true) {
                PolicyType::Local
            } else {
                p.policy_type
            },
        },
        session.policy_type == match credential.storage_policy {
            None => PolicyType::Local,
            Some(p) => p.policy_type,
        },
        session.relay <==> (credential.storage_policy matches Some(p) && p.relay == Some(true)),
        crate::uploader::laws::tracks(
            session.chunk_progress@,
            session.file_size,
            session.chunk_size,
        ),
        forall|i: int|
            0 <= i < session.chunk_progress@.len() ==> (#[trigger] session.chunk_progress@[i]).loaded
                == 0 && session.chunk_progress@[i].etag is None,
        request.id@ == credential.session_id@,
        request.uri@ == params.remote_uri@,
{
    assert(session.chunk_progress@.len() == session.chunk_progress.len());
}

/// A session runs out when its time comes, and stays so.
pub proof fn sessions_run_out_for_good(session: UploadSession, now: int, later: int)
    ensures
        session.expired_at(session.expires_at as int),
        !session.expired_at(session.expires_at - 1),
        now <= later && session.expired_at(now) ==> session.expired_at(later),
{
}

}
