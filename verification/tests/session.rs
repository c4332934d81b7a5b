use cloudreve_cli::api::models::EncryptMetadata;
use cloudreve_cli::api::models::EncryptionCipher;
use cloudreve_cli::api::models::StoragePolicy;
use cloudreve_cli::api::models::UploadCredential;
use cloudreve_cli::uploader::chunk::ChunkProgress;
use cloudreve_cli::uploader::deletion_failure;
use cloudreve_cli::uploader::providers::PolicyType;
use cloudreve_cli::uploader::session::UploadSession;
use cloudreve_cli::uploader::UploadAction;
use cloudreve_cli::uploader::UploadParams;
use cloudreve_cli::uploader::UploadStage;

fn credential(chunk_size: i64) -> UploadCredential {
    UploadCredential {
        session_id: "sid".to_string(),
        upload_urls: Some(vec!["u0".to_string(), "u1".to_string()]),
        credential: "cred".to_string(),
        callback_secret: "secret".to_string(),
        complete_url: None,
        upload_policy: Some("policy".to_string()),
        mime_type: None,
        chunk_size,
        expires: 1000,
        storage_policy: None,
        encrypt_metadata: None,
    }
}

fn open(file_size: u64, chunk_size: i64) -> UploadSession {
    UploadSession::new_at(
        "task".to_string(),
        "default".to_string(),
        "/tmp/a".to_string(),
        "cloudreve://my/a".to_string(),
        file_size,
        credential(chunk_size),
        77,
    )
}

fn params() -> UploadParams {
    UploadParams {
        local_path: "/tmp/a".to_string(),
        remote_uri: "cloudreve://my/a".to_string(),
        file_size: 10,
        mime_type: Some("text/plain".to_string()),
        last_modified: Some(5),
        overwrite: false,
        previous_version: String::new(),
    }
}

#[test]
fn file_is_cut_into_chunks() {
    let session = open(10, 4);
    assert_eq!(session.num_chunks(), 3);
    assert_eq!(session.chunk_range(0), (0, 4));
    assert_eq!(session.chunk_range(1), (4, 8));
    assert_eq!(session.chunk_range(2), (8, 10));
    assert_eq!(session.chunk_range(3), (12, 12));
    assert_eq!(session.chunk_size_for(2), 2);
    assert_eq!(session.chunk_size_for(3), 0);
    assert_eq!((0..3).map(|i| session.chunk_size_for(i)).sum::<u64>(), 10);
}

#[test]
fn chunks_are_counted() {
    assert_eq!(UploadSession::calculate_num_chunks(0, 4), 1);
    assert_eq!(UploadSession::calculate_num_chunks(7, 0), 1);
    assert_eq!(UploadSession::calculate_num_chunks(8, 4), 2);
    assert_eq!(UploadSession::calculate_num_chunks(9, 4), 3);
    assert_eq!(UploadSession::calculate_num_chunks(u64::MAX - 1, 1), usize::MAX - 1);
}

#[test]
fn file_without_a_chunk_size_is_one_chunk() {
    let session = open(10, 0);
    assert_eq!(session.num_chunks(), 1);
    assert_eq!(session.chunk_range(0), (0, 10));
    assert_eq!(session.chunk_size_for(5), 10);
}

#[test]
fn opened_session_holds_what_the_server_said() {
    let mut said = credential(4);
    said.storage_policy = Some(StoragePolicy {
        policy_type: PolicyType::External(3),
        relay: Some(true),
        streaming_encryption: Some(true),
        chunk_concurrency: Some(4),
    });
    said.encrypt_metadata = Some(EncryptMetadata {
        key_plain_text: "k".to_string(),
        iv: "v".to_string(),
    });
    said.complete_url = Some("done".to_string());
    let session = UploadSession::new_at(
        "task".to_string(),
        "default".to_string(),
        "/tmp/a".to_string(),
        "cloudreve://my/a".to_string(),
        10,
        said,
        77,
    );
    assert_eq!(session.id, "sid");
    assert_eq!(session.session_id(), "sid");
    assert_eq!(session.credential().expires, 1000);
    assert_eq!(session.policy_type(), PolicyType::External(3));
    assert!(session.is_relay());
    assert_eq!(session.effective_policy(), PolicyType::Local);
    assert!(session.supports_streaming_encryption());
    assert!(session.is_encrypted());
    assert_eq!(session.chunk_concurrency(), 4);
    assert_eq!(session.complete_url(), "done");
    assert_eq!((session.created_at, session.updated_at), (77, 77));
    assert!(session.chunk_progress.iter().all(|c| c.loaded == 0 && c.etag.is_none()));
}

#[test]
fn opened_session_without_a_policy_is_local() {
    let session = open(10, 4);
    assert_eq!(session.policy_type(), PolicyType::Local);
    assert!(!session.is_relay());
    assert!(!session.supports_streaming_encryption());
    assert!(!session.is_encrypted());
    assert_eq!(session.chunk_concurrency(), 1);
    assert_eq!(session.complete_url(), "");
    assert_eq!(session.callback_secret(), "secret");
    assert_eq!(session.credential_string(), "cred");
    assert_eq!(session.upload_policy(), Some("policy"));
    assert_eq!(session.mime_type(), None);
    assert_eq!(session.upload_url(), Some("u0"));
    assert_eq!(session.upload_url_for_chunk(1), Some("u1"));
    assert_eq!(session.upload_url_for_chunk(2), None);
}

#[test]
fn concurrency_is_at_least_one() {
    for (said, used) in [(None, 1), (Some(-3), 1), (Some(0), 1), (Some(1), 1), (Some(2), 2)] {
        let mut session = open(10, 4);
        session.credential.storage_policy = Some(StoragePolicy {
            policy_type: PolicyType::External(1),
            relay: None,
            streaming_encryption: None,
            chunk_concurrency: said,
        });
        assert_eq!(session.chunk_concurrency(), used);
        assert_eq!(session.effective_policy(), PolicyType::Local);
        session.policy_type = PolicyType::External(1);
        assert_eq!(session.effective_policy(), PolicyType::External(1));
    }
}

#[test]
fn sessions_expire() {
    let session = open(10, 4);
    assert!(!session.is_expired_at(999));
    assert!(session.is_expired_at(1000));
    assert!(session.is_expired_at(1001));
    assert!(session.is_expired());
    let mut session = session;
    for (expires_at, expired) in
        [(i64::MIN, true), (0, true), (8_210_266_876_800, false), (i64::MAX, false)]
    {
        session.expires_at = expires_at;
        assert_eq!(session.is_expired(), expired);
    }
}

#[test]
fn session_opened_now_lies_after_1970() {
    let session = UploadSession::new(
        "task".to_string(),
        "default".to_string(),
        "/tmp/a".to_string(),
        "cloudreve://my/a".to_string(),
        10,
        credential(4),
    );
    assert!(session.created_at > 1_000_000_000);
    assert_eq!(session.created_at, session.updated_at);
}

#[test]
fn progress_is_noted_chunk_by_chunk() {
    let mut session = open(10, 4);
    assert_eq!(session.pending_chunks(), vec![0, 1, 2]);
    assert!(!session.all_chunks_complete());
    session.complete_chunk_at(1, Some("tag".to_string()), 80);
    assert_eq!(session.pending_chunks(), vec![0, 2]);
    assert_eq!(session.total_uploaded(), 4);
    assert_eq!(session.progress(), (4, 10));
    assert_eq!(session.updated_at, 80);
    session.complete_chunk_at(2, None, 81);
    assert_eq!(session.total_uploaded(), 6);
    session.update_chunk_progress_at(0, 3, None, 82);
    assert_eq!(session.total_uploaded(), 9);
    assert!(session.all_chunks_complete());
    assert!(session.pending_chunks().is_empty());
    session.complete_chunk_at(0, None, 83);
    assert_eq!(session.progress(), (10, 10));
}

#[test]
fn total_is_the_sum_over_the_complete_chunks() {
    let mut session = open(18, 4);
    for i in [4, 1, 4, 9, 1] {
        session.complete_chunk_at(i, None, 80);
    }
    assert_eq!(session.total_uploaded(), 4 + 2);
    session.complete_chunk_at(0, None, 81);
    assert_eq!(session.total_uploaded(), 4 + 4 + 2);
}

#[test]
fn tag_stays_until_another_comes() {
    let mut session = open(10, 4);
    session.update_chunk_progress_at(0, 1, Some("one".to_string()), 80);
    session.update_chunk_progress_at(0, 2, None, 81);
    assert_eq!(session.chunk_progress[0].etag.as_deref(), Some("one"));
    session.complete_chunk_at(0, Some("two".to_string()), 82);
    assert_eq!(session.chunk_progress[0].etag.as_deref(), Some("two"));
}

#[test]
fn unknown_chunk_changes_nothing() {
    let mut session = open(10, 4);
    session.complete_chunk_at(3, None, 80);
    session.update_chunk_progress_at(7, 9, None, 80);
    session.complete_chunk(usize::MAX, None);
    session.update_chunk_progress(3, 9, None);
    assert_eq!(session.updated_at, 77);
    assert_eq!(session.total_uploaded(), 0);
}

#[test]
fn progress_noted_now_moves_the_time() {
    let mut session = open(10, 4);
    session.update_chunk_progress(0, 4, None);
    assert!(session.updated_at > 1_000_000_000);
    session.updated_at = 0;
    session.complete_chunk(1, None);
    assert!(session.updated_at > 1_000_000_000);
    assert_eq!(session.total_uploaded(), 8);
}

#[test]
fn chunk_of_an_empty_file_stays_pending() {
    let mut session = open(0, 4);
    assert_eq!(session.num_chunks(), 1);
    session.complete_chunk_at(0, None, 80);
    assert_eq!(session.pending_chunks(), vec![0]);
    assert_eq!(session.progress(), (1, 1));
}

#[test]
fn chunk_is_complete_once_a_byte_is_there() {
    let mut chunk = ChunkProgress::new(4);
    assert_eq!(chunk.index, 4);
    assert!(!chunk.is_complete());
    chunk.loaded = 1;
    assert!(chunk.is_complete());
}

#[test]
fn session_is_asked_for() {
    let request = params().session_request();
    assert_eq!(request.uri, "cloudreve://my/a");
    assert_eq!(request.size, 10);
    assert_eq!(request.policy_id, "");
    assert_eq!(request.last_modified, Some(5));
    assert_eq!(request.previous, None);
    assert_eq!(request.entity_type, None);
    assert_eq!(request.mime_type.as_deref(), Some("text/plain"));
    assert!(request.metadata.is_none());
    assert_eq!(request.encryption_supported, Some(vec![EncryptionCipher::Aes256Ctr]));
}

#[test]
fn overwriting_asks_for_a_version() {
    let mut params = params();
    params.overwrite = true;
    params.previous_version = "v1".to_string();
    params.file_size = 1 << 40;
    let request = params.session_request();
    assert_eq!(request.entity_type.as_deref(), Some("version"));
    assert_eq!(request.previous.as_deref(), Some("v1"));
    assert_eq!(request.size, 1 << 40);
}

#[test]
fn session_is_created_as_a_task_of_its_own() {
    let session = params().create_session(credential(4));
    assert_eq!(session.drive_id, "default");
    assert_eq!(session.local_path, "/tmp/a");
    assert_eq!(session.remote_uri, "cloudreve://my/a");
    assert_eq!(session.num_chunks(), 3);
    let id: Vec<char> = session.task_id.chars().collect();
    assert_eq!(id.len(), 36);
    for (i, c) in id.iter().enumerate() {
        if [8, 13, 18, 23].contains(&i) {
            assert_eq!(*c, '-');
        } else {
            assert!(c.is_ascii_digit() || ('a'..='f').contains(c));
        }
    }
    assert_eq!(id[14], '4');
    assert!(['8', '9', 'a', 'b'].contains(&id[19]));
    assert_ne!(params().create_session(credential(4)).task_id, session.task_id);
}

#[test]
fn session_is_created_at_a_time() {
    let session = params().create_session_at(credential(4), "t".to_string(), 9);
    assert_eq!(session.task_id, "t");
    assert_eq!(session.created_at, 9);
    assert_eq!(session.drive_id, "default");
}

#[test]
fn session_is_closed_by_its_name() {
    let request = open(10, 4).deletion_request();
    assert_eq!(request.id, "sid");
    assert_eq!(request.uri, "cloudreve://my/a");
    assert_eq!(deletion_failure("gone"), "Failed to delete upload session: gone");
}

fn run(
    created: Result<(), &'static str>,
    sent: Result<(), &'static str>,
    completed: Result<(), &'static str>,
    deleted: Result<(), &'static str>,
) -> (Result<(), &'static str>, Vec<&'static str>) {
    let mut steps = vec!["create"];
    let (mut stage, mut action) = UploadStage::Creating.step(created);
    loop {
        let result = match action {
            UploadAction::SendChunks => {
                steps.push("send");
                sent
            }
            UploadAction::Complete => {
                steps.push("complete");
                completed
            }
            UploadAction::DeleteSession => {
                steps.push("delete");
                deleted
            }
            UploadAction::Return(result) => return (result, steps),
        };
        (stage, action) = stage.step(result);
    }
}

#[test]
fn upload_ends_well_when_every_step_does() {
    assert_eq!(run(Ok(()), Ok(()), Ok(()), Err("d")), (Ok(()), vec!["create", "send", "complete"]));
}

#[test]
fn upload_ends_with_its_first_failure() {
    assert_eq!(run(Err("c"), Ok(()), Ok(()), Ok(())), (Err("c"), vec!["create"]));
    assert_eq!(
        run(Ok(()), Err("s"), Ok(()), Ok(())),
        (Err("s"), vec!["create", "send", "delete"])
    );
    assert_eq!(
        run(Ok(()), Err("s"), Ok(()), Err("d")),
        (Err("s"), vec!["create", "send", "delete"])
    );
    assert_eq!(
        run(Ok(()), Ok(()), Err("f"), Ok(())),
        (Err("f"), vec!["create", "send", "complete"])
    );
}
