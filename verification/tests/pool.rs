use base64::engine::general_purpose::STANDARD;
use base64::Engine;
use cloudreve_cli::api::models::EncryptMetadata;
use cloudreve_cli::api::models::StoragePolicy;
use cloudreve_cli::api::models::UploadCredential;
use cloudreve_cli::uploader::chunk::ChunkInfo;
use cloudreve_cli::uploader::error::UploadError;
use cloudreve_cli::uploader::pool::chunk_infos;
use cloudreve_cli::uploader::pool::missing_starts_fit;
use cloudreve_cli::uploader::pool::plan_upload;
use cloudreve_cli::uploader::pool::plan_with;
use cloudreve_cli::uploader::pool::try_plan_upload;
use cloudreve_cli::uploader::pool::PoolPlan;
use cloudreve_cli::uploader::pool::UploadPlan;
use cloudreve_cli::uploader::pool::UploadPoolState;
use cloudreve_cli::uploader::pool::WorkerAction;
use cloudreve_cli::uploader::progress::ProgressTracker;
use cloudreve_cli::uploader::providers::PolicyType;
use cloudreve_cli::uploader::retry::ChunkAttempts;
use cloudreve_cli::uploader::retry::ChunkFailure;
use cloudreve_cli::uploader::retry::RetryAction;
use cloudreve_cli::uploader::session::UploadSession;
use cloudreve_cli::uploader::Delay;
use cloudreve_cli::uploader::UploaderConfig;

fn open(file_size: u64, chunk_size: i64, concurrency: i32) -> UploadSession {
    UploadSession::new_at(
        "task".to_string(),
        "default".to_string(),
        "/tmp/a".to_string(),
        "cloudreve://my/a".to_string(),
        file_size,
        UploadCredential {
            session_id: "sid".to_string(),
            upload_urls: None,
            credential: String::new(),
            callback_secret: String::new(),
            complete_url: None,
            upload_policy: None,
            mime_type: None,
            chunk_size,
            expires: 1000,
            storage_policy: Some(StoragePolicy {
                policy_type: PolicyType::Local,
                relay: None,
                streaming_encryption: None,
                chunk_concurrency: Some(concurrency),
            }),
            encrypt_metadata: None,
        },
        77,
    )
}

fn plan(session: &UploadSession) -> PoolPlan {
    match plan_with(session, None) {
        UploadPlan::Run(plan) => plan,
        UploadPlan::AllUploaded => panic!("nothing to do"),
    }
}

#[test]
fn chunks_get_their_places() {
    let session = open(10, 4, 1);
    assert_eq!(
        chunk_infos(&session, &vec![2, 0]),
        vec![
            ChunkInfo { index: 2, size: 2, offset: 8 },
            ChunkInfo { index: 0, size: 4, offset: 0 },
        ]
    );
}

#[test]
fn queue_is_dealt_out_in_order() {
    let chunk = |index| ChunkInfo::new(index, 0, 1);
    let mut state = UploadPoolState::new(vec![chunk(3), chunk(5)]);
    assert_eq!(state.next_chunk(false), None);
    assert_eq!(state.next_chunk(true), Some(chunk(3)));
    assert_eq!(state.claim_worker(true), Some(chunk(5)));
    assert_eq!(state.active_count(), 1);
    assert_eq!(state.claim_worker(true), None);
    assert_eq!(state.active_count(), 1);
}

#[test]
fn last_worker_wakes_who_waits() {
    let mut state = UploadPoolState::new(vec![]);
    assert!(state.is_completed());
    state.worker_started();
    state.worker_started();
    assert!(!state.worker_done());
    assert!(!state.is_completed());
    assert!(state.worker_done());
    assert!(state.is_completed());
}

#[test]
fn first_cause_is_kept() {
    let mut state = UploadPoolState::new(vec![]);
    state.set_error("unseen".to_string(), false);
    assert!(state.has_error());
    assert_eq!(state.get_error(true), None);
    state.set_error("first".to_string(), true);
    state.set_error("second".to_string(), true);
    assert_eq!(state.get_error(true).as_deref(), Some("first"));
    assert_eq!(state.get_error(false), None);
}

#[test]
fn workers_send_what_is_missing() {
    let mut session = open(10, 4, 2);
    session.complete_chunk_at(1, Some("old".to_string()), 78);
    let mut plan = plan(&session);
    assert_eq!(plan.concurrency, 2);
    assert_eq!(plan.pool.tracker.total_uploaded(), 4);
    let mut running: Vec<ChunkInfo> = Vec::new();
    for _ in 0..plan.concurrency {
        if let Some(chunk) = plan.pool.state.claim_worker(true) {
            running.push(chunk);
        }
    }
    assert_eq!(running.iter().map(|c| c.index).collect::<Vec<_>>(), vec![0, 2]);
    let mut woken = 0;
    for chunk in running {
        match plan.pool.begin_chunk(chunk, false) {
            WorkerAction::Send(c) => assert_eq!(c, chunk),
            _ => panic!("not sent"),
        }
        let tag = Some(format!("tag{}", chunk.index));
        match plan.pool.chunk_uploaded_at(&chunk, tag, true, 90) {
            WorkerAction::Stop { wake } => woken += wake as usize,
            _ => panic!("goes on"),
        }
    }
    assert_eq!(woken, 1);
    assert!(plan.pool.finish(&mut session, true).is_ok());
    assert!(session.all_chunks_complete());
    assert_eq!(session.total_uploaded(), 10);
    assert_eq!(session.updated_at, 90);
    assert_eq!(session.chunk_progress[1].etag.as_deref(), Some("old"));
    assert_eq!(session.chunk_progress[2].etag.as_deref(), Some("tag2"));
}

#[test]
fn worker_goes_on_with_the_next_chunk() {
    let session = open(10, 4, 1);
    let mut plan = plan(&session);
    let first = plan.pool.state.claim_worker(true).unwrap();
    plan.pool.begin_chunk(first, false);
    match plan.pool.chunk_uploaded(&first, None, true) {
        WorkerAction::GoOn(next) => assert_eq!(next, ChunkInfo::new(1, 4, 4)),
        _ => panic!("stops"),
    }
    assert!(plan.pool.progress.updated_at > 1_000_000_000);
    match plan.pool.chunk_uploaded(&ChunkInfo::new(1, 4, 4), None, false) {
        WorkerAction::Stop { wake } => assert!(wake),
        _ => panic!("goes on"),
    }
}

#[test]
fn failure_stops_the_upload() {
    let mut session = open(10, 4, 2);
    let mut plan = plan(&session);
    let one = plan.pool.state.claim_worker(true).unwrap();
    let two = plan.pool.state.claim_worker(true).unwrap();
    plan.pool.begin_chunk(one, false);
    match plan.pool.chunk_failed("broken".to_string(), true) {
        WorkerAction::CancelAndStop { wake } => assert!(!wake),
        _ => panic!("goes on"),
    }
    match plan.pool.begin_chunk(two, false) {
        WorkerAction::Stop { wake } => assert!(wake),
        _ => panic!("goes on"),
    }
    assert_eq!(
        plan.pool.finish(&mut session, true),
        Err("Upload failed: broken".to_string())
    );
    assert_eq!(session.pending_chunks(), vec![0, 1, 2]);
}

#[test]
fn cancelled_upload_begins_nothing() {
    let session = open(10, 4, 1);
    let mut plan = plan(&session);
    let one = plan.pool.state.claim_worker(true).unwrap();
    assert!(matches!(
        plan.pool.begin_chunk(one, true),
        WorkerAction::Stop { wake: true }
    ));
    assert_eq!(plan.pool.tracker.active_chunks, 0);
}

#[test]
fn uploaded_file_needs_no_workers() {
    let mut session = open(10, 4, 1);
    for i in 0..3 {
        session.complete_chunk_at(i, None, 80);
    }
    assert!(matches!(plan_upload(&session), Ok(UploadPlan::AllUploaded)));
    session.encrypt_metadata = Some(EncryptMetadata {
        key_plain_text: "?".to_string(),
        iv: "?".to_string(),
    });
    assert!(matches!(plan_upload(&session), Err(UploadError::EncryptionError(_))));
}

#[test]
fn encrypted_session_is_planned_with_its_cipher() {
    let mut session = open(10, 4, 1);
    assert!(matches!(
        plan_upload(&session),
        Ok(UploadPlan::Run(PoolPlan { encryption: None, .. }))
    ));
    session.encrypt_metadata = Some(EncryptMetadata {
        key_plain_text: STANDARD.encode([7u8; 32]),
        iv: STANDARD.encode([9u8; 16]),
    });
    assert!(matches!(
        plan_upload(&session),
        Ok(UploadPlan::Run(PoolPlan { encryption: Some(_), .. }))
    ));
}

#[test]
fn resumed_tracker_counts_what_arrived() {
    let mut session = open(10, 4, 1);
    session.complete_chunk_at(0, None, 80);
    session.complete_chunk_at(2, None, 80);
    let tracker = plan(&session).pool.tracker;
    assert_eq!(tracker.uploaded_bytes, 6);
    assert_eq!(tracker.completed_chunks, 2);
    assert_eq!(tracker.active_chunks, u64::MAX - 1);
}

fn config(max_retries: u32) -> UploaderConfig {
    UploaderConfig { max_retries, ..UploaderConfig::default() }
}

#[test]
fn uploader_has_defaults() {
    let config = UploaderConfig::default();
    assert_eq!(config.max_retries, 3);
    assert_eq!(config.retry_base_delay, Delay::from_secs(1));
    assert_eq!(config.retry_max_delay, Delay::from_millis(30_000));
    assert_eq!(config.request_timeout.as_millis(), 60_000);
}

#[test]
fn waits_double_up_to_the_longest() {
    let mut waits = Vec::new();
    for attempt in 0..14 {
        let attempts = ChunkAttempts { config: config(20), attempt };
        waits.push(attempts.delay().as_millis());
    }
    assert_eq!(waits[..6], [1000, 2000, 4000, 8000, 16_000, 30_000]);
    assert!(waits[6..].iter().all(|w| *w == 30_000));
    let long = UploaderConfig { retry_max_delay: Delay::from_secs(1 << 40), ..config(20) };
    assert_eq!(ChunkAttempts { config: long, attempt: 10 }.delay().as_millis(), 1_024_000);
    assert_eq!(ChunkAttempts { config: long, attempt: 17 }.delay().as_millis(), 1_024_000);
}

#[test]
fn chunk_is_given_up_after_its_retries() {
    let mut tracker = ProgressTracker::new(10, 1);
    let mut attempts = ChunkAttempts::new(config(2));
    let mut sends = 0;
    let mut action = attempts.begin(false);
    let failure = loop {
        action = match action {
            RetryAction::Wait(_) => attempts.waited(false),
            RetryAction::Send => {
                sends += 1;
                tracker.add_bytes(5);
                attempts.send_failed(&mut tracker, 5, format!("try {}", sends), false)
            }
            RetryAction::Done(_) => panic!("arrived"),
            RetryAction::Fail(failure) => break failure,
        };
    };
    assert_eq!(sends, 3);
    assert_eq!(failure.message(), "try 3");
    assert_eq!(tracker.total_uploaded(), 0);
}

#[test]
fn cancelling_ends_the_attempts() {
    let mut tracker = ProgressTracker::new(10, 1);
    let mut attempts = ChunkAttempts::new(config(2));
    assert!(matches!(attempts.begin(true), RetryAction::Fail(ChunkFailure::Cancelled)));
    match attempts.send_failed(&mut tracker, 0, "why".to_string(), true) {
        RetryAction::Fail(f) => assert_eq!(f.message(), "Upload cancelled"),
        _ => panic!("goes on"),
    }
    match attempts.waited(true) {
        RetryAction::Fail(f) => assert_eq!(f.message(), "Upload cancelled during retry delay"),
        _ => panic!("goes on"),
    }
}

#[test]
fn unreadable_file_is_not_retried() {
    match ChunkAttempts::new(config(2)).stream_failed("no such file") {
        RetryAction::Fail(f) => assert_eq!(
            f.message(),
            "Failed to read file: Failed to create stream: no such file"
        ),
        _ => panic!("goes on"),
    }
}

#[test]
fn arrived_chunk_keeps_its_tag() {
    match ChunkAttempts::new(config(2)).sent(Some("tag".to_string())) {
        RetryAction::Done(tag) => assert_eq!(tag.as_deref(), Some("tag")),
        _ => panic!("goes on"),
    }
}

#[test]
fn every_chunk_is_sent_by_one_worker() {
    let mut session = open(19, 4, 3);
    let mut plan = plan(&session);
    let mut running: Vec<ChunkInfo> = Vec::new();
    while let Some(chunk) = plan.pool.state.claim_worker(true) {
        running.push(chunk);
        if running.len() == plan.concurrency {
            break;
        }
    }
    let mut sent: Vec<usize> = Vec::new();
    while let Some(chunk) = running.pop() {
        assert!(matches!(plan.pool.begin_chunk(chunk, false), WorkerAction::Send(_)));
        sent.push(chunk.index);
        if let WorkerAction::GoOn(next) = plan.pool.chunk_uploaded_at(&chunk, None, true, 90) {
            running.push(next);
        }
    }
    sent.sort();
    assert_eq!(sent, vec![0, 1, 2, 3, 4]);
    assert!(plan.pool.state.is_completed());
    assert!(plan.pool.finish(&mut session, true).is_ok());
    assert_eq!(session.total_uploaded(), 19);
    assert!(session.pending_chunks().is_empty());
}

#[test]
fn chunk_that_no_worker_could_take_stays_pending() {
    let mut session = open(8, 4, 1);
    let mut plan = plan(&session);
    let first = plan.pool.state.claim_worker(true).unwrap();
    plan.pool.begin_chunk(first, false);
    assert!(matches!(
        plan.pool.chunk_uploaded_at(&first, None, false, 90),
        WorkerAction::Stop { wake: true }
    ));
    assert!(plan.pool.finish(&mut session, true).is_ok());
    assert_eq!(session.pending_chunks(), vec![1]);
}

#[test]
fn chunk_beyond_every_file_has_no_plan() {
    let mut session = open(10, 4, 1);
    assert!(missing_starts_fit(&session));
    assert!(matches!(try_plan_upload(&session), Some(Ok(UploadPlan::Run(_)))));
    session.chunk_progress[1].index = usize::MAX;
    assert!(!missing_starts_fit(&session));
    assert!(try_plan_upload(&session).is_none());
    session.encrypt_metadata = Some(EncryptMetadata {
        key_plain_text: "?".to_string(),
        iv: "?".to_string(),
    });
    assert!(matches!(
        try_plan_upload(&session),
        Some(Err(UploadError::EncryptionError(_)))
    ));
    assert!(matches!(plan_upload(&session), Err(UploadError::EncryptionError(_))));
    session.encrypt_metadata = None;
    session.chunk_size = 0;
    assert!(missing_starts_fit(&session));
}

#[test]
fn empty_file_is_sent_once() {
    let mut session = open(0, 4, 3);
    let mut plan = plan(&session);
    let chunk = plan.pool.state.claim_worker(true).unwrap();
    assert_eq!(plan.pool.state.claim_worker(true), None);
    plan.pool.begin_chunk(chunk, false);
    assert!(matches!(
        plan.pool.chunk_uploaded_at(&chunk, Some("tag".to_string()), true, 90),
        WorkerAction::Stop { wake: true }
    ));
    assert!(plan.pool.finish(&mut session, true).is_ok());
    assert_eq!(session.chunk_progress[0].loaded, 0);
    assert_eq!(session.chunk_progress[0].etag.as_deref(), Some("tag"));
}

#[test]
fn no_more_workers_start_than_are_allowed() {
    let chunk = |index| ChunkInfo::new(index, 0, 1);
    let mut state = UploadPoolState::new(vec![chunk(3), chunk(5), chunk(8)]);
    assert_eq!(state.claim_workers(0), vec![]);
    assert_eq!(state.claim_workers(2), vec![chunk(3), chunk(5)]);
    assert_eq!(state.active_count(), 2);
    assert_eq!(state.claim_workers(7), vec![chunk(8)]);
    assert_eq!(state.active_count(), 3);
    assert_eq!(state.pending_chunks, vec![]);
}

#[test]
fn failed_upload_keeps_what_arrived() {
    let mut session = open(10, 4, 3);
    let mut plan = plan(&session);
    let chunks = plan.pool.state.claim_workers(plan.concurrency);
    for chunk in &chunks {
        plan.pool.begin_chunk(*chunk, false);
    }
    plan.pool.chunk_failed("first".to_string(), true);
    plan.pool.chunk_uploaded_at(&chunks[2], Some("tag".to_string()), true, 90);
    plan.pool.chunk_failed("second".to_string(), true);
    assert!(plan.pool.state.is_completed());
    assert_eq!(
        plan.pool.finish(&mut session, true),
        Err("Upload failed: first".to_string())
    );
    assert_eq!(session.pending_chunks(), vec![0, 1]);
    assert_eq!(session.chunk_progress[2].loaded, 2);
    assert_eq!(session.chunk_progress[2].etag.as_deref(), Some("tag"));
}

#[test]
fn wait_matters_only_where_one_is_due() {
    let long = UploaderConfig { retry_base_delay: Delay::from_secs(u64::MAX / 1000), ..config(2) };
    assert!(long.can_wait(0));
    assert!(!long.can_wait(1));
    assert!(!long.can_wait(40));
    assert!(config(2).can_wait(40));
    let mut attempts = ChunkAttempts::new(long);
    assert!(matches!(attempts.begin(false), RetryAction::Send));
    let mut tracker = ProgressTracker::new(10, 1);
    assert!(matches!(
        attempts.send_failed(&mut tracker, 0, "why".to_string(), true),
        RetryAction::Fail(ChunkFailure::Cancelled)
    ));
    let mut last = ChunkAttempts { config: long, attempt: 2 };
    match last.send_failed(&mut tracker, 0, "why".to_string(), false) {
        RetryAction::Fail(f) => assert_eq!(f.message(), "why"),
        _ => panic!("goes on"),
    }
}
