use cloudreve_cli::uploader::error::UploadError;
use cloudreve_cli::uploader::progress::byte_unit;
use cloudreve_cli::uploader::progress::format_bytes;
use cloudreve_cli::uploader::progress::format_eta;
use cloudreve_cli::uploader::progress::format_speed;
use cloudreve_cli::uploader::progress::ByteUnit;
use cloudreve_cli::uploader::progress::NoOpProgress;
use cloudreve_cli::uploader::progress::ProgressCallback;
use cloudreve_cli::uploader::progress::ProgressTracker;
use cloudreve_cli::uploader::progress::ProgressUpdate;
use cloudreve_cli::uploader::progress::SpeedCalculator;
use cloudreve_cli::uploader::progress::SpeedSample;
use cloudreve_cli::uploader::progress::StreamProgress;
use std::sync::Arc;
use std::sync::Mutex;

const MILLI: u128 = 1_000_000;
const SECOND: u128 = 1_000_000_000;

#[test]
fn bytes_get_the_largest_unit_that_they_fill() {
    assert_eq!(byte_unit(0), ByteUnit::B);
    assert_eq!(byte_unit(1023), ByteUnit::B);
    assert_eq!(byte_unit(1024), ByteUnit::KB);
    assert_eq!(byte_unit((1 << 20) - 1), ByteUnit::KB);
    assert_eq!(byte_unit(1 << 20), ByteUnit::MB);
    assert_eq!(byte_unit(1 << 30), ByteUnit::GB);
    assert_eq!(byte_unit(1 << 40), ByteUnit::TB);
    assert_eq!(byte_unit(u64::MAX), ByteUnit::TB);
    assert_eq!(ByteUnit::MB.size(), 1 << 20);
}

#[test]
fn bytes_are_written_with_their_unit() {
    assert_eq!(format_bytes(0, ""), "0 B");
    assert_eq!(format_bytes(1023, ""), "1023 B");
    assert_eq!(format_bytes(1536, "1.50"), "1.50 KB");
    assert_eq!(format_bytes(5 << 20, "5.00"), "5.00 MB");
    assert_eq!(format_bytes(1 << 30, "1.00"), "1.00 GB");
    assert_eq!(format_bytes(1 << 40, "1.00"), "1.00 TB");
    assert_eq!(format_speed(1536, "1.50"), "1.50 KB/s");
    assert_eq!(format_speed(7, ""), "7 B/s");
}

#[test]
fn time_to_go_is_written_in_parts() {
    assert_eq!(format_eta(None), "N/A");
    assert_eq!(format_eta(Some(0)), "0s");
    assert_eq!(format_eta(Some(59)), "59s");
    assert_eq!(format_eta(Some(60)), "1m 0s");
    assert_eq!(format_eta(Some(3599)), "59m 59s");
    assert_eq!(format_eta(Some(3600)), "1h 0m 0s");
    assert_eq!(format_eta(Some(90_061)), "25h 1m 1s");
}

#[test]
fn update_tells_share_and_time_to_go() {
    let update = ProgressUpdate::new(1000, 250, 100, 2, 10, 3);
    assert_eq!(update.progress(), (250, 1000));
    assert_eq!(update.eta_seconds, Some(7));
    assert_eq!(ProgressUpdate::new(1000, 250, 0, 2, 10, 3).eta_seconds, None);
    assert_eq!(ProgressUpdate::new(1000, 1000, 5, 2, 10, 3).eta_seconds, None);
    assert_eq!(ProgressUpdate::new(1000, 1200, 5, 2, 10, 3).progress(), (1000, 1000));
    assert_eq!(ProgressUpdate::new(0, 0, 5, 2, 10, 3).progress(), (1, 1));
}

#[test]
fn update_is_described_in_a_line() {
    let update = ProgressUpdate::new(4096, 1024, 1024, 2, 4, 1);
    assert_eq!(
        update.describe("25.0", "1.00", "4.00", "1.00"),
        "Progress: 25.0% (1.00 KB / 4.00 KB) @ 1.00 KB/s | ETA: 3s | Chunks: 1/4 (2 active)"
    );
}

#[test]
fn speed_is_measured_over_the_window() {
    let mut calc = SpeedCalculator::new();
    assert_eq!(calc.record_and_calculate(20 * SECOND, 100), None);
    assert_eq!(calc.record_and_calculate(20 * SECOND + MILLI - 1, 150), None);
    assert_eq!(
        calc.record_and_calculate(21 * SECOND, 300),
        Some(SpeedSample { bytes: 200, nanos: SECOND })
    );
    assert_eq!(
        calc.record_and_calculate(30 * SECOND, 400),
        Some(SpeedSample { bytes: 300, nanos: 10 * SECOND })
    );
    assert_eq!(
        calc.record_and_calculate(31 * SECOND, 1000),
        Some(SpeedSample { bytes: 700, nanos: 10 * SECOND })
    );
    assert_eq!(calc.record_and_calculate(100 * SECOND, 2000), None);
}

#[test]
fn speed_of_a_shrinking_count_is_zero() {
    let mut calc = SpeedCalculator::new();
    calc.record_and_calculate(0, 500);
    assert_eq!(
        calc.record_and_calculate(SECOND, 400),
        Some(SpeedSample { bytes: 0, nanos: SECOND })
    );
}

#[test]
fn tracker_counts_chunks_and_bytes() {
    let mut tracker = ProgressTracker::new(100, 4);
    tracker.start_chunk();
    tracker.start_chunk();
    tracker.add_bytes(40);
    tracker.complete_chunk();
    assert_eq!(tracker.total_uploaded(), 40);
    let reading = tracker.measure(5);
    assert_eq!(reading.uploaded, 40);
    assert_eq!(reading.growth, None);
    let update = tracker.create_update(reading, 20);
    assert_eq!(update.concurrent_chunks, 1);
    assert_eq!(update.completed_chunks, 1);
    assert_eq!(update.total_chunks, 4);
    assert_eq!(update.uploaded, 40);
    assert_eq!(update.total_size, 100);
    assert_eq!(update.speed_bytes_per_sec, 20);
    assert_eq!(update.eta_seconds, Some(3));
    assert_eq!(tracker.cached_speed, 20);
}

#[test]
fn failed_attempt_takes_its_bytes_back() {
    let mut tracker = ProgressTracker::new(100, 4);
    tracker.add_bytes(10);
    let mut stream = StreamProgress::new();
    for len in [3, 0, 20] {
        stream.on_bytes(&mut tracker, len);
    }
    assert_eq!(tracker.total_uploaded(), 33);
    assert_eq!(stream.bytes_sent, 23);
    tracker.reset_chunk_bytes(stream.bytes_sent);
    assert_eq!(tracker.total_uploaded(), 10);
    tracker.reset_chunk_bytes(11);
    assert_eq!(tracker.total_uploaded(), u64::MAX);
}

struct Kept(Mutex<Vec<u64>>);

impl ProgressCallback for Kept {
    fn on_progress(&self, update: ProgressUpdate) {
        self.0.lock().unwrap().push(update.uploaded);
    }
}

#[test]
fn shared_listener_hears_what_its_owner_would() {
    let update = ProgressUpdate::new(10, 7, 0, 0, 1, 0);
    let kept = Arc::new(Kept(Mutex::new(Vec::new())));
    ProgressCallback::on_progress(&kept, update);
    NoOpProgress.on_progress(update);
    assert_eq!(*kept.0.lock().unwrap(), vec![7]);
}

#[test]
fn errors_say_what_happened() {
    let c = || "why".to_string();
    for (error, text) in [
        (UploadError::SessionCreationFailed(c()), "Failed to create upload session: why"),
        (UploadError::ChunkUploadFailed(12, c()), "Failed to upload chunk 12: why"),
        (UploadError::CompletionFailed(c()), "Failed to complete upload: why"),
        (UploadError::FileReadError(c()), "Failed to read file: why"),
        (UploadError::SessionDeletionFailed(c()), "Failed to delete session: why"),
        (UploadError::EncryptionError(c()), "Encryption error: why"),
        (UploadError::IoError(c()), "IO error: why"),
        (UploadError::RequestError(c()), "Request error: why"),
    ] {
        assert_eq!(error.message(), text);
    }
}
