use cloudreve_cli::commands::upload;
use cloudreve_cli::commands::upload::create_upload_stream;
use cloudreve_cli::commands::upload::guess_mime_type;
use cloudreve_cli::commands::upload::normalize_remote_path;
use cloudreve_cli::commands::upload::walk_item;
use cloudreve_cli::commands::upload::BarChange;
use cloudreve_cli::commands::upload::LocalFile;
use cloudreve_cli::commands::upload::LocalKind;
use cloudreve_cli::commands::upload::LocalPath;
use cloudreve_cli::commands::upload::OutputLine;
use cloudreve_cli::commands::upload::RunAction;
use cloudreve_cli::commands::upload::UploadRun;
use cloudreve_cli::commands::upload::UploadStream;
use cloudreve_cli::commands::upload::WalkEntry;
use cloudreve_cli::text;
use cloudreve_cli::uploader::progress::ProgressUpdate;

#[test]
fn remote_paths_are_normalized() {
    for (path, uri) in [
        ("cloudreve://my/a", "cloudreve://my/a"),
        ("cloudreve://", "cloudreve://"),
        ("/a/b", "cloudreve://my/a/b"),
        ("//a", "cloudreve://my//a"),
        ("a/b/", "cloudreve://my/a/b/"),
        ("", "cloudreve://my/"),
        ("/", "cloudreve://my/"),
        ("cloudreve:/x", "cloudreve://my/cloudreve:/x"),
    ] {
        assert_eq!(normalize_remote_path(path), uri);
        assert_eq!(normalize_remote_path(uri), uri);
        assert!(normalize_remote_path(path).starts_with("cloudreve://"));
    }
    assert_eq!(normalize_remote_path("/x/y"), normalize_remote_path("x/y"));
}

fn local(kind: LocalKind, name: Option<&str>) -> LocalPath {
    LocalPath { shown: "/tmp/x".to_string(), kind, name: name.map(|n| n.to_string()) }
}

#[test]
fn single_file_goes_below_the_remote_path() {
    for base in ["cloudreve://my", "cloudreve://my/", "cloudreve://my///"] {
        for recursive in [false, true] {
            match create_upload_stream(&local(LocalKind::File, Some("a.txt")), recursive, base) {
                UploadStream::One(uri) => assert_eq!(uri, "cloudreve://my/a.txt"),
                _ => panic!("another stream"),
            }
        }
    }
}

#[test]
fn directory_is_walked_only_if_asked_for() {
    let dir = local(LocalKind::Directory, Some("x"));
    assert!(matches!(
        create_upload_stream(&dir, true, "cloudreve://my"),
        UploadStream::Walk
    ));
    match create_upload_stream(&dir, false, "cloudreve://my") {
        UploadStream::Refused(e) => {
            assert_eq!(e, "/tmp/x is a directory, use -r for recursive upload")
        }
        _ => panic!("another stream"),
    }
}

#[test]
fn missing_file_and_missing_name_are_refused() {
    match create_upload_stream(&local(LocalKind::Neither, Some("x")), true, "b") {
        UploadStream::Refused(e) => assert_eq!(e, "File not found: /tmp/x"),
        _ => panic!("another stream"),
    }
    match create_upload_stream(&local(LocalKind::File, None), false, "b") {
        UploadStream::Refused(e) => assert_eq!(e, "File has no name"),
        _ => panic!("another stream"),
    }
}

#[test]
fn walk_uploads_files_only() {
    let base = "cloudreve://my/d/";
    let entries = [
        WalkEntry::Other,
        WalkEntry::File(Some("a".to_string())),
        WalkEntry::Unreadable,
        WalkEntry::File(Some("s/b".to_string())),
        WalkEntry::File(None),
    ];
    let items: Vec<Result<String, String>> =
        entries.iter().filter_map(|e| walk_item(e, base)).collect();
    assert_eq!(
        items,
        vec![
            Ok("cloudreve://my/d/a".to_string()),
            Ok("cloudreve://my/d/s/b".to_string()),
            Err("Failed to compute relative path".to_string()),
        ]
    );
}

#[test]
fn uri_of_the_bare_scheme_loses_its_slashes() {
    let entry = WalkEntry::File(Some("a".to_string()));
    assert_eq!(walk_item(&entry, "cloudreve://"), Some(Ok("cloudreve:/a".to_string())));
}

#[test]
fn media_type_is_guessed_from_the_extension() {
    for (name, mime) in [
        ("a.jpg", Some("image/jpeg")),
        ("a.JPEG", Some("image/jpeg")),
        ("a.Png", Some("image/png")),
        ("a.gif", Some("image/gif")),
        ("a.pdf", Some("application/pdf")),
        ("a.b.txt", Some("text/plain")),
        ("a.json", Some("application/json")),
        ("a.zip", Some("application/zip")),
        ("a.mp4", Some("video/mp4")),
        ("a.mp3", Some("audio/mpeg")),
        ("a.rs", None),
        ("a.", None),
        ("jpg", None),
        (".jpg", None),
        (".a.jpg", Some("image/jpeg")),
        ("", None),
    ] {
        assert_eq!(guess_mime_type(name).as_deref(), mime);
    }
    assert_eq!(upload::mime_for_extension("JPG"), None);
}

#[test]
fn extension_is_what_follows_the_last_dot() {
    assert_eq!(upload::extension("a.tar.gz"), Some("gz"));
    assert_eq!(upload::extension("a."), Some(""));
    assert_eq!(upload::extension(".profile"), None);
    assert_eq!(upload::extension("Makefile"), None);
    assert_eq!(upload::extension("ä.ö"), Some("ö"));
}

#[test]
fn uploader_is_told_of_the_file() {
    let mut file = LocalFile {
        path: "/tmp/x/a.PDF".to_string(),
        name: "a.PDF".to_string(),
        size: 12,
        modified_secs: Some(99),
    };
    let params = upload::upload_file(&file, "cloudreve://my/a.PDF", true);
    assert_eq!(params.local_path, "/tmp/x/a.PDF");
    assert_eq!(params.remote_uri, "cloudreve://my/a.PDF");
    assert_eq!(params.file_size, 12);
    assert_eq!(params.mime_type.as_deref(), Some("application/pdf"));
    assert_eq!(params.last_modified, Some(99));
    assert!(params.overwrite);
    assert_eq!(params.previous_version, "");
    file.modified_secs = None;
    assert_eq!(upload::upload_file(&file, "u", false).last_modified, None);
}

#[test]
fn bar_gets_its_length_once() {
    let update = ProgressUpdate::new(100, 30, 0, 0, 1, 0);
    let first = BarChange { length: Some(100), position: 30 };
    assert_eq!(upload::bar_change(None, &update), first);
    assert_eq!(upload::bar_change(Some(0), &update), first);
    assert_eq!(
        upload::bar_change(Some(100), &update),
        BarChange { length: None, position: 30 }
    );
}

#[test]
fn run_counts_every_file() {
    let mut run = UploadRun::new();
    match run.uploaded("/tmp/a", Ok(())) {
        OutputLine::Normal(line) => assert_eq!(line, "✓ Uploaded: /tmp/a"),
        OutputLine::Failure(_) => panic!("failure"),
    }
    match run.uploaded("/tmp/b", Err("gone".to_string())) {
        OutputLine::Failure(line) => assert_eq!(line, "✗ Failed: /tmp/b - gone"),
        OutputLine::Normal(_) => panic!("no failure"),
    }
    run.uploaded("/tmp/c", Ok(()));
    assert_eq!((run.succeeded, run.failed), (2, 1));
    assert_eq!(run.closing_line(), "\nUpload complete: 2 succeeded, 1 failed");
    match run.next_item(None) {
        RunAction::Finish(line) => {
            assert_eq!(line, "\nUpload complete: 2 succeeded, 1 failed")
        }
        _ => panic!("another action"),
    }
}

#[test]
fn failing_item_ends_the_run() {
    let run = UploadRun::new();
    match run.next_item(Some(Err("broken".to_string()))) {
        RunAction::Abort(e) => assert_eq!(e, "broken"),
        _ => panic!("another action"),
    }
    match run.next_item(Some(Ok("uri".to_string()))) {
        RunAction::Upload(uri) => assert_eq!(uri, "uri"),
        _ => panic!("another action"),
    }
}

#[test]
fn run_says_where_it_connects() {
    assert_eq!(upload::connecting_line("https://s"), "Connecting to https://s...");
    assert_eq!(upload::logged_in_line("Nick"), "Logged in as: Nick");
}

#[test]
fn numbers_are_written_in_decimal() {
    assert_eq!(text::decimal_text(0), "0");
    assert_eq!(text::decimal_text(1_234_567_890), "1234567890");
    assert_eq!(text::decimal_text(u64::MAX), "18446744073709551615");
    assert_eq!(text::signed_decimal_text(-7), "-7");
    assert_eq!(text::signed_decimal_text(i64::MIN), "-9223372036854775808");
    assert_eq!(text::signed_decimal_text(i64::MAX), "9223372036854775807");
}

#[test]
fn text_is_taken_apart() {
    assert_eq!(text::trim_end_slashes("a//b//"), "a//b");
    assert_eq!(text::trim_end_slashes("//"), "");
    assert_eq!(text::trim_start_slashes("//a/"), "a/");
    assert!(text::starts_with("äb", "ä"));
    assert!(!text::starts_with("a", "ab"));
    assert!(text::same_text("ü", "ü"));
    assert!(!text::same_text("u", "ü"));
    let parts = vec!["a".to_string(), "".to_string(), "b".to_string()];
    assert_eq!(text::join(&parts, ", "), "a, , b");
    assert_eq!(text::join(&Vec::new(), ", "), "");
}
