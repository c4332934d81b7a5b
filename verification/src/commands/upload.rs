//! Uploading files: where they go, what they are, and what is said of them.

use crate::text::decimal;
use crate::text::decimal_text;
use crate::text::opt_text;
use crate::text::same_text;
use crate::text::starts_with;
use crate::text::trim_end;
use crate::text::trim_end_slashes;
use crate::text::trim_start;
use crate::text::trim_start_slashes;
use crate::uploader::progress::ProgressUpdate;
use crate::uploader::UploadParams;
use vstd::prelude::*;
use vstd::string::*;

verus! {

/// The URI that a remote path stands for: itself where it has the scheme, else a
/// place among the user's own files.
pub open spec fn normalized(remote_path: Seq<char>) -> Seq<char> {
    if "cloudreve://"@.is_prefix_of(remote_path) {
        remote_path
    } else if "/"@.is_prefix_of(remote_path) {
        "cloudreve://my"@ + remote_path
    } else {
        "cloudreve://my/"@ + trim_start(remote_path, '/')
    }
}

/// The URI that a remote path stands for.
pub fn normalize_remote_path(remote_path: &str) -> (r: String)
    ensures
        r@ == normalized(remote_path@),
{
    if starts_with(remote_path, "cloudreve://") {
        remote_path.to_owned()
    } else if starts_with(remote_path, "/") {
        "cloudreve://my".to_owned().concat(remote_path)
    } else {
        "cloudreve://my/".to_owned().concat(trim_start_slashes(remote_path))
    }
}

/// Every remote path stands for a URI of the scheme.
pub proof fn remote_paths_get_the_scheme(remote_path: Seq<char>)
    ensures
        "cloudreve://"@.is_prefix_of(normalized(remote_path)),
{
    reveal_strlit("cloudreve://");
    reveal_strlit("cloudreve://my");
    reveal_strlit("cloudreve://my/");
    let r = normalized(remote_path);
    assert("cloudreve://"@ =~= r.subrange(0, 12));
}

/// A URI stands for itself.
pub proof fn normalizing_twice_is_normalizing_once(remote_path: Seq<char>)
    ensures
        normalized(normalized(remote_path)) == normalized(remote_path),
{
    remote_paths_get_the_scheme(remote_path);
}

/// A path among the user's own files means the same with and without its first
/// slash.
pub proof fn first_slash_does_not_matter(remote_path: Seq<char>)
    requires
        !"cloudreve://"@.is_prefix_of(remote_path),
        !"/"@.is_prefix_of(remote_path),
    ensures
        normalized("/"@ + remote_path) == normalized(remote_path),
{
    reveal_strlit("cloudreve://");
    reveal_strlit("/");
    reveal_strlit("cloudreve://my");
    reveal_strlit("cloudreve://my/");
    let slashed = "/"@ + remote_path;
    assert("/"@ =~= slashed.subrange(0, 1));
    assert(slashed[0] == '/');
    if "cloudreve://"@.is_prefix_of(slashed) {
        assert("cloudreve://"@[0] == slashed.subrange(0, 12)[0]);
    }
    if remote_path.len() > 0 && remote_path.first() == '/' {
        assert("/"@ =~= remote_path.subrange(0, 1));
    }
    assert("cloudreve://my"@ + slashed =~= "cloudreve://my/"@ + remote_path);
}

/// Where a file goes, given the URI of the upload and the path below it.
pub open spec fn remote_uri(base: Seq<char>, relative: Seq<char>) -> Seq<char> {
    trim_end(base, '/') + "/"@ + relative
}

fn written_uri(base: &str, relative: &str) -> (r: String)
    ensures
        r@ == remote_uri(base@, relative@),
{
    trim_end_slashes(base).to_owned().concat("/").concat(relative)
}

/// No two files of an upload go to the same place.
pub proof fn different_files_go_to_different_places(
    base: Seq<char>,
    one: Seq<char>,
    other: Seq<char>,
)
    requires
        remote_uri(base, one) == remote_uri(base, other),
    ensures
        one == other,
{
    let n = (trim_end(base, '/') + "/"@).len() as int;
    assert(remote_uri(base, one).skip(n) =~= one);
    assert(remote_uri(base, other).skip(n) =~= other);
}

/// It does not matter how many slashes the URI of an upload ends in.
pub proof fn last_slashes_do_not_matter(base: Seq<char>, relative: Seq<char>)
    ensures
        remote_uri(base + "/"@, relative) == remote_uri(base, relative),
{
    reveal_strlit("/");
    assert((base + "/"@).drop_last() =~= base);
}

proof fn lemma_trimmed(s: Seq<char>, i: int)
    requires
        0 <= i < s.len(),
        s[i] != '/',
    ensures
        i < trim_end(s, '/').len() <= s.len(),
        forall|j: int| 0 <= j <= i ==> trim_end(s, '/')[j] == s[j],
    decreases s.len(),
{
    if s.last() == '/' {
        lemma_trimmed(s.drop_last(), i);
        assert forall|j: int| 0 <= j <= i implies trim_end(s, '/')[j] == s[j] by {
            assert(s.drop_last()[j] == s[j]);
        }
    }
}

/// Whether a remote path names more than the scheme.
pub open spec fn names_a_place(remote_path: Seq<char>) -> bool {
    "cloudreve://"@.is_prefix_of(remote_path) ==> exists|i: int|
        12 <= i < remote_path.len() && remote_path[i] != '/'
}

/// Every file goes to a URI of the scheme, if the remote path names more than the
/// scheme.
pub proof fn files_go_to_uris_of_the_scheme(remote_path: Seq<char>, relative: Seq<char>)
    requires
        names_a_place(remote_path),
    ensures
        "cloudreve://"@.is_prefix_of(remote_uri(normalized(remote_path), relative)),
{
    reveal_strlit("cloudreve://");
    reveal_strlit("cloudreve://my");
    reveal_strlit("cloudreve://my/");
    remote_paths_get_the_scheme(remote_path);
    let base = normalized(remote_path);
    let i = if "cloudreve://"@.is_prefix_of(remote_path) {
        choose|i: int| 12 <= i < remote_path.len() && remote_path[i] != '/'
    } else {
        12
    };
    lemma_trimmed(base, i);
    assert forall|j: int| 0 <= j < 12 implies "cloudreve://"@[j] == base[j] by {
        assert(base.subrange(0, 12)[j] == base[j]);
    }
    assert("cloudreve://"@ =~= remote_uri(base, relative).subrange(0, 12));
}

/// What stands at a local path.
#[derive(Debug, Clone, Copy, PartialEq, Eq, Structural)]
pub enum LocalKind {
    Directory,
    File,
    Neither,
}

/// A local path: how it is shown, what stands there, and the name that it ends in.
#[derive(Debug)]
pub struct LocalPath {
    pub shown: String,
    pub kind: LocalKind,
    pub name: Option<String>,
}

/// What is uploaded.
#[derive(Debug)]
pub enum UploadStream {
    /// Nothing, for this reason.
    Refused(String),
    /// The files below the directory.
    Walk,
    /// The file itself, to this URI.
    One(String),
}

/// What is uploaded from a local path.
pub open spec fn stream_of(
    local: LocalPath,
    recursive: bool,
    base: Seq<char>,
    stream: UploadStream,
) -> bool {
    match local.kind {
        LocalKind::Directory => if recursive {
            stream is Walk
        } else {
            stream matches UploadStream::Refused(reason) && reason@ == local.shown@
                + " is a directory, use -r for recursive upload"@
        },
        LocalKind::File => match local.name {
            Some(name) => stream matches UploadStream::One(uri) && uri@ == remote_uri(base, name@),
            None => stream matches UploadStream::Refused(reason) && reason@ == "File has no name"@,
        },
        LocalKind::Neither => stream matches UploadStream::Refused(reason) && reason@
            == "File not found: "@ + local.shown@,
    }
}

/// What is uploaded from a local path: a file itself, and the files below a
/// directory if that is asked for.
pub fn create_upload_stream(local: &LocalPath, recursive: bool, base_remote_path: &str) -> (r:
    UploadStream)
    ensures
        stream_of(*local, recursive, base_remote_path@, r),
{
    match local.kind {
        LocalKind::Directory => if recursive {
            UploadStream::Walk
        } else {
            UploadStream::Refused(
                local.shown.clone().concat(" is a directory, use -r for recursive upload"),
            )
        },
        LocalKind::File => match &local.name {
            Some(name) => UploadStream::One(written_uri(base_remote_path, name.as_str())),
            None => UploadStream::Refused("File has no name".to_owned()),
        },
        LocalKind::Neither => UploadStream::Refused(
            "File not found: ".to_owned().concat(local.shown.as_str()),
        ),
    }
}

/// What a walk below a directory comes upon.
#[derive(Debug)]
pub enum WalkEntry {
    /// Something that cannot be read.
    Unreadable,
    /// A file, with its path below the directory if it has one.
    File(Option<String>),
    /// Something else than a file.
    Other,
}

/// Where a file that the walk comes upon goes.
pub open spec fn file_item(entry: WalkEntry, base: Seq<char>) -> Result<Seq<char>, Seq<char>> {
    match entry {
        WalkEntry::File(Some(relative)) => Ok(remote_uri(base, relative@)),
        _ => Err("Failed to compute relative path"@),
    }
}

/// The texts of a result.
pub open spec fn result_texts(r: Result<String, String>) -> Result<Seq<char>, Seq<char>> {
    match r {
        Ok(s) => Ok(s@),
        Err(e) => Err(e@),
    }
}

/// What is uploaded of what the walk comes upon, and where to: files, and nothing
/// else.
pub fn walk_item(entry: &WalkEntry, base_remote_path: &str) -> (r: Option<Result<String, String>>)
    ensures
        r is Some <==> entry is File,
        r matches Some(item) ==> result_texts(item) == file_item(*entry, base_remote_path@),
{
    match entry {
        WalkEntry::File(Some(relative)) => Some(
            Ok(written_uri(base_remote_path, relative.as_str())),
        ),
        WalkEntry::File(None) => Some(Err("Failed to compute relative path".to_owned())),
        _ => None,
    }
}

/// What is uploaded in the course of a walk: for each thing that it comes upon,
/// what `walk_item` makes of it.
pub open spec fn walked(entries: Seq<WalkEntry>, base: Seq<char>) -> Seq<
    Result<Seq<char>, Seq<char>>,
>
    decreases entries.len(),
{
    if entries.len() == 0 {
        Seq::empty()
    } else {
        let before = walked(entries.drop_last(), base);
        if entries.last() is File {
            before.push(file_item(entries.last(), base))
        } else {
            before
        }
    }
}

/// A walk uploads the files that it comes upon, each of them once and in order,
/// and nothing else.
pub proof fn walk_uploads_the_files(entries: Seq<WalkEntry>, base: Seq<char>)
    ensures
        walked(entries, base) == entries.filter(|e: WalkEntry| e is File).map_values(
            |e: WalkEntry| file_item(e, base),
        ),
    decreases entries.len(),
{
    reveal(Seq::filter);
    let is_file = |e: WalkEntry| e is File;
    let item = |e: WalkEntry| file_item(e, base);
    if entries.len() > 0 {
        walk_uploads_the_files(entries.drop_last(), base);
        let before = entries.drop_last().filter(is_file);
        if entries.last() is File {
            assert(entries.filter(is_file) == before.push(entries.last()));
            assert(before.push(entries.last()).map_values(item) =~= before.map_values(item).push(
                item(entries.last()),
            ));
        } else {
            assert(entries.filter(is_file) == before);
        }
    }
    assert(walked(entries, base) =~= entries.filter(is_file).map_values(item));
}

/// The part of a file name behind its last dot, if there is a dot behind its first
/// character.
pub open spec fn extension_of(file_name: Seq<char>) -> Option<Seq<char>> {
    match file_name.index_of_last('.') {
        Some(i) => if i > 0 {
            Some(file_name.skip(i + 1))
        } else {
            None
        },
        None => None,
    }
}

/// The part of a file name behind its last dot, if there is a dot behind its first
/// character.
pub fn extension(file_name: &str) -> (r: Option<&str>)
    ensures
        crate::text::opt_str(r) == extension_of(file_name@),
{
    let chars: Vec<char> = crate::text::chars_of(file_name);
    let mut n: usize = chars.len();
    while n > 0 && chars[n - 1] != '.'
        invariant
            chars@ == file_name@,
            n <= chars@.len(),
            forall|j: int| n <= j < chars@.len() ==> chars@[j] != '.',
        decreases n,
    {
        n = n - 1;
    }
    proof {
        file_name@.index_of_last_ensures('.');
        if n > 0 {
            assert(file_name@.contains(file_name@[n - 1]));
        }
    }
    if n > 1 {
        assert(file_name@.skip(n as int) =~= file_name@.subrange(
            n as int,
            file_name@.len() as int,
        ));
        Some(file_name.substring_char(n, chars.len()))
    } else {
        None
    }
}

/// Whether a text is all ASCII.
pub open spec fn all_ascii(s: Seq<char>) -> bool {
    forall|i: int| 0 <= i < s.len() ==> #[trigger] s[i] as u32 <= 127
}

/// A character with `A` to `Z` mapped to `a` to `z`.
pub open spec fn ascii_lower(c: char) -> char {
    if 'A' <= c && c <= 'Z' {
        (c as u32 + 32) as char
    } else {
        c
    }
}

/// A text with `A` to `Z` mapped to `a` to `z`.
pub open spec fn ascii_lowercase(s: Seq<char>) -> Seq<char> {
    s.map_values(|c: char| ascii_lower(c))
}

/// What `str::to_lowercase` returns.
pub uninterp spec fn lowercase(s: Seq<char>) -> Seq<char>;

/// Calls `str::to_lowercase`.
///
/// Claimed of it: the result depends on the characters of the string alone, and of a
/// string that is all ASCII it is the string with `A` to `Z` mapped to `a` to `z`. How
/// Unicode maps other characters is not said.
#[verifier::external_body]
fn to_lowercase(s: &str) -> (r: String)
    ensures
        r@ == lowercase(s@),
        all_ascii(s@) ==> r@ == ascii_lowercase(s@),
{
    s.to_lowercase()
}

/// The media type of the files with an extension in lower case.
pub open spec fn mime_of(extension: Seq<char>) -> Option<Seq<char>> {
    if extension == "jpg"@ || extension == "jpeg"@ {
        Some("image/jpeg"@)
    } else if extension == "png"@ {
        Some("image/png"@)
    } else if extension == "gif"@ {
        Some("image/gif"@)
    } else if extension == "pdf"@ {
        Some("application/pdf"@)
    } else if extension == "txt"@ {
        Some("text/plain"@)
    } else if extension == "json"@ {
        Some("application/json"@)
    } else if extension == "zip"@ {
        Some("application/zip"@)
    } else if extension == "mp4"@ {
        Some("video/mp4"@)
    } else if extension == "mp3"@ {
        Some("audio/mpeg"@)
    } else {
        None
    }
}

/// The media type of the files with an extension in lower case.
pub fn mime_for_extension(extension: &str) -> (r: Option<String>)
    ensures
        opt_text(r) == mime_of(extension@),
{
    if same_text(extension, "jpg") || same_text(extension, "jpeg") {
        Some("image/jpeg".to_owned())
    } else if same_text(extension, "png") {
        Some("image/png".to_owned())
    } else if same_text(extension, "gif") {
        Some("image/gif".to_owned())
    } else if same_text(extension, "pdf") {
        Some("application/pdf".to_owned())
    } else if same_text(extension, "txt") {
        Some("text/plain".to_owned())
    } else if same_text(extension, "json") {
        Some("application/json".to_owned())
    } else if same_text(extension, "zip") {
        Some("application/zip".to_owned())
    } else if same_text(extension, "mp4") {
        Some("video/mp4".to_owned())
    } else if same_text(extension, "mp3") {
        Some("audio/mpeg".to_owned())
    } else {
        None
    }
}

/// The media type that the name of a file suggests.
pub open spec fn mime_of_file(file_name: Seq<char>) -> Option<Seq<char>> {
    match extension_of(file_name) {
        Some(extension) => mime_of(lowercase(extension)),
        None => None,
    }
}

/// The media type that the name of a file suggests, in whatever case its extension
/// is written.
pub fn guess_mime_type(file_name: &str) -> (r: Option<String>)
    ensures
        opt_text(r) == mime_of_file(file_name@),
        extension_of(file_name@) matches Some(e) ==> all_ascii(e) ==> opt_text(r) == mime_of(
            ascii_lowercase(e),
        ),
{
    match extension(file_name) {
        Some(extension) => mime_for_extension(to_lowercase(extension).as_str()),
        None => None,
    }
}

/// What is known of a file that is to be uploaded: its path and name, its size, and
/// when it was changed, in seconds since the start of 1970.
#[derive(Debug)]
pub struct LocalFile {
    pub path: String,
    pub name: String,
    pub size: u64,
    pub modified_secs: Option<u64>,
}

/// Whether this is what the uploader is told of a file.
pub open spec fn told_of(
    file: LocalFile,
    remote_uri: Seq<char>,
    overwrite: bool,
    params: UploadParams,
) -> bool {
    &&& params.local_path == file.path
    &&& params.remote_uri@ == remote_uri
    &&& params.file_size == file.size
    &&& opt_text(params.mime_type) == mime_of_file(file.name@)
    &&& match file.modified_secs {
        Some(secs) => params.last_modified == Some(secs as i64),
        None => params.last_modified is None,
    }
    &&& params.overwrite == overwrite
    &&& params.previous_version@.len() == 0
}

/// What the uploader is told of a file.
pub fn upload_file(file: &LocalFile, remote_uri: &str, overwrite: bool) -> (r: UploadParams)
    ensures
        r.local_path == file.path,
        r.remote_uri@ == remote_uri@,
        r.file_size == file.size,
        opt_text(r.mime_type) == mime_of_file(file.name@),
        extension_of(file.name@) matches Some(e) ==> all_ascii(e) ==> opt_text(r.mime_type)
            == mime_of(ascii_lowercase(e)),
        match file.modified_secs {
            Some(secs) => r.last_modified == Some(secs as i64),
            None => r.last_modified is None,
        },
        r.overwrite == overwrite,
        r.previous_version@.len() == 0,
        told_of(*file, remote_uri@, overwrite, r),
{
    let last_modified: Option<i64> = match file.modified_secs {
        Some(secs) => Some(secs as i64),
        None => None,
    };
    UploadParams {
        local_path: file.path.clone(),
        remote_uri: remote_uri.to_owned(),
        file_size: file.size,
        mime_type: guess_mime_type(file.name.as_str()),
        last_modified,
        overwrite,
        previous_version: String::new(),
    }
}

/// What is done to a progress bar.
#[derive(Debug, Clone, Copy, PartialEq, Eq, Structural)]
pub struct BarChange {
    /// The new length, where it changes.
    pub length: Option<u64>,
    /// The new position.
    pub position: u64,
}

/// Whether this is what an update does to a progress bar of a length.
pub open spec fn moves_bar(length: Option<u64>, update: ProgressUpdate, change: BarChange) -> bool {
    &&& change.position == update.uploaded
    &&& change.length == if length == None::<u64> || length == Some(0u64) {
        Some(update.total_size)
    } else {
        None
    }
}

/// What an update does to a progress bar: it gets its length with the first update,
/// and moves with each.
pub fn bar_change(length: Option<u64>, update: &ProgressUpdate) -> (r: BarChange)
    ensures
        moves_bar(length, *update, r),
        r.position == update.uploaded,
        r.length == if length == None::<u64> || length == Some(0u64) {
            Some(update.total_size)
        } else {
            None
        },
{
    let unset: bool = match length {
        Some(n) => n == 0,
        None => true,
    };
    BarChange {
        length: if unset {
            Some(update.total_size)
        } else {
            None
        },
        position: update.uploaded,
    }
}

/// What is said before the server is asked.
pub fn connecting_line(server: &str) -> (r: String)
    ensures
        r@ == "Connecting to "@ + server@ + "..."@,
{
    "Connecting to ".to_owned().concat(server).concat("...")
}

/// What is said when the server has let the user in.
pub fn logged_in_line(nickname: &str) -> (r: String)
    ensures
        r@ == "Logged in as: "@ + nickname@,
{
    "Logged in as: ".to_owned().concat(nickname)
}

/// The files that a run has uploaded and those that it has failed to upload.
#[derive(Debug, Clone, Copy, PartialEq, Eq, Structural)]
pub struct UploadRun {
    pub succeeded: u64,
    pub failed: u64,
}

/// What a run does next.
#[derive(Debug)]
pub enum RunAction {
    /// Upload the file to this URI.
    Upload(String),
    /// End with this error.
    Abort(String),
    /// Say this and end well.
    Finish(String),
}

/// A line of output.
#[derive(Debug)]
pub enum OutputLine {
    /// To the standard output.
    Normal(String),
    /// To the standard error.
    Failure(String),
}

impl UploadRun {
    /// Nothing has been uploaded yet.
    pub fn new() -> (r: Self)
        ensures
            r == (UploadRun { succeeded: 0, failed: 0 }),
    {
        UploadRun { succeeded: 0, failed: 0 }
    }

    /// The run with one more file, uploaded or not.
    pub open spec fn with(self, uploaded: bool) -> UploadRun {
        if uploaded {
            UploadRun { succeeded: (self.succeeded + 1) as u64, ..self }
        } else {
            UploadRun { failed: (self.failed + 1) as u64, ..self }
        }
    }

    /// What is said at the end.
    pub open spec fn closing(self) -> Seq<char> {
        "\nUpload complete: "@ + decimal(self.succeeded as nat) + " succeeded, "@ + decimal(
            self.failed as nat,
        ) + " failed"@
    }

    /// What follows when the stream has been asked for its next item: a file is
    /// uploaded, a failure ends the run, and so does the end of the stream.
    pub fn next_item(&self, item: Option<Result<String, String>>) -> (r: RunAction)
        ensures
            match item {
                Some(Ok(uri)) => r == RunAction::Upload(uri),
                Some(Err(e)) => r == RunAction::Abort(e),
                None => r matches RunAction::Finish(line) && line@ == self.closing(),
            },
    {
        match item {
            Some(Ok(uri)) => RunAction::Upload(uri),
            Some(Err(e)) => RunAction::Abort(e),
            None => RunAction::Finish(self.closing_line()),
        }
    }

    /// Counts a file, and says what became of it. The run goes on either way.
    pub fn uploaded(&mut self, shown: &str, result: Result<(), String>) -> (r: OutputLine)
        requires
            old(self).succeeded + old(self).failed < u64::MAX,
        ensures
            *final(self) == old(self).with(result is Ok),
            final(self).succeeded + final(self).failed == old(self).succeeded + old(self).failed
                + 1,
            match result {
                Ok(()) => r matches OutputLine::Normal(line) && line@ == "✓ Uploaded: "@ + shown@,
                Err(e) => r matches OutputLine::Failure(line) && line@ == "✗ Failed: "@ + shown@
                    + " - "@ + e@,
            },
    {
        match result {
            Ok(()) => {
                self.succeeded = self.succeeded + 1;
                OutputLine::Normal("✓ Uploaded: ".to_owned().concat(shown))
            },
            Err(e) => {
                self.failed = self.failed + 1;
                OutputLine::Failure(
                    "✗ Failed: ".to_owned().concat(shown).concat(" - ").concat(e.as_str()),
                )
            },
        }
    }

    /// What is said at the end.
    pub fn closing_line(&self) -> (r: String)
        ensures
            r@ == self.closing(),
    {
        let succeeded: String = decimal_text(self.succeeded);
        let failed: String = decimal_text(self.failed);
        "\nUpload complete: ".to_owned().concat(succeeded.as_str()).concat(" succeeded, ").concat(
            failed.as_str(),
        ).concat(" failed")
    }
}

/// A run after a number of files, of each of which it is told whether it was
/// uploaded.
pub open spec fn run_after(results: Seq<bool>) -> UploadRun
    decreases results.len(),
{
    if results.len() == 0 {
        UploadRun { succeeded: 0, failed: 0 }
    } else {
        run_after(results.drop_last()).with(results.last())
    }
}

/// A run counts every file once: those that it has uploaded as such, and the others
/// as failures.
pub proof fn every_file_is_counted(results: Seq<bool>)
    requires
        results.len() <= u64::MAX,
    ensures
        run_after(results).succeeded == results.filter(|ok: bool| ok).len(),
        run_after(results).failed == results.filter(|ok: bool| !ok).len(),
        run_after(results).succeeded + run_after(results).failed == results.len(),
    decreases results.len(),
{
    reveal(Seq::filter);
    if results.len() > 0 {
        every_file_is_counted(results.drop_last());
    }
}

/// A file that is to be overwritten is asked for as a new version, and one that is not is
/// not; the request is for its place, size, type and time, and names no earlier version.
pub proof fn overwriting_asks_for_a_new_version(
    file: LocalFile,
    uri: Seq<char>,
    overwrite: bool,
    params: UploadParams,
    request: crate::api::models::UploadSessionRequest,
)
    requires
        told_of(file, uri, overwrite, params),
        params.asks(request),
    ensures
        request.entity_type is Some <==> overwrite,
        request.entity_type matches Some(t) ==> t@ == "version"@,
        request.previous is None,
        request.uri@ == uri,
        file.size <= i64::MAX ==> request.size == file.size,
        opt_text(request.mime_type) == match extension_of(file.name@) {
            Some(extension) => mime_of(lowercase(extension)),
            None => None,
        },
        request.last_modified is Some <==> file.modified_secs is Some,
        file.modified_secs matches Some(secs) ==> (secs <= i64::MAX ==> request.last_modified
            == Some(secs as i64)),
{
    crate::uploader::request_says_what_is_to_be_uploaded(params, request);
}

/// A remote path stays what it is behind what it is given: nothing where it has the scheme,
/// and else the user's own files and one slash where it has none.
pub proof fn remote_paths_stay_at_the_end(remote_path: Seq<char>)
    ensures
        "cloudreve://"@.is_prefix_of(remote_path) ==> normalized(remote_path) == remote_path,
        !"cloudreve://"@.is_prefix_of(remote_path) && remote_path.len() > 0 && remote_path[0]
            == '/' ==> normalized(remote_path) == "cloudreve://my"@ + remote_path,
        !"cloudreve://"@.is_prefix_of(remote_path) && !(remote_path.len() > 0 && remote_path[0]
            == '/') ==> normalized(remote_path) == "cloudreve://my/"@ + remote_path,
{
    reveal_strlit("/");
    if remote_path.len() > 0 {
        assert("/"@[0] == '/');
        if remote_path[0] == '/' {
            assert("/"@ =~= remote_path.subrange(0, 1));
        } else {
            assert(remote_path.subrange(0, 1)[0] != '/');
        }
    }
}

/// A file goes below the URI of the upload: behind it, a slash, and the path of the file.
pub proof fn files_go_below_the_uri_of_the_upload(base: Seq<char>, relative: Seq<char>)
    requires
        base.len() > 0 ==> base.last() != '/',
    ensures
        remote_uri(base, relative) == base + "/"@ + relative,
{
}

/// A single file goes below the URI of the upload under its own name; a directory is walked
/// only if that is asked for; and nothing else is uploaded.
pub proof fn uploads_are_what_stands_at_the_path(
    local: LocalPath,
    recursive: bool,
    base: Seq<char>,
    stream: UploadStream,
)
    requires
        stream_of(local, recursive, base, stream),
        base.len() > 0 ==> base.last() != '/',
    ensures
        stream is Walk <==> local.kind == LocalKind::Directory && recursive,
        stream is One <==> local.kind == LocalKind::File && local.name is Some,
        stream matches UploadStream::One(uri) ==> uri@ == base + "/"@ + local.name->Some_0@,
        stream matches UploadStream::Refused(reason) ==> match local.kind {
            LocalKind::Directory => reason@ == local.shown@
                + " is a directory, use -r for recursive upload"@,
            LocalKind::File => reason@ == "File has no name"@,
            LocalKind::Neither => reason@ == "File not found: "@ + local.shown@,
        },
{
}

/// A file that a walk comes upon goes below the URI of the upload under its path below the
/// directory.
pub proof fn walked_files_go_below_the_uri(relative: Option<String>, base: Seq<char>)
    requires
        base.len() > 0 ==> base.last() != '/',
    ensures
        file_item(WalkEntry::File(relative), base) == match relative {
            Some(path) => Ok::<Seq<char>, Seq<char>>(base + "/"@ + path@),
            None => Err("Failed to compute relative path"@),
        },
{
}

/// The extension of a file name is what follows its last dot, if something stands before
/// that dot.
pub proof fn extension_follows_the_last_dot(stem: Seq<char>, extension: Seq<char>)
    requires
        !extension.contains('.'),
    ensures
        stem.len() > 0 ==> extension_of(stem + "."@ + extension) == Some(extension),
        extension_of("."@ + extension) is None,
        extension_of(extension) is None,
{
    reveal_strlit(".");
    assert("."@ =~= seq!['.']);
    let name = stem + "."@ + extension;
    name.index_of_last_ensures('.');
    assert(name[stem.len() as int] == '.');
    assert(name.contains(name[stem.len() as int]));
    let i = name.index_of_last('.')->Some_0;
    if i > stem.len() {
        assert(name[i] == extension[i - stem.len() - 1]);
        assert(extension.contains(extension[i - stem.len() - 1]));
    }
    assert(i == stem.len());
    assert(name.skip(i + 1) =~= extension);
    let hidden = "."@ + extension;
    hidden.index_of_last_ensures('.');
    assert(hidden[0] == '.');
    assert(hidden.contains(hidden[0]));
    let k = hidden.index_of_last('.')->Some_0;
    if k > 0 {
        assert(hidden[k] == extension[k - 1]);
        assert(extension.contains(extension[k - 1]));
    }
    extension.index_of_last_ensures('.');
}

/// The media types that are known, and no others.
pub proof fn media_types_are_these(extension: Seq<char>, mime: Seq<char>)
    requires
        mime_of(extension) == Some(mime),
    ensures
        ((extension == "jpg"@ || extension == "jpeg"@) && mime == "image/jpeg"@) || (extension
            == "png"@ && mime == "image/png"@) || (extension == "gif"@ && mime == "image/gif"@) || (
        extension == "pdf"@ && mime == "application/pdf"@) || (extension == "txt"@ && mime
            == "text/plain"@) || (extension == "json"@ && mime == "application/json"@) || (extension
            == "zip"@ && mime == "application/zip"@) || (extension == "mp4"@ && mime
            == "video/mp4"@) || (extension == "mp3"@ && mime == "audio/mpeg"@),
{
}

/// Lowering a letter of ASCII moves it to the same place in the small letters, and leaves
/// every other character.
pub proof fn capitals_become_small_letters(c: char)
    ensures
        'A' <= c && c <= 'Z' ==> ascii_lower(c) as int == c as int - 'A' as int + 'a' as int,
        !('A' <= c && c <= 'Z') ==> ascii_lower(c) == c,
        ascii_lower(ascii_lower(c)) == ascii_lower(c),
{
}

/// A run that is told of one more file counts it, on the side that it belongs to, and
/// says so at the end.
pub proof fn files_are_counted_on_their_side(run: UploadRun, uploaded: bool)
    requires
        run.succeeded + run.failed < u64::MAX,
    ensures
        run.with(uploaded).succeeded == run.succeeded + if uploaded {
            1int
        } else {
            0
        },
        run.with(uploaded).failed == run.failed + if uploaded {
            0int
        } else {
            1
        },
        run.closing() == "\nUpload complete: "@ + decimal(run.succeeded as nat) + " succeeded, "@
            + decimal(run.failed as nat) + " failed"@,
{
}

/// A progress bar is as long as the file from the first update on, and stands where the
/// upload does after each.
pub proof fn bars_follow_the_upload(length: Option<u64>, update: ProgressUpdate, change: BarChange)
    requires
        moves_bar(length, update, change),
    ensures
        change.position == update.uploaded,
        length is Some && length->Some_0 > 0 ==> change.length is None,
        !(length is Some && length->Some_0 > 0) ==> change.length == Some(update.total_size),
{
}

}
