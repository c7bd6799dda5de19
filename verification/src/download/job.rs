use crate::download::tree::FileView;
use crate::download::{encode, DownloadJob, FileEntry, FileResult};
use crate::failure;
use crate::failure::Failure;
use crate::text::class::Class;
use crate::text::{compose, edge, number, path};
use vstd::prelude::*;

verus! {

/// A file that can have to be fetched, as mathematical values.
pub struct JobView {
    pub file: FileView,
    pub local: Seq<char>,
    pub new: bool,
    pub total: nat,
}

/// What came of a file, as mathematical values.
pub struct ResultView {
    pub path: Seq<char>,
    pub size: u64,
    pub status: Seq<char>,
    pub local: Option<Seq<char>>,
}

impl View for DownloadJob {
    type V = JobView;

    open spec fn view(&self) -> JobView {
        JobView {
            file: self.file@,
            local: self.local_path@,
            new: self.new,
            total: self.total_files as nat,
        }
    }
}

impl View for FileResult {
    type V = ResultView;

    open spec fn view(&self) -> ResultView {
        ResultView {
            path: self.path@,
            size: self.size,
            status: self.status@,
            local: compose::opt_text(self.local_path),
        }
    }
}

/// The files that can have to be fetched, as mathematical values.
pub open spec fn job_views(v: Seq<DownloadJob>) -> Seq<JobView> {
    Seq::new(v.len(), |i: int| v[i]@)
}

/// What came of files, as mathematical values.
pub open spec fn result_views(v: Seq<FileResult>) -> Seq<ResultView> {
    Seq::new(v.len(), |i: int| v[i]@)
}

/// Whether a file has to be fetched, when `found` is the size of what lies in its place.
pub open spec fn to_fetch(size: u64, force: bool, found: Option<u64>) -> bool {
    force || found != Some(size)
}

/// The job of a file that goes below `target`.
pub open spec fn job_of(
    target: Seq<char>,
    file: FileView,
    force: bool,
    found: Option<u64>,
    total: nat,
) -> JobView {
    JobView {
        file,
        local: path::below(target, file.path),
        new: to_fetch(file.size, force, found),
        total,
    }
}

fn copy_file(f: &FileEntry) -> (r: FileEntry)
    ensures
        r@ == f@,
{
    FileEntry { path: f.path.clone(), size: f.size, is_lfs: f.is_lfs }
}

fn needs_fetch(size: u64, force: bool, found: Option<u64>) -> (r: bool)
    ensures
        r == to_fetch(size, force, found),
{
    if force {
        true
    } else {
        match found {
            Some(n) => n != size,
            None => true,
        }
    }
}

/// The jobs of files that go below `target_dir`, one for each, where `found` holds the size of
/// what lies in the place of each file, if anything does.
pub fn build_download_jobs(
    target_dir: &str,
    entries: &Vec<FileEntry>,
    force: bool,
    found: &Vec<Option<u64>>,
) -> (r: Vec<DownloadJob>)
    requires
        found@.len() == entries@.len(),
    ensures
        r@.len() == entries@.len(),
        forall|i: int|
            0 <= i < r@.len() ==> (#[trigger] r@[i])@ == job_of(
                target_dir@,
                entries@[i]@,
                force,
                found@[i],
                entries@.len(),
            ),
{
    let mut jobs: Vec<DownloadJob> = Vec::new();
    let mut i: usize = 0;
    while i < entries.len()
        invariant
            i <= entries@.len(),
            found@.len() == entries@.len(),
            jobs@.len() == i,
            forall|k: int|
                0 <= k < i ==> (#[trigger] jobs@[k])@ == job_of(
                    target_dir@,
                    entries@[k]@,
                    force,
                    found@[k],
                    entries@.len(),
                ),
        decreases entries@.len() - i,
    {
        let e = &entries[i];
        jobs.push(
            DownloadJob {
                file: copy_file(e),
                local_path: path::join_path(target_dir, e.path.as_str()),
                new: needs_fetch(e.size, force, found[i]),
                total_files: entries.len(),
            },
        );
        i += 1;
    }
    jobs
}

/// Where a file lies while it is fetched.
pub fn make_tmp_path(local: &str) -> (r: String)
    ensures
        r@ == local@ + ".tmp"@,
{
    compose::concat(local, ".tmp")
}

/// The address of a file.
pub open spec fn address(
    base: Seq<char>,
    repo_id: Seq<char>,
    revision: Seq<char>,
    file: Seq<char>,
) -> Seq<char> {
    edge::right_trimmed(base, Class::Only('/')) + "/"@ + repo_id + "/resolve/"@ + revision + "/"@
        + encode::encoded(file)
}

/// The address of a file.
pub fn resolve_url(base: &str, repo_id: &str, revision: &str, file: &str) -> (r: String)
    ensures
        r@ == address(base@, repo_id@, revision@, file@),
{
    let place = compose::concat5(
        edge::trim_end(base, Class::Only('/')).as_str(),
        "/",
        repo_id,
        "/resolve/",
        revision,
    );
    compose::concat3(place.as_str(), "/", encode::urlencoding_path(file).as_str())
}

/// From which byte on a file is fetched, when `partial` is the size of what an earlier attempt has
/// left.
pub open spec fn resumed_at(new: bool, partial: Option<u64>) -> u64 {
    match partial {
        Some(n) => if new {
            0
        } else {
            n
        },
        None => 0,
    }
}

/// From which byte on a file is fetched.
pub fn start_offset(job: &DownloadJob, partial: Option<u64>) -> (r: u64)
    ensures
        r == resumed_at(job.new, partial),
{
    if job.new {
        0
    } else {
        match partial {
            Some(n) => n,
            None => 0,
        }
    }
}

/// What the range header of a request holds, if it has one.
pub open spec fn range_of(offset: u64) -> Option<Seq<char>> {
    if offset > 0 {
        Some("bytes="@ + number::decimal(offset as nat) + "-"@)
    } else {
        None
    }
}

/// What the range header of a request holds, if it has one.
pub fn range_header(offset: u64) -> (r: Option<String>)
    ensures
        compose::opt_text(r) == range_of(offset),
{
    if offset > 0 {
        Some(compose::concat3("bytes=", number::to_decimal(offset).as_str(), "-"))
    } else {
        None
    }
}

/// Whether a status says that the file follows.
pub open spec fn granted(code: u16) -> bool {
    200 <= code < 300
}

/// Why a file was refused.
pub open spec fn file_refusal(
    code: u16,
    shown: Seq<char>,
    file: Seq<char>,
    repo_id: Seq<char>,
    revision: Seq<char>,
) -> Seq<char> {
    if code == 401 {
        "authentication required for '"@ + repo_id + "'. This may be a gated repository."@
    } else if code == 403 {
        "access denied for '"@ + repo_id + "'"@
    } else if code == 404 {
        "file '"@ + file + "' not found in '"@ + repo_id + "@"@ + revision + "'"@
    } else {
        "download failed for '"@ + file + "': HTTP "@ + shown
    }
}

/// Whether a status says that the file follows, and why not otherwise, from the number and the
/// text of the status.
pub fn check_status(code: u16, shown: &str, file: &str, repo_id: &str, revision: &str) -> (r: Result<
    (),
    Failure,
>)
    ensures
        match r {
            Ok(_) => granted(code),
            Err(e) => !granted(code) && e@ == file_refusal(
                code,
                shown@,
                file@,
                repo_id@,
                revision@,
            ),
        },
{
    if 200 <= code && code < 300 {
        return Ok(());
    }
    let message = if code == 401 {
        compose::concat3(
            "authentication required for '",
            repo_id,
            "'. This may be a gated repository.",
        )
    } else if code == 403 {
        compose::concat3("access denied for '", repo_id, "'")
    } else if code == 404 {
        let place = compose::concat5("file '", file, "' not found in '", repo_id, "@");
        compose::concat3(place.as_str(), revision, "'")
    } else {
        compose::concat4("download failed for '", file, "': HTTP ", shown)
    };
    Err(failure::failed(message))
}

/// Why what was fetched of a file could not be written.
pub open spec fn write_refusal(file: Seq<char>, full: bool, cause: Seq<char>) -> Seq<char> {
    if full {
        "disk full while writing '"@ + file + "' — delete temporary files and retry"@
    } else {
        "failed to write '"@ + file + "': "@ + cause
    }
}

/// Why what was fetched of a file could not be written: the disk is full, or there is another
/// cause.
pub fn write_failure(file: &str, full: bool, cause: &str) -> (r: Failure)
    ensures
        r@ == write_refusal(file@, full, cause@),
{
    failure::failed(
        if full {
            compose::concat3(
                "disk full while writing '",
                file,
                "' — delete temporary files and retry",
            )
        } else {
            compose::concat4("failed to write '", file, "': ", cause)
        },
    )
}

/// What came of a file with a status.
pub open spec fn result_with(job: JobView, status: Seq<char>) -> ResultView {
    ResultView { path: job.file.path, size: job.file.size, status, local: Some(job.local) }
}

/// What came of a file with a status.
pub fn result_as(job: &DownloadJob, status: &str) -> (r: FileResult)
    ensures
        r@ == result_with(job@, status@),
{
    FileResult {
        path: job.file.path.clone(),
        size: job.file.size,
        status: status.to_owned(),
        local_path: Some(job.local_path.clone()),
    }
}

/// What the user is told of a file of which `actual` bytes lie on the disk.
pub open spec fn mismatch(job: JobView, actual: u64) -> Option<Seq<char>> {
    if actual == job.file.size {
        None
    } else {
        Some(
            "warning: size mismatch for '"@ + job.file.path + "' (expected "@ + number::decimal(
                job.file.size as nat,
            ) + ", got "@ + number::decimal(actual as nat) + ") — cleaning up partial file"@,
        )
    }
}

/// What the user is told of a file of which `actual` bytes lie on the disk, behind a line of its
/// own: nothing if it is as large as the repository says.
pub fn size_warning(job: &DownloadJob, actual: u64) -> (r: Option<String>)
    ensures
        compose::opt_text(r) == mismatch(job@, actual),
{
    if actual == job.file.size {
        return None;
    }
    let expected = number::to_decimal(job.file.size);
    let got = number::to_decimal(actual);
    let head = compose::concat5(
        "warning: size mismatch for '",
        job.file.path.as_str(),
        "' (expected ",
        expected.as_str(),
        ", got ",
    );
    Some(compose::concat3(head.as_str(), got.as_str(), ") — cleaning up partial file"))
}

/// A file that has to be fetched is fetched from its first byte on, without a range header.
pub proof fn new_files_start_over(job: JobView, partial: Option<u64>)
    requires
        job.new,
    ensures
        resumed_at(job.new, partial) == 0,
        range_of(resumed_at(job.new, partial)) is None,
{
}

/// A file that was found whole does not have to be fetched again unless that is forced.
pub proof fn fetched_files_are_cached(job: JobView, actual: u64)
    requires
        mismatch(job, actual) is None,
    ensures
        !to_fetch(job.file.size, false, Some(actual)),
        to_fetch(job.file.size, true, Some(actual)),
{
}

/// The address of a file leads from the server to the repository, its revision, and the file in it.
pub proof fn addresses_lead_to_files(
    base: Seq<char>,
    repo_id: Seq<char>,
    revision: Seq<char>,
    file: Seq<char>,
)
    ensures
        path::directory(address(base, repo_id, revision, file)) == path::directory(base)
            + path::directory(repo_id) + seq!["resolve"@] + path::directory(revision)
            + path::directory(encode::encoded(file)),
{
    let b = edge::right_trimmed(base, Class::Only('/'));
    let enc = encode::encoded(file);
    reveal_strlit("/");
    reveal_strlit("/resolve/");
    reveal_strlit("resolve");
    reveal_strlit(".");
    path::trailing_slashes_do_not_count(base);
    assert(path::is_step("resolve"@)) by {
        assert("resolve"@.len() == 7 && "."@.len() == 1);
        assert(!"resolve"@.contains('/'));
    }
    path::names_are_steps("resolve"@);
    let x = b.push('/') + repo_id;
    let y = x.push('/') + "resolve"@;
    let z = y.push('/') + revision;
    assert(address(base, repo_id, revision, file) =~= z.push('/') + enc);
    path::slashes_lead_down(b, repo_id);
    path::slashes_lead_down(x, "resolve"@);
    path::slashes_lead_down(y, revision);
    path::slashes_lead_down(z, enc);
}

/// A file goes to its own place below the directory of the download.
pub proof fn files_go_below_the_target(
    target: Seq<char>,
    file: FileView,
    force: bool,
    found: Option<u64>,
    total: nat,
)
    requires
        !edge::begins(file.path, "/"@),
    ensures
        path::directory(job_of(target, file, force, found, total).local) == path::directory(target)
            + path::directory(file.path),
{
    path::places_below_lead_on(target, file.path);
}

/// A file is left alone only if one of its size lies in its place and nothing was forced.
pub proof fn complete_files_are_left_alone(
    target: Seq<char>,
    file: FileView,
    force: bool,
    found: Option<u64>,
    total: nat,
)
    ensures
        !job_of(target, file, force, found, total).new <==> !force && found is Some && found->0
            == file.size,
{
}

/// A request for the rest of a file asks for everything from the first byte that is missing.
pub proof fn ranges_are_read_back(offset: u64)
    ensures
        offset == 0 <==> range_of(offset) is None,
        range_of(offset) matches Some(h) ==> (edge::after_prefix(h, "bytes="@) matches Some(t) && (
        edge::before_suffix(t, "-"@) matches Some(d) && number::number(d, u64::MAX as nat) == Some(
            offset as nat,
        ))),
{
    if offset > 0 {
        let d = number::decimal(offset as nat);
        let h = "bytes="@ + d + "-"@;
        reveal_strlit("bytes=");
        reveal_strlit("-");
        assert(h.subrange(0, 6) =~= "bytes="@);
        let t = h.skip(6);
        assert(t =~= d + "-"@);
        assert(t.subrange(t.len() - 1, t.len() as int) =~= "-"@);
        assert(t.take(t.len() - 1) =~= d);
        number::parsing_inverts_printing(offset as nat, u64::MAX as nat);
    }
}

} // verus!
