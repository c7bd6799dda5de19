use crate::download::job::{JobView, ResultView};
use crate::download::tree::FileView;
use crate::download::{job, size, tree};
use crate::download::{DownloadJob, DownloadResult, FileEntry, FileResult, HfUrl, UrlView};
use crate::failure;
use crate::failure::Failure;
use crate::text::{compose, number, path};
use vstd::prelude::*;

verus! {

/// What came of a download, as mathematical values.
pub struct DownloadView {
    pub repo_id: Seq<char>,
    pub revision: Seq<char>,
    pub target: Seq<char>,
    pub files: Seq<ResultView>,
}

impl View for DownloadResult {
    type V = DownloadView;

    open spec fn view(&self) -> DownloadView {
        DownloadView {
            repo_id: self.repo_id@,
            revision: self.revision@,
            target: self.target_dir@,
            files: job::result_views(self.files@),
        }
    }
}

/// What a file that was already there comes to.
pub open spec fn cached_result(j: JobView) -> ResultView {
    ResultView {
        path: j.file.path,
        size: j.file.size,
        status: "cached"@,
        local: Some(j.local),
    }
}

/// What the files that are already there come to, in the order of the jobs.
pub open spec fn cached_results(jobs: Seq<JobView>) -> Seq<ResultView>
    decreases jobs.len(),
{
    if jobs.len() == 0 {
        Seq::empty()
    } else {
        let before = cached_results(jobs.drop_last());
        if jobs.last().new {
            before
        } else {
            before.push(cached_result(jobs.last()))
        }
    }
}

/// The places of the jobs that are left to do.
pub open spec fn open_jobs(jobs: Seq<JobView>) -> Seq<usize>
    decreases jobs.len(),
{
    if jobs.len() == 0 {
        Seq::empty()
    } else {
        let before = open_jobs(jobs.drop_last());
        if jobs.last().new {
            before.push((jobs.len() - 1) as usize)
        } else {
            before
        }
    }
}

/// What the user is told of a job.
pub open spec fn job_line(j: JobView) -> Seq<char> {
    "info: "@ + path::base_name(j.file.path) + " "@ + size::size_text(j.file.size as nat)
        + if j.new {
        " downloading..."@
    } else {
        " cached"@
    }
}

/// What the user is told of jobs.
pub open spec fn job_lines(jobs: Seq<JobView>) -> Seq<Seq<char>> {
    Seq::new(jobs.len(), |i: int| job_line(jobs[i]))
}

/// The beginning of a download.
pub struct Beginning {
    /// What the user is told.
    pub lines: Vec<String>,
    /// What the files that are already there come to.
    pub cached: Vec<FileResult>,
    /// The places of the jobs that are left to do.
    pub left: Vec<usize>,
}

fn line_of(j: &DownloadJob) -> (r: String)
    ensures
        r@ == job_line(j@),
{
    compose::concat5(
        "info: ",
        size::format_file_name(j.file.path.as_str()).as_str(),
        " ",
        size::format_size(j.file.size).as_str(),
        if j.new {
            " downloading..."
        } else {
            " cached"
        },
    )
}

/// Begins a download: says what is left to do, and tells a user who reads along of each job.
pub fn begin_all(jobs: &Vec<DownloadJob>, human: bool) -> (r: Beginning)
    ensures
        compose::texts(r.lines@) == (if human {
            job_lines(job::job_views(jobs@))
        } else {
            Seq::empty()
        }),
        job::result_views(r.cached@) == cached_results(job::job_views(jobs@)),
        r.left@ == open_jobs(job::job_views(jobs@)),
        none_fetched(job::result_views(r.cached@)),
{
    let ghost all = job::job_views(jobs@);
    let mut lines = compose::no_texts();
    let mut cached: Vec<FileResult> = Vec::new();
    let mut left: Vec<usize> = Vec::new();
    let mut i: usize = 0;
    assert(job::result_views(cached@) =~= cached_results(all.take(0)));
    assert(left@ =~= open_jobs(all.take(0)));
    assert(job_lines(all.take(0)) =~= Seq::<Seq<char>>::empty());
    while i < jobs.len()
        invariant
            i <= jobs@.len(),
            all == job::job_views(jobs@),
            compose::texts(lines@) == (if human {
                job_lines(all.take(i as int))
            } else {
                Seq::empty()
            }),
            job::result_views(cached@) == cached_results(all.take(i as int)),
            left@ == open_jobs(all.take(i as int)),
        decreases jobs@.len() - i,
    {
        let j = &jobs[i];
        let ghost before = job::result_views(cached@);
        assert(all.take(i + 1).drop_last() =~= all.take(i as int));
        assert(all.take(i + 1).last() == j@);
        assert(job_lines(all.take(i + 1)) =~= job_lines(all.take(i as int)).push(job_line(j@)));
        if human {
            compose::push_string(&mut lines, line_of(j));
        }
        if j.new {
            left.push(i);
        } else {
            let f = FileResult {
                path: j.file.path.clone(),
                size: j.file.size,
                status: "cached".to_owned(),
                local_path: Some(j.local_path.clone()),
            };
            assert(f@ == cached_result(j@));
            cached.push(f);
            assert(job::result_views(cached@) =~= before.push(f@));
        }
        i += 1;
    }
    assert(all.take(i as int) =~= all);
    proof {
        lemma_jobs_are_split(all);
    }
    Beginning { lines, cached, left }
}

/// How a job that was left to do has ended.
pub enum Fetched {
    /// The fetching came to an end of its own.
    Done(FileResult),
    /// The fetching failed.
    Failed { path: String, message: String },
    /// The fetching was cut off.
    Lost { message: String },
}

/// How a job has ended, as mathematical values.
pub enum FetchedView {
    Done(ResultView),
    Failed { path: Seq<char>, message: Seq<char> },
    Lost { message: Seq<char> },
}

impl View for Fetched {
    type V = FetchedView;

    open spec fn view(&self) -> FetchedView {
        match self {
            Fetched::Done(f) => FetchedView::Done(f@),
            Fetched::Failed { path, message } => FetchedView::Failed {
                path: path@,
                message: message@,
            },
            Fetched::Lost { message } => FetchedView::Lost { message: message@ },
        }
    }
}

/// How jobs have ended, as mathematical values.
pub open spec fn fetched_views(v: Seq<Fetched>) -> Seq<FetchedView> {
    Seq::new(v.len(), |i: int| v[i]@)
}

/// What came of a job that was left to do.
pub open spec fn result_of(f: FetchedView) -> ResultView {
    match f {
        FetchedView::Done(r) => r,
        FetchedView::Failed { path, message } => ResultView {
            path,
            size: 0,
            status: "error"@,
            local: None,
        },
        FetchedView::Lost { message } => ResultView {
            path: Seq::empty(),
            size: 0,
            status: "error"@,
            local: None,
        },
    }
}

/// What came of the jobs that were left to do.
pub open spec fn results_of(v: Seq<FetchedView>) -> Seq<ResultView> {
    Seq::new(v.len(), |i: int| result_of(v[i]))
}

/// What the user is told of the jobs that failed.
pub open spec fn error_lines(v: Seq<FetchedView>) -> Seq<Seq<char>>
    decreases v.len(),
{
    if v.len() == 0 {
        Seq::empty()
    } else {
        let before = error_lines(v.drop_last());
        match v.last() {
            FetchedView::Done(r) => before,
            FetchedView::Failed { path, message } => before.push(
                "error: download failed for '"@ + path + "': "@ + message,
            ),
            FetchedView::Lost { message } => before.push("error: task panicked: "@ + message),
        }
    }
}

/// How many files have a status.
pub open spec fn count_of(files: Seq<ResultView>, status: Seq<char>) -> nat
    decreases files.len(),
{
    if files.len() == 0 {
        0
    } else {
        count_of(files.drop_last(), status) + if files.last().status == status {
            1nat
        } else {
            0
        }
    }
}

/// How many bytes the files of a status have together.
pub open spec fn size_of(files: Seq<ResultView>, status: Seq<char>) -> nat
    decreases files.len(),
{
    if files.len() == 0 {
        0
    } else {
        size_of(files.drop_last(), status) + if files.last().status == status {
            files.last().size as nat
        } else {
            0
        }
    }
}

/// The ending of a noun behind a number.
pub open spec fn plural(n: nat) -> Seq<char> {
    if n > 1 {
        "s"@
    } else {
        ""@
    }
}

/// What the user is told at the end of a download.
pub open spec fn summary(files: Seq<ResultView>, human: bool) -> Seq<Seq<char>> {
    let cached = count_of(files, "cached"@);
    let new = count_of(files, "downloaded"@);
    if !human || (cached == 0 && new == 0) {
        Seq::empty()
    } else if new > 0 {
        seq![
            ""@,
            "info: downloaded "@ + number::decimal(new) + " file"@ + plural(new) + " ("@
                + size::size_text(size_of(files, "downloaded"@)) + "), "@ + number::decimal(cached)
                + " cached"@,
        ]
    } else {
        seq![
            ""@,
            "info: all "@ + number::decimal(cached) + " file"@ + plural(cached) + " already cached"@,
        ]
    }
}

fn count_status(files: &Vec<FileResult>, status: &str) -> (r: usize)
    ensures
        r == count_of(job::result_views(files@), status@),
{
    let ghost all = job::result_views(files@);
    let mut n: usize = 0;
    let mut i: usize = 0;
    while i < files.len()
        invariant
            n <= i <= files@.len(),
            all == job::result_views(files@),
            n == count_of(all.take(i as int), status@),
        decreases files@.len() - i,
    {
        assert(all.take(i + 1).drop_last() =~= all.take(i as int));
        assert(all.take(i + 1).last() == files@[i as int]@);
        if compose::same(files[i].status.as_str(), status) {
            n += 1;
        }
        i += 1;
    }
    assert(all.take(i as int) =~= all);
    n
}

proof fn lemma_size_grows(files: Seq<ResultView>, status: Seq<char>, n: int)
    requires
        0 <= n <= files.len(),
    ensures
        size_of(files.take(n), status) <= size_of(files, status),
    decreases files.len() - n,
{
    if n < files.len() {
        lemma_size_grows(files, status, n + 1);
        assert(files.take(n + 1).drop_last() =~= files.take(n));
    } else {
        assert(files.take(n) =~= files);
    }
}

fn sum_sizes(files: &Vec<FileResult>, status: &str) -> (r: Option<u64>)
    ensures
        match r {
            Some(n) => n == size_of(job::result_views(files@), status@),
            None => size_of(job::result_views(files@), status@) > u64::MAX,
        },
{
    let ghost all = job::result_views(files@);
    let mut n: u64 = 0;
    let mut i: usize = 0;
    while i < files.len()
        invariant
            i <= files@.len(),
            all == job::result_views(files@),
            n == size_of(all.take(i as int), status@),
        decreases files@.len() - i,
    {
        assert(all.take(i + 1).drop_last() =~= all.take(i as int));
        assert(all.take(i + 1).last() == files@[i as int]@);
        if compose::same(files[i].status.as_str(), status) {
            proof {
                lemma_size_grows(all, status@, i + 1);
            }
            match n.checked_add(files[i].size) {
                Some(m) => n = m,
                None => return None,
            }
        }
        i += 1;
    }
    assert(all.take(i as int) =~= all);
    Some(n)
}

fn plural_of(n: usize) -> (r: &'static str)
    ensures
        r@ == plural(n as nat),
{
    if n > 1 {
        "s"
    } else {
        ""
    }
}

fn summarize(files: &Vec<FileResult>, human: bool) -> (r: Vec<String>)
    requires
        size_of(job::result_views(files@), "downloaded"@) <= u64::MAX,
    ensures
        compose::texts(r@) == summary(job::result_views(files@), human),
{
    let cached: usize = count_status(files, "cached");
    let new: usize = count_status(files, "downloaded");
    if !human || (cached == 0 && new == 0) {
        return compose::no_texts();
    }
    let had = number::to_decimal(cached as u64);
    let line = if new > 0 {
        let bytes: u64 = match sum_sizes(files, "downloaded") {
            Some(n) => n,
            None => 0,
        };
        let got = number::to_decimal(new as u64);
        let head = compose::concat5(
            "info: downloaded ",
            got.as_str(),
            " file",
            plural_of(new),
            " (",
        );
        compose::concat5(
            head.as_str(),
            size::format_size(bytes).as_str(),
            "), ",
            had.as_str(),
            " cached",
        )
    } else {
        compose::concat5("info: all ", had.as_str(), " file", plural_of(cached), " already cached")
    };
    compose::list2("", line.as_str())
}

/// The end of a download.
pub struct Ending {
    pub result: DownloadResult,
    /// What the user is told of the jobs that failed.
    pub errors: Vec<String>,
    /// What the user is told of the whole.
    pub summary: Vec<String>,
}

/// The files of a download: those that were already there, and those that were left to fetch.
pub open spec fn all_results(cached: Seq<ResultView>, fetched: Seq<FetchedView>) -> Seq<ResultView> {
    cached + results_of(fetched)
}

fn push_fetched(files: &mut Vec<FileResult>, errors: &mut Vec<String>, f: Fetched)
    ensures
        job::result_views(final(files)@) == job::result_views(old(files)@).push(result_of(f@)),
        compose::texts(final(errors)@) == compose::texts(old(errors)@) + error_lines(seq![f@]),
{
    proof {
        reveal_with_fuel(error_lines, 2);
        reveal_strlit("");
        assert(""@ =~= Seq::<char>::empty());
    }
    let ghost before = job::result_views(files@);
    let ghost view = f@;
    assert(seq![view].drop_last() =~= Seq::<FetchedView>::empty());
    let r = match f {
        Fetched::Done(r) => r,
        Fetched::Failed { path, message } => {
            compose::push_string(
                errors,
                compose::concat4(
                    "error: download failed for '",
                    path.as_str(),
                    "': ",
                    message.as_str(),
                ),
            );
            FileResult { path, size: 0, status: "error".to_owned(), local_path: None }
        },
        Fetched::Lost { message } => {
            compose::push_string(
                errors,
                compose::concat("error: task panicked: ", message.as_str()),
            );
            FileResult { path: String::new(), size: 0, status: "error".to_owned(), local_path: None }
        },
    };
    assert(r@ == result_of(view));
    files.push(r);
    assert(job::result_views(files@) =~= before.push(r@));
}

/// How many bytes were fetched together, if a number of sixty-four bits can hold that.
pub fn fetched_size(fetched: &Vec<Fetched>) -> (r: Option<u64>)
    ensures
        match r {
            Some(n) => n == size_of(results_of(fetched_views(fetched@)), "downloaded"@),
            None => size_of(results_of(fetched_views(fetched@)), "downloaded"@) > u64::MAX,
        },
{
    let ghost all = results_of(fetched_views(fetched@));
    let mut n: u64 = 0;
    let mut i: usize = 0;
    proof {
        reveal_strlit("downloaded");
        reveal_strlit("error");
        assert("downloaded"@.len() != "error"@.len());
    }
    while i < fetched.len()
        invariant
            i <= fetched@.len(),
            all == results_of(fetched_views(fetched@)),
            "downloaded"@.len() != "error"@.len(),
            n == size_of(all.take(i as int), "downloaded"@),
        decreases fetched@.len() - i,
    {
        assert(all.take(i + 1).drop_last() =~= all.take(i as int));
        assert(all.take(i + 1).last() == result_of(fetched@[i as int]@));
        match &fetched[i] {
            Fetched::Done(f) => {
                if compose::same(f.status.as_str(), "downloaded") {
                    proof {
                        lemma_size_grows(all, "downloaded"@, i + 1);
                    }
                    match n.checked_add(f.size) {
                        Some(m) => n = m,
                        None => return None,
                    }
                }
            },
            _ => {},
        }
        i += 1;
    }
    assert(all.take(i as int) =~= all);
    Some(n)
}

/// Whether none of the files was fetched.
pub open spec fn none_fetched(files: Seq<ResultView>) -> bool {
    forall|i: int| 0 <= i < files.len() ==> (#[trigger] files[i]).status != "downloaded"@
}

proof fn lemma_size_of_none(files: Seq<ResultView>)
    requires
        none_fetched(files),
    ensures
        size_of(files, "downloaded"@) == 0,
        count_of(files, "downloaded"@) == 0,
    decreases files.len(),
{
    if files.len() > 0 {
        assert(files[files.len() - 1] == files.last());
        assert forall|i: int| 0 <= i < files.drop_last().len() implies (
        #[trigger] files.drop_last()[i]).status != "downloaded"@ by {
            assert(files.drop_last()[i] == files[i]);
        }
        lemma_size_of_none(files.drop_last());
    }
}

proof fn lemma_size_adds(a: Seq<ResultView>, b: Seq<ResultView>, status: Seq<char>)
    ensures
        size_of(a + b, status) == size_of(a, status) + size_of(b, status),
        count_of(a + b, status) == count_of(a, status) + count_of(b, status),
    decreases b.len(),
{
    if b.len() == 0 {
        assert(a + b =~= a);
    } else {
        assert((a + b).drop_last() =~= a + b.drop_last());
        assert((a + b).last() == b.last());
        lemma_size_adds(a, b.drop_last(), status);
    }
}

proof fn lemma_errors_add(a: Seq<FetchedView>, b: FetchedView)
    ensures
        error_lines(a.push(b)) == error_lines(a) + error_lines(seq![b]),
{
    reveal_with_fuel(error_lines, 2);
    assert(a.push(b).drop_last() =~= a);
    assert(seq![b].drop_last() =~= Seq::<FetchedView>::empty());
    assert(error_lines(a.push(b)) =~= error_lines(a) + error_lines(seq![b]));
}

/// Ends a download, from the files that were already there and from how the jobs that were left to
/// do have ended.
pub fn download_all(
    cached: Vec<FileResult>,
    fetched: Vec<Fetched>,
    repo_id: &str,
    revision: &str,
    human: bool,
) -> (r: Ending)
    requires
        none_fetched(job::result_views(cached@)),
        size_of(results_of(fetched_views(fetched@)), "downloaded"@) <= u64::MAX,
    ensures
        r.result.repo_id@ == repo_id@,
        r.result.revision@ == revision@,
        r.result.target_dir@ == Seq::<char>::empty(),
        job::result_views(r.result.files@) == all_results(
            job::result_views(cached@),
            fetched_views(fetched@),
        ),
        compose::texts(r.errors@) == error_lines(fetched_views(fetched@)),
        compose::texts(r.summary@) == summary(job::result_views(r.result.files@), human),
{
    let ghost first = job::result_views(cached@);
    let ghost views = fetched_views(fetched@);
    let ghost later = results_of(views);
    let mut files = cached;
    let mut errors = compose::no_texts();
    proof {
        lemma_size_of_none(first);
        lemma_size_adds(first, later, "downloaded"@);
        assert(first + results_of(views.take(0)) =~= first);
        assert(compose::texts(errors@) =~= error_lines(views.take(0)));
    }
    for f in it: fetched
        invariant
            it.seq() == fetched@,
            views == fetched_views(fetched@),
            job::result_views(files@) == first + results_of(views.take(it.index() as int)),
            compose::texts(errors@) == error_lines(views.take(it.index() as int)),
    {
        let ghost k = it.index() as int;
        assert(views[k] == f@);
        assert(views.take(k + 1) =~= views.take(k).push(views[k]));
        proof {
            lemma_errors_add(views.take(k), views[k]);
        }
        push_fetched(&mut files, &mut errors, f);
        assert(first + results_of(views.take(k + 1)) =~= (first + results_of(views.take(k))).push(
            result_of(views[k]),
        ));
    }
    assert(views.take(views.len() as int) =~= views);
    let lines = summarize(&files, human);
    Ending {
        result: DownloadResult {
            repo_id: repo_id.to_owned(),
            revision: revision.to_owned(),
            target_dir: String::new(),
            files,
        },
        errors,
        summary: lines,
    }
}

/// What a file would come to, when `found` is the size of what lies in its place.
pub open spec fn forecast(target: Seq<char>, file: FileView, found: Option<u64>) -> ResultView {
    ResultView {
        path: file.path,
        size: file.size,
        status: match found {
            Some(n) => if n == file.size {
                "cached"@
            } else {
                "redownload"@
            },
            None => "new"@,
        },
        local: if found == Some(file.size) {
            Some(path::below(target, file.path))
        } else {
            None
        },
    }
}

/// What files would come to.
pub open spec fn forecasts(
    target: Seq<char>,
    files: Seq<FileView>,
    found: Seq<Option<u64>>,
) -> Seq<ResultView> {
    Seq::new(files.len(), |i: int| forecast(target, files[i], found[i]))
}

/// How many bytes would be fetched.
pub open spec fn size_to_fetch(files: Seq<FileView>, found: Seq<Option<u64>>) -> nat
    decreases files.len(),
{
    if files.len() == 0 {
        0
    } else {
        size_to_fetch(files.drop_last(), found) + if found[files.len() - 1] == Some(
            files.last().size,
        ) {
            0
        } else {
            files.last().size as nat
        }
    }
}

/// What the user is told of what a file would come to.
pub open spec fn forecast_line(r: ResultView) -> Seq<char> {
    "  "@ + path::base_name(r.path) + " "@ + r.status
}

/// What the user is told of a download that is only tried.
pub open spec fn forecast_lines(files: Seq<ResultView>, total: nat) -> Seq<Seq<char>> {
    let cached = count_of(files, "cached"@);
    let new = (files.len() - cached) as nat;
    seq![
        number::decimal(files.len()) + " file"@ + plural(files.len()),
        if new > 0 {
            "  "@ + number::decimal(new) + " new, "@ + number::decimal(cached) + " cached, "@
                + size::size_text(total) + " total"@
        } else {
            "  all "@ + number::decimal(cached) + " cached"@
        },
    ] + Seq::new(files.len(), |i: int| forecast_line(files[i]))
}

/// A download that is only tried.
pub struct Trial {
    pub result: DownloadResult,
    /// What the user is told.
    pub lines: Vec<String>,
}

proof fn lemma_fetch_grows(files: Seq<FileView>, found: Seq<Option<u64>>, n: int)
    requires
        0 <= n <= files.len(),
    ensures
        size_to_fetch(files.take(n), found) <= size_to_fetch(files, found),
    decreases files.len() - n,
{
    if n < files.len() {
        lemma_fetch_grows(files, found, n + 1);
        assert(files.take(n + 1).drop_last() =~= files.take(n));
    } else {
        assert(files.take(n) =~= files);
    }
}

/// How many bytes would be fetched, if a number of sixty-four bits can hold that.
pub fn fetch_size(entries: &Vec<FileEntry>, found: &Vec<Option<u64>>) -> (r: Option<u64>)
    requires
        found@.len() == entries@.len(),
    ensures
        match r {
            Some(n) => n == size_to_fetch(tree::file_views(entries@), found@),
            None => size_to_fetch(tree::file_views(entries@), found@) > u64::MAX,
        },
{
    let ghost all = tree::file_views(entries@);
    let mut n: u64 = 0;
    let mut i: usize = 0;
    while i < entries.len()
        invariant
            i <= entries@.len(),
            found@.len() == entries@.len(),
            all == tree::file_views(entries@),
            n == size_to_fetch(all.take(i as int), found@),
        decreases entries@.len() - i,
    {
        assert(all.take(i + 1).drop_last() =~= all.take(i as int));
        assert(all.take(i + 1).last() == entries@[i as int]@);
        let there: bool = match found[i] {
            Some(m) => m == entries[i].size,
            None => false,
        };
        if !there {
            proof {
                lemma_fetch_grows(all, found@, i + 1);
            }
            match n.checked_add(entries[i].size) {
                Some(m) => n = m,
                None => return None,
            }
        }
        i += 1;
    }
    assert(all.take(i as int) =~= all);
    Some(n)
}

fn forecast_of(target: &str, e: &FileEntry, found: Option<u64>) -> (r: FileResult)
    ensures
        r@ == forecast(target@, e@, found),
{
    let (status, there) = match found {
        Some(n) => if n == e.size {
            ("cached", true)
        } else {
            ("redownload", false)
        },
        None => ("new", false),
    };
    FileResult {
        path: e.path.clone(),
        size: e.size,
        status: status.to_owned(),
        local_path: if there {
            Some(path::join_path(target, e.path.as_str()))
        } else {
            None
        },
    }
}

proof fn lemma_count_bound(files: Seq<ResultView>, status: Seq<char>)
    ensures
        count_of(files, status) <= files.len(),
    decreases files.len(),
{
    if files.len() > 0 {
        lemma_count_bound(files.drop_last(), status);
    }
}

fn say_forecast(files: &Vec<FileResult>, total: u64) -> (r: Vec<String>)
    ensures
        compose::texts(r@) == forecast_lines(job::result_views(files@), total as nat),
{
    let ghost all = job::result_views(files@);
    proof {
        lemma_count_bound(all, "cached"@);
    }
    let cached: usize = count_status(files, "cached");
    let new: usize = files.len() - cached;
    let first = compose::concat3(
        number::to_decimal(files.len() as u64).as_str(),
        " file",
        plural_of(files.len()),
    );
    let had = number::to_decimal(cached as u64);
    let second = if new > 0 {
        let head = compose::concat5(
            "  ",
            number::to_decimal(new as u64).as_str(),
            " new, ",
            had.as_str(),
            " cached, ",
        );
        compose::concat3(head.as_str(), size::format_size(total).as_str(), " total")
    } else {
        compose::concat3("  all ", had.as_str(), " cached")
    };
    let mut lines = compose::list2(first.as_str(), second.as_str());
    let ghost head = compose::texts(lines@);
    let mut i: usize = 0;
    assert(Seq::new(0, |k: int| forecast_line(all[k])) =~= Seq::<Seq<char>>::empty());
    assert(head + Seq::new(0, |k: int| forecast_line(all[k])) =~= head);
    while i < files.len()
        invariant
            i <= files@.len(),
            all == job::result_views(files@),
            compose::texts(lines@) == head + Seq::new(i as nat, |k: int| forecast_line(all[k])),
        decreases files@.len() - i,
    {
        let f = &files[i];
        compose::push_string(
            &mut lines,
            compose::concat4(
                "  ",
                size::format_file_name(f.path.as_str()).as_str(),
                " ",
                f.status.as_str(),
            ),
        );
        i += 1;
        assert(compose::texts(lines@) =~= head + Seq::new(
            i as nat,
            |k: int| forecast_line(all[k]),
        ));
    }
    lines
}

/// What a download that is only tried comes to.
pub open spec fn tried(
    url: UrlView,
    target: Seq<char>,
    files: Seq<FileView>,
    found: Seq<Option<u64>>,
) -> DownloadView {
    DownloadView {
        repo_id: url.repo_id,
        revision: url.revision,
        target,
        files: forecasts(target, files, found),
    }
}

/// Tries a download without fetching anything, where `found` holds the size of what lies in the
/// place of each file, if anything does.
pub fn dry_run_cmd(
    url: &HfUrl,
    target_dir: &str,
    entries: &Vec<FileEntry>,
    found: &Vec<Option<u64>>,
) -> (r: Result<Trial, Failure>)
    requires
        found@.len() == entries@.len(),
        size_to_fetch(tree::file_views(entries@), found@) <= u64::MAX,
    ensures
        match r {
            Ok(t) => {
                &&& entries@.len() > 0
                &&& t.result@ == tried(url@, target_dir@, tree::file_views(entries@), found@)
                &&& compose::texts(t.lines@) == forecast_lines(
                    t.result@.files,
                    size_to_fetch(tree::file_views(entries@), found@),
                )
            },
            Err(e) => entries@.len() == 0 && e@ == "no files to download"@,
        },
{
    if entries.len() == 0 {
        return Err(failure::failure("no files to download"));
    }
    let ghost all = forecasts(target_dir@, tree::file_views(entries@), found@);
    let mut files: Vec<FileResult> = Vec::new();
    let mut i: usize = 0;
    assert(job::result_views(files@) =~= all.take(0));
    while i < entries.len()
        invariant
            i <= entries@.len(),
            found@.len() == entries@.len(),
            all == forecasts(target_dir@, tree::file_views(entries@), found@),
            job::result_views(files@) == all.take(i as int),
        decreases entries@.len() - i,
    {
        let f = forecast_of(target_dir, &entries[i], found[i]);
        let ghost before = job::result_views(files@);
        assert(f@ == all[i as int]);
        files.push(f);
        i += 1;
        assert(job::result_views(files@) =~= before.push(f@));
        assert(all.take(i as int) =~= before.push(f@));
    }
    assert(all.take(i as int) =~= all);
    let total: u64 = match fetch_size(entries, found) {
        Some(n) => n,
        None => 0,
    };
    let lines = say_forecast(&files, total);
    Ok(
        Trial {
            result: DownloadResult {
                repo_id: url.repo_id.clone(),
                revision: url.revision.clone(),
                target_dir: target_dir.to_owned(),
                files,
            },
            lines,
        },
    )
}

/// What the user is told before a listing.
pub fn announce_listing(url: &HfUrl) -> (r: String)
    ensures
        r@ == "listing files for "@ + url.repo_id@ + "@"@ + url.revision@,
{
    compose::concat4("listing files for ", url.repo_id.as_str(), "@", url.revision.as_str())
}

/// What the user is told before a download.
pub fn announce_target(target_dir: &str) -> (r: String)
    ensures
        r@ == "target directory: "@ + target_dir@,
{
    compose::concat("target directory: ", target_dir)
}

/// Whether there is anything to download.
pub fn require_files(entries: &Vec<FileEntry>) -> (r: Result<(), Failure>)
    ensures
        match r {
            Ok(_) => entries@.len() > 0,
            Err(e) => entries@.len() == 0 && e@ == "no files to download"@,
        },
{
    if entries.len() == 0 {
        Err(failure::failure("no files to download"))
    } else {
        Ok(())
    }
}

/// Every file of a download comes to something: those that were already there, and those that were
/// left to fetch.
pub proof fn every_file_is_accounted_for(jobs: Seq<JobView>, fetched: Seq<FetchedView>)
    requires
        fetched.len() == open_jobs(jobs).len(),
    ensures
        all_results(cached_results(jobs), fetched).len() == jobs.len(),
        none_fetched(cached_results(jobs)),
{
    lemma_jobs_are_split(jobs);
}

proof fn lemma_jobs_are_split(jobs: Seq<JobView>)
    ensures
        cached_results(jobs).len() + open_jobs(jobs).len() == jobs.len(),
        none_fetched(cached_results(jobs)),
    decreases jobs.len(),
{
    reveal_strlit("downloaded");
    reveal_strlit("cached");
    assert("downloaded"@.len() != "cached"@.len());
    if jobs.len() > 0 {
        lemma_jobs_are_split(jobs.drop_last());
    }
}

/// A download that is only tried foretells which files a download would have to fetch.
pub proof fn trials_foretell(target: Seq<char>, file: FileView, found: Option<u64>, total: nat)
    ensures
        (forecast(target, file, found).status == "cached"@) == !job::job_of(
            target,
            file,
            false,
            found,
            total,
        ).new,
{
    reveal_strlit("cached");
    reveal_strlit("redownload");
    reveal_strlit("new");
    assert("redownload"@.len() != "cached"@.len());
    assert("new"@.len() != "cached"@.len());
}

/// The jobs that are left to do are exactly those of files that have to be fetched.
pub proof fn new_files_are_left_to_do(jobs: Seq<JobView>, i: int)
    requires
        0 <= i < jobs.len() <= usize::MAX,
    ensures
        open_jobs(jobs).contains(i as usize) <==> jobs[i].new,
        open_jobs(jobs).len() + cached_results(jobs).len() == jobs.len(),
    decreases jobs.len(),
{
    let left = open_jobs(jobs);
    let fewer = jobs.drop_last();
    let before = open_jobs(fewer);
    lemma_open_jobs(jobs);
    lemma_open_jobs(fewer);
    if i < fewer.len() {
        new_files_are_left_to_do(fewer, i);
        if left.contains(i as usize) {
            let k = choose|k: int| 0 <= k < left.len() && left[k] == i as usize;
            assert(before[k] == i as usize);
        }
        if before.contains(i as usize) {
            let k = choose|k: int| 0 <= k < before.len() && before[k] == i as usize;
            assert(left[k] == i as usize);
        }
    } else {
        if jobs.last().new {
            assert(left[before.len() as int] == i as usize);
        } else if left.contains(i as usize) {
            let k = choose|k: int| 0 <= k < left.len() && left[k] == i as usize;
            assert(before[k] < fewer.len());
        }
    }
}

proof fn lemma_open_jobs(jobs: Seq<JobView>)
    requires
        jobs.len() <= usize::MAX,
    ensures
        open_jobs(jobs).len() + cached_results(jobs).len() == jobs.len(),
        forall|k: int| 0 <= k < open_jobs(jobs).len() ==> (#[trigger] open_jobs(jobs)[k])
            < jobs.len(),
    decreases jobs.len(),
{
    if jobs.len() > 0 {
        lemma_open_jobs(jobs.drop_last());
        let before = open_jobs(jobs.drop_last());
        assert forall|k: int| 0 <= k < open_jobs(jobs).len() implies (#[trigger] open_jobs(
            jobs,
        )[k]) < jobs.len() by {
            if k < before.len() {
                assert(open_jobs(jobs)[k] == before[k]);
            }
        }
    }
}

/// What a download that is only tried would fetch, and what lies there already, are together all the
/// bytes of the files.
pub proof fn trials_add_up(
    target: Seq<char>,
    files: Seq<FileView>,
    found: Seq<Option<u64>>,
    sizes: Seq<nat>,
)
    requires
        files.len() == found.len() == sizes.len(),
        forall|i: int| 0 <= i < files.len() ==> #[trigger] sizes[i] == files[i].size as nat,
    ensures
        size_to_fetch(files, found) + size_of(forecasts(target, files, found), "cached"@) == total(
            sizes,
        ),
    decreases files.len(),
{
    if files.len() > 0 {
        let f = files.drop_last();
        let d = found.drop_last();
        let s = sizes.drop_last();
        assert forall|i: int| 0 <= i < f.len() implies #[trigger] s[i] == f[i].size as nat by {
            assert(s[i] == sizes[i]);
        }
        trials_add_up(target, f, d, s);
        lemma_same_size(f, found, d);
        assert(forecasts(target, files, found).drop_last() =~= forecasts(target, f, d));
        let n = files.len() - 1;
        assert(forecasts(target, files, found).last() == forecast(target, files[n], found[n]));
        assert(sizes[n] == files[n].size as nat);
        reveal_strlit("cached");
        reveal_strlit("redownload");
        reveal_strlit("new");
        assert("cached"@.len() == 6 && "redownload"@.len() == 10 && "new"@.len() == 3);
    }
}

/// The sum of some numbers.
pub open spec fn total(v: Seq<nat>) -> nat
    decreases v.len(),
{
    if v.len() == 0 {
        0
    } else {
        total(v.drop_last()) + v.last()
    }
}

proof fn lemma_same_size(files: Seq<FileView>, a: Seq<Option<u64>>, b: Seq<Option<u64>>)
    requires
        files.len() <= a.len(),
        files.len() <= b.len(),
        forall|i: int| 0 <= i < files.len() ==> #[trigger] a[i] == b[i],
    ensures
        size_to_fetch(files, a) == size_to_fetch(files, b),
    decreases files.len(),
{
    if files.len() > 0 {
        lemma_same_size(files.drop_last(), a, b);
        assert(a[files.len() - 1] == b[files.len() - 1]);
    }
}

/// Every file that could not be fetched is told of, and no other.
pub proof fn failures_are_told(v: Seq<FetchedView>)
    ensures
        error_lines(v).len() == count_failed(v),
        error_lines(v).len() == 0 <==> forall|i: int| 0 <= i < v.len() ==> #[trigger] v[i] is Done,
    decreases v.len(),
{
    reveal(Seq::filter);
    if v.len() > 0 {
        let fewer = v.drop_last();
        failures_are_told(fewer);
        assert(v[v.len() - 1] == v.last());
        if error_lines(v).len() == 0 {
            assert forall|i: int| 0 <= i < v.len() implies #[trigger] v[i] is Done by {
                if i < fewer.len() {
                    assert(fewer[i] == v[i]);
                }
            }
        }
        if forall|i: int| 0 <= i < v.len() ==> #[trigger] v[i] is Done {
            assert forall|i: int| 0 <= i < fewer.len() implies #[trigger] fewer[i] is Done by {
                assert(fewer[i] == v[i]);
            }
        }
    }
}

/// How many jobs failed.
pub open spec fn count_failed(v: Seq<FetchedView>) -> nat {
    v.filter(|f: FetchedView| !(f is Done)).len()
}

} // verus!
