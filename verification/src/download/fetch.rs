//! The fetching of one file, step by step: each event leads to the next state and to what is done
//! about it.

use crate::download::job;
use crate::download::job::{JobView, ResultView};
use crate::download::{DownloadJob, FileResult};
use crate::text::compose;
use vstd::prelude::*;

verus! {

/// Where files are fetched from.
pub struct Origin {
    pub base: String,
    pub repo_id: String,
    pub revision: String,
}

/// Where files are fetched from, as mathematical values.
pub struct OriginView {
    pub base: Seq<char>,
    pub repo_id: Seq<char>,
    pub revision: Seq<char>,
}

impl View for Origin {
    type V = OriginView;

    open spec fn view(&self) -> OriginView {
        OriginView { base: self.base@, repo_id: self.repo_id@, revision: self.revision@ }
    }
}

/// How far the fetching of a file has come.
#[derive(Clone, Copy, PartialEq, Eq, Structural, Debug)]
pub enum Fetching {
    /// What an earlier attempt has left is being measured.
    Begun,
    /// The server has been asked for the file from this byte on.
    Asked(u64),
    /// The file that pieces go to is being opened.
    Granted,
    /// Pieces are being written.
    Open,
    /// What lies on the disk is being measured.
    Complete,
    /// The file is being moved to its place.
    Moving,
    /// The file is being removed.
    Removing,
    /// Nothing is left to do.
    Over,
}

/// What has happened. `T` stands for a text.
pub enum Event<T> {
    /// An earlier attempt has left this much, if anything.
    Left(Option<u64>),
    /// The server answered: the number and the text of the status.
    Answered { code: u16, shown: T },
    /// The server could not be asked, for this reason.
    Unanswered(T),
    /// What was to be done is done.
    Done,
    /// A piece was written.
    Written,
    /// No piece could be had, for this reason.
    Torn(T),
    /// A piece could not be written: the disk is full, or there is another cause.
    Unwritten { full: bool, cause: T },
    /// There are no more pieces.
    Drained,
    /// This much lies on the disk.
    Size(u64),
    /// Something else went wrong.
    Trouble(T),
}

/// What is to be done. `T` stands for a text and `R` for what came of a file.
pub enum Act<T, R> {
    /// Measure what lies at a path, if anything does.
    Measure(T),
    /// Ask for an address, with a range header if there is one.
    Ask { url: T, range: Option<T> },
    /// Open a file in a directory that may have to be made, at its end or from scratch.
    Open { path: T, append: bool },
    /// Write the next piece.
    Write,
    /// Close the file and measure it.
    Weigh(T),
    /// Move a file to its place.
    Move { from: T, to: T },
    /// Tell a warning and remove a file.
    Discard { warning: T, path: T },
    /// The fetching has come to this.
    Finish(R),
    /// The fetching has failed.
    Fail(T),
    /// Nothing.
    Nothing,
}

pub type EventView = Event<Seq<char>>;

pub type ActView = Act<Seq<char>, ResultView>;

pub open spec fn event_view(e: Event<String>) -> EventView {
    match e {
        Event::Left(n) => Event::Left(n),
        Event::Answered { code, shown } => Event::Answered { code, shown: shown@ },
        Event::Unanswered(t) => Event::Unanswered(t@),
        Event::Done => Event::Done,
        Event::Written => Event::Written,
        Event::Torn(t) => Event::Torn(t@),
        Event::Unwritten { full, cause } => Event::Unwritten { full, cause: cause@ },
        Event::Drained => Event::Drained,
        Event::Size(n) => Event::Size(n),
        Event::Trouble(t) => Event::Trouble(t@),
    }
}

pub open spec fn act_view(a: Act<String, FileResult>) -> ActView {
    match a {
        Act::Measure(p) => Act::Measure(p@),
        Act::Ask { url, range } => Act::Ask { url: url@, range: compose::opt_text(range) },
        Act::Open { path, append } => Act::Open { path: path@, append },
        Act::Write => Act::Write,
        Act::Weigh(p) => Act::Weigh(p@),
        Act::Move { from, to } => Act::Move { from: from@, to: to@ },
        Act::Discard { warning, path } => Act::Discard { warning: warning@, path: path@ },
        Act::Finish(r) => Act::Finish(r@),
        Act::Fail(m) => Act::Fail(m@),
        Act::Nothing => Act::Nothing,
    }
}

/// Where a file lies while it is fetched.
pub open spec fn partial(job: JobView) -> Seq<char> {
    job.local + ".tmp"@
}

/// Asking for a file from a byte on.
pub open spec fn asking(job: JobView, o: OriginView, offset: u64) -> (Fetching, ActView) {
    (
        Fetching::Asked(offset),
        Act::Ask {
            url: job::address(o.base, o.repo_id, o.revision, job.file.path),
            range: job::range_of(offset),
        },
    )
}

/// How the fetching of a file begins: what an earlier attempt has left is of interest only if the
/// file need not be fetched anew.
pub open spec fn beginning(job: JobView, o: OriginView) -> (Fetching, ActView) {
    if job.new {
        asking(job, o, 0)
    } else {
        (Fetching::Begun, Act::Measure(partial(job)))
    }
}

/// Giving up.
pub open spec fn failing(message: Seq<char>) -> (Fetching, ActView) {
    (Fetching::Over, Act::Fail(message))
}

/// What is done with a file of which `n` bytes lie on the disk.
pub open spec fn weighed(job: JobView, n: u64) -> (Fetching, ActView) {
    match job::mismatch(job, n) {
        None => (Fetching::Moving, Act::Move { from: partial(job), to: job.local }),
        Some(warning) => (Fetching::Removing, Act::Discard { warning, path: partial(job) }),
    }
}

/// What an event leads to. An event that is not waited for changes nothing.
pub open spec fn next(job: JobView, o: OriginView, s: Fetching, e: EventView) -> (
    Fetching,
    ActView,
) {
    if s == Fetching::Over {
        (s, Act::Nothing)
    } else {
        match e {
            Event::Trouble(m) => failing(m),
            Event::Left(left) => if s == Fetching::Begun {
                asking(job, o, job::resumed_at(job.new, left))
            } else {
                (s, Act::Nothing)
            },
            Event::Unanswered(m) => if s is Asked {
                failing("request failed: "@ + m)
            } else {
                (s, Act::Nothing)
            },
            Event::Answered { code, shown } => match s {
                Fetching::Asked(offset) => if job::granted(code) {
                    (Fetching::Granted, Act::Open { path: partial(job), append: offset > 0 })
                } else {
                    failing(
                        job::file_refusal(code, shown, job.file.path, o.repo_id, o.revision),
                    )
                },
                _ => (s, Act::Nothing),
            },
            Event::Written => if s == Fetching::Open {
                (s, Act::Write)
            } else {
                (s, Act::Nothing)
            },
            Event::Torn(m) => if s == Fetching::Open {
                failing("download stream error for '"@ + job.file.path + "': "@ + m)
            } else {
                (s, Act::Nothing)
            },
            Event::Unwritten { full, cause } => if s == Fetching::Open {
                failing(job::write_refusal(job.file.path, full, cause))
            } else {
                (s, Act::Nothing)
            },
            Event::Drained => if s == Fetching::Open {
                (Fetching::Complete, Act::Weigh(partial(job)))
            } else {
                (s, Act::Nothing)
            },
            Event::Size(n) => if s == Fetching::Complete {
                weighed(job, n)
            } else {
                (s, Act::Nothing)
            },
            Event::Done => match s {
                Fetching::Granted => (Fetching::Open, Act::Write),
                Fetching::Moving => (
                    Fetching::Over,
                    Act::Finish(job::result_with(job, "downloaded"@)),
                ),
                Fetching::Removing => (
                    Fetching::Over,
                    Act::Finish(job::result_with(job, "error"@)),
                ),
                _ => (s, Act::Nothing),
            },
        }
    }
}

fn ask(job: &DownloadJob, o: &Origin, offset: u64) -> (r: (Fetching, Act<String, FileResult>))
    ensures
        (r.0, act_view(r.1)) == asking(job@, o@, offset),
{
    let url = job::resolve_url(
        o.base.as_str(),
        o.repo_id.as_str(),
        o.revision.as_str(),
        job.file.path.as_str(),
    );
    (Fetching::Asked(offset), Act::Ask { url, range: job::range_header(offset) })
}

/// How the fetching of a file begins.
pub fn begin_file(job: &DownloadJob, o: &Origin) -> (r: (Fetching, Act<String, FileResult>))
    ensures
        (r.0, act_view(r.1)) == beginning(job@, o@),
{
    if job.new {
        ask(job, o, 0)
    } else {
        (Fetching::Begun, Act::Measure(job::make_tmp_path(job.local_path.as_str())))
    }
}

fn fail(message: String) -> (r: (Fetching, Act<String, FileResult>))
    ensures
        (r.0, act_view(r.1)) == failing(message@),
{
    (Fetching::Over, Act::Fail(message))
}

fn stay(s: Fetching) -> (r: (Fetching, Act<String, FileResult>))
    ensures
        (r.0, act_view(r.1)) == (s, ActView::Nothing),
{
    (s, Act::Nothing)
}

fn weigh(job: &DownloadJob, n: u64) -> (r: (Fetching, Act<String, FileResult>))
    ensures
        (r.0, act_view(r.1)) == weighed(job@, n),
{
    let from = job::make_tmp_path(job.local_path.as_str());
    match job::size_warning(job, n) {
        None => (Fetching::Moving, Act::Move { from, to: job.local_path.clone() }),
        Some(warning) => (Fetching::Removing, Act::Discard { warning, path: from }),
    }
}

/// Takes in an event in the fetching of a file: the next state, and what is to be done.
pub fn download_file(job: &DownloadJob, o: &Origin, s: Fetching, e: Event<String>) -> (r: (
    Fetching,
    Act<String, FileResult>,
))
    ensures
        (r.0, act_view(r.1)) == next(job@, o@, s, event_view(e)),
{
    match s {
        Fetching::Over => return stay(s),
        _ => {},
    }
    let name = job.file.path.as_str();
    match e {
        Event::Trouble(m) => fail(m),
        Event::Left(left) => match s {
            Fetching::Begun => ask(job, o, job::start_offset(job, left)),
            _ => stay(s),
        },
        Event::Unanswered(m) => match s {
            Fetching::Asked(_) => fail(compose::concat("request failed: ", m.as_str())),
            _ => stay(s),
        },
        Event::Answered { code, shown } => match s {
            Fetching::Asked(offset) => match job::check_status(
                code,
                shown.as_str(),
                name,
                o.repo_id.as_str(),
                o.revision.as_str(),
            ) {
                Ok(_) => (
                    Fetching::Granted,
                    Act::Open {
                        path: job::make_tmp_path(job.local_path.as_str()),
                        append: offset > 0,
                    },
                ),
                Err(f) => fail(f.message),
            },
            _ => stay(s),
        },
        Event::Written => match s {
            Fetching::Open => (s, Act::Write),
            _ => stay(s),
        },
        Event::Torn(m) => match s {
            Fetching::Open => fail(
                compose::concat4("download stream error for '", name, "': ", m.as_str()),
            ),
            _ => stay(s),
        },
        Event::Unwritten { full, cause } => match s {
            Fetching::Open => fail(job::write_failure(name, full, cause.as_str()).message),
            _ => stay(s),
        },
        Event::Drained => match s {
            Fetching::Open => (
                Fetching::Complete,
                Act::Weigh(job::make_tmp_path(job.local_path.as_str())),
            ),
            _ => stay(s),
        },
        Event::Size(n) => match s {
            Fetching::Complete => weigh(job, n),
            _ => stay(s),
        },
        Event::Done => match s {
            Fetching::Granted => (Fetching::Open, Act::Write),
            Fetching::Moving => (
                Fetching::Over,
                Act::Finish(job::result_as(job, "downloaded")),
            ),
            Fetching::Removing => (Fetching::Over, Act::Finish(job::result_as(job, "error"))),
            _ => stay(s),
        },
    }
}

/// The state that some events lead to.
pub open spec fn after(job: JobView, o: OriginView, events: Seq<EventView>) -> Fetching
    decreases events.len(),
{
    if events.len() == 0 {
        beginning(job, o).0
    } else {
        next(job, o, after(job, o, events.drop_last()), events.last()).0
    }
}

/// What is done after some events.
pub open spec fn done_after(job: JobView, o: OriginView, events: Seq<EventView>) -> ActView {
    if events.len() == 0 {
        beginning(job, o).1
    } else {
        next(job, o, after(job, o, events.drop_last()), events.last()).1
    }
}

/// Whether the server said that the file follows.
pub open spec fn was_granted(events: Seq<EventView>) -> bool {
    exists|i: int|
        0 <= i < events.len() && (#[trigger] events[i] matches Event::Answered { code, .. }
            && job::granted(code))
}

/// Whether the file was found to be as large as the repository says.
pub open spec fn was_whole(job: JobView, events: Seq<EventView>) -> bool {
    events.contains(EventView::Size(job.file.size))
}

/// Whether a state comes after the server said that the file follows.
pub open spec fn is_beyond_grant(s: Fetching) -> bool {
    s == Fetching::Granted || s == Fetching::Open || s == Fetching::Complete || s
        == Fetching::Moving || s == Fetching::Removing
}

proof fn lemma_history(job: JobView, o: OriginView, events: Seq<EventView>)
    ensures
        is_beyond_grant(after(job, o, events)) ==> was_granted(events),
        after(job, o, events) == Fetching::Moving ==> was_whole(job, events),
    decreases events.len(),
{
    if events.len() > 0 {
        let fewer = events.drop_last();
        lemma_history(job, o, fewer);
        if was_granted(fewer) {
            let i = choose|i: int|
                0 <= i < fewer.len() && (#[trigger] fewer[i] matches Event::Answered { code, .. }
                    && job::granted(code));
            assert(events[i] == fewer[i]);
        }
        if was_whole(job, fewer) {
            let i = choose|i: int| 0 <= i < fewer.len() && fewer[i] == EventView::Size(
                job.file.size,
            );
            assert(events[i] == fewer[i]);
        }
        assert(events[events.len() - 1] == events.last());
    }
}

/// A file gets to its place only after the server granted it and as many bytes of it as the
/// repository says were found on the disk, and only then it is said to be downloaded.
pub proof fn files_are_placed_whole(job: JobView, o: OriginView, events: Seq<EventView>)
    ensures
        done_after(job, o, events) matches Act::Move { from, to } ==> {
            &&& was_granted(events)
            &&& was_whole(job, events)
            &&& from == partial(job)
            &&& to == job.local
        },
        done_after(job, o, events) matches Act::Finish(r) ==> {
            &&& was_granted(events)
            &&& r.path == job.file.path
            &&& r.status == "downloaded"@ ==> was_whole(job, events)
        },
{
    lemma_history(job, o, events);
    if events.len() > 0 {
        let fewer = events.drop_last();
        lemma_history(job, o, fewer);
        if was_granted(fewer) {
            let i = choose|i: int|
                0 <= i < fewer.len() && (#[trigger] fewer[i] matches Event::Answered { code, .. }
                    && job::granted(code));
            assert(events[i] == fewer[i]);
        }
        if was_whole(job, fewer) {
            let i = choose|i: int| 0 <= i < fewer.len() && fewer[i] == EventView::Size(
                job.file.size,
            );
            assert(events[i] == fewer[i]);
        }
        reveal_strlit("downloaded");
        reveal_strlit("error");
        assert("downloaded"@.len() != "error"@.len());
    }
}

/// Nothing is written before the server granted the file, and nothing is done after the end.
pub proof fn nothing_is_written_unasked(job: JobView, o: OriginView, events: Seq<EventView>)
    ensures
        done_after(job, o, events) is Write ==> was_granted(events),
        done_after(job, o, events) is Open ==> was_granted(events),
        events.len() > 0 && after(job, o, events.drop_last()) == Fetching::Over ==> done_after(
            job,
            o,
            events,
        ) is Nothing,
{
    lemma_history(job, o, events);
}

} // verus!
