//! Plans: work on the outside world as a list of stages, each with what its outcome leads to.
//! A plan is data. Whoever carries it out performs one stage at a time, hands the reply to
//! `Progress::advance`, and is told which stage comes next.

use crate::sandbox::container_utils;
use crate::sandbox::container_utils::ContainerListItem;
use crate::text::{compose, edge, number, split};
use crate::ui;
use crate::ui::{ExitCode, Verbosity};
use vstd::prelude::*;

verus! {

/// A limit that is none.
pub const UNLIMITED: u64 = 0xffff_ffff_ffff_ffff;

/// Where the output of a program goes.
#[derive(Clone, Copy, PartialEq, Eq, Structural, Debug)]
pub enum Output {
    /// It is kept for the reply.
    Captured,
    /// It is kept for the reply, and shown in the end to a user who wants to see more.
    Echoed,
    /// The program shares the terminal.
    Shown,
    /// It is thrown away.
    Discarded,
}

/// One piece of work. `T` stands for a text and `L` for a list of texts.
pub enum Task<T, L> {
    /// Run a program for at most some seconds.
    Run { program: T, args: L, limit: u64, output: Output },
    /// Have the container tool list all containers.
    ListContainers,
    /// Ask whether a path exists.
    Exists(T),
    /// Ask whether a path is a directory.
    IsDir(T),
    /// Create a directory with its parents.
    MakeDir(T),
    /// Remove a directory with all it holds.
    RemoveDir(T),
    /// Write a file: its path and its text.
    Write(T, T),
    /// Move a directory to another place.
    Move(T, T),
    /// Copy all that a directory holds into another one.
    CopyTree(T, T),
    /// Copy a file to another place.
    CopyFile(T, T),
    /// Give a path these permissions.
    Protect(T, u32),
    /// Wait for some milliseconds.
    Pause(u64),
    /// Nothing is done.
    Nothing,
}

/// When the reply of a program that ran counts as good.
pub enum Want<T> {
    /// It reports success.
    Success,
    /// It reports success and prints exactly this, white space round it aside.
    Reads(T),
    /// The same, whatever the case of ASCII letters.
    ReadsLoosely(T),
    /// It reports success and prints this on a line of its own, white space round it aside.
    HasLine(T),
    /// A container with this id is listed.
    Lists(T),
    /// A container with this id is listed as running.
    ListsRunning(T),
}

/// Which part of a bad reply is searched for excuses.
#[derive(Clone, Copy, PartialEq, Eq, Structural, Debug)]
pub enum Hearing {
    /// None.
    Never,
    /// The error output as it is.
    Errors,
    /// The error output with ASCII capitals made small.
    LoweredErrors,
    /// Both outputs with ASCII capitals made small.
    LoweredBoth,
}

/// A line for the user.
pub struct Line<T> {
    pub text: T,
    /// Whether it is shown even when the program is quiet.
    pub always: bool,
}

/// What an outcome leads to.
pub enum Effect<T> {
    /// Go on, leaving out this many stages.
    Go(u64),
    /// Say a line and go on, leaving out this many stages.
    Say(Line<T>, u64),
    /// Give up with this message.
    Stop(T),
    /// Give up with this message, a colon and up to this many lines of the error output.
    StopTail(T, u64),
    /// Give up with this message and the exit code, or 1 where there is none.
    StopCode(T),
    /// Give up with this message and what was reported when the attempt failed.
    StopWith(T),
    /// Give up with what was reported when the attempt failed.
    Report,
}

/// One stage of a plan.
pub struct Stage<T, L> {
    /// Lines that come first, unless the program is quiet.
    pub say: L,
    /// Lines that come first in any case.
    pub shout: L,
    pub task: Task<T, L>,
    /// Whether the stage is performed even after an earlier one gave up. If such a stage gives up
    /// itself, nothing comes after it.
    pub always: bool,
    pub want: Want<T>,
    /// What a good reply leads to.
    pub good: Effect<T>,
    /// What any other reply of a program that ran leads to.
    pub bad: Effect<T>,
    /// What running out of time leads to.
    pub late: Effect<T>,
    /// What an attempt that could not be made leads to.
    pub broken: Effect<T>,
    /// What a program whose end could not be learnt leads to.
    pub lost: Effect<T>,
    pub hearing: Hearing,
    /// The words that excuse a bad reply.
    pub excuses: L,
    /// What an excused reply leads to.
    pub excused: Effect<T>,
}

/// What a stage brought.
pub enum Reply {
    /// A program ran.
    Ran { ok: bool, code: Option<i32>, out: String, err: String },
    /// The containers that are there.
    Items(Vec<ContainerListItem>),
    /// Yes, or done.
    Yes,
    /// No.
    No,
    /// The time ran out.
    Late,
    /// The attempt failed with this message.
    Broken(String),
    /// The program was started, but its end could not be learnt, for this reason.
    Lost(String),
}

pub type StageView = Stage<Seq<char>, Seq<Seq<char>>>;

pub type TaskView = Task<Seq<char>, Seq<Seq<char>>>;

pub open spec fn task_view(t: Task<String, Vec<String>>) -> TaskView {
    match t {
        Task::Run { program, args, limit, output } => Task::Run {
            program: program@,
            args: compose::texts(args@),
            limit,
            output,
        },
        Task::ListContainers => Task::ListContainers,
        Task::Exists(p) => Task::Exists(p@),
        Task::IsDir(p) => Task::IsDir(p@),
        Task::MakeDir(p) => Task::MakeDir(p@),
        Task::RemoveDir(p) => Task::RemoveDir(p@),
        Task::Write(p, s) => Task::Write(p@, s@),
        Task::Move(a, b) => Task::Move(a@, b@),
        Task::CopyTree(a, b) => Task::CopyTree(a@, b@),
        Task::CopyFile(a, b) => Task::CopyFile(a@, b@),
        Task::Protect(p, m) => Task::Protect(p@, m),
        Task::Pause(n) => Task::Pause(n),
        Task::Nothing => Task::Nothing,
    }
}

pub open spec fn want_view(w: Want<String>) -> Want<Seq<char>> {
    match w {
        Want::Success => Want::Success,
        Want::Reads(s) => Want::Reads(s@),
        Want::ReadsLoosely(s) => Want::ReadsLoosely(s@),
        Want::HasLine(s) => Want::HasLine(s@),
        Want::Lists(s) => Want::Lists(s@),
        Want::ListsRunning(s) => Want::ListsRunning(s@),
    }
}

pub open spec fn line_view(l: Line<String>) -> Line<Seq<char>> {
    Line { text: l.text@, always: l.always }
}

pub open spec fn effect_view(e: Effect<String>) -> Effect<Seq<char>> {
    match e {
        Effect::Go(n) => Effect::Go(n),
        Effect::Say(l, n) => Effect::Say(line_view(l), n),
        Effect::Stop(s) => Effect::Stop(s@),
        Effect::StopTail(s, n) => Effect::StopTail(s@, n),
        Effect::StopCode(s) => Effect::StopCode(s@),
        Effect::StopWith(s) => Effect::StopWith(s@),
        Effect::Report => Effect::Report,
    }
}

impl View for Stage<String, Vec<String>> {
    type V = StageView;

    open spec fn view(&self) -> StageView {
        Stage {
            say: compose::texts(self.say@),
            shout: compose::texts(self.shout@),
            task: task_view(self.task),
            always: self.always,
            want: want_view(self.want),
            good: effect_view(self.good),
            bad: effect_view(self.bad),
            late: effect_view(self.late),
            broken: effect_view(self.broken),
            lost: effect_view(self.lost),
            hearing: self.hearing,
            excuses: compose::texts(self.excuses@),
            excused: effect_view(self.excused),
        }
    }
}

/// The stages of a plan.
pub open spec fn stages(v: Seq<Stage<String, Vec<String>>>) -> Seq<StageView> {
    v.map_values(|s: Stage<String, Vec<String>>| s@)
}

/// A stage that performs a task, goes on when it succeeds and gives up otherwise, without a
/// message unless the attempt itself failed with one.
pub open spec fn stage_of(task: TaskView) -> StageView {
    Stage {
        say: Seq::empty(),
        shout: Seq::empty(),
        task,
        always: false,
        want: Want::Success,
        good: Effect::Go(0),
        bad: Effect::Stop(Seq::empty()),
        late: Effect::Stop(Seq::empty()),
        broken: Effect::Report,
        lost: Effect::Report,
        hearing: Hearing::Never,
        excuses: Seq::empty(),
        excused: Effect::Go(0),
    }
}

impl<T, L> Stage<T, L> {
    pub open spec fn saying(self, lines: L) -> Self {
        Stage { say: lines, ..self }
    }

    pub open spec fn shouting(self, lines: L) -> Self {
        Stage { shout: lines, ..self }
    }

    pub open spec fn in_any_case(self) -> Self {
        Stage { always: true, ..self }
    }

    pub open spec fn wanting(self, want: Want<T>) -> Self {
        Stage { want, ..self }
    }

    pub open spec fn when_good(self, e: Effect<T>) -> Self {
        Stage { good: e, ..self }
    }

    pub open spec fn when_bad(self, e: Effect<T>) -> Self {
        Stage { bad: e, ..self }
    }

    pub open spec fn when_late(self, e: Effect<T>) -> Self {
        Stage { late: e, ..self }
    }

    pub open spec fn when_broken(self, e: Effect<T>) -> Self {
        Stage { broken: e, ..self }
    }

    pub open spec fn when_lost(self, e: Effect<T>) -> Self {
        Stage { lost: e, ..self }
    }

    pub open spec fn when_not_good(self, e: Effect<T>) -> Self {
        Stage { bad: e, late: e, broken: e, lost: e, ..self }
    }

    pub open spec fn excused_by(self, hearing: Hearing, words: L, e: Effect<T>) -> Self {
        Stage { hearing, excuses: words, excused: e, ..self }
    }
}

/// A stage that performs a task.
pub fn stage(task: Task<String, Vec<String>>) -> (r: Stage<String, Vec<String>>)
    ensures
        r@ == stage_of(task_view(task)),
{
    Stage {
        say: compose::no_texts(),
        shout: compose::no_texts(),
        task,
        always: false,
        want: Want::Success,
        good: Effect::Go(0),
        bad: Effect::Stop(String::new()),
        late: Effect::Stop(String::new()),
        broken: Effect::Report,
        lost: Effect::Report,
        hearing: Hearing::Never,
        excuses: compose::no_texts(),
        excused: Effect::Go(0),
    }
}

impl Stage<String, Vec<String>> {
    /// Says lines first, unless the program is quiet.
    pub fn says(self, lines: Vec<String>) -> (r: Self)
        ensures
            r@ == self@.saying(compose::texts(lines@)),
    {
        Stage { say: lines, ..self }
    }

    /// Says lines first in any case.
    pub fn shouts(self, lines: Vec<String>) -> (r: Self)
        ensures
            r@ == self@.shouting(compose::texts(lines@)),
    {
        Stage { shout: lines, ..self }
    }

    /// Is performed even after an earlier stage gave up.
    pub fn regardless(self) -> (r: Self)
        ensures
            r@ == self@.in_any_case(),
    {
        Stage { always: true, ..self }
    }

    /// Counts as good as `want` says.
    pub fn wants(self, want: Want<String>) -> (r: Self)
        ensures
            r@ == self@.wanting(want_view(want)),
    {
        Stage { want, ..self }
    }

    /// What a good reply leads to.
    pub fn on_good(self, e: Effect<String>) -> (r: Self)
        ensures
            r@ == self@.when_good(effect_view(e)),
    {
        Stage { good: e, ..self }
    }

    /// What a bad reply leads to.
    pub fn on_bad(self, e: Effect<String>) -> (r: Self)
        ensures
            r@ == self@.when_bad(effect_view(e)),
    {
        Stage { bad: e, ..self }
    }

    /// What running out of time leads to.
    pub fn on_late(self, e: Effect<String>) -> (r: Self)
        ensures
            r@ == self@.when_late(effect_view(e)),
    {
        Stage { late: e, ..self }
    }

    /// What an attempt that could not be made leads to.
    pub fn on_broken(self, e: Effect<String>) -> (r: Self)
        ensures
            r@ == self@.when_broken(effect_view(e)),
    {
        Stage { broken: e, ..self }
    }

    /// What a program whose end could not be learnt leads to.
    pub fn on_lost(self, e: Effect<String>) -> (r: Self)
        ensures
            r@ == self@.when_lost(effect_view(e)),
    {
        Stage { lost: e, ..self }
    }

    /// What everything but a good reply leads to.
    pub fn otherwise(self, e: Effect<String>) -> (r: Self)
        ensures
            r@ == self@.when_not_good(effect_view(e)),
    {
        let a = copy_effect(&e);
        let b = copy_effect(&e);
        let c = copy_effect(&e);
        Stage { bad: e, late: a, broken: b, lost: c, ..self }
    }

    /// Which words excuse a bad reply, and what an excused reply leads to.
    pub fn excuses(self, hearing: Hearing, words: Vec<String>, e: Effect<String>) -> (r: Self)
        ensures
            r@ == self@.excused_by(hearing, compose::texts(words@), effect_view(e)),
    {
        Stage { hearing, excuses: words, excused: e, ..self }
    }
}

fn copy_effect(e: &Effect<String>) -> (r: Effect<String>)
    ensures
        effect_view(r) == effect_view(*e),
{
    match e {
        Effect::Go(n) => Effect::Go(*n),
        Effect::Say(l, n) => Effect::Say(Line { text: l.text.clone(), always: l.always }, *n),
        Effect::Stop(s) => Effect::Stop(s.clone()),
        Effect::StopTail(s, n) => Effect::StopTail(s.clone(), *n),
        Effect::StopCode(s) => Effect::StopCode(s.clone()),
        Effect::StopWith(s) => Effect::StopWith(s.clone()),
        Effect::Report => Effect::Report,
    }
}

/// A task that runs a program.
pub open spec fn running(
    program: Seq<char>,
    args: Seq<Seq<char>>,
    limit: u64,
    output: Output,
) -> TaskView {
    Task::Run { program, args, limit, output }
}

/// A task that runs a program.
pub fn run_task(program: &str, args: Vec<String>, limit: u64, output: Output) -> (r: Task<
    String,
    Vec<String>,
>)
    ensures
        task_view(r) == running(program@, compose::texts(args@), limit, output),
{
    Task::Run { program: program.to_owned(), args, limit, output }
}

/// Going on after an information.
pub open spec fn informing(message: Seq<char>, skip: u64) -> Effect<Seq<char>> {
    Effect::Say(Line { text: ui::info(message), always: false }, skip)
}

/// Going on after a warning that is shown in any case.
pub open spec fn warning(message: Seq<char>, skip: u64) -> Effect<Seq<char>> {
    Effect::Say(Line { text: ui::warning(message), always: true }, skip)
}

/// Goes on after an information.
pub fn informs(message: &str, skip: u64) -> (r: Effect<String>)
    ensures
        effect_view(r) == informing(message@, skip),
{
    Effect::Say(Line { text: compose::concat("info: ", message), always: false }, skip)
}

/// Goes on after a warning that is shown in any case.
pub fn warns(message: &str, skip: u64) -> (r: Effect<String>)
    ensures
        effect_view(r) == warning(message@, skip),
{
    Effect::Say(Line { text: compose::concat("warning: ", message), always: true }, skip)
}

/// Gives up with a message.
pub fn stops(message: &str) -> (r: Effect<String>)
    ensures
        effect_view(r) == Effect::Stop(message@),
{
    Effect::Stop(message.to_owned())
}

/// Adds a stage to a plan.
pub fn push_stage(v: &mut Vec<Stage<String, Vec<String>>>, s: Stage<String, Vec<String>>)
    ensures
        stages(final(v)@) == stages(old(v)@).push(s@),
{
    let ghost before = v@;
    v.push(s);
    assert(stages(v@) =~= stages(before).push(s@));
}

/// Adds all stages of a plan to another one.
pub fn push_stages(
    v: &mut Vec<Stage<String, Vec<String>>>,
    more: Vec<Stage<String, Vec<String>>>,
)
    ensures
        stages(final(v)@) == stages(old(v)@) + stages(more@),
{
    let ghost before = v@;
    let ghost added = more@;
    let mut rest = more;
    v.append(&mut rest);
    assert(stages(v@) =~= stages(before) + stages(added));
}

/// A plan without stages.
pub fn no_stages() -> (r: Vec<Stage<String, Vec<String>>>)
    ensures
        stages(r@) == Seq::<StageView>::empty(),
{
    let r: Vec<Stage<String, Vec<String>>> = Vec::new();
    assert(stages(r@) =~= Seq::<StageView>::empty());
    r
}

/// What a command comes to.
pub enum Order {
    /// Nothing is done, and this is told.
    Skip(String),
    /// The program ends with this code and message.
    Refuse(ExitCode, String),
    /// A plan is carried out.
    Carry(Vec<Stage<String, Vec<String>>>),
}

/// Whether an order leaves everything as it is, with a note.
pub open spec fn is_skip(o: Order, note: Seq<char>) -> bool {
    o matches Order::Skip(s) && s@ == note
}

/// Whether an order ends the program.
pub open spec fn is_refusal(o: Order, code: ExitCode, message: Seq<char>) -> bool {
    o matches Order::Refuse(c, s) && c == code && s@ == message
}

/// Whether an order is to carry out a plan.
pub open spec fn is_carry(o: Order, plan: Seq<StageView>) -> bool {
    o matches Order::Carry(v) && stages(v@) == plan
}

/// Whether a reply is what a stage wants.
pub open spec fn is_good(want: Want<Seq<char>>, reply: Reply) -> bool {
    match reply {
        Reply::Ran { ok, out, .. } => ok && (match want {
            Want::Success => true,
            Want::Reads(s) => edge::trimmed(out@) == s,
            Want::ReadsLoosely(s) => compose::ascii_lower(edge::trimmed(out@))
                == compose::ascii_lower(s),
            Want::HasLine(s) => split::all_trimmed(split::lines_of(out@)).contains(s),
            Want::Lists(_) => false,
            Want::ListsRunning(_) => false,
        }),
        Reply::Items(items) => match want {
            Want::Lists(id) => container_utils::listed(items@, id),
            Want::ListsRunning(id) => container_utils::listed_running(items@, id),
            _ => false,
        },
        Reply::Yes => true,
        _ => false,
    }
}

/// Whether a text holds one of some words.
pub open spec fn holds_any(s: Seq<char>, words: Seq<Seq<char>>) -> bool {
    exists|i: int| 0 <= i < words.len() && edge::includes(s, #[trigger] words[i])
}

/// Whether a bad reply is excused.
pub open spec fn is_excused(hearing: Hearing, words: Seq<Seq<char>>, reply: Reply) -> bool {
    match reply {
        Reply::Ran { out, err, .. } => match hearing {
            Hearing::Never => false,
            Hearing::Errors => holds_any(err@, words),
            Hearing::LoweredErrors => holds_any(compose::ascii_lower(err@), words),
            Hearing::LoweredBoth => holds_any(compose::ascii_lower(err@), words) || holds_any(
                compose::ascii_lower(out@),
                words,
            ),
        },
        _ => false,
    }
}

/// The effect that a reply has at a stage.
pub open spec fn effect_of(s: StageView, reply: Reply) -> Effect<Seq<char>> {
    if is_good(s.want, reply) {
        s.good
    } else if is_excused(s.hearing, s.excuses, reply) {
        s.excused
    } else {
        match reply {
            Reply::Late => s.late,
            Reply::Broken(_) => s.broken,
            Reply::Lost(_) => s.lost,
            _ => s.bad,
        }
    }
}

/// The first lines of a text, put together again.
pub open spec fn head(s: Seq<char>, n: u64) -> Seq<char> {
    let lines = split::lines_of(s);
    compose::joined(
        if lines.len() <= n {
            lines
        } else {
            lines.take(n as int)
        },
        "\n"@,
    )
}

/// The error output of a reply.
pub open spec fn errors(reply: Reply) -> Seq<char> {
    match reply {
        Reply::Ran { err, .. } => err@,
        _ => Seq::empty(),
    }
}

/// The exit code of a reply, in decimal notation.
pub open spec fn code_text(reply: Reply) -> Seq<char> {
    match reply {
        Reply::Ran { code: Some(c), .. } => number::signed(c as int),
        _ => number::signed(1),
    }
}

/// What was reported when an attempt failed.
pub open spec fn reported(reply: Reply) -> Seq<char> {
    match reply {
        Reply::Broken(e) => e@,
        Reply::Lost(e) => e@,
        _ => Seq::empty(),
    }
}

/// The message with which an effect gives up, if it does.
pub open spec fn message(e: Effect<Seq<char>>, reply: Reply) -> Option<Seq<char>> {
    match e {
        Effect::Go(_) => None,
        Effect::Say(_, _) => None,
        Effect::Stop(s) => Some(s),
        Effect::StopTail(s, n) => Some(s + ": "@ + head(errors(reply), n)),
        Effect::StopCode(s) => Some(s + code_text(reply)),
        Effect::StopWith(s) => Some(s + reported(reply)),
        Effect::Report => Some(reported(reply)),
    }
}

/// The line that an effect says, if it does.
pub open spec fn spoken(e: Effect<Seq<char>>) -> Option<Line<Seq<char>>> {
    match e {
        Effect::Say(l, _) => Some(l),
        _ => None,
    }
}

/// How many stages an effect leaves out.
pub open spec fn skipped(e: Effect<Seq<char>>) -> int {
    match e {
        Effect::Go(n) => n as int,
        Effect::Say(_, n) => n as int,
        _ => 0,
    }
}

/// Whether an effect gives up.
pub open spec fn gives_up(e: Effect<Seq<char>>) -> bool {
    match e {
        Effect::Go(_) => false,
        Effect::Say(_, _) => false,
        _ => true,
    }
}

/// Whether no outcome of a stage gives up.
pub open spec fn never_gives_up(s: StageView) -> bool {
    &&& !gives_up(s.good)
    &&& !gives_up(s.bad)
    &&& !gives_up(s.late)
    &&& !gives_up(s.broken)
    &&& !gives_up(s.lost)
    &&& !gives_up(s.excused)
}

/// How far a plan has been carried out.
pub struct Progress {
    /// The first stage that has not been dealt with.
    pub at: usize,
    /// The message with which the last stage that gave up did so.
    pub trouble: Option<String>,
}

/// How far a plan has been carried out, as mathematical values.
pub struct State {
    pub at: int,
    pub trouble: Option<Seq<char>>,
}

impl View for Progress {
    type V = State;

    open spec fn view(&self) -> State {
        State { at: self.at as int, trouble: compose::opt_text(self.trouble) }
    }
}

/// The first stage from `at` on that is to be performed: after trouble only the stages that are
/// performed in any case.
pub open spec fn upcoming(plan: Seq<StageView>, at: int, troubled: bool) -> int
    decreases plan.len() - at,
{
    if at < 0 || at >= plan.len() {
        plan.len() as int
    } else if !troubled || plan[at].always {
        at
    } else {
        upcoming(plan, at + 1, troubled)
    }
}

/// The stage that a state waits for; the length of the plan if there is none.
pub open spec fn awaited(plan: Seq<StageView>, s: State) -> int {
    upcoming(plan, s.at, s.trouble is Some)
}

/// The state before anything has been done.
pub open spec fn beginning() -> State {
    State { at: 0, trouble: None }
}

/// The state that a reply leads to. A stage that is performed in any case ends the plan if it gives
/// up.
pub open spec fn after(plan: Seq<StageView>, s: State, reply: Reply) -> State {
    let i = awaited(plan, s);
    if i >= plan.len() {
        s
    } else {
        let e = effect_of(plan[i], reply);
        let next = if plan[i].always && gives_up(e) {
            plan.len() as int
        } else {
            i + 1 + skipped(e)
        };
        State {
            at: if next > plan.len() {
                plan.len() as int
            } else {
                next
            },
            trouble: match message(e, reply) {
                Some(m) => Some(m),
                None => s.trouble,
            },
        }
    }
}

/// The state that some replies lead to.
pub open spec fn run(plan: Seq<StageView>, s: State, replies: Seq<Reply>) -> State
    decreases replies.len(),
{
    if replies.len() == 0 {
        s
    } else {
        after(plan, run(plan, s, replies.drop_last()), replies.last())
    }
}

/// Whether nothing is left to do.
pub open spec fn finished(plan: Seq<StageView>, s: State) -> bool {
    awaited(plan, s) >= plan.len()
}

/// Whether a plan ends well.
pub open spec fn succeeded(plan: Seq<StageView>, s: State) -> bool {
    finished(plan, s) && s.trouble is None
}

fn first_lines(s: &str, n: u64) -> (r: String)
    ensures
        r@ == head(s@, n),
{
    let lines = split::lines(s);
    let ghost all = compose::texts(lines@);
    if lines.len() as u64 <= n {
        return compose::join(&lines, "\n");
    }
    let mut some = compose::no_texts();
    let mut i: usize = 0;
    assert(all.take(0) =~= Seq::<Seq<char>>::empty());
    while (i as u64) < n
        invariant
            i <= n,
            n < lines@.len(),
            all == compose::texts(lines@),
            compose::texts(some@) == all.take(i as int),
        decreases n - i,
    {
        compose::push_text(&mut some, lines[i].as_str());
        i += 1;
        assert(compose::texts(some@) =~= all.take(i as int));
    }
    compose::join(&some, "\n")
}

fn good(want: &Want<String>, reply: &Reply) -> (r: bool)
    ensures
        r == is_good(want_view(*want), *reply),
{
    match reply {
        Reply::Ran { ok, out, .. } => *ok && (match want {
            Want::Success => true,
            Want::Reads(s) => {
                let t = edge::trim(out.as_str());
                compose::same(t.as_str(), s.as_str())
            },
            Want::ReadsLoosely(s) => {
                let t = edge::trim(out.as_str());
                compose::same_ignoring_ascii_case(t.as_str(), s.as_str())
            },
            Want::HasLine(s) => {
                let lines = split::lines(out.as_str());
                let trimmed = split::trim_all(&lines);
                compose::has_text(&trimmed, s.as_str())
            },
            Want::Lists(_) => false,
            Want::ListsRunning(_) => false,
        }),
        Reply::Items(items) => match want {
            Want::Lists(id) => container_utils::container_exists(items, id.as_str()),
            Want::ListsRunning(id) => container_utils::container_is_running(items, id.as_str()),
            _ => false,
        },
        Reply::Yes => true,
        _ => false,
    }
}

/// Whether a text holds one of some words.
pub fn contains_any(s: &str, words: &Vec<String>) -> (r: bool)
    ensures
        r == holds_any(s@, compose::texts(words@)),
{
    let ghost all = compose::texts(words@);
    let mut i: usize = 0;
    while i < words.len()
        invariant
            i <= words@.len(),
            all == compose::texts(words@),
            forall|k: int| 0 <= k < i ==> !edge::includes(s@, #[trigger] all[k]),
        decreases words@.len() - i,
    {
        assert(all[i as int] == words@[i as int]@);
        if edge::contains(s, words[i].as_str()) {
            assert(edge::includes(s@, all[i as int]));
            return true;
        }
        i += 1;
    }
    false
}

fn excused(hearing: Hearing, words: &Vec<String>, reply: &Reply) -> (r: bool)
    ensures
        r == is_excused(hearing, compose::texts(words@), *reply),
{
    match reply {
        Reply::Ran { out, err, .. } => match hearing {
            Hearing::Never => false,
            Hearing::Errors => contains_any(err.as_str(), words),
            Hearing::LoweredErrors => {
                let e = compose::to_ascii_lower(err.as_str());
                contains_any(e.as_str(), words)
            },
            Hearing::LoweredBoth => {
                let e = compose::to_ascii_lower(err.as_str());
                let o = compose::to_ascii_lower(out.as_str());
                contains_any(e.as_str(), words) || contains_any(o.as_str(), words)
            },
        },
        _ => false,
    }
}

fn report(reply: &Reply) -> (r: String)
    ensures
        r@ == reported(*reply),
{
    match reply {
        Reply::Broken(m) => m.clone(),
        Reply::Lost(m) => m.clone(),
        _ => String::new(),
    }
}

fn verdict(e: &Effect<String>, reply: &Reply) -> (r: Option<String>)
    ensures
        compose::opt_text(r) == message(effect_view(*e), *reply),
{
    match e {
        Effect::Go(_) => None,
        Effect::Say(_, _) => None,
        Effect::Stop(s) => Some(s.clone()),
        Effect::StopTail(s, n) => {
            let tail = match reply {
                Reply::Ran { err, .. } => first_lines(err.as_str(), *n),
                _ => first_lines("", *n),
            };
            proof {
                reveal_strlit("");
                assert(""@ =~= Seq::<char>::empty());
            }
            Some(compose::concat3(s.as_str(), ": ", tail.as_str()))
        },
        Effect::StopCode(s) => {
            let code: i32 = match reply {
                Reply::Ran { code: Some(c), .. } => *c,
                _ => 1,
            };
            let digits = number::to_signed(code as i64);
            Some(compose::concat(s.as_str(), digits.as_str()))
        },
        Effect::StopWith(s) => {
            let why = report(reply);
            Some(compose::concat(s.as_str(), why.as_str()))
        },
        Effect::Report => Some(report(reply)),
    }
}

impl Progress {
    /// Nothing has been done yet.
    pub fn start() -> (r: Progress)
        ensures
            r@ == beginning(),
    {
        Progress { at: 0, trouble: None }
    }

    /// The stage that is to be performed next, if there is one.
    pub fn pending(&self, plan: &Vec<Stage<String, Vec<String>>>) -> (r: Option<usize>)
        ensures
            match r {
                Some(i) => i < plan@.len() && i == awaited(stages(plan@), self@),
                None => finished(stages(plan@), self@),
            },
    {
        let ghost all = stages(plan@);
        let mut i: usize = self.at;
        while i < plan.len()
            invariant
                all == stages(plan@),
                awaited(all, self@) == upcoming(all, i as int, self@.trouble is Some),
            decreases plan@.len() - i,
        {
            assert(all[i as int] == plan@[i as int]@);
            if self.trouble.is_none() || plan[i].always {
                return Some(i);
            }
            i += 1;
        }
        None
    }

    /// Takes in the reply of the stage that was to be performed, and gives the line that is to
    /// be said about it.
    pub fn advance(&mut self, plan: &Vec<Stage<String, Vec<String>>>, reply: &Reply) -> (r: Option<
        Line<String>,
    >)
        ensures
            final(self)@ == after(stages(plan@), old(self)@, *reply),
            !finished(stages(plan@), old(self)@) ==> match r {
                Some(l) => spoken(
                    effect_of(stages(plan@)[awaited(stages(plan@), old(self)@)], *reply),
                ) == Some(line_view(l)),
                None => spoken(
                    effect_of(stages(plan@)[awaited(stages(plan@), old(self)@)], *reply),
                ) is None,
            },
            finished(stages(plan@), old(self)@) ==> r is None,
    {
        let i: usize = match self.pending(plan) {
            Some(i) => i,
            None => return None,
        };
        assert(stages(plan@)[i as int] == plan@[i as int]@);
        let s = &plan[i];
        let e: &Effect<String> = if good(&s.want, reply) {
            &s.good
        } else if excused(s.hearing, &s.excuses, reply) {
            &s.excused
        } else {
            match reply {
                Reply::Late => &s.late,
                Reply::Broken(_) => &s.broken,
                Reply::Lost(_) => &s.lost,
                _ => &s.bad,
            }
        };
        assert(effect_view(*e) == effect_of(stages(plan@)[i as int], *reply));
        let skip: u64 = match e {
            Effect::Go(n) => *n,
            Effect::Say(_, n) => *n,
            _ => 0,
        };
        let left: u64 = (plan.len() - i - 1) as u64;
        self.at = if skip >= left {
            plan.len()
        } else {
            i + 1 + skip as usize
        };
        match verdict(e, reply) {
            Some(m) => {
                self.trouble = Some(m);
                if s.always {
                    self.at = plan.len();
                }
            },
            None => {},
        }
        match e {
            Effect::Say(l, _) => Some(Line { text: l.text.clone(), always: l.always }),
            _ => None,
        }
    }
}

/// Whether a line is shown.
pub fn is_shown(l: &Line<String>, v: Verbosity) -> (r: bool)
    ensures
        r == (l.always || v != Verbosity::Quiet),
{
    l.always || v != Verbosity::Quiet
}

proof fn lemma_upcoming(plan: Seq<StageView>, at: int, troubled: bool)
    requires
        0 <= at,
    ensures
        upcoming(plan, at, troubled) <= plan.len(),
        upcoming(plan, at, troubled) < plan.len() ==> at <= upcoming(plan, at, troubled),
        troubled && upcoming(plan, at, troubled) < plan.len() ==> plan[upcoming(
            plan,
            at,
            troubled,
        )].always,
    decreases plan.len() - at,
{
    if at < plan.len() && troubled && !plan[at].always {
        lemma_upcoming(plan, at + 1, troubled);
    }
}

/// The stage that a state waits for never lies behind.
pub proof fn awaiting_is_ahead(plan: Seq<StageView>, s: State)
    requires
        0 <= s.at,
    ensures
        awaited(plan, s) <= plan.len(),
        awaited(plan, s) < plan.len() ==> s.at <= awaited(plan, s),
{
    lemma_upcoming(plan, s.at, s.trouble is Some);
}

/// Every reply moves a plan forward, so that a plan ends after at most as many replies as it
/// has stages.
pub proof fn plans_end(plan: Seq<StageView>, replies: Seq<Reply>)
    ensures
        0 <= run(plan, beginning(), replies).at,
        run(plan, beginning(), replies).at >= replies.len() || finished(
            plan,
            run(plan, beginning(), replies),
        ),
        replies.len() >= plan.len() ==> finished(plan, run(plan, beginning(), replies)),
    decreases replies.len(),
{
    if replies.len() > 0 {
        let before = run(plan, beginning(), replies.drop_last());
        plans_end(plan, replies.drop_last());
        lemma_upcoming(plan, before.at, before.trouble is Some);
        let now = run(plan, beginning(), replies);
        lemma_upcoming(plan, now.at, now.trouble is Some);
    }
}

/// Whether no outcome of a stage leaves out more than `n` stages.
pub open spec fn skips_at_most(s: StageView, n: int) -> bool {
    &&& skipped(s.good) <= n
    &&& skipped(s.bad) <= n
    &&& skipped(s.late) <= n
    &&& skipped(s.broken) <= n
    &&& skipped(s.lost) <= n
    &&& skipped(s.excused) <= n
}

/// Whether everything but a good reply makes a stage give up.
pub open spec fn is_strict(s: StageView) -> bool {
    &&& gives_up(s.bad)
    &&& gives_up(s.late)
    &&& gives_up(s.broken)
    &&& gives_up(s.lost)
    &&& s.hearing == Hearing::Never
}

/// Whether a run of a plan reached the stage `i` and was given a good reply there.
pub open spec fn passed(plan: Seq<StageView>, replies: Seq<Reply>, i: int) -> bool {
    exists|k: int|
        0 <= k < replies.len() && awaited(plan, #[trigger] run(plan, beginning(), replies.take(k)))
            == i && is_good(plan[i].want, replies[k])
}

/// A stage that was passed stays passed, and the latest reply counts as well.
pub proof fn passing_lasts(plan: Seq<StageView>, replies: Seq<Reply>, i: int)
    requires
        replies.len() > 0,
    ensures
        passed(plan, replies.drop_last(), i) ==> passed(plan, replies, i),
        awaited(plan, run(plan, beginning(), replies.drop_last())) == i && is_good(
            plan[i].want,
            replies.last(),
        ) ==> passed(plan, replies, i),
{
    let fewer = replies.drop_last();
    if passed(plan, fewer, i) {
        let k = choose|k: int|
            0 <= k < fewer.len() && awaited(plan, #[trigger] run(plan, beginning(), fewer.take(k)))
                == i && is_good(plan[i].want, fewer[k]);
        assert(fewer.take(k) =~= replies.take(k));
        assert(awaited(plan, run(plan, beginning(), replies.take(k))) == i);
    }
    assert(replies.take(replies.len() - 1) =~= fewer);
}

/// A stage that was performed stays performed, and the one that waits for the latest reply is
/// performed with it.
pub proof fn performing_lasts(plan: Seq<StageView>, replies: Seq<Reply>, i: int)
    requires
        replies.len() > 0,
    ensures
        performed(plan, replies.drop_last(), i) ==> performed(plan, replies, i),
        awaited(plan, run(plan, beginning(), replies.drop_last())) == i ==> performed(
            plan,
            replies,
            i,
        ),
{
    let fewer = replies.drop_last();
    if performed(plan, fewer, i) {
        let k = choose|k: int|
            0 <= k < fewer.len() && awaited(plan, #[trigger] run(plan, beginning(), fewer.take(k)))
                == i;
        assert(fewer.take(k) =~= replies.take(k));
        assert(awaited(plan, run(plan, beginning(), replies.take(k))) == i);
    }
    assert(replies.take(replies.len() - 1) =~= fewer);
}

/// A strict stage that no earlier stage leaves out has been passed whenever a plan has got
/// beyond it without trouble.
pub proof fn strict_stages_are_passed(plan: Seq<StageView>, replies: Seq<Reply>, i: int)
    requires
        0 <= i < plan.len(),
        is_strict(plan[i]),
        forall|j: int| 0 <= j < i ==> skips_at_most(#[trigger] plan[j], i - j - 1),
    ensures
        run(plan, beginning(), replies).trouble is None && run(plan, beginning(), replies).at > i
            ==> passed(plan, replies, i),
        0 <= run(plan, beginning(), replies).at,
    decreases replies.len(),
{
    if replies.len() > 0 {
        let fewer = replies.drop_last();
        strict_stages_are_passed(plan, fewer, i);
        let before = run(plan, beginning(), fewer);
        let now = run(plan, beginning(), replies);
        lemma_upcoming(plan, before.at, before.trouble is Some);
        if now.trouble is None && now.at > i {
            assert(before.trouble is None);
            if before.at > i {
                let k = choose|k: int|
                    0 <= k < fewer.len() && awaited(
                        plan,
                        #[trigger] run(plan, beginning(), fewer.take(k)),
                    ) == i && is_good(plan[i].want, fewer[k]);
                assert(fewer.take(k) =~= replies.take(k));
                assert(passed(plan, replies, i));
            } else {
                let at = awaited(plan, before);
                assert(at == before.at);
                assert(at == i) by {
                    if at < i {
                        assert(skips_at_most(plan[at], i - at - 1));
                    }
                }
                assert(replies.take(replies.len() - 1) =~= fewer);
                assert(passed(plan, replies, i));
            }
        }
    }
}

/// A stage that gives up is not forgotten: trouble stays until the end.
pub proof fn trouble_stays(plan: Seq<StageView>, s: State, replies: Seq<Reply>)
    requires
        s.trouble is Some,
    ensures
        run(plan, s, replies).trouble is Some,
    decreases replies.len(),
{
    if replies.len() > 0 {
        trouble_stays(plan, s, replies.drop_last());
    }
}

/// Trouble has a cause: a reply that made the stage that was waiting for it give up.
pub proof fn trouble_has_a_cause(plan: Seq<StageView>, replies: Seq<Reply>)
    ensures
        run(plan, beginning(), replies).trouble is Some ==> exists|k: int|
            0 <= k < replies.len() && caused(plan, #[trigger] replies.take(k), replies[k]),
        0 <= run(plan, beginning(), replies).at,
    decreases replies.len(),
{
    if replies.len() > 0 {
        let fewer = replies.drop_last();
        trouble_has_a_cause(plan, fewer);
        let before = run(plan, beginning(), fewer);
        let now = run(plan, beginning(), replies);
        lemma_upcoming(plan, before.at, before.trouble is Some);
        if now.trouble is Some {
            if before.trouble is Some {
                let k = choose|k: int|
                    0 <= k < fewer.len() && caused(plan, #[trigger] fewer.take(k), fewer[k]);
                assert(fewer.take(k) =~= replies.take(k));
                assert(caused(plan, replies.take(k), replies[k]));
            } else {
                assert(replies.take(replies.len() - 1) =~= fewer);
                assert(caused(plan, replies.take(replies.len() - 1), replies.last()));
            }
        }
    }
}

/// Whether a run of a plan came to the stage `i` and was given a reply there.
pub open spec fn performed(plan: Seq<StageView>, replies: Seq<Reply>, i: int) -> bool {
    exists|k: int|
        0 <= k < replies.len() && awaited(plan, #[trigger] run(plan, beginning(), replies.take(k)))
            == i
}

proof fn lemma_stops_at_always(plan: Seq<StageView>, at: int, troubled: bool, i: int)
    requires
        0 <= at <= i < plan.len(),
        plan[i].always,
    ensures
        upcoming(plan, at, troubled) <= i,
    decreases i - at,
{
    if at < i && troubled && !plan[at].always {
        lemma_stops_at_always(plan, at + 1, troubled, i);
    }
}

/// No state before a stage that is performed in any case waits for a later one.
pub proof fn stops_at_always(plan: Seq<StageView>, s: State, i: int)
    requires
        0 <= i < plan.len(),
        plan[i].always,
        0 <= s.at,
    ensures
        s.at <= i ==> awaited(plan, s) <= i,
{
    if s.at <= i {
        lemma_stops_at_always(plan, s.at, s.trouble is Some, i);
    }
}

/// A stage that is performed in any case and that no earlier stage leaves out has been performed
/// when the plan is finished, whatever came of the earlier stages; of those that are performed in
/// any case themselves, none may give up.
pub proof fn cleanup_is_performed(plan: Seq<StageView>, replies: Seq<Reply>, i: int)
    requires
        0 <= i < plan.len(),
        plan[i].always,
        forall|j: int| 0 <= j < i ==> skips_at_most(#[trigger] plan[j], i - j - 1),
        forall|j: int| 0 <= j < i && (#[trigger] plan[j]).always ==> never_gives_up(plan[j]),
    ensures
        run(plan, beginning(), replies).at > i ==> performed(plan, replies, i),
        finished(plan, run(plan, beginning(), replies)) ==> performed(plan, replies, i),
        0 <= run(plan, beginning(), replies).at,
    decreases replies.len(),
{
    let now = run(plan, beginning(), replies);
    if replies.len() > 0 {
        let fewer = replies.drop_last();
        cleanup_is_performed(plan, fewer, i);
        let before = run(plan, beginning(), fewer);
        lemma_upcoming(plan, before.at, before.trouble is Some);
        if now.at > i {
            if before.at > i {
                let k = choose|k: int|
                    0 <= k < fewer.len() && awaited(
                        plan,
                        #[trigger] run(plan, beginning(), fewer.take(k)),
                    ) == i;
                assert(fewer.take(k) =~= replies.take(k));
                assert(performed(plan, replies, i));
            } else {
                lemma_stops_at_always(plan, before.at, before.trouble is Some, i);
                let at = awaited(plan, before);
                assert(at == i) by {
                    if at < i {
                        assert(skips_at_most(plan[at], i - at - 1));
                    }
                }
                assert(replies.take(replies.len() - 1) =~= fewer);
                assert(performed(plan, replies, i));
            }
        }
    }
    if now.at <= i {
        lemma_stops_at_always(plan, now.at, now.trouble is Some, i);
    }
}

/// Whether a reply that comes after some others makes the stage that waits for it give up.
pub open spec fn caused(plan: Seq<StageView>, earlier: Seq<Reply>, reply: Reply) -> bool {
    let i = awaited(plan, run(plan, beginning(), earlier));
    0 <= i < plan.len() && gives_up(effect_of(plan[i], reply))
}

/// After trouble only the stages that are performed in any case are awaited.
pub proof fn only_cleanup_after_trouble(plan: Seq<StageView>, s: State)
    requires
        0 <= s.at,
        s.trouble is Some,
        !finished(plan, s),
    ensures
        plan[awaited(plan, s)].always,
{
    lemma_upcoming(plan, s.at, true);
}

/// Whether the stage that waits after some replies has the given task.
pub open spec fn is_next(plan: Seq<StageView>, earlier: Seq<Reply>, task: TaskView) -> bool {
    let i = awaited(plan, run(plan, beginning(), earlier));
    0 <= i < plan.len() && plan[i].task == task
}

/// Whether a run of a plan performed the given task and had a reply that counts as good, as `want`
/// says, or one that does not.
pub open spec fn replied(
    plan: Seq<StageView>,
    replies: Seq<Reply>,
    task: TaskView,
    want: Want<Seq<char>>,
    good: bool,
) -> bool {
    exists|k: int|
        0 <= k < replies.len() && is_next(plan, #[trigger] replies.take(k), task) && is_good(
            want,
            replies[k],
        ) == good
}

/// Whether a run of a plan performed the given task, whatever came of it.
pub open spec fn tried(plan: Seq<StageView>, replies: Seq<Reply>, task: TaskView) -> bool {
    replied(plan, replies, task, Want::Success, true) || replied(
        plan,
        replies,
        task,
        Want::Success,
        false,
    )
}

/// Whether the reply after `k` others leads a run that has had no trouble out of the stages from
/// `from` to before `to`, without making one give up.
pub open spec fn leaves(
    plan: Seq<StageView>,
    replies: Seq<Reply>,
    k: int,
    from: int,
    to: int,
) -> bool {
    let before = run(plan, beginning(), replies.take(k));
    let now = after(plan, before, replies[k]);
    &&& 0 <= k < replies.len()
    &&& before.trouble is None
    &&& from <= before.at < to
    &&& now.trouble is None
    &&& now.at >= to
}

/// A run that has got beyond some stages without trouble went through them, if no earlier stage
/// leaves out the first of them.
pub proof fn stretches_are_crossed(
    plan: Seq<StageView>,
    replies: Seq<Reply>,
    from: int,
    to: int,
)
    requires
        0 <= from < to <= plan.len(),
        forall|j: int| 0 <= j < from ==> skips_at_most(#[trigger] plan[j], from - j - 1),
    ensures
        run(plan, beginning(), replies).trouble is None && run(plan, beginning(), replies).at >= to
            ==> exists|k: int| #[trigger] leaves(plan, replies, k, from, to),
        0 <= run(plan, beginning(), replies).at,
    decreases replies.len(),
{
    if replies.len() > 0 {
        let fewer = replies.drop_last();
        stretches_are_crossed(plan, fewer, from, to);
        let before = run(plan, beginning(), fewer);
        let now = run(plan, beginning(), replies);
        lemma_upcoming(plan, before.at, before.trouble is Some);
        if now.trouble is None && now.at >= to {
            assert(before.trouble is None);
            if before.at >= to {
                let k = choose|k: int| #[trigger] leaves(plan, fewer, k, from, to);
                assert(fewer.take(k) =~= replies.take(k));
                assert(leaves(plan, replies, k, from, to));
            } else {
                if before.at < from {
                    assert(skips_at_most(plan[before.at], from - before.at - 1));
                }
                assert(replies.take(replies.len() - 1) =~= fewer);
                assert(leaves(plan, replies, replies.len() - 1, from, to));
            }
        }
    }
}

/// A plan that has succeeded has got beyond all its stages without trouble.
pub proof fn successes_are_complete(plan: Seq<StageView>, replies: Seq<Reply>)
    requires
        succeeded(plan, run(plan, beginning(), replies)),
    ensures
        run(plan, beginning(), replies).trouble is None,
        run(plan, beginning(), replies).at >= plan.len(),
{
    plans_end(plan, replies);
}

/// A reply that leads out of some stages was given to one of them.
pub proof fn leaving_is_told(
    plan: Seq<StageView>,
    replies: Seq<Reply>,
    k: int,
    from: int,
    to: int,
)
    requires
        0 <= from < to <= plan.len(),
        leaves(plan, replies, k, from, to),
    ensures
        ({
            let i = run(plan, beginning(), replies.take(k)).at;
            let e = effect_of(plan[i], replies[k]);
            &&& awaited(plan, run(plan, beginning(), replies.take(k))) == i
            &&& !gives_up(e)
            &&& i + 1 + skipped(e) >= to
            &&& forall|want: Want<Seq<char>>| #[trigger]
                replied(plan, replies, plan[i].task, want, is_good(want, replies[k]))
        }),
{
    let i = run(plan, beginning(), replies.take(k)).at;
    assert(is_next(plan, replies.take(k), plan[i].task));
}

/// The task of a strict stage that no earlier stage leaves out has been performed with success
/// whenever a plan has got beyond it without trouble.
pub proof fn strict_tasks_succeed(plan: Seq<StageView>, replies: Seq<Reply>, i: int)
    requires
        0 <= i < plan.len(),
        is_strict(plan[i]),
        forall|j: int| 0 <= j < i ==> skips_at_most(#[trigger] plan[j], i - j - 1),
        run(plan, beginning(), replies).trouble is None,
        run(plan, beginning(), replies).at > i,
    ensures
        replied(plan, replies, plan[i].task, plan[i].want, true),
{
    stretches_are_crossed(plan, replies, i, i + 1);
    let k = choose|k: int| #[trigger] leaves(plan, replies, k, i, i + 1);
    leaving_is_told(plan, replies, k, i, i + 1);
    assert(replied(plan, replies, plan[i].task, plan[i].want, is_good(plan[i].want, replies[k])));
}

/// A run whose first reply leads beyond some stages never comes back to them.
pub proof fn first_replies_decide(plan: Seq<StageView>, replies: Seq<Reply>, n: int)
    requires
        0 <= n <= plan.len(),
        replies.len() > 0,
        after(plan, beginning(), replies[0]).at >= n,
    ensures
        run(plan, beginning(), replies).at >= n,
        awaited(plan, run(plan, beginning(), replies)) >= n,
    decreases replies.len(),
{
    let fewer = replies.drop_last();
    if replies.len() == 1 {
        assert(run(plan, beginning(), fewer) == beginning());
        assert(replies.last() == replies[0]);
    } else {
        assert(fewer[0] == replies[0]);
        first_replies_decide(plan, fewer, n);
    }
    let before = run(plan, beginning(), fewer);
    lemma_upcoming(plan, before.at, before.trouble is Some);
    let now = run(plan, beginning(), replies);
    lemma_upcoming(plan, now.at, now.trouble is Some);
}

} // verus!
