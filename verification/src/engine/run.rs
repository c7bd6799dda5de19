use crate::engine;
use crate::engine::process;
use crate::engine::preset;
use crate::engine::preset::PresetSpec;
use crate::engine::process::PidFile;
use crate::engine::{EngineRuntimeSpec, RuntimeView};
use crate::failure;
use crate::failure::Failure;
use crate::lifecycle;
use crate::text::{compose, number, path};
use crate::ui;
use vstd::prelude::*;

verus! {

/// The files of a server.
pub struct EngineFiles {
    pub log_stdout: String,
    pub log_stderr: String,
    pub pid_file: String,
    pub active_model: String,
}

/// Whether files are those of a runtime.
pub open spec fn files_of(f: EngineFiles, s: RuntimeView, home: Seq<char>) -> bool {
    let dir = path::below(home, ".cache/tnk"@);
    &&& f.log_stdout@ == path::below(dir, s.log_stdout)
    &&& f.log_stderr@ == path::below(dir, s.log_stderr)
    &&& f.pid_file@ == path::below(dir, s.pid_file_name)
    &&& f.active_model@ == path::below(dir, s.active_preset_file)
}

/// The files of a server.
pub fn engine_files(spec_: &EngineRuntimeSpec, home: &str) -> (r: EngineFiles)
    ensures
        files_of(r, spec_@, home@),
{
    let dir = path::join_path(home, ".cache/tnk");
    EngineFiles {
        log_stdout: path::join_path(dir.as_str(), spec_.log_stdout),
        log_stderr: path::join_path(dir.as_str(), spec_.log_stderr),
        pid_file: path::join_path(dir.as_str(), spec_.pid_file_name),
        active_model: path::join_path(dir.as_str(), spec_.active_preset_file),
    }
}

/// What is said when a server is started.
pub fn start_line(spec_: &EngineRuntimeSpec, host: &str, port: u16, foreground: bool) -> (r: String)
    ensures
        r@ == starting_line(spec_@, host@, port, foreground),
{
    let digits = number::to_decimal(port as u64);
    let what = if foreground {
        " starting on "
    } else {
        " starting (background) on "
    };
    compose::concat5(spec_.name, what, host, ":", digits.as_str())
}

/// Why a server could not be launched.
pub fn launch_failure(spec_: &EngineRuntimeSpec, not_found: bool, error: &str) -> (r: Failure)
    ensures
        r@ == (if not_found {
            spec_@.name + " executable not found in PATH (expected command: '"@ + spec_@.executable
                + "')"@
        } else {
            error@
        }),
{
    if not_found {
        failure::failed(
            compose::concat4(
                spec_.name,
                " executable not found in PATH (expected command: '",
                spec_.executable,
                "')",
            ),
        )
    } else {
        failure::failure(error)
    }
}

/// What a server is started with.
pub struct StartRequest {
    pub preset: Option<String>,
    /// The preset of the configuration.
    pub default_preset: Option<String>,
    pub presets: Vec<PresetSpec>,
    pub bind_host: Option<String>,
    /// The host of the configuration.
    pub default_host: Option<String>,
    pub port: u16,
    pub foreground: bool,
    pub home: String,
    pub model_dir: Option<String>,
}

/// A server that can be launched.
pub struct Launch {
    pub runtime: EngineRuntimeSpec,
    pub model: String,
    pub host: String,
    pub args: Vec<String>,
    /// The directory of its files.
    pub dir: String,
    pub files: EngineFiles,
    pub foreground: bool,
    /// What is said when it is launched.
    pub line: String,
}

/// The model of a server and the arguments that go with it.
pub open spec fn asked_model(s: RuntimeView, q: StartRequest) -> (Seq<char>, Seq<Seq<char>>) {
    let m = preset::model_for(
        s,
        compose::opt_text(q.preset),
        compose::opt_text(q.default_preset),
        preset::preset_views(q.presets@),
    );
    (preset::model_path(m.0, Some(q.home@), compose::opt_text(q.model_dir)), m.1)
}

/// The host of a server.
pub open spec fn asked_host(s: RuntimeView, q: StartRequest) -> Seq<char> {
    match engine::nonblank(compose::opt_text(q.bind_host)) {
        Some(h) => h,
        None => match engine::nonblank(compose::opt_text(q.default_host)) {
            Some(h) => h,
            None => s.default_bind_host,
        },
    }
}

/// What is said when a server is started.
pub open spec fn starting_line(s: RuntimeView, host: Seq<char>, port: u16, foreground: bool) -> Seq<
    char,
> {
    s.name + (if foreground {
        " starting on "@
    } else {
        " starting (background) on "@
    }) + host + ":"@ + number::decimal(port as nat)
}

/// Prepares the launch of a server, if there is such a runtime.
pub fn start(runtime: &str, q: &StartRequest) -> (r: Result<Launch, Failure>)
    ensures
        match r {
            Ok(l) => {
                &&& engine::runtime_named(runtime@) == Some(l.runtime@)
                &&& l.model@ == asked_model(l.runtime@, *q).0
                &&& l.host@ == asked_host(l.runtime@, *q)
                &&& compose::texts(l.args@) == engine::server_args(
                    l.runtime@,
                    l.model@,
                    l.host@,
                    q.port,
                    asked_model(l.runtime@, *q).1,
                )
                &&& l.dir@ == path::below(q.home@, ".cache/tnk"@)
                &&& files_of(l.files, l.runtime@, q.home@)
                &&& l.foreground == q.foreground
                &&& l.line@ == starting_line(l.runtime@, l.host@, q.port, q.foreground)
            },
            Err(e) => engine::runtime_named(runtime@) is None && e@ == engine::unsupported(
                runtime@,
            ),
        },
{
    let found = match engine::require_runtime(runtime) {
        Ok(s) => s,
        Err(e) => return Err(e),
    };
    let home = Some(q.home.clone());
    let (model, extra) = preset::resolve_model_id_for_runtime(
        &found,
        &q.preset,
        &q.default_preset,
        &q.presets,
        &home,
        &q.model_dir,
    );
    let host = engine::resolve_bind_host(&found, &q.bind_host, &q.default_host);
    let args = engine::runtime_args(&found, model.as_str(), host.as_str(), q.port, &extra);
    let files = engine_files(&found, q.home.as_str());
    let line = start_line(&found, host.as_str(), q.port, q.foreground);
    let dir = path::join_path(q.home.as_str(), ".cache/tnk");
    Ok(Launch { runtime: found, model, host, args, dir, files, foreground: q.foreground, line })
}

/// One step in starting or stopping servers. `T` stands for a text.
#[derive(Debug)]
pub enum EngineStep<T> {
    /// Make a directory with its parents.
    MakeDir(T),
    /// Say a line, in any case or unless the program is quiet.
    Say { line: T, always: bool },
    /// Stop the process of a runtime.
    Stop { runtime: T, pid: u32 },
    /// Wait for some milliseconds.
    Pause(u64),
    /// Remove a file, if it is there.
    Remove(T),
    /// Write a file.
    Write { path: T, text: T },
}

pub type StepView = EngineStep<Seq<char>>;

pub open spec fn step_view(s: EngineStep<String>) -> StepView {
    match s {
        EngineStep::MakeDir(p) => EngineStep::MakeDir(p@),
        EngineStep::Say { line, always } => EngineStep::Say { line: line@, always },
        EngineStep::Stop { runtime, pid } => EngineStep::Stop { runtime: runtime@, pid },
        EngineStep::Pause(n) => EngineStep::Pause(n),
        EngineStep::Remove(p) => EngineStep::Remove(p@),
        EngineStep::Write { path, text } => EngineStep::Write { path: path@, text: text@ },
    }
}

/// The steps of a list.
pub open spec fn steps(v: Seq<EngineStep<String>>) -> Seq<StepView> {
    Seq::new(v.len(), |i: int| step_view(v[i]))
}

fn push_step(v: &mut Vec<EngineStep<String>>, s: EngineStep<String>)
    ensures
        steps(final(v)@) == steps(old(v)@).push(step_view(s)),
{
    let ghost before = v@;
    v.push(s);
    assert(steps(v@) =~= steps(before).push(step_view(s)));
}

fn no_steps() -> (r: Vec<EngineStep<String>>)
    ensures
        steps(r@) == Seq::<StepView>::empty(),
{
    let r: Vec<EngineStep<String>> = Vec::new();
    assert(steps(r@) =~= Seq::<StepView>::empty());
    r
}

/// Servers that run, each with the name of its runtime.
pub open spec fn servers(v: Seq<(EngineRuntimeSpec, u32)>) -> Seq<(Seq<char>, u32)> {
    v.map_values(|p: (EngineRuntimeSpec, u32)| (p.0@.name, p.1))
}

/// The steps that stop some servers, one after the other.
pub open spec fn stop_steps(running: Seq<(Seq<char>, u32)>) -> Seq<StepView> {
    running.map_values(|p: (Seq<char>, u32)| EngineStep::Stop { runtime: p.0, pid: p.1 })
}

fn push_stops(v: &mut Vec<EngineStep<String>>, running: &Vec<(EngineRuntimeSpec, u32)>)
    ensures
        steps(final(v)@) == steps(old(v)@) + stop_steps(servers(running@)),
{
    let ghost before = steps(v@);
    let ghost all = stop_steps(servers(running@));
    let mut i: usize = 0;
    assert(before + all.take(0) =~= before);
    while i < running.len()
        invariant
            i <= running@.len(),
            all == stop_steps(servers(running@)),
            steps(v@) == before + all.take(i as int),
        decreases running@.len() - i,
    {
        push_step(
            v,
            EngineStep::Stop { runtime: running[i].0.name.to_owned(), pid: running[i].1 },
        );
        assert(servers(running@)[i as int] == (running@[i as int].0@.name, running@[i as int].1));
        i += 1;
        assert(before + all.take(i as int) =~= (before + all.take(i - 1)).push(all[i - 1]));
    }
    assert(all.take(i as int) =~= all);
}

/// The steps before a launch: servers that run are stopped, whatever their runtime, and what was
/// recorded of an earlier one is removed.
pub open spec fn clearing(l: Launch, running: Seq<(Seq<char>, u32)>) -> Seq<StepView> {
    seq![StepView::MakeDir(l.dir@)] + (if running.len() == 0 {
        Seq::<StepView>::empty()
    } else {
        seq![
            StepView::Say {
                line: "warning: found running engine process(es), stopping before start"@,
                always: true,
            },
        ] + stop_steps(running) + seq![StepView::Pause(300)]
    }) + seq![
        StepView::Remove(l.files.pid_file@),
        StepView::Say {
            line: if l.foreground {
                ui::info(l.line@)
            } else {
                l.line@
            },
            always: !l.foreground,
        },
    ]
}

/// The steps before a launch.
pub fn before_launch(l: &Launch, running: &Vec<(EngineRuntimeSpec, u32)>) -> (r: Vec<
    EngineStep<String>,
>)
    ensures
        steps(r@) == clearing(*l, servers(running@)),
{
    let mut v = no_steps();
    push_step(&mut v, EngineStep::MakeDir(l.dir.clone()));
    assert(servers(running@).len() == running@.len());
    if running.len() > 0 {
        push_step(
            &mut v,
            EngineStep::Say {
                line: "warning: found running engine process(es), stopping before start".to_owned(),
                always: true,
            },
        );
        push_stops(&mut v, running);
        push_step(&mut v, EngineStep::Pause(300));
    }
    push_step(&mut v, EngineStep::Remove(l.files.pid_file.clone()));
    let line = if l.foreground {
        compose::concat("info: ", l.line.as_str())
    } else {
        l.line.clone()
    };
    push_step(&mut v, EngineStep::Say { line, always: !l.foreground });
    assert(steps(v@) =~= clearing(*l, servers(running@)));
    v
}

/// The steps after a launch: the model is recorded, and the process if it runs by itself.
pub open spec fn settling(l: Launch, pid: u32) -> Seq<StepView> {
    let model = StepView::Write { path: l.files.active_model@, text: l.model@ };
    if l.foreground {
        seq![model]
    } else {
        seq![
            StepView::Write {
                path: l.files.pid_file@,
                text: number::decimal(pid as nat),
            },
            model,
            StepView::Say {
                line: ui::info("started pid "@ + number::decimal(pid as nat)),
                always: false,
            },
        ]
    }
}

/// The steps after a launch.
pub fn after_launch(l: &Launch, pid: u32) -> (r: Vec<EngineStep<String>>)
    ensures
        steps(r@) == settling(*l, pid),
{
    let digits = number::to_decimal(pid as u64);
    let mut v = no_steps();
    if !l.foreground {
        push_step(
            &mut v,
            EngineStep::Write { path: l.files.pid_file.clone(), text: digits.clone() },
        );
    }
    push_step(
        &mut v,
        EngineStep::Write { path: l.files.active_model.clone(), text: l.model.clone() },
    );
    if !l.foreground {
        let started = compose::concat("started pid ", digits.as_str());
        push_step(
            &mut v,
            EngineStep::Say { line: compose::concat("info: ", started.as_str()), always: false },
        );
    }
    v
}

/// Every server that runs is stopped before another one is launched, and the record of the last
/// one is removed after that.
pub proof fn servers_make_way(l: Launch, running: Seq<(Seq<char>, u32)>, i: int)
    requires
        0 <= i < running.len(),
    ensures
        clearing(l, running)[i + 2] == (StepView::Stop { runtime: running[i].0, pid: running[i].1 }),
        clearing(l, running)[clearing(l, running).len() - 2] == StepView::Remove(
            l.files.pid_file@,
        ),
        i + 2 < clearing(l, running).len() - 2,
{
}

/// What a launch in the background records of the server is what a later stop reads: the process
/// that was started.
pub proof fn launched_servers_are_on_record(l: Launch, pid: u32, f: PidFile)
    requires
        !l.foreground,
        f matches PidFile::Text(s) && settling(l, pid)[0] == (StepView::Write {
            path: l.files.pid_file@,
            text: s@,
        }),
    ensures
        process::recorded_pid(f) == Some(pid as nat),
{
    lifecycle::holders_are_read_back(pid);
}

/// What is said when a server in the foreground ends without success.
pub fn exit_line(ok: bool, status: &str) -> (r: Option<String>)
    ensures
        compose::opt_text(r) == (if ok {
            None
        } else {
            Some("error: server exited with code "@ + status@)
        }),
{
    if ok {
        None
    } else {
        Some(compose::concat("error: server exited with code ", status))
    }
}

/// A signal.
#[derive(Clone, Copy, PartialEq, Eq, Structural, Debug)]
pub enum Signal {
    Interrupt,
    Terminate,
    Kill,
}

/// What is done with a signal that reaches the program while a server runs in the foreground.
pub struct Forward {
    /// The signal that the server is sent, if any.
    pub send: Option<Signal>,
    /// The line that tells so.
    pub line: Option<String>,
    /// Whether the line is shown even when the program is quiet.
    pub always: bool,
    /// Whether the server has been asked to end by now.
    pub requested: bool,
}

/// What is done with a signal that reaches the program while a server runs in the foreground: the
/// first one asks the server to end, every later one ends it.
pub fn forward_signal(
    spec_: &EngineRuntimeSpec,
    child_pid: u32,
    requested: bool,
    received: Signal,
) -> (r: Forward)
    ensures
        child_pid == 0 ==> r.send is None && r.line is None && r.requested == requested,
        child_pid != 0 ==> {
            &&& r.requested
            &&& r.send == Some(
                if requested {
                    Signal::Kill
                } else {
                    Signal::Terminate
                },
            )
            &&& r.always == requested
            &&& compose::opt_text(r.line) == Some(
                if requested {
                    "warning: second signal received, forwarding SIGKILL to "@ + spec_@.name
                        + " pid "@ + number::decimal(child_pid as nat)
                } else {
                    ui::info(
                        (if received == Signal::Interrupt {
                            "forwarding SIGINT to "@
                        } else {
                            "forwarding SIGTERM to "@
                        }) + spec_@.name + " pid "@ + number::decimal(child_pid as nat),
                    )
                },
            )
        },
{
    if child_pid == 0 {
        return Forward { send: None, line: None, always: false, requested };
    }
    let digits = number::to_decimal(child_pid as u64);
    if requested {
        Forward {
            send: Some(Signal::Kill),
            line: Some(
                compose::concat4(
                    "warning: second signal received, forwarding SIGKILL to ",
                    spec_.name,
                    " pid ",
                    digits.as_str(),
                ),
            ),
            always: true,
            requested: true,
        }
    } else {
        let what = if received == Signal::Interrupt {
            "forwarding SIGINT to "
        } else {
            "forwarding SIGTERM to "
        };
        let text = compose::concat4(what, spec_.name, " pid ", digits.as_str());
        Forward {
            send: Some(Signal::Terminate),
            line: Some(compose::concat("info: ", text.as_str())),
            always: false,
            requested: true,
        }
    }
}

/// How far the end of a server has come.
#[derive(Clone, Copy, PartialEq, Eq, Structural, Debug)]
pub enum StopStage {
    /// It has to be seen whether it is a server at all.
    Begin,
    /// It has been asked to end, and looked at this often since.
    Asked(u32),
    /// It ended by itself.
    Stopped,
    /// It had to be ended by force.
    Killed,
    /// It was no server.
    Left,
}

/// How often a server that was asked to end is looked at before it is ended by force.
pub const STOP_CHECKS: u32 = 20;

/// What follows from a look at a server: `runs` tells whether it still is one.
pub open spec fn next_stop(s: StopStage, runs: bool) -> StopStage {
    match s {
        StopStage::Begin => if runs {
            StopStage::Asked(0)
        } else {
            StopStage::Left
        },
        StopStage::Asked(n) => if !runs {
            StopStage::Stopped
        } else if n + 1 >= STOP_CHECKS {
            StopStage::Killed
        } else {
            StopStage::Asked((n + 1) as u32)
        },
        _ => s,
    }
}

/// What follows from a look at a server. A server that has just been asked is sent the gentle
/// signal, one that is killed the hard one; between two looks a fifth of a second passes.
pub fn stop_pid(s: StopStage, runs: bool) -> (r: StopStage)
    ensures
        r == next_stop(s, runs),
{
    match s {
        StopStage::Begin => if runs {
            StopStage::Asked(0)
        } else {
            StopStage::Left
        },
        StopStage::Asked(n) => if !runs {
            StopStage::Stopped
        } else if n >= STOP_CHECKS - 1 {
            StopStage::Killed
        } else {
            StopStage::Asked(n + 1)
        },
        _ => s,
    }
}

/// The signal that a step from one stage to the next sends.
pub open spec fn sent(before: StopStage, after: StopStage) -> Option<Signal> {
    if before == StopStage::Begin && after is Asked {
        Some(Signal::Terminate)
    } else if before is Asked && after == StopStage::Killed {
        Some(Signal::Kill)
    } else {
        None
    }
}

/// The signal that a step from one stage to the next sends.
pub fn signal_to_send(before: StopStage, after: StopStage) -> (r: Option<Signal>)
    ensures
        r == sent(before, after),
{
    match before {
        StopStage::Begin => match after {
            StopStage::Asked(_) => Some(Signal::Terminate),
            _ => None,
        },
        StopStage::Asked(_) => match after {
            StopStage::Killed => Some(Signal::Kill),
            _ => None,
        },
        _ => None,
    }
}

/// What is said at a stage: the lines, each with whether it is shown even when the program is
/// quiet.
pub open spec fn stop_lines(s: StopStage, name: Seq<char>, pid: u32) -> Seq<(Seq<char>, bool)> {
    let who = name + " pid "@ + number::decimal(pid as nat);
    match s {
        StopStage::Asked(n) => if n == 0 {
            seq![("info: stopping "@ + who, false)]
        } else {
            Seq::empty()
        },
        StopStage::Stopped => seq![("info: stopped "@ + who, false)],
        StopStage::Killed => seq![
            ("warning: sigterm failed for "@ + who + ", escalating to sigkill"@, true),
            ("info: killed "@ + who, false),
        ],
        _ => Seq::empty(),
    }
}

/// The lines of a list with whether they are shown even when the program is quiet.
pub open spec fn flagged(v: Seq<(String, bool)>) -> Seq<(Seq<char>, bool)> {
    v.map_values(|p: (String, bool)| (p.0@, p.1))
}

/// What is said at a stage.
pub fn say_stop(s: StopStage, spec_: &EngineRuntimeSpec, pid: u32) -> (r: Vec<(String, bool)>)
    ensures
        flagged(r@) == stop_lines(s, spec_@.name, pid),
{
    let digits = number::to_decimal(pid as u64);
    let who = compose::concat3(spec_.name, " pid ", digits.as_str());
    let mut v: Vec<(String, bool)> = Vec::new();
    match s {
        StopStage::Asked(n) => if n == 0 {
            v.push((compose::concat("info: stopping ", who.as_str()), false));
        },
        StopStage::Stopped => {
            v.push((compose::concat("info: stopped ", who.as_str()), false));
        },
        StopStage::Killed => {
            v.push(
                (
                    compose::concat3(
                        "warning: sigterm failed for ",
                        who.as_str(),
                        ", escalating to sigkill",
                    ),
                    true,
                ),
            );
            v.push((compose::concat("info: killed ", who.as_str()), false));
        },
        _ => {},
    }
    assert(flagged(v@) =~= stop_lines(s, spec_@.name, pid));
    v
}

/// The stage that some looks lead to.
pub open spec fn stop_run(looks: Seq<bool>) -> StopStage
    decreases looks.len(),
{
    if looks.len() == 0 {
        StopStage::Begin
    } else {
        next_stop(stop_run(looks.drop_last()), looks.last())
    }
}

/// A server is ended by force only after it has been seen running at the first look and at every
/// one of the looks that followed the request to end.
pub proof fn force_is_the_last_resort(looks: Seq<bool>)
    ensures
        stop_run(looks) == StopStage::Killed ==> looks.len() > STOP_CHECKS && forall|i: int|
            0 <= i <= STOP_CHECKS ==> #[trigger] looks[i],
        stop_run(looks) matches StopStage::Asked(n) ==> looks.len() == n + 1 && n < STOP_CHECKS
            && forall|i: int| 0 <= i <= n ==> #[trigger] looks[i],
        stop_run(looks) == StopStage::Begin ==> looks.len() == 0,
    decreases looks.len(),
{
    if looks.len() > 0 {
        let fewer = looks.drop_last();
        force_is_the_last_resort(fewer);
        assert forall|i: int| 0 <= i < fewer.len() && fewer[i] implies #[trigger] looks[i] by {
            assert(looks[i] == fewer[i]);
        }
        if let StopStage::Asked(n) = stop_run(fewer) {
            assert(forall|i: int| 0 <= i <= n ==> #[trigger] fewer[i]);
            assert forall|i: int| 0 <= i <= n implies #[trigger] looks[i] by {
                assert(fewer[i]);
            }
        }
        if stop_run(fewer) == StopStage::Killed {
            assert forall|i: int| 0 <= i <= STOP_CHECKS implies #[trigger] looks[i] by {
                assert(fewer[i]);
            }
        }
    }
}

/// The end of a server is settled after at most one look more than those that follow the request.
pub proof fn stops_are_settled(looks: Seq<bool>)
    requires
        looks.len() > STOP_CHECKS,
    ensures
        stop_run(looks) is Stopped || stop_run(looks) is Killed || stop_run(looks) is Left,
{
    force_is_the_last_resort(looks);
}

/// The servers that a stop is about: the one of the file if it is a server, then those that are
/// listed.
pub open spec fn targets(recorded: Option<u32>, listed: Seq<u32>) -> Seq<u32>
    decreases listed.len(),
{
    if listed.len() == 0 {
        match recorded {
            Some(p) => seq![p],
            None => Seq::empty(),
        }
    } else {
        let before = targets(recorded, listed.drop_last());
        if before.contains(listed.last()) {
            before
        } else {
            before.push(listed.last())
        }
    }
}

/// The servers that a stop is about.
pub fn stop_targets(recorded: Option<u32>, listed: &Vec<u32>) -> (r: Vec<u32>)
    ensures
        r@ == targets(recorded, listed@),
{
    let mut v: Vec<u32> = Vec::new();
    match recorded {
        Some(p) => v.push(p),
        None => {},
    }
    let mut i: usize = 0;
    assert(v@ =~= targets(recorded, listed@.take(0)));
    while i < listed.len()
        invariant
            i <= listed@.len(),
            v@ == targets(recorded, listed@.take(i as int)),
        decreases listed@.len() - i,
    {
        assert(listed@.take(i + 1).drop_last() =~= listed@.take(i as int));
        let n: u32 = listed[i];
        let mut found = false;
        let mut k: usize = 0;
        while k < v.len()
            invariant
                k <= v@.len(),
                found == (exists|j: int| 0 <= j < k && v@[j] == n),
            decreases v@.len() - k,
        {
            if v[k] == n {
                found = true;
            }
            k += 1;
        }
        assert(found == v@.contains(n));
        if !found {
            v.push(n);
        }
        i += 1;
    }
    assert(listed@.take(i as int) =~= listed@);
    v
}

/// No server is stopped twice, none that is listed or recorded is forgotten, and nothing else is
/// stopped.
pub proof fn targets_are_complete(recorded: Option<u32>, listed: Seq<u32>)
    ensures
        targets(recorded, listed).no_duplicates(),
        recorded matches Some(p) ==> targets(recorded, listed).contains(p),
        forall|n: u32| listed.contains(n) ==> #[trigger] targets(recorded, listed).contains(n),
        forall|n: u32| #[trigger]
            targets(recorded, listed).contains(n) ==> recorded == Some(n) || listed.contains(n),
    decreases listed.len(),
{
    let now = targets(recorded, listed);
    if listed.len() == 0 {
        if let Some(p) = recorded {
            assert(now[0] == p);
        }
    } else {
        let fewer = listed.drop_last();
        targets_are_complete(recorded, fewer);
        let before = targets(recorded, fewer);
        assert forall|n: u32| before.contains(n) implies #[trigger] now.contains(n) by {
            let i = choose|i: int| 0 <= i < before.len() && before[i] == n;
            assert(now[i] == n);
        }
        assert(now.contains(listed.last())) by {
            if !before.contains(listed.last()) {
                assert(now[now.len() - 1] == listed.last());
            }
        }
        assert forall|n: u32| listed.contains(n) implies #[trigger] now.contains(n) by {
            let i = choose|i: int| 0 <= i < listed.len() && listed[i] == n;
            if i < fewer.len() {
                assert(fewer[i] == n);
                assert(fewer.contains(n));
                assert(before.contains(n));
            }
        }
        if let Some(p) = recorded {
            assert(before.contains(p));
        }
        assert forall|n: u32| #[trigger] now.contains(n) implies recorded == Some(n)
            || listed.contains(n) by {
            let i = choose|i: int| 0 <= i < now.len() && now[i] == n;
            if i < before.len() {
                assert(before[i] == n);
                assert(before.contains(n));
                if fewer.contains(n) {
                    let k = choose|k: int| 0 <= k < fewer.len() && fewer[k] == n;
                    assert(listed[k] == n);
                }
            } else {
                assert(listed[listed.len() - 1] == n);
            }
        }
    }
}

/// The warning about a file that tells of a process that is no server, if it does.
pub open spec fn stale_note(s: RuntimeView, f: PidFile, recorded_runs: bool) -> Option<Seq<char>> {
    match process::recorded_pid(f) {
        Some(p) => if recorded_runs {
            None
        } else {
            Some(
                "warning: stale pid file for non-"@ + s.name + " process "@ + number::decimal(p)
                    + ", removing"@,
            )
        },
        None => None,
    }
}

/// The warning about a file that tells of a process that is no server, if it does.
pub fn stale_pid_warning(spec_: &EngineRuntimeSpec, f: &PidFile, recorded_runs: bool) -> (r: Option<
    String,
>)
    ensures
        compose::opt_text(r) == stale_note(spec_@, *f, recorded_runs),
{
    match process::read_pid_file(f) {
        Some(p) => if recorded_runs {
            None
        } else {
            let digits = number::to_decimal(p as u64);
            Some(
                compose::concat5(
                    "warning: stale pid file for non-",
                    spec_.name,
                    " process ",
                    digits.as_str(),
                    ", removing",
                ),
            )
        },
        None => None,
    }
}

/// The steps that stop the servers of a runtime: the one that is on record, if it is one, and all
/// that are listed. The record is removed in any case.
pub open spec fn stopping(
    s: RuntimeView,
    pid_file: Seq<char>,
    f: PidFile,
    recorded_runs: bool,
    listed: Seq<u32>,
) -> Seq<StepView> {
    let recorded = match process::recorded_pid(f) {
        Some(p) => if recorded_runs {
            Some(p as u32)
        } else {
            None
        },
        None => None,
    };
    (match stale_note(s, f, recorded_runs) {
        Some(line) => seq![StepView::Say { line, always: true }],
        None => Seq::empty(),
    }) + targets(recorded, listed).map_values(
        |p: u32| StepView::Stop { runtime: s.name, pid: p },
    ) + seq![StepView::Remove(pid_file)]
}

/// The steps that stop the servers of a runtime, if there is such a runtime.
pub fn stop(
    runtime: &str,
    home: &str,
    f: &PidFile,
    recorded_runs: bool,
    listed: &Vec<u32>,
) -> (r: Result<Vec<EngineStep<String>>, Failure>)
    ensures
        match r {
            Ok(v) => engine::runtime_named(runtime@) matches Some(s) && steps(v@) == stopping(
                s,
                path::below(path::below(home@, ".cache/tnk"@), s.pid_file_name),
                *f,
                recorded_runs,
                listed@,
            ),
            Err(e) => engine::runtime_named(runtime@) is None && e@ == engine::unsupported(
                runtime@,
            ),
        },
{
    let found = match engine::require_runtime(runtime) {
        Ok(s) => s,
        Err(e) => return Err(e),
    };
    let files = engine_files(&found, home);
    let mut v = no_steps();
    match stale_pid_warning(&found, f, recorded_runs) {
        Some(line) => push_step(&mut v, EngineStep::Say { line, always: true }),
        None => {},
    }
    let recorded = match process::read_pid_file(f) {
        Some(p) => if recorded_runs {
            Some(p)
        } else {
            None
        },
        None => None,
    };
    let pids = stop_targets(recorded, listed);
    let ghost before = steps(v@);
    let ghost all = pids@.map_values(|p: u32| StepView::Stop { runtime: found@.name, pid: p });
    let mut i: usize = 0;
    assert(before + all.take(0) =~= before);
    while i < pids.len()
        invariant
            i <= pids@.len(),
            all == pids@.map_values(|p: u32| StepView::Stop { runtime: found@.name, pid: p }),
            steps(v@) == before + all.take(i as int),
        decreases pids@.len() - i,
    {
        push_step(&mut v, EngineStep::Stop { runtime: found.name.to_owned(), pid: pids[i] });
        i += 1;
        assert(before + all.take(i as int) =~= (before + all.take(i - 1)).push(all[i - 1]));
    }
    assert(all.take(i as int) =~= all);
    push_step(&mut v, EngineStep::Remove(files.pid_file));
    assert(steps(v@) =~= stopping(
        found@,
        path::below(path::below(home@, ".cache/tnk"@), found@.pid_file_name),
        *f,
        recorded_runs,
        listed@,
    ));
    Ok(v)
}

/// A stop deals with every server that is listed, and leaves no record.
pub proof fn stops_reach_every_server(
    s: RuntimeView,
    pid_file: Seq<char>,
    f: PidFile,
    recorded_runs: bool,
    listed: Seq<u32>,
    pid: u32,
)
    requires
        listed.contains(pid),
    ensures
        stopping(s, pid_file, f, recorded_runs, listed).contains(
            StepView::Stop { runtime: s.name, pid },
        ),
        stopping(s, pid_file, f, recorded_runs, listed).last() == StepView::Remove(pid_file),
{
    let recorded = match process::recorded_pid(f) {
        Some(p) => if recorded_runs {
            Some(p as u32)
        } else {
            None
        },
        None => None,
    };
    targets_are_complete(recorded, listed);
    let all = targets(recorded, listed);
    assert(all.contains(pid));
    let i = choose|i: int| 0 <= i < all.len() && all[i] == pid;
    let v = stopping(s, pid_file, f, recorded_runs, listed);
    let k = if stale_note(s, f, recorded_runs) is Some {
        i + 1
    } else {
        i
    };
    assert(v[k] == (StepView::Stop { runtime: s.name, pid }));
}

/// The first of the runtimes that runs, given for each in its order whether it does.
pub fn running_runtime(running: &Vec<bool>) -> (r: Option<EngineRuntimeSpec>)
    requires
        running@.len() == 3,
    ensures
        engine::opt_runtime(r) == (if running@[0] {
            Some(engine::llama())
        } else if running@[1] {
            Some(engine::mlxcel())
        } else if running@[2] {
            Some(engine::vllm_mlx())
        } else {
            None
        }),
{
    if running[0] {
        engine::runtime_spec("llama")
    } else if running[1] {
        proof {
            reveal_strlit("llama");
            reveal_strlit("mlxcel");
            assert("llama"@.len() != "mlxcel"@.len());
        }
        engine::runtime_spec("mlxcel")
    } else if running[2] {
        proof {
            reveal_strlit("llama");
            reveal_strlit("mlxcel");
            reveal_strlit("vllm-mlx");
            assert("llama"@.len() != "vllm-mlx"@.len());
            assert("mlxcel"@.len() != "vllm-mlx"@.len());
        }
        engine::runtime_spec("vllm-mlx")
    } else {
        None
    }
}

/// A launch records the model that is served, and in the background the process as well, each in
/// the file of its runtime.
pub proof fn launches_are_recorded(l: Launch, home: Seq<char>, pid: u32)
    requires
        files_of(l.files, l.runtime@, home),
    ensures
        ({
            let dir = path::below(home, ".cache/tnk"@);
            &&& settling(l, pid).contains(
                StepView::Write {
                    path: path::below(dir, l.runtime@.active_preset_file),
                    text: l.model@,
                },
            )
            &&& !l.foreground ==> settling(l, pid).contains(
                StepView::Write {
                    path: path::below(dir, l.runtime@.pid_file_name),
                    text: number::decimal(pid as nat),
                },
            )
        }),
{
    let s = settling(l, pid);
    if l.foreground {
        assert(s[0] == (StepView::Write { path: l.files.active_model@, text: l.model@ }));
    } else {
        assert(s[1] == (StepView::Write { path: l.files.active_model@, text: l.model@ }));
        assert(s[0] == (StepView::Write {
            path: l.files.pid_file@,
            text: number::decimal(pid as nat),
        }));
    }
}

/// A server that goes on running is asked to end once, and then ended by force once, no sooner than
/// after all the looks that follow the request.
pub proof fn stubborn_servers_are_ended(looks: Seq<bool>)
    requires
        looks.len() == STOP_CHECKS + 1,
        forall|i: int| 0 <= i < looks.len() ==> #[trigger] looks[i],
    ensures
        stop_run(looks) is Killed,
        sent(stop_run(looks.take(0)), stop_run(looks.take(1))) == Some(Signal::Terminate),
        sent(stop_run(looks.drop_last()), stop_run(looks)) == Some(Signal::Kill),
{
    lemma_asked(looks, STOP_CHECKS as int);
    lemma_asked(looks, 1);
    assert(looks.take(STOP_CHECKS as int) =~= looks.drop_last());
    assert(looks[looks.len() - 1]);
}

proof fn lemma_asked(looks: Seq<bool>, n: int)
    requires
        1 <= n <= STOP_CHECKS,
        n <= looks.len(),
        forall|i: int| 0 <= i < looks.len() ==> #[trigger] looks[i],
    ensures
        stop_run(looks.take(n)) == StopStage::Asked((n - 1) as u32),
        stop_run(looks.take(0)) == StopStage::Begin,
    decreases n,
{
    assert(looks.take(n).drop_last() =~= looks.take(n - 1));
    assert(looks.take(n).last() == looks[n - 1]);
    if n > 1 {
        lemma_asked(looks, n - 1);
    }
}

} // verus!
