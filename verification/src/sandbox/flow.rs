//! What starting a sandbox and opening a shell in it consist of, step by step.

use crate::config;
use crate::failure::Failure;
use crate::json;
use crate::json::Json;
use crate::plan;
use crate::plan::Stage;
use crate::sandbox::session::{Opened, TerminalEnv};
use crate::sandbox::session;
use crate::text::{compose, number};
use crate::ui;
use vstd::prelude::*;

verus! {

/// One step. `T` stands for a text.
#[derive(Debug)]
pub enum Step<T> {
    /// Take the lock under which sandboxes are changed, and hold it to the end.
    Lock,
    /// Carry out the plan that makes the sandbox run.
    BringUp,
    /// Find out which model is active.
    FindModel,
    /// Tell a line, unless the program is quiet.
    Tell(T),
    /// Apply a profile: provision the sandbox with it, and cut the sandbox off from the network.
    Apply { profile: T, provision: bool, seal: bool },
    /// Record that the sandbox has a profile, in any case or only if nothing has been recorded.
    Record { profile: T, only_first: bool },
    /// Label the sandbox with a profile.
    Label(T),
    /// Open the session of a profile.
    Session(T),
    /// Open a shell.
    Shell,
}

pub open spec fn step_view(s: Step<String>) -> Step<Seq<char>> {
    match s {
        Step::Lock => Step::Lock,
        Step::BringUp => Step::BringUp,
        Step::FindModel => Step::FindModel,
        Step::Tell(t) => Step::Tell(t@),
        Step::Apply { profile, provision, seal } => Step::Apply {
            profile: profile@,
            provision,
            seal,
        },
        Step::Record { profile, only_first } => Step::Record { profile: profile@, only_first },
        Step::Label(t) => Step::Label(t@),
        Step::Session(t) => Step::Session(t@),
        Step::Shell => Step::Shell,
    }
}

/// The steps of a list.
pub open spec fn steps(v: Seq<Step<String>>) -> Seq<Step<Seq<char>>> {
    Seq::new(v.len(), |i: int| step_view(v[i]))
}

fn push_step(v: &mut Vec<Step<String>>, s: Step<String>)
    ensures
        steps(final(v)@) == steps(old(v)@).push(step_view(s)),
{
    let ghost before = v@;
    v.push(s);
    assert(steps(v@) =~= steps(before).push(step_view(s)));
}

fn no_steps() -> (r: Vec<Step<String>>)
    ensures
        steps(r@) == Seq::<Step<Seq<char>>>::empty(),
{
    let r: Vec<Step<String>> = Vec::new();
    assert(steps(r@) =~= Seq::<Step<Seq<char>>>::empty());
    r
}

/// The line that tells which profile is applied.
pub open spec fn applying(profile: Seq<char>) -> Seq<char> {
    ui::info("applying profile: "@ + profile)
}

fn says_applying(profile: &str) -> (r: String)
    ensures
        r@ == applying(profile@),
{
    let message = compose::concat("applying profile: ", profile);
    compose::concat("info: ", message.as_str())
}

/// The steps of starting the machine of a project.
pub open spec fn lima_start_steps(profile: Seq<char>) -> Seq<Step<Seq<char>>> {
    if profile == "base"@ {
        seq![Step::Lock, Step::BringUp, Step::Record { profile: "base"@, only_first: true }]
    } else {
        seq![
            Step::Lock,
            Step::BringUp,
            Step::Tell("resolving engine model..."@),
            Step::FindModel,
            Step::Tell(applying(profile)),
            Step::Tell("provisioning profile '"@ + profile + "'..."@),
            Step::Apply { profile, provision: true, seal: false },
            Step::Record { profile, only_first: false },
            Step::Tell(ui::info("launching workspace context"@)),
            Step::Tell("sandbox ready"@),
        ]
    }
}

/// The steps of starting the machine of a project.
pub fn lima_start(profile: &str) -> (r: Vec<Step<String>>)
    ensures
        steps(r@) == lima_start_steps(profile@),
{
    let mut v = no_steps();
    push_step(&mut v, Step::Lock);
    push_step(&mut v, Step::BringUp);
    if compose::same(profile, "base") {
        push_step(&mut v, Step::Record { profile: "base".to_owned(), only_first: true });
        return v;
    }
    push_step(&mut v, Step::Tell("resolving engine model...".to_owned()));
    push_step(&mut v, Step::FindModel);
    push_step(&mut v, Step::Tell(says_applying(profile)));
    push_step(
        &mut v,
        Step::Tell(compose::concat3("provisioning profile '", profile, "'...")),
    );
    push_step(
        &mut v,
        Step::Apply { profile: profile.to_owned(), provision: true, seal: false },
    );
    push_step(&mut v, Step::Record { profile: profile.to_owned(), only_first: false });
    push_step(&mut v, Step::Tell(compose::concat("info: ", "launching workspace context")));
    push_step(&mut v, Step::Tell("sandbox ready".to_owned()));
    v
}

/// The steps of opening a shell in the machine of a project.
pub open spec fn lima_shell_steps(profile: Option<Seq<char>>) -> Seq<Step<Seq<char>>> {
    match profile {
        Some(p) => if p != "base"@ {
            seq![
                Step::Lock,
                Step::BringUp,
                Step::FindModel,
                Step::Tell(applying(p)),
                Step::Apply { profile: p, provision: true, seal: false },
                Step::Record { profile: p, only_first: true },
                Step::Shell,
            ]
        } else {
            seq![Step::Lock, Step::BringUp, Step::Shell]
        },
        None => seq![Step::Lock, Step::BringUp, Step::Shell],
    }
}

fn lima_shell(profile: &Option<String>) -> (r: Vec<Step<String>>)
    ensures
        steps(r@) == lima_shell_steps(compose::opt_text(*profile)),
{
    let mut v = no_steps();
    push_step(&mut v, Step::Lock);
    push_step(&mut v, Step::BringUp);
    match profile {
        Some(p) => {
            if !compose::same(p.as_str(), "base") {
                push_step(&mut v, Step::FindModel);
                push_step(&mut v, Step::Tell(says_applying(p.as_str())));
                push_step(
                    &mut v,
                    Step::Apply { profile: p.clone(), provision: true, seal: false },
                );
                push_step(&mut v, Step::Record { profile: p.clone(), only_first: true });
            }
        },
        None => {},
    }
    push_step(&mut v, Step::Shell);
    v
}

/// The steps of starting the container of a project. A container whose image has been baked is not
/// provisioned, and has been cut off from the network from its beginning where that is wanted.
pub open spec fn container_start_steps(profile: Seq<char>, golden: bool, sealed: bool) -> Seq<
    Step<Seq<char>>,
> {
    if profile == "base"@ {
        seq![
            Step::BringUp,
            Step::FindModel,
            Step::Record { profile: "base"@, only_first: true },
            Step::Label("base"@),
            Step::Tell(ui::info("container ready, launching shell"@)),
            Step::Session("base"@),
        ]
    } else {
        seq![
            Step::BringUp,
            Step::FindModel,
            Step::Tell(applying(profile)),
            Step::Apply { profile, provision: !golden, seal: sealed && !golden },
            Step::Record { profile, only_first: false },
            Step::Label(profile),
            Step::Tell(ui::info("launching workspace context"@)),
            Step::Session(profile),
        ]
    }
}

/// The steps of starting the container of a project.
pub fn container_start(profile: &str, golden: bool, sealed: bool) -> (r: Vec<Step<String>>)
    ensures
        steps(r@) == container_start_steps(profile@, golden, sealed),
{
    let mut v = no_steps();
    push_step(&mut v, Step::BringUp);
    push_step(&mut v, Step::FindModel);
    if compose::same(profile, "base") {
        push_step(&mut v, Step::Record { profile: "base".to_owned(), only_first: true });
        push_step(&mut v, Step::Label("base".to_owned()));
        push_step(
            &mut v,
            Step::Tell(compose::concat("info: ", "container ready, launching shell")),
        );
        push_step(&mut v, Step::Session("base".to_owned()));
        return v;
    }
    push_step(&mut v, Step::Tell(says_applying(profile)));
    push_step(
        &mut v,
        Step::Apply {
            profile: profile.to_owned(),
            provision: !golden,
            seal: sealed && !golden,
        },
    );
    push_step(&mut v, Step::Record { profile: profile.to_owned(), only_first: false });
    push_step(&mut v, Step::Label(profile.to_owned()));
    push_step(&mut v, Step::Tell(compose::concat("info: ", "launching workspace context")));
    push_step(&mut v, Step::Session(profile.to_owned()));
    v
}

/// The steps of opening a shell in the container of a project.
pub open spec fn container_shell_steps(profile: Option<Seq<char>>, sealed: bool) -> Seq<
    Step<Seq<char>>,
> {
    match profile {
        Some(p) => if p != "base"@ {
            seq![
                Step::Lock,
                Step::BringUp,
                Step::FindModel,
                Step::Tell(applying(p)),
                Step::Apply { profile: p, provision: true, seal: sealed },
                Step::Record { profile: p, only_first: false },
                Step::Label(p),
                Step::Shell,
            ]
        } else {
            seq![Step::Lock, Step::BringUp, Step::FindModel, Step::Label("base"@), Step::Shell]
        },
        None => seq![Step::Lock, Step::BringUp, Step::FindModel, Step::Label("base"@), Step::Shell],
    }
}

fn container_shell(profile: &Option<String>, sealed: bool) -> (r: Vec<Step<String>>)
    ensures
        steps(r@) == container_shell_steps(compose::opt_text(*profile), sealed),
{
    let mut v = no_steps();
    push_step(&mut v, Step::Lock);
    push_step(&mut v, Step::BringUp);
    push_step(&mut v, Step::FindModel);
    match profile {
        Some(p) => {
            if !compose::same(p.as_str(), "base") {
                push_step(&mut v, Step::Tell(says_applying(p.as_str())));
                push_step(
                    &mut v,
                    Step::Apply { profile: p.clone(), provision: true, seal: sealed },
                );
                push_step(&mut v, Step::Record { profile: p.clone(), only_first: false });
            }
            push_step(&mut v, Step::Label(p.clone()));
        },
        None => {
            push_step(&mut v, Step::Label("base".to_owned()));
        },
    }
    push_step(&mut v, Step::Shell);
    v
}

impl Opened {
    /// The steps of opening a shell in the machine of a project, or why there is none. They are
    /// had from an opened session only: the checks of its terminal and of its variables come
    /// before the lock, before anything is done with the machine and before anything is logged.
    pub fn lima_steps(&self, id: &str, profile: &Option<String>) -> (r: Result<
        Vec<Step<String>>,
        Failure,
    >)
        ensures
            session::is_checked(self@),
            match r {
                Ok(v) => session::project_fault(id@) is None && steps(v@) == lima_shell_steps(
                    compose::opt_text(*profile),
                ),
                Err(e) => session::project_fault(id@) == Some(e@),
            },
    {
        proof {
            use_type_invariant(self);
        }
        match session::refuse_outside_projects(id) {
            Ok(_) => Ok(lima_shell(profile)),
            Err(e) => Err(e),
        }
    }

    /// The steps of opening a shell in the container of a project, or why there is none; `sealed`
    /// tells whether the profile cuts it off from the network. They too are had from an opened
    /// session only.
    pub fn container_steps(&self, id: &str, profile: &Option<String>, sealed: bool) -> (r: Result<
        Vec<Step<String>>,
        Failure,
    >)
        ensures
            session::is_checked(self@),
            match r {
                Ok(v) => session::project_fault(id@) is None && steps(v@)
                    == container_shell_steps(compose::opt_text(*profile), sealed),
                Err(e) => session::project_fault(id@) == Some(e@),
            },
    {
        proof {
            use_type_invariant(self);
        }
        match session::refuse_outside_projects(id) {
            Ok(_) => Ok(container_shell(profile, sealed)),
            Err(e) => Err(e),
        }
    }
}

/// Whether a profile is applied before a step.
pub open spec fn applied_before(s: Seq<Step<Seq<char>>>, i: int, profile: Seq<char>) -> bool {
    exists|j: int|
        0 <= j < i && (#[trigger] s[j] matches Step::Apply { profile: p, .. } && p == profile)
}

/// Whether every profile but the base is applied before it is recorded, and the base never is.
pub open spec fn in_order(s: Seq<Step<Seq<char>>>) -> bool {
    &&& forall|i: int|
        0 <= i < s.len() ==> (#[trigger] s[i] matches Step::Record { profile, .. } ==> profile
            == "base"@ || applied_before(s, i, profile))
    &&& forall|i: int|
        0 <= i < s.len() ==> (#[trigger] s[i] matches Step::Apply { profile, .. } ==> profile
            != "base"@)
}

/// A sandbox is recorded to have a profile only after the profile was applied to it, and it has to
/// run before anything else is done; where a lock is taken, that comes first of all.
pub proof fn profiles_are_applied_before_they_are_recorded(
    profile: Seq<char>,
    asked: Option<Seq<char>>,
    golden: bool,
    sealed: bool,
)
    ensures
        in_order(lima_start_steps(profile)),
        in_order(lima_shell_steps(asked)),
        in_order(container_start_steps(profile, golden, sealed)),
        in_order(container_shell_steps(asked, sealed)),
        lima_start_steps(profile)[0] is Lock && lima_start_steps(profile)[1] is BringUp,
        lima_shell_steps(asked)[0] is Lock && lima_shell_steps(asked)[1] is BringUp,
        container_start_steps(profile, golden, sealed)[0] is BringUp,
        container_shell_steps(asked, sealed)[0] is Lock && container_shell_steps(
            asked,
            sealed,
        )[1] is BringUp,
{
    if profile != "base"@ {
        let a = lima_start_steps(profile);
        assert(a[6] matches Step::Apply { profile: p, .. } && p == profile);
        assert(applied_before(a, 7, profile));
        let b = container_start_steps(profile, golden, sealed);
        assert(b[3] matches Step::Apply { profile: p, .. } && p == profile);
        assert(applied_before(b, 4, profile));
    }
    if let Some(q) = asked {
        if q != "base"@ {
            let c = lima_shell_steps(asked);
            assert(c[4] matches Step::Apply { profile: p, .. } && p == q);
            assert(applied_before(c, 5, q));
            let d = container_shell_steps(asked, sealed);
            assert(d[4] matches Step::Apply { profile: p, .. } && p == q);
            assert(applied_before(d, 5, q));
        }
    }
}

/// A profile that cuts a container off from the network does so whenever it is applied to a
/// container that was not baked.
pub proof fn sealing_profiles_seal(profile: Seq<char>)
    requires
        profile != "base"@,
    ensures
        container_start_steps(profile, false, true).contains(
            Step::Apply { profile, provision: true, seal: true },
        ),
        container_shell_steps(Some(profile), true).contains(
            Step::Apply { profile, provision: true, seal: true },
        ),
{
    assert(container_start_steps(profile, false, true)[3] == (Step::Apply {
        profile,
        provision: true,
        seal: true,
    }));
    assert(container_shell_steps(Some(profile), true)[4] == (Step::Apply {
        profile,
        provision: true,
        seal: true,
    }));
}

/// Why the session that a start ends with failed.
pub open spec fn session_fault(profile: Seq<char>, message: Seq<char>) -> Seq<char> {
    if profile == "base"@ {
        "shell session exited with error"@
    } else {
        message
    }
}

/// Why the session that a start ends with failed.
pub fn session_failure(profile: &str, message: String) -> (r: String)
    ensures
        r@ == session_fault(profile@, message@),
{
    if compose::same(profile, "base") {
        "shell session exited with error".to_owned()
    } else {
        message
    }
}

/// A shell that is opened in a container.
pub struct ContainerShell {
    /// Whether it has the terminal.
    pub tty: bool,
    /// The arguments of the container tool.
    pub args: Vec<String>,
    /// The events that a log is given before it is opened.
    pub events: Vec<Json>,
}

/// The shell that is opened in a container, at the times of the two events.
pub fn open_container_shell(
    opened: &Opened,
    id: &str,
    workdir: &str,
    terminal: &TerminalEnv,
    runtime: &Vec<(String, String)>,
    command: &Option<String>,
    times: (i64, i64),
) -> (r: ContainerShell)
    ensures
        r.tty == (opened@.use_tty && !opened@.no_tty),
        compose::texts(r.args@) == session::exec_args(
            r.tty,
            workdir@,
            session::session_pairs(
                *terminal,
                compose::pair_texts(runtime@),
                opened@.explicit,
            ),
            id@,
            session::shell_command(compose::opt_text(*command)),
        ),
        json::views(r.events@) == seq![
            session::start_event(
                times.0,
                id@,
                workdir@,
                r.tty,
                !opened@.no_tty,
                compose::pair_texts(runtime@),
                None,
            ),
            session::exec_event(
                times.1,
                id@,
                compose::texts(r.args@),
                r.tty,
                Some(compose::pair_texts(runtime@)),
            ),
        ],
{
    let tty = opened.tty();
    let envs = session::session_envs(terminal, runtime, opened.explicit());
    let inner = session::container_shell_command(command);
    let args = session::container_exec_args(tty, workdir, &envs, id, &inner);
    let mut events = json::no_values();
    json::push_value(
        &mut events,
        session::session_start(times.0, id, workdir, tty, opened.requires_tty(), runtime, None),
    );
    json::push_value(
        &mut events,
        session::exec_invocation(times.1, id, &args, tty, Some(runtime)),
    );
    ContainerShell { tty, args, events }
}

/// A shell that is opened in a machine.
pub struct LimaShell {
    /// Whether it has the terminal.
    pub tty: bool,
    pub plan: Vec<Stage<String, Vec<String>>>,
    /// The events that a log is given before it is opened.
    pub events: Vec<Json>,
}

/// The script of a shell that is opened in a machine.
pub open spec fn shell_script(
    terminal: TerminalEnv,
    runtime: Seq<(Seq<char>, Seq<char>)>,
    explicit: Seq<(Seq<char>, Seq<char>)>,
    command: Option<Seq<char>>,
) -> Seq<char> {
    session::session_script(session::session_pairs(terminal, runtime, explicit), command)
}

/// The shell that is opened in a machine, at the times of the two events.
pub fn open_lima_shell(
    opened: &Opened,
    id: &str,
    workdir: &str,
    terminal: &TerminalEnv,
    runtime: &Vec<(String, String)>,
    command: &Option<String>,
    times: (i64, i64),
) -> (r: LimaShell)
    ensures
        r.tty == (opened@.use_tty && !opened@.no_tty),
        ({
            let script = shell_script(
                *terminal,
                compose::pair_texts(runtime@),
                opened@.explicit,
                compose::opt_text(*command),
            );
            &&& plan::stages(r.plan@) == session::lima_session(id@, workdir@, script)
            &&& json::views(r.events@) == seq![
                session::start_event(
                    times.0,
                    id@,
                    workdir@,
                    r.tty,
                    !opened@.no_tty,
                    compose::pair_texts(runtime@),
                    None,
                ),
                session::exec_event(
                    times.1,
                    id@,
                    seq!["limactl"@, "shell"@, id@, "--"@, script],
                    r.tty,
                    Some(compose::pair_texts(runtime@)),
                ),
            ]
        }),
{
    let tty = opened.tty();
    let envs = session::session_envs(terminal, runtime, opened.explicit());
    let script = session::build_session_script(&envs, command);
    let argv = session::lima_audit_argv(id, script.as_str());
    let mut events = json::no_values();
    json::push_value(
        &mut events,
        session::session_start(times.0, id, workdir, tty, opened.requires_tty(), runtime, None),
    );
    json::push_value(
        &mut events,
        session::exec_invocation(times.1, id, &argv, tty, Some(runtime)),
    );
    LimaShell { tty, plan: session::run_lima_session(id, workdir, script.as_str()), events }
}

/// How many rows and columns a terminal has, if the system tells.
pub fn terminal_dimensions(told: bool, rows: u16, cols: u16) -> (r: Option<(u16, u16)>)
    ensures
        r == (if told && rows != 0 && cols != 0 {
            Some((rows, cols))
        } else {
            None
        }),
{
    if !told || rows == 0 || cols == 0 {
        None
    } else {
        Some((rows, cols))
    }
}

/// The arguments that give the terminal of a container its size.
pub fn resize_container_pty(id: &str, rows: u16, cols: u16) -> (r: Vec<String>)
    ensures
        compose::texts(r@) == seq![
            "resize"@,
            id@,
            number::decimal(rows as nat),
            number::decimal(cols as nat),
        ],
{
    compose::list4(
        "resize",
        id,
        number::to_decimal(rows as u64).as_str(),
        number::to_decimal(cols as u64).as_str(),
    )
}

/// The settings of the server that sandboxes work with: its port and its engine, as the
/// configuration comes to.
pub fn server_settings(port: Option<u16>, engine: Option<String>) -> (r: (u16, String))
    ensures
        r.0 == config::port_in_force(port),
        r.1@ == (match engine {
            Some(e) => e@,
            None => "llama"@,
        }),
{
    (
        config::server_port(port),
        match engine {
            Some(e) => e,
            None => "llama".to_owned(),
        },
    )
}

/// Whether steps deal with one profile only, apply it at most in one place, and end with what the
/// user waits for.
pub open spec fn is_about(s: Seq<Step<Seq<char>>>, profile: Seq<char>) -> bool {
    &&& forall|i: int|
        0 <= i < s.len() ==> (#[trigger] s[i] matches Step::Apply { profile: p, .. } ==> p
            == profile)
    &&& forall|i: int|
        0 <= i < s.len() ==> (#[trigger] s[i] matches Step::Record { profile: p, .. } ==> p
            == profile)
    &&& forall|i: int| 0 <= i < s.len() ==> (#[trigger] s[i] matches Step::Label(p) ==> p == profile)
    &&& forall|i: int|
        0 <= i < s.len() ==> (#[trigger] s[i] matches Step::Session(p) ==> p == profile && i
            == s.len() - 1)
    &&& forall|i: int| 0 <= i < s.len() ==> (#[trigger] s[i] is Shell ==> i == s.len() - 1)
    &&& forall|i: int, j: int|
        0 <= i < s.len() && 0 <= j < s.len() && #[trigger] s[i] is Apply && #[trigger] s[j] is Apply
            ==> i == j
}

/// Starting a sandbox or opening a shell in it deals with the profile that was asked for and with no
/// other; where nothing was asked for, that is the base. A profile other than the base is applied
/// and recorded, and a shell or a session comes last.
pub proof fn starts_are_about_one_profile(
    profile: Seq<char>,
    asked: Option<Seq<char>>,
    golden: bool,
    sealed: bool,
)
    ensures
        is_about(lima_start_steps(profile), profile),
        is_about(lima_shell_steps(asked), config::or_text(asked, "base"@)),
        is_about(container_start_steps(profile, golden, sealed), profile),
        is_about(container_shell_steps(asked, sealed), config::or_text(asked, "base"@)),
        lima_shell_steps(asked).last() is Shell,
        container_shell_steps(asked, sealed).last() is Shell,
        container_start_steps(profile, golden, sealed).last() == Step::<Seq<char>>::Session(profile),
        profile != "base"@ ==> {
            &&& exists|i: int|
                0 <= i < lima_start_steps(profile).len() && #[trigger] lima_start_steps(profile)[i]
                    is Apply
            &&& exists|i: int|
                0 <= i < lima_start_steps(profile).len() && #[trigger] lima_start_steps(profile)[i]
                    is Record
            &&& exists|i: int|
                0 <= i < container_start_steps(profile, golden, sealed).len()
                    && #[trigger] container_start_steps(profile, golden, sealed)[i] is Record
        },
{
    if profile != "base"@ {
        assert(lima_start_steps(profile)[6] is Apply);
        assert(lima_start_steps(profile)[7] is Record);
        assert(container_start_steps(profile, golden, sealed)[4] is Record);
    }
}

/// A container is provisioned exactly when its image has not been baked, and cut off from the
/// network afterwards only where it was not from its beginning.
pub proof fn baked_containers_are_not_provisioned(
    profile: Seq<char>,
    golden: bool,
    sealed: bool,
    i: int,
)
    requires
        0 <= i < container_start_steps(profile, golden, sealed).len(),
    ensures
        container_start_steps(profile, golden, sealed)[i] matches Step::Apply {
            provision,
            seal,
            ..
        } ==> {
            &&& provision <==> !golden
            &&& seal <==> sealed && !golden
        },
{
}

} // verus!
