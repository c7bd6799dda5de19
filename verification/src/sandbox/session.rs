use crate::failure;
use crate::failure::Failure;
use crate::json;
use crate::json::{Json, JsonView};
use crate::plan;
use crate::plan::{Effect, Output, Reply, Stage, StageView, Want};
use crate::sandbox::{provision, shared, types};
use crate::text::{compose, edge};
use vstd::prelude::*;

verus! {

/// The variables of the terminal that a session inside a sandbox is given. No other variable of
/// the host reaches a session by itself.
pub struct TerminalEnv {
    pub term: Option<String>,
    pub colorterm: Option<String>,
    pub columns: Option<String>,
    pub lines: Option<String>,
}

/// A pair, if the value is there.
pub open spec fn pair_if(key: Seq<char>, value: Option<String>) -> Seq<(Seq<char>, Seq<char>)> {
    match value {
        Some(v) => seq![(key, v@)],
        None => Seq::empty(),
    }
}

impl TerminalEnv {
    /// The variables that are set.
    pub open spec fn pairs(self) -> Seq<(Seq<char>, Seq<char>)> {
        pair_if("TERM"@, self.term) + pair_if("COLORTERM"@, self.colorterm) + pair_if(
            "COLUMNS"@,
            self.columns,
        ) + pair_if("LINES"@, self.lines)
    }
}

fn push_if(v: &mut Vec<(String, String)>, key: &str, value: &Option<String>)
    ensures
        compose::pair_texts(final(v)@) == compose::pair_texts(old(v)@) + pair_if(key@, *value),
{
    let ghost before = compose::pair_texts(v@);
    match value {
        Some(s) => {
            shared::push_env(v, key, s.as_str());
            assert(compose::pair_texts(v@) =~= before + pair_if(key@, *value));
        },
        None => {
            assert(before =~= before + pair_if(key@, *value));
        },
    }
}

fn push_envs(v: &mut Vec<(String, String)>, more: &Vec<(String, String)>)
    ensures
        compose::pair_texts(final(v)@) == compose::pair_texts(old(v)@) + compose::pair_texts(
            more@,
        ),
{
    let ghost before = compose::pair_texts(v@);
    let ghost all = compose::pair_texts(more@);
    let mut i: usize = 0;
    assert(before + all.take(0) =~= before);
    while i < more.len()
        invariant
            i <= more@.len(),
            all == compose::pair_texts(more@),
            compose::pair_texts(v@) == before + all.take(i as int),
        decreases more@.len() - i,
    {
        shared::push_env(v, more[i].0.as_str(), more[i].1.as_str());
        i += 1;
        assert(compose::pair_texts(v@) =~= before + all.take(i as int));
    }
    assert(all.take(i as int) =~= all);
}

/// The variables of a session: those of the terminal, those of the sandbox, and those that the
/// user asks for, in this order.
pub open spec fn session_pairs(
    terminal: TerminalEnv,
    runtime: Seq<(Seq<char>, Seq<char>)>,
    explicit: Seq<(Seq<char>, Seq<char>)>,
) -> Seq<(Seq<char>, Seq<char>)> {
    terminal.pairs() + runtime + explicit
}

/// The variables of a session.
pub fn session_envs(
    terminal: &TerminalEnv,
    runtime: &Vec<(String, String)>,
    explicit: &Vec<(String, String)>,
) -> (r: Vec<(String, String)>)
    ensures
        compose::pair_texts(r@) == session_pairs(
            *terminal,
            compose::pair_texts(runtime@),
            compose::pair_texts(explicit@),
        ),
{
    let mut v = shared::no_envs();
    push_if(&mut v, "TERM", &terminal.term);
    push_if(&mut v, "COLORTERM", &terminal.colorterm);
    push_if(&mut v, "COLUMNS", &terminal.columns);
    push_if(&mut v, "LINES", &terminal.lines);
    assert(compose::pair_texts(v@) =~= terminal.pairs());
    push_envs(&mut v, runtime);
    push_envs(&mut v, explicit);
    v
}

/// Every variable of a session is one of the terminal's four, one of the sandbox's, or one that
/// the user asked for: what else is in the environment of the host stays there.
pub proof fn host_variables_stay_outside(
    terminal: TerminalEnv,
    runtime: Seq<(Seq<char>, Seq<char>)>,
    explicit: Seq<(Seq<char>, Seq<char>)>,
    i: int,
)
    requires
        0 <= i < session_pairs(terminal, runtime, explicit).len(),
    ensures
        ({
            let p = session_pairs(terminal, runtime, explicit)[i];
            ||| p.0 == "TERM"@
            ||| p.0 == "COLORTERM"@
            ||| p.0 == "COLUMNS"@
            ||| p.0 == "LINES"@
            ||| runtime.contains(p)
            ||| explicit.contains(p)
        }),
{
    let all = session_pairs(terminal, runtime, explicit);
    let own = terminal.pairs();
    if i >= own.len() {
        let j = i - own.len();
        if j < runtime.len() {
            assert(all[i] == runtime[j]);
        } else {
            assert(all[i] == explicit[j - runtime.len()]);
        }
    } else {
        assert(all[i] == own[i]);
    }
}

proof fn lemma_last_of_both(
    a: Seq<(Seq<char>, Seq<char>)>,
    b: Seq<(Seq<char>, Seq<char>)>,
    key: Seq<char>,
)
    ensures
        shared::last_value(a + b, key) == (match shared::last_value(b, key) {
            Some(v) => Some(v),
            None => shared::last_value(a, key),
        }),
    decreases b.len(),
{
    if b.len() == 0 {
        assert(a + b =~= a);
    } else {
        assert((a + b).drop_last() =~= a + b.drop_last());
        lemma_last_of_both(a, b.drop_last(), key);
    }
}

/// The user has the last word on what a variable holds in a session, then the sandbox, then the
/// terminal.
pub proof fn users_have_the_last_word(
    terminal: TerminalEnv,
    runtime: Seq<(Seq<char>, Seq<char>)>,
    explicit: Seq<(Seq<char>, Seq<char>)>,
    key: Seq<char>,
)
    ensures
        shared::last_value(session_pairs(terminal, runtime, explicit), key) == (
        match shared::last_value(explicit, key) {
            Some(v) => Some(v),
            None => match shared::last_value(runtime, key) {
                Some(v) => Some(v),
                None => shared::last_value(terminal.pairs(), key),
            },
        }),
{
    lemma_last_of_both(terminal.pairs() + runtime, explicit, key);
    lemma_last_of_both(terminal.pairs(), runtime, key);
}

/// A session is told where inference is, which model answers there and what runs it, unless the
/// user asks for other values.
pub proof fn sessions_are_told_of_inference(
    terminal: TerminalEnv,
    gateway: Seq<char>,
    port: u16,
    engine: Seq<char>,
    model: Seq<char>,
    explicit: Seq<(Seq<char>, Seq<char>)>,
)
    ensures
        ({
            let envs = session_pairs(
                terminal,
                provision::runtime_pairs(gateway, port, engine, model),
                explicit,
            );
            &&& shared::last_value(explicit, "TNK_INFERENCE_URL"@) is None ==> shared::last_value(
                envs,
                "TNK_INFERENCE_URL"@,
            ) == Some(provision::inference_url(gateway, port))
            &&& shared::last_value(explicit, "TNK_MODEL_NAME"@) is None ==> shared::last_value(
                envs,
                "TNK_MODEL_NAME"@,
            ) == Some(model)
            &&& shared::last_value(explicit, "TNK_ENGINE_RUNTIME"@) is None ==> shared::last_value(
                envs,
                "TNK_ENGINE_RUNTIME"@,
            ) == Some(engine)
        }),
{
    let runtime = provision::runtime_pairs(gateway, port, engine, model);
    users_have_the_last_word(terminal, runtime, explicit, "TNK_INFERENCE_URL"@);
    users_have_the_last_word(terminal, runtime, explicit, "TNK_MODEL_NAME"@);
    users_have_the_last_word(terminal, runtime, explicit, "TNK_ENGINE_RUNTIME"@);
    reveal_strlit("TNK_INFERENCE_URL");
    reveal_strlit("TNK_OPENAI_URL");
    reveal_strlit("TNK_MCP_BRIDGE_URL");
    reveal_strlit("TNK_SEARXNG_URL");
    reveal_strlit("TNK_MODEL_NAME");
    reveal_strlit("TNK_ENGINE_RUNTIME");
    reveal_with_fuel(shared::last_value, 7);
    assert("TNK_INFERENCE_URL"@.len() == 17 && "TNK_MODEL_NAME"@.len() == 14);
}

/// The commands of a shell that set variables.
pub open spec fn exports(envs: Seq<(Seq<char>, Seq<char>)>) -> Seq<Seq<char>> {
    envs.map_values(
        |p: (Seq<char>, Seq<char>)| "export "@ + p.0 + "="@ + types::escaped(p.1),
    )
}

/// The script of a session: the variables are set, then the command or a login shell takes over.
pub open spec fn session_script(
    envs: Seq<(Seq<char>, Seq<char>)>,
    command: Option<Seq<char>>,
) -> Seq<char> {
    compose::joined(
        exports(envs).push(
            match command {
                Some(c) => "exec bash -lc "@ + types::escaped(c),
                None => "exec bash -l"@,
            },
        ),
        "; "@,
    )
}

/// The script of a session.
pub fn build_session_script(envs: &Vec<(String, String)>, command: &Option<String>) -> (r: String)
    ensures
        r@ == session_script(compose::pair_texts(envs@), compose::opt_text(*command)),
{
    let ghost all = exports(compose::pair_texts(envs@));
    let mut v = compose::no_texts();
    let mut i: usize = 0;
    assert(all.take(0) =~= Seq::<Seq<char>>::empty());
    while i < envs.len()
        invariant
            i <= envs@.len(),
            all == exports(compose::pair_texts(envs@)),
            compose::texts(v@) == all.take(i as int),
        decreases envs@.len() - i,
    {
        let quoted = types::shell_escape(envs[i].1.as_str());
        let part = compose::concat4("export ", envs[i].0.as_str(), "=", quoted.as_str());
        compose::push_string(&mut v, part);
        assert(compose::pair_texts(envs@)[i as int] == (envs@[i as int].0@, envs@[i as int].1@));
        i += 1;
        assert(compose::texts(v@) =~= all.take(i as int));
    }
    assert(all.take(i as int) =~= all);
    match command {
        Some(c) => {
            let quoted = types::shell_escape(c.as_str());
            compose::push_string(&mut v, compose::concat("exec bash -lc ", quoted.as_str()));
        },
        None => {
            compose::push_text(&mut v, "exec bash -l");
        },
    }
    compose::join(&v, "; ")
}

/// Why a session cannot be opened: a terminal is needed unless it was given up on.
pub open spec fn tty_fault(no_tty: bool, use_tty: bool) -> Option<Seq<char>> {
    if !no_tty && !use_tty {
        Some("interactive TTY is required; use --no-tty for non-interactive commands"@)
    } else {
        None
    }
}

/// Why a session cannot be opened: there is no terminal where one is needed, or one of the texts
/// that ask for variables cannot be read. The first such text decides.
pub open spec fn session_fault(
    no_tty: bool,
    use_tty: bool,
    inputs: Seq<Seq<char>>,
) -> Option<Seq<char>> {
    match tty_fault(no_tty, use_tty) {
        Some(m) => Some(m),
        None => match shared::explicit_envs(inputs) {
            Ok(_) => None,
            Err(m) => Some(m),
        },
    }
}

/// A session that can be opened, as mathematical values: whether a terminal was given up on,
/// whether there is one, and the variables that the user asks for.
pub struct SessionView {
    pub no_tty: bool,
    pub use_tty: bool,
    pub explicit: Seq<(Seq<char>, Seq<char>)>,
}

/// Whether a session has stood the checks that come before everything else.
pub open spec fn is_checked(v: SessionView) -> bool {
    &&& tty_fault(v.no_tty, v.use_tty) is None
    &&& exists|inputs: Seq<Seq<char>>| #[trigger] shared::explicit_envs(inputs) == Ok::<
        Seq<(Seq<char>, Seq<char>)>,
        Seq<char>,
    >(v.explicit)
}

/// A session that can be opened. It is had from `open_session` only, so that whoever has one knows
/// that the checks have been made; what a shell needs is had from it.
pub struct Opened {
    no_tty: bool,
    use_tty: bool,
    explicit: Vec<(String, String)>,
}

impl View for Opened {
    type V = SessionView;

    closed spec fn view(&self) -> SessionView {
        SessionView {
            no_tty: self.no_tty,
            use_tty: self.use_tty,
            explicit: compose::pair_texts(self.explicit@),
        }
    }
}

impl Opened {
    /// Every such session has stood the checks.
    #[verifier::type_invariant]
    pub open spec fn stood(self) -> bool {
        is_checked(self@)
    }

    /// Whether the session has the terminal.
    pub fn tty(&self) -> (r: bool)
        ensures
            is_checked(self@),
            r == (self@.use_tty && !self@.no_tty),
    {
        proof {
            use_type_invariant(self);
        }
        self.use_tty && !self.no_tty
    }

    /// Whether the session was to have a terminal.
    pub fn requires_tty(&self) -> (r: bool)
        ensures
            r == !self@.no_tty,
    {
        !self.no_tty
    }

    /// The variables that the user asks for.
    pub fn explicit(&self) -> (r: &Vec<(String, String)>)
        ensures
            compose::pair_texts(r@) == self@.explicit,
    {
        &self.explicit
    }
}

/// Opens a session, or tells why it cannot be opened.
pub fn open_session(no_tty: bool, use_tty: bool, explicit: &Vec<String>) -> (r: Result<
    Opened,
    Failure,
>)
    ensures
        match r {
            Ok(o) => {
                &&& tty_fault(no_tty, use_tty) is None
                &&& o@.no_tty == no_tty
                &&& o@.use_tty == use_tty
                &&& shared::explicit_envs(compose::texts(explicit@)) == Ok::<
                    Seq<(Seq<char>, Seq<char>)>,
                    Seq<char>,
                >(o@.explicit)
            },
            Err(e) => session_fault(no_tty, use_tty, compose::texts(explicit@)) == Some(e@),
        },
{
    if !no_tty && !use_tty {
        return Err(
            failure::failure(
                "interactive TTY is required; use --no-tty for non-interactive commands",
            ),
        );
    }
    match shared::parse_explicit_envs(explicit) {
        Ok(v) => Ok(Opened { no_tty, use_tty, explicit: v }),
        Err(e) => Err(e),
    }
}

/// A text that cannot be read ends a session that has the terminal it needs, and the first such
/// text is the one that is told.
pub proof fn bad_texts_end_sessions(
    no_tty: bool,
    use_tty: bool,
    inputs: Seq<Seq<char>>,
    i: int,
    message: Seq<char>,
)
    requires
        tty_fault(no_tty, use_tty) is None,
        0 <= i < inputs.len(),
        shared::explicit_env(inputs[i]) == Err::<(Seq<char>, Seq<char>), Seq<char>>(message),
        forall|j: int| 0 <= j < i ==> (#[trigger] shared::explicit_env(inputs[j])) is Ok,
    ensures
        session_fault(no_tty, use_tty, inputs) == Some(message),
{
    shared::first_bad_text_decides(inputs, i);
}

/// Why there is no session in a sandbox: it is not that of a project.
pub open spec fn project_fault(id: Seq<char>) -> Option<Seq<char>> {
    if id == "tnk-config"@ {
        Some("sandbox shell is only available inside a project directory"@)
    } else {
        None
    }
}

/// Refuses sessions outside of projects.
pub fn refuse_outside_projects(id: &str) -> (r: Result<(), Failure>)
    ensures
        types::fault(r) == project_fault(id@),
{
    if compose::same(id, "tnk-config") {
        Err(failure::failure("sandbox shell is only available inside a project directory"))
    } else {
        Ok(())
    }
}

/// A whole number in JSON.
pub open spec fn whole(n: int) -> JsonView {
    if n < 0 {
        JsonView::Negative(n as i64)
    } else {
        JsonView::Unsigned(n as u64)
    }
}

/// A whole number in JSON.
pub fn whole_number(n: i64) -> (r: Json)
    ensures
        r@ == whole(n as int),
{
    if n < 0 {
        Json::Negative(n)
    } else {
        Json::Unsigned(n as u64)
    }
}

/// The event that begins a session in a log.
pub open spec fn start_event(
    now: i64,
    id: Seq<char>,
    workdir: Seq<char>,
    tty: bool,
    requires_tty: bool,
    runtime: Seq<(Seq<char>, Seq<char>)>,
    target: Option<Seq<Seq<char>>>,
) -> JsonView {
    let common = seq![
        ("event"@, JsonView::Text("session_start"@)),
        ("ts"@, whole(now as int)),
        ("container_id"@, JsonView::Text(id)),
        ("workdir"@, JsonView::Text(workdir)),
        ("tty"@, JsonView::Bool(tty)),
        ("requires_tty"@, JsonView::Bool(requires_tty)),
        ("runtime_env"@, shared::env_summary(runtime)),
    ];
    JsonView::Object(
        match target {
            Some(t) => common.push(("target_args"@, json::text_views(t))),
            None => common,
        },
    )
}

/// The texts of an optional list.
pub open spec fn opt_texts(o: Option<&Vec<String>>) -> Option<Seq<Seq<char>>> {
    match o {
        Some(v) => Some(compose::texts(v@)),
        None => None,
    }
}

/// The event that begins a session in a log.
pub fn session_start(
    now: i64,
    id: &str,
    workdir: &str,
    tty: bool,
    requires_tty: bool,
    runtime: &Vec<(String, String)>,
    target: Option<&Vec<String>>,
) -> (r: Json)
    ensures
        r@ == start_event(
            now,
            id@,
            workdir@,
            tty,
            requires_tty,
            compose::pair_texts(runtime@),
            opt_texts(target),
        ),
{
    let mut v = json::no_pairs();
    json::push_pair(&mut v, "event", json::text_value("session_start"));
    json::push_pair(&mut v, "ts", whole_number(now));
    json::push_pair(&mut v, "container_id", json::text_value(id));
    json::push_pair(&mut v, "workdir", json::text_value(workdir));
    json::push_pair(&mut v, "tty", Json::Bool(tty));
    json::push_pair(&mut v, "requires_tty", Json::Bool(requires_tty));
    json::push_pair(&mut v, "runtime_env", shared::runtime_env_summary(runtime));
    match target {
        Some(t) => json::push_pair(&mut v, "target_args", json::text_array(t)),
        None => {},
    }
    assert(json::pair_views(v@) =~= start_event(
        now,
        id@,
        workdir@,
        tty,
        requires_tty,
        compose::pair_texts(runtime@),
        opt_texts(target),
    )->Object_0);
    json::object(v)
}

/// The event that tells what is run in a session.
pub open spec fn exec_event(
    now: i64,
    id: Seq<char>,
    argv: Seq<Seq<char>>,
    tty: bool,
    runtime: Option<Seq<(Seq<char>, Seq<char>)>>,
) -> JsonView {
    let common = seq![
        ("event"@, JsonView::Text("exec_invocation"@)),
        ("ts"@, whole(now as int)),
        ("container_id"@, JsonView::Text(id)),
        ("argv"@, json::text_views(argv)),
        ("tty"@, JsonView::Bool(tty)),
    ];
    JsonView::Object(
        match runtime {
            Some(e) => common.push(("runtime_env"@, shared::env_summary(e))),
            None => common,
        },
    )
}

/// The pairs of an optional list.
pub open spec fn opt_pairs(o: Option<&Vec<(String, String)>>) -> Option<
    Seq<(Seq<char>, Seq<char>)>,
> {
    match o {
        Some(v) => Some(compose::pair_texts(v@)),
        None => None,
    }
}

/// The event that tells what is run in a session.
pub fn exec_invocation(
    now: i64,
    id: &str,
    argv: &Vec<String>,
    tty: bool,
    runtime: Option<&Vec<(String, String)>>,
) -> (r: Json)
    ensures
        r@ == exec_event(now, id@, compose::texts(argv@), tty, opt_pairs(runtime)),
{
    let mut v = json::no_pairs();
    json::push_pair(&mut v, "event", json::text_value("exec_invocation"));
    json::push_pair(&mut v, "ts", whole_number(now));
    json::push_pair(&mut v, "container_id", json::text_value(id));
    json::push_pair(&mut v, "argv", json::text_array(argv));
    json::push_pair(&mut v, "tty", Json::Bool(tty));
    match runtime {
        Some(e) => json::push_pair(&mut v, "runtime_env", shared::runtime_env_summary(e)),
        None => {},
    }
    assert(json::pair_views(v@) =~= exec_event(
        now,
        id@,
        compose::texts(argv@),
        tty,
        opt_pairs(runtime),
    )->Object_0);
    json::object(v)
}

/// The event that ends a session in a log.
pub open spec fn exit_event(
    now: i64,
    id: Seq<char>,
    code: Option<i32>,
    duration_ms: Option<u64>,
) -> JsonView {
    let common = seq![
        ("event"@, JsonView::Text("session_exit"@)),
        ("ts"@, whole(now as int)),
        ("container_id"@, JsonView::Text(id)),
        ("exit_code"@, match code {
            Some(c) => whole(c as int),
            None => JsonView::Null,
        }),
    ];
    JsonView::Object(
        match duration_ms {
            Some(n) => common.push(("duration_ms"@, JsonView::Unsigned(n))),
            None => common,
        },
    )
}

/// The event that ends a session in a log.
pub fn session_exit(now: i64, id: &str, code: Option<i32>, duration_ms: Option<u64>) -> (r: Json)
    ensures
        r@ == exit_event(now, id@, code, duration_ms),
{
    let mut v = json::no_pairs();
    json::push_pair(&mut v, "event", json::text_value("session_exit"));
    json::push_pair(&mut v, "ts", whole_number(now));
    json::push_pair(&mut v, "container_id", json::text_value(id));
    let exit = match code {
        Some(c) => whole_number(c as i64),
        None => Json::Null,
    };
    json::push_pair(&mut v, "exit_code", exit);
    match duration_ms {
        Some(n) => json::push_pair(&mut v, "duration_ms", Json::Unsigned(n)),
        None => {},
    }
    assert(json::pair_views(v@) =~= exit_event(now, id@, code, duration_ms)->Object_0);
    json::object(v)
}

/// The arguments that open a session in a machine.
pub open spec fn lima_args(
    id: Seq<char>,
    workdir: Seq<char>,
    script: Seq<char>,
) -> Seq<Seq<char>> {
    seq!["shell"@, "--workdir"@, workdir, id, "bash"@, "-lc"@, script]
}

/// What a log tells of how a session in a machine is opened.
pub fn lima_audit_argv(id: &str, script: &str) -> (r: Vec<String>)
    ensures
        compose::texts(r@) == seq!["limactl"@, "shell"@, id@, "--"@, script@],
{
    compose::list5("limactl", "shell", id, "--", script)
}

/// The plan of a session in a machine.
pub open spec fn lima_session(id: Seq<char>, workdir: Seq<char>, script: Seq<char>) -> Seq<
    StageView,
> {
    seq![
        plan::stage_of(
            plan::running("limactl"@, lima_args(id, workdir, script), plan::UNLIMITED, Output::Shown),
        ).when_bad(Effect::StopCode("sandbox shell exited with code "@)),
    ]
}

/// The plan of a session in a machine: it succeeds if the session ends with success.
pub fn run_lima_session(id: &str, workdir: &str, script: &str) -> (r: Vec<
    Stage<String, Vec<String>>,
>)
    ensures
        plan::stages(r@) == lima_session(id@, workdir@, script@),
{
    let args = compose::list7("shell", "--workdir", workdir, id, "bash", "-lc", script);
    let mut v = plan::no_stages();
    plan::push_stage(
        &mut v,
        plan::stage(plan::run_task("limactl", args, plan::UNLIMITED, Output::Shown)).on_bad(
            Effect::StopCode("sandbox shell exited with code ".to_owned()),
        ),
    );
    v
}

/// The arguments that hand variables to the container tool.
pub open spec fn env_args(envs: Seq<(Seq<char>, Seq<char>)>) -> Seq<Seq<char>>
    decreases envs.len(),
{
    if envs.len() == 0 {
        Seq::empty()
    } else {
        env_args(envs.drop_last()).push("--env"@).push(
            envs.last().0 + "="@ + envs.last().1,
        )
    }
}

/// Adds the arguments that hand variables to the container tool.
pub fn push_env_args(v: &mut Vec<String>, envs: &Vec<(String, String)>)
    ensures
        compose::texts(final(v)@) == compose::texts(old(v)@) + env_args(
            compose::pair_texts(envs@),
        ),
{
    let ghost before = compose::texts(v@);
    let ghost all = compose::pair_texts(envs@);
    let mut i: usize = 0;
    assert(before + env_args(all.take(0)) =~= before);
    while i < envs.len()
        invariant
            i <= envs@.len(),
            all == compose::pair_texts(envs@),
            compose::texts(v@) == before + env_args(all.take(i as int)),
        decreases envs@.len() - i,
    {
        let ghost now = compose::texts(v@);
        assert(all.take(i + 1).drop_last() =~= all.take(i as int));
        assert(all.take(i + 1).last() == (envs@[i as int].0@, envs@[i as int].1@));
        compose::push_text(v, "--env");
        compose::push_string(
            v,
            compose::concat3(envs[i].0.as_str(), "=", envs[i].1.as_str()),
        );
        i += 1;
        assert(compose::texts(v@) =~= before + env_args(all.take(i as int)));
    }
    assert(all.take(i as int) =~= all);
}

/// The arguments with which the container tool runs a command in a container.
pub open spec fn exec_args(
    tty: bool,
    workdir: Seq<char>,
    envs: Seq<(Seq<char>, Seq<char>)>,
    id: Seq<char>,
    command: Seq<Seq<char>>,
) -> Seq<Seq<char>> {
    (if tty {
        seq!["exec"@, "--interactive"@, "--tty"@]
    } else {
        seq!["exec"@]
    }) + seq!["--workdir"@, workdir, "--user"@, "tnk"@] + env_args(envs) + seq![id] + command
}

/// The arguments with which the container tool runs a command in a container.
pub fn container_exec_args(
    tty: bool,
    workdir: &str,
    envs: &Vec<(String, String)>,
    id: &str,
    command: &Vec<String>,
) -> (r: Vec<String>)
    ensures
        compose::texts(r@) == exec_args(
            tty,
            workdir@,
            compose::pair_texts(envs@),
            id@,
            compose::texts(command@),
        ),
{
    let mut v = if tty {
        compose::list3("exec", "--interactive", "--tty")
    } else {
        compose::list1("exec")
    };
    compose::push_all(&mut v, &compose::list4("--workdir", workdir, "--user", "tnk"));
    push_env_args(&mut v, envs);
    compose::push_all(&mut v, &compose::list1(id));
    compose::push_all(&mut v, command);
    v
}

/// The command that a session in a container runs.
pub open spec fn shell_command(command: Option<Seq<char>>) -> Seq<Seq<char>> {
    match command {
        Some(c) => seq!["bash"@, "-lc"@, c],
        None => seq!["bash"@, "-l"@],
    }
}

/// The command that a session in a container runs.
pub fn container_shell_command(command: &Option<String>) -> (r: Vec<String>)
    ensures
        compose::texts(r@) == shell_command(compose::opt_text(*command)),
{
    match command {
        Some(c) => compose::list3("bash", "-lc", c.as_str()),
        None => compose::list2("bash", "-l"),
    }
}

/// The exit code of a program that hands on that of a session: none for a session that ended
/// with success.
pub fn session_exit_code(ok: bool, code: Option<i32>) -> (r: Option<i32>)
    ensures
        r == (if ok {
            None
        } else {
            match code {
                Some(c) => Some(c),
                None => Some(1i32),
            }
        }),
{
    if ok {
        None
    } else {
        match code {
            Some(c) => Some(c),
            None => Some(1),
        }
    }
}

/// The plan of a profile's session in a container: when a session with a terminal cannot even be
/// launched, it is tried once more without one, unless the profile needs a terminal.
pub open spec fn container_session(
    id: Seq<char>,
    workdir: Seq<char>,
    envs: Seq<(Seq<char>, Seq<char>)>,
    target: Seq<Seq<char>>,
    use_tty: bool,
    requires_tty: bool,
) -> Seq<StageView> {
    let attempt = |tty: bool|
        plan::stage_of(
            plan::running(
                "container"@,
                exec_args(tty, workdir, envs, id, target),
                plan::UNLIMITED,
                Output::Shown,
            ),
        ).when_bad(Effect::Stop("application session exited with error"@));
    if use_tty && !requires_tty {
        seq![
            attempt(true).when_good(Effect::Go(1)).when_broken(
                plan::warning(
                    "interactive TTY launch failed; retrying without TTY"@,
                    0,
                ),
            ),
            attempt(false),
        ]
    } else {
        seq![attempt(use_tty)]
    }
}

fn attempt(
    tty: bool,
    id: &str,
    workdir: &str,
    envs: &Vec<(String, String)>,
    target: &Vec<String>,
) -> (r: Stage<String, Vec<String>>)
    ensures
        r@ == plan::stage_of(
            plan::running(
                "container"@,
                exec_args(
                    tty,
                    workdir@,
                    compose::pair_texts(envs@),
                    id@,
                    compose::texts(target@),
                ),
                plan::UNLIMITED,
                Output::Shown,
            ),
        ).when_bad(Effect::Stop("application session exited with error"@)),
{
    let args = container_exec_args(tty, workdir, envs, id, target);
    plan::stage(plan::run_task("container", args, plan::UNLIMITED, Output::Shown)).on_bad(
        plan::stops("application session exited with error"),
    )
}

/// The plan of a profile's session in a container, or why there is none.
pub fn run_container_session(
    id: &str,
    guest_workdir: &str,
    injected_envs: &Vec<(String, String)>,
    target_args: &Vec<String>,
    use_tty: bool,
    requires_tty: bool,
) -> (r: Result<Vec<Stage<String, Vec<String>>>, Failure>)
    ensures
        types::fault(r) == (if requires_tty && !use_tty {
            Some("interactive TTY is required for this profile; run from a local terminal"@)
        } else {
            None
        }),
        r matches Ok(v) ==> plan::stages(v@) == container_session(
            id@,
            guest_workdir@,
            compose::pair_texts(injected_envs@),
            compose::texts(target_args@),
            use_tty,
            requires_tty,
        ),
{
    if requires_tty && !use_tty {
        return Err(
            failure::failure(
                "interactive TTY is required for this profile; run from a local terminal",
            ),
        );
    }
    let mut v = plan::no_stages();
    if use_tty && !requires_tty {
        plan::push_stage(
            &mut v,
            attempt(true, id, guest_workdir, injected_envs, target_args).on_good(
                Effect::Go(1),
            ).on_broken(
                plan::warns("interactive TTY launch failed; retrying without TTY", 0),
            ),
        );
        plan::push_stage(&mut v, attempt(false, id, guest_workdir, injected_envs, target_args));
    } else {
        plan::push_stage(&mut v, attempt(use_tty, id, guest_workdir, injected_envs, target_args));
    }
    Ok(v)
}

/// A second attempt is made only if the first one could not be launched: a session that was
/// opened is never opened again.
pub proof fn sessions_are_not_repeated(
    id: Seq<char>,
    workdir: Seq<char>,
    envs: Seq<(Seq<char>, Seq<char>)>,
    target: Seq<Seq<char>>,
    use_tty: bool,
    requires_tty: bool,
    reply: Reply,
)
    requires
        !(reply is Broken),
    ensures
        ({
            let p = container_session(id, workdir, envs, target, use_tty, requires_tty);
            plan::finished(p, plan::run(p, plan::beginning(), seq![reply]))
        }),
{
    let p = container_session(id, workdir, envs, target, use_tty, requires_tty);
    let replies = seq![reply];
    assert(replies.drop_last() =~= Seq::<Reply>::empty());
    assert(plan::run(p, plan::beginning(), Seq::<Reply>::empty()) == plan::beginning());
    let s = plan::run(p, plan::beginning(), replies);
    assert(s == plan::after(p, plan::beginning(), reply));
    reveal_with_fuel(plan::upcoming, 3);
}

/// Whether the names of some variables can be told from their values.
pub open spec fn are_named(envs: Seq<(Seq<char>, Seq<char>)>) -> bool {
    forall|i: int| 0 <= i < envs.len() ==> !(#[trigger] envs[i]).0.contains('=')
}

/// The variables that the script of a session sets, and the command that takes over; nothing for a
/// login shell. A script of another form is not read.
pub open spec fn script_reads(s: Seq<char>) -> Option<
    (Seq<(Seq<char>, Seq<char>)>, Option<Seq<char>>),
>
    decreases s.len(),
{
    match edge::after_prefix(s, "export "@) {
        Some(t) => match edge::cut(t, '=') {
            None => None,
            Some(c) => match types::word_reads(c.1, false) {
                None => None,
                Some(w) => match edge::after_prefix(w.1, "; "@) {
                    None => None,
                    Some(rest) => if rest.len() >= s.len() {
                        None
                    } else {
                        match script_reads(rest) {
                            None => None,
                            Some(more) => Some((seq![(c.0, w.0)] + more.0, more.1)),
                        }
                    },
                },
            },
        },
        None => if s == "exec bash -l"@ {
            Some((Seq::empty(), None))
        } else {
            match edge::after_prefix(s, "exec bash -lc "@) {
                None => None,
                Some(t) => match types::word_reads(t, false) {
                    None => None,
                    Some(w) => if w.1.len() == 0 {
                        Some((Seq::empty(), Some(w.0)))
                    } else {
                        None
                    },
                },
            }
        },
    }
}

/// The last part of the script of a session.
spec fn takeover(command: Option<Seq<char>>) -> Seq<char> {
    match command {
        Some(c) => "exec bash -lc "@ + types::escaped(c),
        None => "exec bash -l"@,
    }
}

proof fn lemma_takeover_reads(command: Option<Seq<char>>)
    ensures
        script_reads(takeover(command)) == Some(
            (Seq::<(Seq<char>, Seq<char>)>::empty(), command),
        ),
{
    let s = takeover(command);
    reveal_strlit("export ");
    reveal_strlit("exec bash -l");
    reveal_strlit("exec bash -lc ");
    assert(s[2] == 'e');
    assert(!edge::begins(s, "export "@)) by {
        if edge::begins(s, "export "@) {
            assert(s.subrange(0, 7)[2] == s[2]);
        }
    }
    if let Some(c) = command {
        let first = "exec bash -lc "@;
        assert(s.subrange(0, 14) =~= first);
        assert(s.skip(14) =~= types::escaped(c) + Seq::<char>::empty());
        types::escaped_words_are_read(c, Seq::empty());
        assert(s.len() > 12);
    }
}

/// The script of a session sets exactly the variables of the session, in their order and with their
/// values, and then the command takes over, or a login shell where there is none.
pub proof fn session_scripts_are_faithful(
    envs: Seq<(Seq<char>, Seq<char>)>,
    command: Option<Seq<char>>,
)
    requires
        are_named(envs),
    ensures
        script_reads(session_script(envs, command)) == Some((envs, command)),
    decreases envs.len(),
{
    let all = exports(envs).push(takeover(command));
    let s = session_script(envs, command);
    assert(s == compose::joined(all, "; "@));
    if envs.len() == 0 {
        assert(all =~= seq![takeover(command)]);
        assert(envs =~= Seq::<(Seq<char>, Seq<char>)>::empty());
        lemma_takeover_reads(command);
    } else {
        let tail = envs.skip(1);
        assert(are_named(tail)) by {
            assert forall|i: int| 0 <= i < tail.len() implies !(#[trigger] tail[i]).0.contains(
                '=',
            ) by {
                assert(tail[i] == envs[i + 1]);
            }
        }
        session_scripts_are_faithful(tail, command);
        let more = session_script(tail, command);
        assert(all.skip(1) =~= exports(tail).push(takeover(command)));
        compose::joining_begins_with_the_first(all, "; "@);
        let name = envs[0].0;
        let value = envs[0].1;
        assert(!envs[0].0.contains('='));
        assert(all[0] == "export "@ + name + "="@ + types::escaped(value));
        reveal_strlit("export ");
        reveal_strlit("=");
        reveal_strlit("; ");
        let rest = "; "@ + more;
        assert(s =~= all[0] + rest);
        assert(s.subrange(0, 7) =~= "export "@);
        let t = s.skip(7);
        let word = types::escaped(value) + rest;
        assert(t =~= name.push('=') + word);
        edge::lemma_first_at(t, '=');
        let at = edge::first_at(t, '=');
        assert(t[name.len() as int] == '=');
        assert(t.contains('='));
        assert(at == name.len()) by {
            if at < name.len() {
                assert(t[at] == name[at]);
                assert(name.contains('='));
            }
        }
        assert(t.take(at) =~= name);
        assert(t.skip(at + 1) =~= word);
        types::escaped_words_are_read(value, rest);
        assert(rest.subrange(0, 2) =~= "; "@);
        assert(rest.skip(2) =~= more);
        assert(envs =~= seq![envs[0]] + tail);
    }
}

/// The variables that leading arguments hand to the container tool, and the rest of the arguments.
pub open spec fn envs_read(args: Seq<Seq<char>>) -> (Seq<(Seq<char>, Seq<char>)>, Seq<Seq<char>>)
    decreases args.len(),
{
    if args.len() >= 2 && args[0] == "--env"@ && edge::cut(args[1], '=') is Some {
        let more = envs_read(args.skip(2));
        (seq![edge::cut(args[1], '=')->0] + more.0, more.1)
    } else {
        (Seq::empty(), args)
    }
}

proof fn lemma_env_args_front(envs: Seq<(Seq<char>, Seq<char>)>)
    requires
        envs.len() > 0,
    ensures
        env_args(envs) == seq!["--env"@, envs[0].0 + "="@ + envs[0].1] + env_args(envs.skip(1)),
    decreases envs.len(),
{
    let first = seq!["--env"@, envs[0].0 + "="@ + envs[0].1];
    if envs.len() == 1 {
        assert(envs.drop_last() =~= Seq::<(Seq<char>, Seq<char>)>::empty());
        assert(envs.skip(1) =~= Seq::<(Seq<char>, Seq<char>)>::empty());
        assert(env_args(envs) =~= first + env_args(envs.skip(1)));
    } else {
        lemma_env_args_front(envs.drop_last());
        assert(envs.drop_last().skip(1) =~= envs.skip(1).drop_last());
        assert(env_args(envs) =~= first + env_args(envs.skip(1)));
    }
}

/// The arguments that hand variables to the container tool say which variables they are, in their
/// order and with their values.
pub proof fn env_args_are_faithful(envs: Seq<(Seq<char>, Seq<char>)>, rest: Seq<Seq<char>>)
    requires
        are_named(envs),
        rest.len() > 0 ==> rest[0] != "--env"@,
    ensures
        envs_read(env_args(envs) + rest) == (envs, rest),
    decreases envs.len(),
{
    let args = env_args(envs) + rest;
    if envs.len() == 0 {
        assert(args =~= rest);
        assert(envs =~= Seq::<(Seq<char>, Seq<char>)>::empty());
    } else {
        let tail = envs.skip(1);
        assert(are_named(tail)) by {
            assert forall|i: int| 0 <= i < tail.len() implies !(#[trigger] tail[i]).0.contains(
                '=',
            ) by {
                assert(tail[i] == envs[i + 1]);
            }
        }
        lemma_env_args_front(envs);
        env_args_are_faithful(tail, rest);
        assert(args.skip(2) =~= env_args(tail) + rest);
        let name = envs[0].0;
        let t = args[1];
        reveal_strlit("=");
        assert(t =~= name.push('=') + envs[0].1);
        assert(!envs[0].0.contains('='));
        edge::lemma_first_at(t, '=');
        let at = edge::first_at(t, '=');
        assert(t[name.len() as int] == '=');
        assert(t.contains('='));
        assert(at == name.len()) by {
            if at < name.len() {
                assert(t[at] == name[at]);
                assert(name.contains('='));
            }
        }
        assert(t.take(at) =~= name);
        assert(t.skip(at + 1) =~= envs[0].1);
        assert(envs =~= seq![envs[0]] + tail);
    }
}

/// What the container tool is told to run, as mathematical values.
pub struct Invocation {
    pub tty: bool,
    pub workdir: Seq<char>,
    pub user: Seq<char>,
    pub envs: Seq<(Seq<char>, Seq<char>)>,
    pub id: Seq<char>,
    pub command: Seq<Seq<char>>,
}

/// What arguments of the container tool tell it to run; arguments of another form are not read.
pub open spec fn exec_reads(args: Seq<Seq<char>>) -> Option<Invocation> {
    if args.len() < 5 || args[0] != "exec"@ {
        None
    } else {
        let tty = args[1] == "--interactive"@ && args[2] == "--tty"@;
        let t = if tty {
            args.skip(3)
        } else {
            args.skip(1)
        };
        if t.len() < 4 || t[0] != "--workdir"@ || t[2] != "--user"@ {
            None
        } else {
            let r = envs_read(t.skip(4));
            if r.1.len() == 0 {
                None
            } else {
                Some(
                    Invocation {
                        tty,
                        workdir: t[1],
                        user: t[3],
                        envs: r.0,
                        id: r.1[0],
                        command: r.1.skip(1),
                    },
                )
            }
        }
    }
}

/// A command runs in the container that was asked for, in the directory that was asked for, with
/// the variables of the session and no others, never as the superuser, and with a terminal only if
/// there is one.
pub proof fn invocations_are_faithful(
    tty: bool,
    workdir: Seq<char>,
    envs: Seq<(Seq<char>, Seq<char>)>,
    id: Seq<char>,
    command: Seq<Seq<char>>,
)
    requires
        are_named(envs),
        id != "--env"@,
    ensures
        exec_reads(exec_args(tty, workdir, envs, id, command)) == Some(
            Invocation { tty, workdir, user: "tnk"@, envs, id, command },
        ),
{
    let args = exec_args(tty, workdir, envs, id, command);
    let rest = seq![id] + command;
    env_args_are_faithful(envs, rest);
    reveal_strlit("--interactive");
    reveal_strlit("--workdir");
    assert("--interactive"@.len() == 13 && "--workdir"@.len() == 9);
    let t = seq!["--workdir"@, workdir, "--user"@, "tnk"@] + (env_args(envs) + rest);
    if tty {
        assert(args =~= seq!["exec"@, "--interactive"@, "--tty"@] + t);
        assert(args.skip(3) =~= t);
    } else {
        assert(args =~= seq!["exec"@] + t);
        assert(args.skip(1) =~= t);
    }
    assert(t.skip(4) =~= env_args(envs) + rest);
    assert(rest.skip(1) =~= command);
}

/// A session in a container that succeeds has run its command there with success, with a terminal or
/// without one; one that needs a terminal was not run without.
pub proof fn container_sessions_run(
    id: Seq<char>,
    workdir: Seq<char>,
    envs: Seq<(Seq<char>, Seq<char>)>,
    target: Seq<Seq<char>>,
    use_tty: bool,
    requires_tty: bool,
    replies: Seq<Reply>,
)
    requires
        ({
            let p = container_session(id, workdir, envs, target, use_tty, requires_tty);
            plan::succeeded(p, plan::run(p, plan::beginning(), replies))
        }),
    ensures
        ({
            let p = container_session(id, workdir, envs, target, use_tty, requires_tty);
            exists|tty: bool|
                {
                    &&& use_tty && requires_tty ==> tty
                    &&& tty ==> use_tty
                    &&& #[trigger] runs(p, replies, exec_args(tty, workdir, envs, id, target))
                }
        }),
{
    let p = container_session(id, workdir, envs, target, use_tty, requires_tty);
    let n = p.len() as int;
    plan::successes_are_complete(p, replies);
    plan::stretches_are_crossed(p, replies, 0, n);
    let k = choose|k: int| #[trigger] plan::leaves(p, replies, k, 0, n);
    plan::leaving_is_told(p, replies, k, 0, n);
    let at = plan::run(p, plan::beginning(), replies.take(k)).at;
    assert(plan::replied(
        p,
        replies,
        p[at].task,
        Want::Success,
        plan::is_good(Want::Success, replies[k]),
    ));
    assert(runs(p, replies, exec_args(true, workdir, envs, id, target)) || runs(
        p,
        replies,
        exec_args(false, workdir, envs, id, target),
    ));
}

/// Whether a run of a plan had the container tool do something on the terminal with success.
pub open spec fn runs(p: Seq<StageView>, replies: Seq<Reply>, args: Seq<Seq<char>>) -> bool {
    plan::replied(
        p,
        replies,
        plan::running("container"@, args, plan::UNLIMITED, Output::Shown),
        Want::Success,
        true,
    )
}

/// The event that begins a session says which session it is: each part under its own name.
pub proof fn start_events_tell(
    now: i64,
    id: Seq<char>,
    workdir: Seq<char>,
    tty: bool,
    requires_tty: bool,
    runtime: Seq<(Seq<char>, Seq<char>)>,
    target: Option<Seq<Seq<char>>>,
)
    ensures
        ({
            let e = start_event(now, id, workdir, tty, requires_tty, runtime, target);
            &&& e.text_at("event"@) == Some("session_start"@)
            &&& e.field("ts"@) == Some(whole(now as int))
            &&& e.text_at("container_id"@) == Some(id)
            &&& e.text_at("workdir"@) == Some(workdir)
            &&& e.field("tty"@) == Some(JsonView::Bool(tty))
            &&& e.field("requires_tty"@) == Some(JsonView::Bool(requires_tty))
            &&& e.field("runtime_env"@) == Some(shared::env_summary(runtime))
            &&& target matches Some(t) ==> e.field("target_args"@) == Some(json::text_views(t))
        }),
{
    let o = start_event(now, id, workdir, tty, requires_tty, runtime, target)->Object_0;
    reveal_strlit("event");
    reveal_strlit("ts");
    reveal_strlit("container_id");
    reveal_strlit("workdir");
    reveal_strlit("tty");
    reveal_strlit("requires_tty");
    reveal_strlit("runtime_env");
    reveal_strlit("target_args");
    assert("event"@.len() == 5 && "ts"@.len() == 2 && "container_id"@.len() == 12);
    assert("workdir"@.len() == 7 && "tty"@.len() == 3 && "requires_tty"@.len() == 12);
    assert("runtime_env"@.len() == 11 && "target_args"@.len() == 11);
    assert("container_id"@[0] == 'c' && "requires_tty"@[0] == 'r');
    assert("runtime_env"@[0] == 'r' && "target_args"@[0] == 't');
    json::lookups_find(o, 0);
    json::lookups_find(o, 1);
    json::lookups_find(o, 2);
    json::lookups_find(o, 3);
    json::lookups_find(o, 4);
    json::lookups_find(o, 5);
    json::lookups_find(o, 6);
    if target is Some {
        json::lookups_find(o, 7);
    }
}

/// The event that tells what is run says where and how it is run: each part under its own name.
pub proof fn exec_events_tell(
    now: i64,
    id: Seq<char>,
    argv: Seq<Seq<char>>,
    tty: bool,
    runtime: Option<Seq<(Seq<char>, Seq<char>)>>,
)
    ensures
        ({
            let e = exec_event(now, id, argv, tty, runtime);
            &&& e.text_at("event"@) == Some("exec_invocation"@)
            &&& e.field("ts"@) == Some(whole(now as int))
            &&& e.text_at("container_id"@) == Some(id)
            &&& e.field("argv"@) == Some(json::text_views(argv))
            &&& e.field("tty"@) == Some(JsonView::Bool(tty))
            &&& runtime matches Some(v) ==> e.field("runtime_env"@) == Some(shared::env_summary(v))
        }),
{
    let o = exec_event(now, id, argv, tty, runtime)->Object_0;
    reveal_strlit("event");
    reveal_strlit("ts");
    reveal_strlit("container_id");
    reveal_strlit("argv");
    reveal_strlit("tty");
    reveal_strlit("runtime_env");
    assert("event"@.len() == 5 && "ts"@.len() == 2 && "container_id"@.len() == 12);
    assert("argv"@.len() == 4 && "tty"@.len() == 3 && "runtime_env"@.len() == 11);
    json::lookups_find(o, 0);
    json::lookups_find(o, 1);
    json::lookups_find(o, 2);
    json::lookups_find(o, 3);
    json::lookups_find(o, 4);
    if runtime is Some {
        json::lookups_find(o, 5);
    }
}

/// The event that ends a session says which session it is and what came of it: each part under its
/// own name.
pub proof fn exit_events_tell(
    now: i64,
    id: Seq<char>,
    code: Option<i32>,
    duration_ms: Option<u64>,
)
    ensures
        ({
            let e = exit_event(now, id, code, duration_ms);
            &&& e.text_at("event"@) == Some("session_exit"@)
            &&& e.field("ts"@) == Some(whole(now as int))
            &&& e.text_at("container_id"@) == Some(id)
            &&& code matches Some(c) ==> e.field("exit_code"@) == Some(whole(c as int))
            &&& code is None ==> e.field("exit_code"@) == Some(JsonView::Null)
            &&& duration_ms matches Some(n) ==> e.field("duration_ms"@) == Some(
                JsonView::Unsigned(n),
            )
            &&& duration_ms is None ==> e.field("duration_ms"@) is None
        }),
{
    let o = exit_event(now, id, code, duration_ms)->Object_0;
    reveal_strlit("event");
    reveal_strlit("ts");
    reveal_strlit("container_id");
    reveal_strlit("exit_code");
    reveal_strlit("duration_ms");
    assert("event"@.len() == 5 && "ts"@.len() == 2 && "container_id"@.len() == 12);
    assert("exit_code"@.len() == 9 && "duration_ms"@.len() == 11);
    json::lookups_find(o, 0);
    json::lookups_find(o, 1);
    json::lookups_find(o, 2);
    json::lookups_find(o, 3);
    if duration_ms is Some {
        json::lookups_find(o, 4);
    } else {
        reveal_with_fuel(json::lookup, 5);
    }
}

/// A session in a machine that succeeds has run its script there with success, in the directory that
/// was asked for, and the script sets the variables of the session and runs its command.
pub proof fn machine_sessions_run(
    id: Seq<char>,
    workdir: Seq<char>,
    envs: Seq<(Seq<char>, Seq<char>)>,
    command: Option<Seq<char>>,
    replies: Seq<Reply>,
)
    requires
        are_named(envs),
        ({
            let p = lima_session(id, workdir, session_script(envs, command));
            plan::succeeded(p, plan::run(p, plan::beginning(), replies))
        }),
    ensures
        exists|script: Seq<char>|
            {
                &&& script_reads(script) == Some((envs, command))
                &&& #[trigger] runs_in_machine(
                    lima_session(id, workdir, session_script(envs, command)),
                    replies,
                    id,
                    workdir,
                    script,
                )
            },
{
    let script = session_script(envs, command);
    let p = lima_session(id, workdir, script);
    session_scripts_are_faithful(envs, command);
    plan::successes_are_complete(p, replies);
    plan::stretches_are_crossed(p, replies, 0, 1);
    let k = choose|k: int| #[trigger] plan::leaves(p, replies, k, 0, 1);
    plan::leaving_is_told(p, replies, k, 0, 1);
    assert(plan::replied(
        p,
        replies,
        p[0].task,
        Want::Success,
        plan::is_good(Want::Success, replies[k]),
    ));
    assert(runs_in_machine(p, replies, id, workdir, script));
}

/// Whether a run of a plan ran a script in a machine, on the terminal, with success.
pub open spec fn runs_in_machine(
    p: Seq<StageView>,
    replies: Seq<Reply>,
    id: Seq<char>,
    workdir: Seq<char>,
    script: Seq<char>,
) -> bool {
    plan::replied(
        p,
        replies,
        plan::running(
            "limactl"@,
            seq!["shell"@, "--workdir"@, workdir, id, "bash"@, "-lc"@, script],
            plan::UNLIMITED,
            Output::Shown,
        ),
        Want::Success,
        true,
    )
}

/// A session has the variables of the terminal as the terminal has them, and does not have those
/// that the terminal lacks.
pub proof fn terminals_are_passed_on(terminal: TerminalEnv)
    ensures
        shared::last_value(terminal.pairs(), "TERM"@) == compose::opt_text(terminal.term),
        shared::last_value(terminal.pairs(), "COLORTERM"@) == compose::opt_text(
            terminal.colorterm,
        ),
        shared::last_value(terminal.pairs(), "COLUMNS"@) == compose::opt_text(terminal.columns),
        shared::last_value(terminal.pairs(), "LINES"@) == compose::opt_text(terminal.lines),
{
    lemma_terminal_value(terminal, "TERM"@);
    lemma_terminal_value(terminal, "COLORTERM"@);
    lemma_terminal_value(terminal, "COLUMNS"@);
    lemma_terminal_value(terminal, "LINES"@);
    reveal_strlit("TERM");
    reveal_strlit("COLORTERM");
    reveal_strlit("COLUMNS");
    reveal_strlit("LINES");
    assert("TERM"@.len() == 4 && "COLORTERM"@.len() == 9 && "COLUMNS"@.len() == 7);
    assert("LINES"@.len() == 5);
}

proof fn lemma_value_if(name: Seq<char>, value: Option<String>, key: Seq<char>)
    ensures
        shared::last_value(pair_if(name, value), key) == (if name == key {
            compose::opt_text(value)
        } else {
            None
        }),
{
    let s = pair_if(name, value);
    if value is Some {
        assert(s.drop_last() =~= Seq::<(Seq<char>, Seq<char>)>::empty());
        assert(shared::last_value(s.drop_last(), key) is None);
    }
}

proof fn lemma_terminal_value(terminal: TerminalEnv, key: Seq<char>)
    ensures
        shared::last_value(terminal.pairs(), key) == (match shared::last_value(
            pair_if("LINES"@, terminal.lines),
            key,
        ) {
            Some(v) => Some(v),
            None => match shared::last_value(pair_if("COLUMNS"@, terminal.columns), key) {
                Some(v) => Some(v),
                None => match shared::last_value(pair_if("COLORTERM"@, terminal.colorterm), key) {
                    Some(v) => Some(v),
                    None => shared::last_value(pair_if("TERM"@, terminal.term), key),
                },
            },
        }),
        shared::last_value(pair_if("LINES"@, terminal.lines), key) == (if "LINES"@ == key {
            compose::opt_text(terminal.lines)
        } else {
            None
        }),
        shared::last_value(pair_if("COLUMNS"@, terminal.columns), key) == (if "COLUMNS"@ == key {
            compose::opt_text(terminal.columns)
        } else {
            None
        }),
        shared::last_value(pair_if("COLORTERM"@, terminal.colorterm), key) == (if "COLORTERM"@
            == key {
            compose::opt_text(terminal.colorterm)
        } else {
            None
        }),
        shared::last_value(pair_if("TERM"@, terminal.term), key) == (if "TERM"@ == key {
            compose::opt_text(terminal.term)
        } else {
            None
        }),
{
    let a = pair_if("TERM"@, terminal.term);
    let b = pair_if("COLORTERM"@, terminal.colorterm);
    let c = pair_if("COLUMNS"@, terminal.columns);
    let d = pair_if("LINES"@, terminal.lines);
    lemma_last_of_both(a + b + c, d, key);
    lemma_last_of_both(a + b, c, key);
    lemma_last_of_both(a, b, key);
    lemma_value_if("TERM"@, terminal.term, key);
    lemma_value_if("COLORTERM"@, terminal.colorterm, key);
    lemma_value_if("COLUMNS"@, terminal.columns, key);
    lemma_value_if("LINES"@, terminal.lines, key);
}

} // verus!
