use crate::failure;
use crate::failure::Failure;
use crate::plan;
use crate::plan::{Effect, Reply, Stage, StageView, State, Task, Want};
use crate::sandbox::types;
use crate::text::{compose, edge, number, path};
use vstd::prelude::*;

verus! {

/// The context window of a model that does not tell its own.
pub const DEFAULT_CONTEXT_WINDOW: u32 = 131072;

/// The settings that are in force.
#[derive(Debug)]
pub struct ResolvedConfig {
    pub server_port: u16,
    pub workspace_root: String,
    pub provision_profile: String,
    pub engine_runtime: String,
    pub model: Option<String>,
    pub ctx_window: u32,
}

/// What can be done with the configuration.
pub enum ConfigCommands {
    Init { force: bool },
    Show,
}

/// The settings as the configuration file gives them.
#[derive(Debug)]
pub struct TnkConfig {
    pub server_port: Option<u16>,
    pub workspace_root: Option<String>,
    pub default_provision_profile: Option<String>,
    pub default_engine_runtime: Option<String>,
    pub default_model: Option<String>,
    pub default_context_window: Option<u32>,
}

impl Default for TnkConfig {
    fn default() -> (r: Self)
        ensures
            r == (TnkConfig {
                server_port: None,
                workspace_root: None,
                default_provision_profile: None,
                default_engine_runtime: None,
                default_model: None,
                default_context_window: None,
            }),
    {
        TnkConfig {
            server_port: None,
            workspace_root: None,
            default_provision_profile: None,
            default_engine_runtime: None,
            default_model: None,
            default_context_window: None,
        }
    }
}

/// The text that is there, or another one.
pub open spec fn or_text(o: Option<Seq<char>>, d: Seq<char>) -> Seq<char> {
    match o {
        Some(s) => s,
        None => d,
    }
}

/// A copy of the text that is there, or of another one.
pub fn text_or(o: &Option<String>, d: &str) -> (r: String)
    ensures
        r@ == or_text(compose::opt_text(*o), d@),
{
    match o {
        Some(s) => s.clone(),
        None => d.to_owned(),
    }
}

/// A path with the notations for the home directory written out.
pub open spec fn expanded(p: Seq<char>, home: Seq<char>) -> Seq<char> {
    if edge::begins(p, "~/"@) {
        home + "/"@ + p.skip("~/"@.len() as int)
    } else if edge::begins(p, "~"@) {
        home + p.skip("~"@.len() as int)
    } else if edge::begins(p, "$HOME/"@) {
        home + "/"@ + p.skip("$HOME/"@.len() as int)
    } else if p == "$HOME"@ {
        home
    } else if edge::begins(p, "${HOME}/"@) {
        home + "/"@ + p.skip("${HOME}/"@.len() as int)
    } else if p == "${HOME}"@ {
        home
    } else {
        p
    }
}

/// Writes out the notations for the home directory.
pub fn expand_path(path: String, home: &str) -> (r: String)
    ensures
        r@ == expanded(path@, home@),
{
    match edge::strip_prefix(path.as_str(), "~/") {
        Some(rest) => return compose::concat3(home, "/", rest.as_str()),
        None => {},
    }
    match edge::strip_prefix(path.as_str(), "~") {
        Some(rest) => return compose::concat(home, rest.as_str()),
        None => {},
    }
    match edge::strip_prefix(path.as_str(), "$HOME/") {
        Some(rest) => return compose::concat3(home, "/", rest.as_str()),
        None => {},
    }
    if compose::same(path.as_str(), "$HOME") {
        return home.to_owned();
    }
    match edge::strip_prefix(path.as_str(), "${HOME}/") {
        Some(rest) => return compose::concat3(home, "/", rest.as_str()),
        None => {},
    }
    if compose::same(path.as_str(), "${HOME}") {
        return home.to_owned();
    }
    path
}

/// Whether a text begins with a character that the notations for the home directory begin with.
pub open spec fn begins_like_notation(s: Seq<char>) -> bool {
    s.len() > 0 && (s[0] == '~' || s[0] == '$')
}

/// A path that has been written out stays as it is, for every home directory whose own name does
/// not begin like a notation; and so does every path that does not begin like one.
pub proof fn expansion_is_final(p: Seq<char>, home: Seq<char>)
    requires
        home.len() > 0,
        !begins_like_notation(home),
    ensures
        expanded(expanded(p, home), home) == expanded(p, home),
        !begins_like_notation(p) ==> expanded(p, home) == p,
{
    lemma_plain_stays(p, home);
    lemma_plain_stays(expanded(p, home), home);
    let e = expanded(p, home);
    if e != p {
        assert(e[0] == home[0]);
    }
}

proof fn lemma_plain_stays(p: Seq<char>, home: Seq<char>)
    ensures
        !begins_like_notation(p) ==> expanded(p, home) == p,
{
    reveal_strlit("~/");
    reveal_strlit("~");
    reveal_strlit("$HOME/");
    reveal_strlit("$HOME");
    reveal_strlit("${HOME}/");
    reveal_strlit("${HOME}");
    if edge::begins(p, "~/"@) {
        assert(p.subrange(0, 2)[0] == '~');
    }
    if edge::begins(p, "~"@) {
        assert(p.subrange(0, 1)[0] == '~');
    }
    if edge::begins(p, "$HOME/"@) {
        assert(p.subrange(0, 6)[0] == '$');
    }
    if edge::begins(p, "${HOME}/"@) {
        assert(p.subrange(0, 8)[0] == '$');
    }
}

/// The port at which inference is served: the configured one, else the usual one.
pub open spec fn port_in_force(configured: Option<u16>) -> u16 {
    match configured {
        Some(p) => p,
        None => 9931,
    }
}

/// The port at which inference is served.
pub fn server_port(configured: Option<u16>) -> (r: u16)
    ensures
        r == port_in_force(configured),
{
    match configured {
        Some(p) => p,
        None => 9931,
    }
}

/// The context window that sandboxes are told of: the configured one, else the usual one.
pub open spec fn window_in_force(configured: Option<u32>) -> u32 {
    match configured {
        Some(n) => n,
        None => DEFAULT_CONTEXT_WINDOW,
    }
}

/// The context window that sandboxes are told of.
pub fn context_window(configured: Option<u32>) -> (r: u32)
    ensures
        r == window_in_force(configured),
{
    match configured {
        Some(n) => n,
        None => DEFAULT_CONTEXT_WINDOW,
    }
}

/// Whether `r` is what the settings of `cfg` come to for the given home directory.
pub open spec fn resolves_to(cfg: TnkConfig, home: Seq<char>, r: ResolvedConfig) -> bool {
    &&& r.server_port == port_in_force(cfg.server_port)
    &&& r.workspace_root@ == (match cfg.workspace_root {
        Some(w) => expanded(w@, home),
        None => home + "/code"@,
    })
    &&& r.provision_profile@ == or_text(compose::opt_text(cfg.default_provision_profile), "pi"@)
    &&& r.engine_runtime@ == or_text(compose::opt_text(cfg.default_engine_runtime), "llama"@)
    &&& compose::opt_text(r.model) == compose::opt_text(cfg.default_model)
    &&& r.ctx_window == window_in_force(cfg.default_context_window)
}

impl ResolvedConfig {
    /// The settings that are in force, for the given home directory.
    pub fn resolve(cfg: &TnkConfig, home: Option<&str>) -> (r: Result<Self, Failure>)
        ensures
            match r {
                Ok(c) => home is Some && resolves_to(*cfg, home->0@, c),
                Err(e) => home is None && e@ == "could not resolve home directory"@,
            },
    {
        let home = match home {
            Some(h) => h,
            None => return Err(failure::failure("could not resolve home directory")),
        };
        let workspace_root = match &cfg.workspace_root {
            Some(w) => expand_path(w.clone(), home),
            None => compose::concat(home, "/code"),
        };
        let model = match &cfg.default_model {
            Some(m) => Some(m.clone()),
            None => None,
        };
        Ok(
            ResolvedConfig {
                server_port: server_port(cfg.server_port),
                workspace_root,
                provision_profile: text_or(&cfg.default_provision_profile, "pi"),
                engine_runtime: text_or(&cfg.default_engine_runtime, "llama"),
                model,
                ctx_window: context_window(cfg.default_context_window),
            },
        )
    }

    /// The lines that show the settings.
    pub open spec fn shown(self) -> Seq<Seq<char>> {
        seq![
            "server_port       "@ + number::decimal(self.server_port as nat),
            "workspace_root    "@ + self.workspace_root@,
            "provision_profile "@ + self.provision_profile@,
            "engine_runtime    "@ + self.engine_runtime@,
            "model             "@ + or_text(compose::opt_text(self.model), "<none>"@),
            "ctx_window        "@ + number::decimal(self.ctx_window as nat),
        ]
    }

    /// The lines that show the settings.
    pub fn lines(&self) -> (r: Vec<String>)
        ensures
            compose::texts(r@) == self.shown(),
    {
        let port = number::to_decimal(self.server_port as u64);
        let window = number::to_decimal(self.ctx_window as u64);
        let model = text_or(&self.model, "<none>");
        let mut v = compose::no_texts();
        compose::push_string(&mut v, compose::concat("server_port       ", port.as_str()));
        compose::push_string(
            &mut v,
            compose::concat("workspace_root    ", self.workspace_root.as_str()),
        );
        compose::push_string(
            &mut v,
            compose::concat("provision_profile ", self.provision_profile.as_str()),
        );
        compose::push_string(
            &mut v,
            compose::concat("engine_runtime    ", self.engine_runtime.as_str()),
        );
        compose::push_string(&mut v, compose::concat("model             ", model.as_str()));
        compose::push_string(&mut v, compose::concat("ctx_window        ", window.as_str()));
        v
    }
}

impl TnkConfig {
    /// The lines that show the settings in force, or the line that tells why there are none.
    pub fn print_resolved(&self, home: Option<&str>) -> (r: Result<Vec<String>, String>)
        ensures
            match r {
                Ok(v) => home is Some && exists|c: ResolvedConfig|
                    #[trigger] resolves_to(*self, home->0@, c) && compose::texts(v@) == c.shown(),
                Err(e) => home is None && e@ == "error: "@ + "could not resolve home directory"@,
            },
    {
        match ResolvedConfig::resolve(self, home) {
            Ok(c) => {
                assert(resolves_to(*self, home->0@, c));
                Ok(c.lines())
            },
            Err(e) => Err(compose::concat("error: ", e.message.as_str())),
        }
    }
}

/// The settings that the environment gives.
pub struct EnvOverrides {
    pub server_port: Option<String>,
    pub workspace_root: Option<String>,
    pub provision_profile: Option<String>,
    pub engine_runtime: Option<String>,
    pub model: Option<String>,
}

/// Whether a text is the number of a port.
pub open spec fn port_number(s: Seq<char>) -> Option<nat> {
    number::number(s, 65535)
}

/// What is wrong with the settings of the environment: such settings are passed over.
pub open spec fn override_faults(env: EnvOverrides) -> Seq<Seq<char>> {
    let a = match env.server_port {
        Some(v) => if port_number(v@) is None {
            seq!["invalid TNK_SERVER_PORT='"@ + v@ + "'; ignoring env override"@]
        } else {
            Seq::empty()
        },
        None => Seq::empty(),
    };
    let b = match env.engine_runtime {
        Some(v) => if types::name_fault(v@, "runtime"@, types::Alphabet::Word) is Some {
            a.push("invalid TNK_ENGINE_RUNTIME='"@ + v@ + "'; ignoring env override"@)
        } else {
            a
        },
        None => a,
    };
    match env.model {
        Some(v) => if v@.len() == 0 {
            b.push("TNK_MODEL is empty; ignoring env override"@)
        } else {
            b
        },
        None => b,
    }
}

/// Whether `r` is `cfg` with the settings of the environment put over it.
pub open spec fn overridden(cfg: TnkConfig, env: EnvOverrides, r: TnkConfig) -> bool {
    &&& match env.server_port {
        Some(v) => match port_number(v@) {
            Some(p) => r.server_port is Some && r.server_port->0 == p,
            None => r.server_port == cfg.server_port,
        },
        None => r.server_port == cfg.server_port,
    }
    &&& r.workspace_root == (match env.workspace_root {
        Some(v) => Some(v),
        None => cfg.workspace_root,
    })
    &&& r.default_provision_profile == (match env.provision_profile {
        Some(v) => Some(v),
        None => cfg.default_provision_profile,
    })
    &&& r.default_engine_runtime == (match env.engine_runtime {
        Some(v) => if types::name_fault(v@, "runtime"@, types::Alphabet::Word) is None {
            Some(v)
        } else {
            cfg.default_engine_runtime
        },
        None => cfg.default_engine_runtime,
    })
    &&& r.default_model == (match env.model {
        Some(v) => if v@.len() > 0 {
            Some(v)
        } else {
            cfg.default_model
        },
        None => cfg.default_model,
    })
    &&& r.default_context_window == cfg.default_context_window
}

/// Puts the settings of the environment over those of the file, and gives the warnings about
/// those that cannot be used.
pub fn apply_env_overrides(config: &mut TnkConfig, env: EnvOverrides) -> (r: Vec<String>)
    ensures
        overridden(*old(config), env, *final(config)),
        compose::texts(r@) == override_faults(env),
{
    let mut warnings = compose::no_texts();
    match env.server_port {
        Some(v) => match number::parse_unsigned(v.as_str(), 65535) {
            Some(p) => {
                config.server_port = Some(p as u16);
            },
            None => {
                compose::push_string(
                    &mut warnings,
                    compose::concat3(
                        "invalid TNK_SERVER_PORT='",
                        v.as_str(),
                        "'; ignoring env override",
                    ),
                );
            },
        },
        None => {},
    }
    match env.workspace_root {
        Some(v) => {
            config.workspace_root = Some(v);
        },
        None => {},
    }
    match env.provision_profile {
        Some(v) => {
            config.default_provision_profile = Some(v);
        },
        None => {},
    }
    match env.engine_runtime {
        Some(v) => match types::validate_engine_runtime(v.as_str()) {
            Ok(_) => {
                config.default_engine_runtime = Some(v);
            },
            Err(_) => {
                compose::push_string(
                    &mut warnings,
                    compose::concat3(
                        "invalid TNK_ENGINE_RUNTIME='",
                        v.as_str(),
                        "'; ignoring env override",
                    ),
                );
            },
        },
        None => {},
    }
    match env.model {
        Some(v) => if v.as_str().is_empty() {
            compose::push_text(&mut warnings, "TNK_MODEL is empty; ignoring env override");
        } else {
            config.default_model = Some(v);
        },
        None => {},
    }
    warnings
}

/// The directory of the models: the configured one, with the notations for the home directory
/// written out, else one below the home directory.
pub fn model_directory(configured: Option<String>, home: &str) -> (r: String)
    ensures
        r@ == (match configured {
            Some(d) => expanded(d@, home@),
            None => home@ + "/opt/models"@,
        }),
{
    match configured {
        Some(d) => expand_path(d, home),
        None => compose::concat(home, "/opt/models"),
    }
}

/// The directory of the configuration.
pub open spec fn config_dir(home: Seq<char>) -> Seq<char> {
    path::below(home, ".config/tnk"@)
}

/// The directory of the configuration.
pub fn config_directory(home: &str) -> (r: String)
    ensures
        r@ == config_dir(home@),
{
    path::join_path(home, ".config/tnk")
}

/// The path of the configuration file.
pub fn config_file(home: &str) -> (r: String)
    ensures
        r@ == path::below(home@, ".config/tnk/tnk.toml"@),
{
    path::join_path(home, ".config/tnk/tnk.toml")
}

/// The text of a new configuration file.
pub open spec fn template() -> Seq<char> {
    "# tnk configuration\n\n# API port for inference server\nserver_port = 9931\n\n# Root used for project-to-sandbox mapping (must NOT be your home directory)\nworkspace_root = \"~/code\"\n\n# Default sandbox profile\ndefault_provision_profile = \"pi\"\n\n# Inference runtime key (consumed by provision profiles)\ndefault_engine_runtime = \"llama\"\n\n# Model name injected into sandboxes as TNK_MODEL_NAME\n# default_model = \"ai-fast\"\n\n# Context window injected into sandboxes as TNK_CTX_WINDOW\n# default_context_window = 131072\n\n"@
}

/// The path of the file in the directory of the configuration.
pub open spec fn own_file(home: Seq<char>) -> Seq<char> {
    path::below(config_dir(home), "tnk.toml"@)
}

/// The plan that writes a new configuration file, which only its owner can read: an existing one
/// is kept unless forced.
pub open spec fn init_plan(home: Seq<char>, force: bool) -> Seq<StageView> {
    let file = own_file(home);
    (if force {
        Seq::empty()
    } else {
        seq![plan::stage_of(Task::Exists(file)).when_good(Effect::Go(4)).when_not_good(Effect::Go(0))]
    }) + seq![
        plan::stage_of(Task::MakeDir(config_dir(home))),
        plan::stage_of(Task::Protect(config_dir(home), 0o700)),
        plan::stage_of(Task::Write(file, template())),
        plan::stage_of(Task::Protect(file, 0o600)).when_good(plan::informing("created "@ + file, 0)),
    ]
}

/// The plan that writes a new configuration file.
pub fn init_config(home: &str, force: bool) -> (r: Vec<Stage<String, Vec<String>>>)
    ensures
        plan::stages(r@) == init_plan(home@, force),
{
    let dir = config_directory(home);
    let file = path::join_path(dir.as_str(), "tnk.toml");
    let text = "# tnk configuration\n\n# API port for inference server\nserver_port = 9931\n\n# Root used for project-to-sandbox mapping (must NOT be your home directory)\nworkspace_root = \"~/code\"\n\n# Default sandbox profile\ndefault_provision_profile = \"pi\"\n\n# Inference runtime key (consumed by provision profiles)\ndefault_engine_runtime = \"llama\"\n\n# Model name injected into sandboxes as TNK_MODEL_NAME\n# default_model = \"ai-fast\"\n\n# Context window injected into sandboxes as TNK_CTX_WINDOW\n# default_context_window = 131072\n\n";
    let done = compose::concat("created ", file.as_str());
    let mut v = plan::no_stages();
    if !force {
        plan::push_stage(
            &mut v,
            plan::stage(Task::Exists(file.clone())).on_good(Effect::Go(4)).otherwise(Effect::Go(0)),
        );
    }
    plan::push_stage(&mut v, plan::stage(Task::MakeDir(dir.clone())));
    plan::push_stage(&mut v, plan::stage(Task::Protect(dir, 0o700)));
    plan::push_stage(&mut v, plan::stage(Task::Write(file.clone(), text.to_owned())));
    plan::push_stage(
        &mut v,
        plan::stage(Task::Protect(file, 0o600)).on_good(plan::informs(done.as_str(), 0)),
    );
    assert(plan::stages(v@) =~= init_plan(home@, force));
    v
}

/// An existing configuration file is never written over unless that is forced: the question
/// whether there is one comes first, and ends everything if there is.
pub proof fn existing_config_is_kept(home: Seq<char>, replies: Seq<Reply>)
    requires
        replies.len() > 0,
        plan::is_good(init_plan(home, false)[0].want, replies[0]),
    ensures
        init_plan(home, false)[0].task == Task::<Seq<char>, Seq<Seq<char>>>::Exists(own_file(home)),
        plan::succeeded(
            init_plan(home, false),
            plan::run(init_plan(home, false), plan::beginning(), replies),
        ),
        !plan::performed(init_plan(home, false), replies, 3),
{
    let p = init_plan(home, false);
    lemma_kept(home, replies);
    if plan::performed(p, replies, 3) {
        let k = choose|k: int|
            0 <= k < replies.len() && plan::awaited(
                p,
                #[trigger] plan::run(p, plan::beginning(), replies.take(k)),
            ) == 3;
        if k > 0 {
            assert(replies.take(k)[0] == replies[0]);
            lemma_kept(home, replies.take(k));
        }
    }
}

proof fn lemma_kept(home: Seq<char>, replies: Seq<Reply>)
    requires
        replies.len() > 0,
        plan::is_good(init_plan(home, false)[0].want, replies[0]),
    ensures
        plan::run(init_plan(home, false), plan::beginning(), replies) == (State {
            at: 5,
            trouble: None,
        }),
    decreases replies.len(),
{
    let p = init_plan(home, false);
    let fewer = replies.drop_last();
    if fewer.len() > 0 {
        assert(fewer[0] == replies[0]);
        lemma_kept(home, fewer);
    } else {
        assert(plan::run(p, plan::beginning(), fewer) == plan::beginning());
        assert(replies.last() == replies[0]);
    }
}

/// When a configuration file is made by force, its directory was made and closed to others, the file
/// was written with the text of a new one, and was then closed to others too, each with success.
pub proof fn new_configs_are_private(home: Seq<char>, replies: Seq<Reply>)
    requires
        plan::succeeded(
            init_plan(home, true),
            plan::run(init_plan(home, true), plan::beginning(), replies),
        ),
    ensures
        ({
            let p = init_plan(home, true);
            let dir = path::below(home, ".config/tnk"@);
            let file = path::below(dir, "tnk.toml"@);
            &&& plan::replied(p, replies, Task::MakeDir(dir), Want::Success, true)
            &&& plan::replied(p, replies, Task::Protect(dir, 0o700), Want::Success, true)
            &&& plan::replied(p, replies, Task::Write(file, template()), Want::Success, true)
            &&& plan::replied(p, replies, Task::Protect(file, 0o600), Want::Success, true)
        }),
{
    let p = init_plan(home, true);
    plan::successes_are_complete(p, replies);
    plan::strict_tasks_succeed(p, replies, 0);
    plan::strict_tasks_succeed(p, replies, 1);
    plan::strict_tasks_succeed(p, replies, 2);
    plan::strict_tasks_succeed(p, replies, 3);
}

/// When a configuration file is made without force and there was none, it was written and closed to
/// others.
pub proof fn missing_configs_are_written(home: Seq<char>, replies: Seq<Reply>)
    requires
        replies.len() > 0,
        !plan::is_good(Want::Success, replies[0]),
        plan::succeeded(
            init_plan(home, false),
            plan::run(init_plan(home, false), plan::beginning(), replies),
        ),
    ensures
        ({
            let p = init_plan(home, false);
            let file = path::below(path::below(home, ".config/tnk"@), "tnk.toml"@);
            &&& plan::replied(p, replies, Task::Write(file, template()), Want::Success, true)
            &&& plan::replied(p, replies, Task::Protect(file, 0o600), Want::Success, true)
        }),
{
    let p = init_plan(home, false);
    plan::successes_are_complete(p, replies);
    lemma_written(p, replies, 3);
    lemma_written(p, replies, 4);
}

proof fn lemma_written(p: Seq<StageView>, replies: Seq<Reply>, i: int)
    requires
        0 < i < p.len(),
        replies.len() > 0,
        !plan::is_good(p[0].want, replies[0]),
        !p[0].always,
        plan::skipped(plan::effect_of(p[0], replies[0])) == 0,
        plan::is_strict(p[i]),
        forall|j: int| 1 <= j < i ==> plan::skips_at_most(#[trigger] p[j], i - j - 1),
        plan::run(p, plan::beginning(), replies).trouble is None,
        plan::run(p, plan::beginning(), replies).at > i,
    ensures
        plan::replied(p, replies, p[i].task, p[i].want, true),
{
    plan::stretches_are_crossed(p, replies, 0, i + 1);
    let k = choose|k: int| #[trigger] plan::leaves(p, replies, k, 0, i + 1);
    plan::leaving_is_told(p, replies, k, 0, i + 1);
    plan::plans_end(p, replies.take(k));
    let at = plan::run(p, plan::beginning(), replies.take(k)).at;
    assert(at == 0 ==> k == 0);
    if at > 0 && at < i {
        assert(plan::skips_at_most(p[at], i - at - 1));
    }
    assert(plan::replied(p, replies, p[i].task, p[i].want, plan::is_good(p[i].want, replies[k])));
}

/// Writing out a notation for the home directory leads into the home directory, and what stands
/// behind the notation stays.
pub proof fn notations_lead_home(rest: Seq<char>, home: Seq<char>)
    ensures
        expanded("~/"@ + rest, home) == home + "/"@ + rest,
        expanded("$HOME/"@ + rest, home) == home + "/"@ + rest,
        expanded("${HOME}/"@ + rest, home) == home + "/"@ + rest,
        expanded("~"@, home) == home,
        expanded("$HOME"@, home) == home,
        expanded("${HOME}"@, home) == home,
{
    reveal_strlit("~/");
    reveal_strlit("~");
    reveal_strlit("$HOME/");
    reveal_strlit("$HOME");
    reveal_strlit("${HOME}/");
    reveal_strlit("${HOME}");
    let a = "~/"@ + rest;
    assert(a.subrange(0, 2) =~= "~/"@);
    assert(a.skip(2) =~= rest);
    let b = "$HOME/"@ + rest;
    assert(b.subrange(0, 6) =~= "$HOME/"@);
    assert(b.skip(6) =~= rest);
    lemma_no_tilde(b);
    let c = "${HOME}/"@ + rest;
    assert(c.subrange(0, 8) =~= "${HOME}/"@);
    assert(c.skip(8) =~= rest);
    lemma_no_tilde(c);
    if edge::begins(c, "$HOME/"@) {
        assert(c.subrange(0, 6)[1] == c[1]);
    }
    let d = "~"@;
    assert(d.subrange(0, 1) =~= d);
    assert(home + d.skip(1) =~= home);
    lemma_no_tilde("$HOME"@);
    lemma_no_tilde("${HOME}"@);
    if edge::begins("${HOME}"@, "$HOME/"@) {
        assert("${HOME}"@.subrange(0, 6)[1] == "${HOME}"@[1]);
    }
    assert(c[1] == '{' && "$HOME"@[1] == 'H' && "${HOME}"@[1] == '{');
}

proof fn lemma_no_tilde(s: Seq<char>)
    requires
        s.len() > 0,
        s[0] != '~',
    ensures
        !edge::begins(s, "~/"@),
        !edge::begins(s, "~"@),
{
    reveal_strlit("~/");
    reveal_strlit("~");
    if edge::begins(s, "~/"@) {
        assert(s.subrange(0, 2)[0] == s[0]);
    }
    if edge::begins(s, "~"@) {
        assert(s.subrange(0, 1)[0] == s[0]);
    }
}

} // verus!
