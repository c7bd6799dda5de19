use crate::engine;
use crate::failure;
use crate::failure::Failure;
use crate::plan;
use crate::plan::{Effect, Hearing, Output, Reply, Stage, StageView, Task, Want};
use crate::sandbox::container;
use crate::sandbox::container::{ContainerBackend, ContainerProfileSettings, SettingsView};
use crate::sandbox::container_utils;
use crate::sandbox::container_utils::ContainerListItem;
use crate::sandbox::provision::ProvisionRequest;
use crate::sandbox::types::Alphabet;
use crate::sandbox::{lima, provision, session, shared, types, workspace};
use crate::sandbox::SandboxEntry;
use crate::text::{compose, edge, number, order, path};
use crate::ui;
use crate::ui::ExitCode;
use vstd::prelude::*;

verus! {

/// A stage that asks whether a container exists.
pub open spec fn exists_probe(id: Seq<char>) -> StageView {
    plan::stage_of(Task::ListContainers).wanting(Want::Lists(id))
}

/// A stage that asks whether a container runs.
pub open spec fn running_probe(id: Seq<char>) -> StageView {
    plan::stage_of(Task::ListContainers).wanting(Want::ListsRunning(id))
}

fn ask_exists(id: &str) -> (r: Stage<String, Vec<String>>)
    ensures
        r@ == exists_probe(id@),
{
    plan::stage(Task::ListContainers).wants(Want::Lists(id.to_owned()))
}

fn ask_running(id: &str) -> (r: Stage<String, Vec<String>>)
    ensures
        r@ == running_probe(id@),
{
    plan::stage(Task::ListContainers).wants(Want::ListsRunning(id.to_owned()))
}

/// A stage that has the container tool do something without showing its output.
pub open spec fn quiet(args: Seq<Seq<char>>) -> StageView {
    plan::stage_of(plan::running("container"@, args, plan::UNLIMITED, Output::Discarded))
}

/// A stage that has the container tool do something on the terminal.
pub open spec fn shown(args: Seq<Seq<char>>) -> StageView {
    plan::stage_of(plan::running("container"@, args, plan::UNLIMITED, Output::Shown))
}

/// A stage that has the container tool do something and keeps its output.
pub open spec fn captured(args: Seq<Seq<char>>) -> StageView {
    plan::stage_of(plan::running("container"@, args, plan::UNLIMITED, Output::Captured))
}

fn quietly(args: Vec<String>) -> (r: Stage<String, Vec<String>>)
    ensures
        r@ == quiet(compose::texts(args@)),
{
    plan::stage(plan::run_task("container", args, plan::UNLIMITED, Output::Discarded))
}

fn showing(args: Vec<String>) -> (r: Stage<String, Vec<String>>)
    ensures
        r@ == shown(compose::texts(args@)),
{
    plan::stage(plan::run_task("container", args, plan::UNLIMITED, Output::Shown))
}

fn capturing(args: Vec<String>) -> (r: Stage<String, Vec<String>>)
    ensures
        r@ == captured(compose::texts(args@)),
{
    plan::stage(plan::run_task("container", args, plan::UNLIMITED, Output::Captured))
}

/// What a container is given once: the programs that sessions need, and a user of its own.
pub open spec fn baseline_script() -> Seq<char> {
    "apt-get update -qq && DEBIAN_FRONTEND=noninteractive apt-get install -y -qq bash curl ca-certificates sudo git nodejs npm && if ! id -u tnk >/dev/null 2>&1; then useradd -m -s /bin/bash tnk; fi && usermod -aG sudo tnk && install -d -m 755 /etc/sudoers.d && printf 'tnk ALL=(ALL) NOPASSWD:ALL\\n' >/etc/sudoers.d/tnk && chmod 0440 /etc/sudoers.d/tnk"@
}

/// The stages that give a container its baseline, unless it has it already.
pub open spec fn baseline(id: Seq<char>) -> Seq<StageView> {
    seq![
        shown(
            seq!["exec"@, id, "sh"@, "-lc"@, "test -f /var/lib/tnk/container-baseline-v2"@],
        ).when_good(Effect::Go(2)).when_bad(Effect::Go(0)),
        shown(seq!["exec"@, id, "sh"@, "-lc"@, baseline_script()]).when_bad(
            Effect::Stop("failed to install container baseline dependencies"@),
        ),
        shown(
            seq![
                "exec"@,
                id,
                "sh"@,
                "-lc"@,
                "mkdir -p /var/lib/tnk && touch /var/lib/tnk/container-baseline-v2"@,
            ],
        ).when_bad(plan::warning("failed to persist container baseline marker"@, 0)),
    ]
}

/// The stages that give a container its baseline.
pub fn ensure_container_runtime_baseline(id: &str) -> (r: Vec<Stage<String, Vec<String>>>)
    ensures
        plan::stages(r@) == baseline(id@),
{
    let mut v = plan::no_stages();
    plan::push_stage(
        &mut v,
        showing(
            compose::list5(
                "exec",
                id,
                "sh",
                "-lc",
                "test -f /var/lib/tnk/container-baseline-v2",
            ),
        ).on_good(Effect::Go(2)).on_bad(Effect::Go(0)),
    );
    plan::push_stage(
        &mut v,
        showing(
            compose::list5(
                "exec",
                id,
                "sh",
                "-lc",
                "apt-get update -qq && DEBIAN_FRONTEND=noninteractive apt-get install -y -qq bash curl ca-certificates sudo git nodejs npm && if ! id -u tnk >/dev/null 2>&1; then useradd -m -s /bin/bash tnk; fi && usermod -aG sudo tnk && install -d -m 755 /etc/sudoers.d && printf 'tnk ALL=(ALL) NOPASSWD:ALL\\n' >/etc/sudoers.d/tnk && chmod 0440 /etc/sudoers.d/tnk",
            ),
        ).on_bad(plan::stops("failed to install container baseline dependencies")),
    );
    plan::push_stage(
        &mut v,
        showing(
            compose::list5(
                "exec",
                id,
                "sh",
                "-lc",
                "mkdir -p /var/lib/tnk && touch /var/lib/tnk/container-baseline-v2",
            ),
        ).on_bad(plan::warns("failed to persist container baseline marker", 0)),
    );
    v
}

/// The script that gives the user of a container the numbers of the user outside.
pub open spec fn sync_script() -> Seq<char> {
    "UID_TARGET=\"$1\"; GID_TARGET=\"$2\"; if id -u tnk >/dev/null 2>&1; then CURRENT_UID=\"$(id -u tnk)\"; CURRENT_GID=\"$(id -g tnk)\"; if [ \"$CURRENT_GID\" != \"$GID_TARGET\" ]; then groupmod -o -g \"$GID_TARGET\" tnk >/dev/null 2>&1 || true; fi; if [ \"$CURRENT_UID\" != \"$UID_TARGET\" ]; then usermod -o -u \"$UID_TARGET\" -g \"$GID_TARGET\" tnk >/dev/null 2>&1 || true; fi; chown -h tnk:tnk /home/tnk >/dev/null 2>&1 || true; fi"@
}

/// The stage that gives the user of a container the numbers of the user outside.
pub open spec fn sync_stage(id: Seq<char>, uid: u32, gid: u32) -> StageView {
    quiet(
        seq![
            "exec"@,
            id,
            "sh"@,
            "-lc"@,
            sync_script(),
            "--"@,
            number::decimal(uid as nat),
            number::decimal(gid as nat),
        ],
    ).when_not_good(Effect::Go(0)).when_bad(
        plan::warning(
            "failed to synchronize sandbox uid/gid mapping for '"@ + id + "'"@,
            0,
        ),
    )
}

/// The stage that gives the user of a container the numbers of the user outside.
pub fn sync_container_user_ids(id: &str, uid: u32, gid: u32) -> (r: Stage<String, Vec<String>>)
    ensures
        r@ == sync_stage(id@, uid, gid),
{
    let u = number::to_decimal(uid as u64);
    let g = number::to_decimal(gid as u64);
    let what = compose::concat3("failed to synchronize sandbox uid/gid mapping for '", id, "'");
    quietly(
        compose::list8(
            "exec",
            id,
            "sh",
            "-lc",
            "UID_TARGET=\"$1\"; GID_TARGET=\"$2\"; if id -u tnk >/dev/null 2>&1; then CURRENT_UID=\"$(id -u tnk)\"; CURRENT_GID=\"$(id -g tnk)\"; if [ \"$CURRENT_GID\" != \"$GID_TARGET\" ]; then groupmod -o -g \"$GID_TARGET\" tnk >/dev/null 2>&1 || true; fi; if [ \"$CURRENT_UID\" != \"$UID_TARGET\" ]; then usermod -o -u \"$UID_TARGET\" -g \"$GID_TARGET\" tnk >/dev/null 2>&1 || true; fi; chown -h tnk:tnk /home/tnk >/dev/null 2>&1 || true; fi",
            "--",
            u.as_str(),
            g.as_str(),
        ),
    ).otherwise(Effect::Go(0)).on_bad(plan::warns(what.as_str(), 0))
}

/// The plan that makes a container run: it is created if there is none, started if it does not
/// run, and given its baseline.
pub open spec fn bring_up(id: Seq<char>, s: SettingsView) -> Seq<StageView> {
    seq![
        exists_probe(id).when_good(Effect::Go(1)).when_not_good(Effect::Go(0)),
        quiet(container::create_args(id, s)).when_bad(
            Effect::Stop(
                "failed to create container '"@ + id
                    + "' (run 'container system start' if the service is not running)"@,
            ),
        ),
        running_probe(id).when_good(Effect::Go(1)).when_not_good(Effect::Go(0)),
        quiet(seq!["start"@, id]).when_bad(
            Effect::Stop("failed to start container '"@ + id + "'"@),
        ),
    ] + baseline(id)
}

fn bringing_up(id: &str, settings: &ContainerProfileSettings) -> (r: Vec<
    Stage<String, Vec<String>>,
>)
    ensures
        plan::stages(r@) == bring_up(id@, settings@),
{
    let create = container::create_args_for_settings(id, settings);
    let no_create = compose::concat3(
        "failed to create container '",
        id,
        "' (run 'container system start' if the service is not running)",
    );
    let no_start = compose::concat3("failed to start container '", id, "'");
    let mut v = plan::no_stages();
    plan::push_stage(&mut v, ask_exists(id).on_good(Effect::Go(1)).otherwise(Effect::Go(0)));
    plan::push_stage(&mut v, quietly(create).on_bad(Effect::Stop(no_create)));
    plan::push_stage(&mut v, ask_running(id).on_good(Effect::Go(1)).otherwise(Effect::Go(0)));
    plan::push_stage(
        &mut v,
        quietly(compose::list2("start", id)).on_bad(Effect::Stop(no_start)),
    );
    plan::push_stages(&mut v, ensure_container_runtime_baseline(id));
    v
}

/// The plan that makes a container run for a session.
pub fn ensure_container_infrastructure(
    id: &str,
    settings: &ContainerProfileSettings,
    uid: u32,
    gid: u32,
) -> (r: Vec<Stage<String, Vec<String>>>)
    ensures
        plan::stages(r@) == bring_up(id@, settings@).push(sync_stage(id@, uid, gid)),
{
    let mut v = bringing_up(id, settings);
    plan::push_stage(&mut v, sync_container_user_ids(id, uid, gid));
    v
}

/// The words with which the container tool tells that it cannot change containers.
pub open spec fn unsupported_words() -> Seq<Seq<char>> {
    seq!["unknown command"@, "not found"@, "plugin"@]
}

/// The stages that change the network of a container. They are performed even if what came before
/// did not succeed.
pub open spec fn network_block(id: Seq<char>, mode: Seq<char>) -> Seq<StageView> {
    let rest = "; continuing without deferred network isolation for '"@ + id + "' (mode '"@ + mode
        + "')"@;
    seq![
        captured(seq!["help"@, "update"@]).saying(
            seq![ui::info("sealing sandbox boundary -> cutting off network access"@)],
        ).when_bad(
            Effect::Stop(
                "failed to verify container 'update' command support for '"@ + id + "'"@,
            ),
        ).excused_by(
            Hearing::LoweredErrors,
            unsupported_words(),
            plan::warning("container CLI does not support 'update'"@ + rest, 1),
        ).in_any_case(),
        captured(seq!["update"@, id, "--network"@, mode]).when_bad(
            Effect::Stop(
                "failed to set network mode '"@ + mode + "' for container '"@ + id + "'"@,
            ),
        ).excused_by(
            Hearing::LoweredErrors,
            unsupported_words(),
            plan::warning("container update plugin unavailable"@ + rest, 0),
        ).in_any_case(),
    ]
}

/// The stages that change the network of a container.
pub fn update_container_network_mode(id: &str, mode: &str) -> (r: Vec<Stage<String, Vec<String>>>)
    ensures
        plan::stages(r@) == network_block(id@, mode@),
{
    let rest = compose::concat5(
        "; continuing without deferred network isolation for '",
        id,
        "' (mode '",
        mode,
        "')",
    );
    let no_update = compose::concat("container CLI does not support 'update'", rest.as_str());
    let no_plugin = compose::concat("container update plugin unavailable", rest.as_str());
    let no_check = compose::concat3(
        "failed to verify container 'update' command support for '",
        id,
        "'",
    );
    let no_mode = compose::concat5(
        "failed to set network mode '",
        mode,
        "' for container '",
        id,
        "'",
    );
    let line = compose::concat(
        "info: ",
        "sealing sandbox boundary -> cutting off network access",
    );
    let mut v = plan::no_stages();
    plan::push_stage(
        &mut v,
        capturing(compose::list2("help", "update")).says(compose::list1(line.as_str())).on_bad(
            Effect::Stop(no_check),
        ).excuses(
            Hearing::LoweredErrors,
            compose::list3("unknown command", "not found", "plugin"),
            plan::warns(no_update.as_str(), 1),
        ).regardless(),
    );
    plan::push_stage(
        &mut v,
        capturing(compose::list4("update", id, "--network", mode)).on_bad(
            Effect::Stop(no_mode),
        ).excuses(
            Hearing::LoweredErrors,
            compose::list3("unknown command", "not found", "plugin"),
            plan::warns(no_plugin.as_str(), 0),
        ).regardless(),
    );
    v
}

/// The stage that puts the name of a profile on a container.
pub open spec fn mark_stage(id: Seq<char>, profile: Seq<char>) -> StageView {
    let warn = plan::warning(
        "failed to persist profile label '"@ + profile + "' for container '"@ + id + "'"@,
        0,
    );
    captured(
        seq!["update"@, id, "--label"@, "tnk.profile."@ + profile + "=true"@],
    ).when_not_good(warn).excused_by(
        Hearing::Errors,
        seq!["Plugin 'container-update' not found"@],
        Effect::Go(0),
    )
}

/// The stage that puts the name of a profile on a container.
pub fn mark_container_profile(id: &str, profile_name: &str) -> (r: Stage<String, Vec<String>>)
    ensures
        r@ == mark_stage(id@, profile_name@),
{
    let label = compose::concat3("tnk.profile.", profile_name, "=true");
    let what = compose::concat5(
        "failed to persist profile label '",
        profile_name,
        "' for container '",
        id,
        "'",
    );
    capturing(compose::list4("update", id, "--label", label.as_str())).otherwise(
        plan::warns(what.as_str(), 0),
    ).excuses(
        Hearing::Errors,
        compose::list1("Plugin 'container-update' not found"),
        Effect::Go(0),
    )
}

/// Labelling a container is a courtesy: it never makes a plan fail.
pub proof fn labelling_never_fails(id: Seq<char>, profile: Seq<char>, reply: Reply)
    ensures
        !plan::gives_up(plan::effect_of(mark_stage(id, profile), reply)),
{
}

/// The host as a container sees it: as configured, else as the environment says, else as the
/// container tool or the container itself tell.
pub open spec fn gateway(
    configured: Option<Seq<char>>,
    env: Option<Seq<char>>,
    discovered: Option<Seq<char>>,
    routed: Option<Seq<char>>,
) -> Result<Seq<char>, Seq<char>> {
    let host = match configured {
        Some(h) => Some(edge::trimmed(h)),
        None => match env {
            Some(h) => Some(edge::trimmed(h)),
            None => match discovered {
                Some(h) => Some(h),
                None => routed,
            },
        },
    };
    match host {
        None => Err(
            "could not determine container host gateway; set TNK_CONTAINER_HOST_GATEWAY or container_host_gateway in config"@,
        ),
        Some(h) => if h.len() == 0 {
            Err("container host gateway resolved to an empty value"@)
        } else {
            Ok(h)
        },
    }
}

/// The host as a container sees it.
pub fn resolve_container_host_gateway(
    configured: &Option<String>,
    env: &Option<String>,
    discovered: &Option<String>,
    routed: &Option<String>,
) -> (r: Result<String, Failure>)
    ensures
        match r {
            Ok(h) => gateway(
                compose::opt_text(*configured),
                compose::opt_text(*env),
                compose::opt_text(*discovered),
                compose::opt_text(*routed),
            ) == Ok::<Seq<char>, Seq<char>>(h@),
            Err(e) => gateway(
                compose::opt_text(*configured),
                compose::opt_text(*env),
                compose::opt_text(*discovered),
                compose::opt_text(*routed),
            ) == Err::<Seq<char>, Seq<char>>(e@),
        },
{
    let host = match configured {
        Some(h) => edge::trim(h.as_str()),
        None => match env {
            Some(h) => edge::trim(h.as_str()),
            None => match discovered {
                Some(h) => h.clone(),
                None => match routed {
                    Some(h) => h.clone(),
                    None => return Err(
                        failure::failure(
                            "could not determine container host gateway; set TNK_CONTAINER_HOST_GATEWAY or container_host_gateway in config",
                        ),
                    ),
                },
            },
        },
    };
    if host.as_str().is_empty() {
        return Err(failure::failure("container host gateway resolved to an empty value"));
    }
    Ok(host)
}

/// The provision script of a profile for containers.
pub open spec fn host_script(home: Seq<char>, script: Seq<char>) -> Seq<char> {
    path::below(home, ".config/tnk/sandbox.d/container/provision.d/"@ + script + ".sh"@)
}

/// The library of the provision scripts for containers.
pub open spec fn host_lib(home: Seq<char>) -> Seq<char> {
    path::below(home, ".config/tnk/sandbox.d/container/provision.d/lib"@)
}

/// The provision script of a profile for containers.
pub fn provision_script(home: &str, script: &str) -> (r: String)
    ensures
        r@ == host_script(home@, script@),
{
    let name = compose::concat3(".config/tnk/sandbox.d/container/provision.d/", script, ".sh");
    path::join_path(home, name.as_str())
}

/// The library of the provision scripts for containers.
pub fn provision_lib(home: &str) -> (r: String)
    ensures
        r@ == host_lib(home@),
{
    path::join_path(home, ".config/tnk/sandbox.d/container/provision.d/lib")
}

/// Why one of the values that a provision script is given cannot be used.
pub open spec fn values_fault(q: ProvisionRequest, host: Seq<char>) -> Option<Seq<char>> {
    let url = provision::inference_url(host, q.port);
    provision::first_fault(
        types::value_fault(url, "TNK_OPENAI_URL"@),
        provision::first_fault(
            types::value_fault(url, "TNK_INFERENCE_URL"@),
            provision::first_fault(
                types::value_fault(provision::bridge_url(host), "TNK_MCP_BRIDGE_URL"@),
                provision::first_fault(
                    types::value_fault(host, "TNK_CONTAINER_HOST_GATEWAY"@),
                    provision::first_fault(
                        types::value_fault(provision::search_url(host), "TNK_SEARXNG_URL"@),
                        provision::first_fault(
                            types::value_fault(q.model_name@, "TNK_MODEL_NAME"@),
                            provision::first_fault(
                                types::name_fault(q.model_name@, "model name"@, Alphabet::Model),
                                provision::first_fault(
                                    types::value_fault(q.mount_path@, "TNK_WORKSPACE_MOUNT"@),
                                    types::value_fault(
                                        q.engine_runtime@,
                                        "TNK_ENGINE_RUNTIME"@,
                                    ),
                                ),
                            ),
                        ),
                    ),
                ),
            ),
        ),
    )
}

/// Why a container cannot be provisioned.
pub open spec fn provision_fault(q: ProvisionRequest, host: Result<String, Failure>) -> Option<
    Seq<char>,
> {
    provision::first_fault(
        types::name_fault(q.script_name@, "profile name"@, Alphabet::Word),
        provision::first_fault(
            types::name_fault(q.engine_runtime@, "runtime"@, Alphabet::Word),
            match q.home {
                None => Some("environment variable not found"@),
                Some(h) => if !q.script_found {
                    Some(
                        "provision script not found: "@ + provision::path_notation(
                            host_script(h@, q.script_name@),
                        ),
                    )
                } else {
                    match host {
                        Err(e) => Some(e@),
                        Ok(g) => provision::first_fault(
                            values_fault(q, g@),
                            if q.lib_found {
                                None
                            } else {
                                Some(
                                    "provision library directory not found: "@
                                        + provision::path_notation(host_lib(h@)),
                                )
                            },
                        ),
                    }
                },
            },
        ),
    )
}

/// The variables of a provision script in a container.
pub open spec fn provision_pairs(q: ProvisionRequest, host: Seq<char>) -> Seq<
    (Seq<char>, Seq<char>),
> {
    seq![
        ("TNK_OPENAI_URL"@, provision::inference_url(host, q.port)),
        ("TNK_INFERENCE_URL"@, provision::inference_url(host, q.port)),
        ("TNK_MCP_BRIDGE_URL"@, provision::bridge_url(host)),
        ("TNK_MODEL_NAME"@, q.model_name@),
        ("TNK_CTX_WINDOW"@, number::decimal(q.ctx_window as nat)),
        ("TNK_WORKSPACE_MOUNT"@, q.mount_path@),
        ("TNK_SPECS_REV"@, q.specs_rev@),
        ("TNK_CONTAINER_HOST_GATEWAY"@, host),
        ("TNK_SEARXNG_URL"@, provision::search_url(host)),
        ("TNK_ENGINE_RUNTIME"@, q.engine_runtime@),
    ]
}

/// Whether provisioning gets as far as being told of.
pub open spec fn is_announced(q: ProvisionRequest) -> bool {
    &&& types::name_fault(q.script_name@, "profile name"@, Alphabet::Word) is None
    &&& types::name_fault(q.engine_runtime@, "runtime"@, Alphabet::Word) is None
    &&& q.home is Some
    &&& q.script_found
}

/// What is told when provisioning begins.
pub open spec fn announcement(q: ProvisionRequest) -> Seq<Seq<char>> {
    if is_announced(q) {
        seq![ui::info("provisioning: "@ + q.script_name@)]
    } else {
        Seq::empty()
    }
}

fn announcing(q: &ProvisionRequest) -> (r: Vec<String>)
    ensures
        compose::texts(r@) == announcement(*q),
{
    let known = match types::validate_script_name(q.script_name.as_str()) {
        Ok(_) => match types::validate_engine_runtime(q.engine_runtime.as_str()) {
            Ok(_) => true,
            Err(_) => false,
        },
        Err(_) => false,
    };
    if known && q.home.is_some() && q.script_found {
        let what = compose::concat("provisioning: ", q.script_name.as_str());
        let line = compose::concat("info: ", what.as_str());
        compose::list1(line.as_str())
    } else {
        compose::no_texts()
    }
}

/// The stages that provision a container.
pub open spec fn provision_block(q: ProvisionRequest, host: Seq<char>) -> Seq<StageView> {
    let script = provision::guest_script(q.script_name@);
    let lib = provision::guest_dir(q.script_name@) + "/lib"@;
    seq![
        shown(seq!["exec"@, q.id@, "mkdir"@, "-p"@, lib]).saying(announcement(q)).when_bad(
            Effect::Stop("failed to prepare guest provision directory"@),
        ),
        shown(
            seq!["copy"@, host_script(q.home->0@, q.script_name@), q.id@ + ":"@ + script],
        ).when_bad(Effect::Stop("failed to copy provision script into container"@)),
        shown(seq!["copy"@, host_lib(q.home->0@), q.id@ + ":"@ + lib]).when_bad(
            Effect::Stop("failed to copy provision library into container"@),
        ),
        plan::stage_of(
            plan::running(
                "container"@,
                seq!["exec"@, "--workdir"@, "/tmp"@, "--user"@, "tnk"@] + session::env_args(
                    provision_pairs(q, host),
                ) + seq![q.id@, "bash"@, script],
                1800,
                Output::Shown,
            ),
        ).when_good(plan::informing("provisioned: "@ + q.script_name@, 0)).when_bad(
            Effect::Stop("provision failed: "@ + q.script_name@),
        ).when_late(
            Effect::Stop("provision timed out for '"@ + q.script_name@ + "' after 1800s"@),
        ),
    ]
}

fn check_values(q: &ProvisionRequest, host: &str) -> (r: Result<(), Failure>)
    ensures
        types::fault(r) == values_fault(*q, host@),
{
    let url = provision::backend_openai_url(host, q.port);
    let bridge = provision::mcp_bridge_url(host);
    let search = provision::searxng_url(host);
    match types::validate_env_value(url.as_str(), "TNK_OPENAI_URL") {
        Ok(_) => {},
        Err(e) => return Err(e),
    }
    match types::validate_env_value(url.as_str(), "TNK_INFERENCE_URL") {
        Ok(_) => {},
        Err(e) => return Err(e),
    }
    match types::validate_env_value(bridge.as_str(), "TNK_MCP_BRIDGE_URL") {
        Ok(_) => {},
        Err(e) => return Err(e),
    }
    match types::validate_env_value(host, "TNK_CONTAINER_HOST_GATEWAY") {
        Ok(_) => {},
        Err(e) => return Err(e),
    }
    match types::validate_env_value(search.as_str(), "TNK_SEARXNG_URL") {
        Ok(_) => {},
        Err(e) => return Err(e),
    }
    match types::validate_env_value(q.model_name.as_str(), "TNK_MODEL_NAME") {
        Ok(_) => {},
        Err(e) => return Err(e),
    }
    match types::validate_model_name(q.model_name.as_str()) {
        Ok(_) => {},
        Err(e) => return Err(e),
    }
    match types::validate_env_value(q.mount_path.as_str(), "TNK_WORKSPACE_MOUNT") {
        Ok(_) => {},
        Err(e) => return Err(e),
    }
    types::validate_env_value(q.engine_runtime.as_str(), "TNK_ENGINE_RUNTIME")
}

fn check_request(q: &ProvisionRequest, host: &Result<String, Failure>) -> (r: Result<
    (String, String),
    Failure,
>)
    ensures
        types::fault(r) == provision_fault(*q, *host),
        r matches Ok(p) ==> q.home is Some && p.0@ == q.home->0@ && *host is Ok && p.1@ == (
        *host)->Ok_0@,
{
    match types::validate_script_name(q.script_name.as_str()) {
        Ok(_) => {},
        Err(e) => return Err(e),
    }
    match types::validate_engine_runtime(q.engine_runtime.as_str()) {
        Ok(_) => {},
        Err(e) => return Err(e),
    }
    let home = match &q.home {
        Some(h) => h,
        None => return Err(failure::failure("environment variable not found")),
    };
    if !q.script_found {
        let script = provision_script(home.as_str(), q.script_name.as_str());
        let text = provision::debug_path(script.as_str());
        return Err(
            failure::failed(compose::concat("provision script not found: ", text.as_str())),
        );
    }
    let g = match host {
        Ok(g) => g,
        Err(e) => return Err(failure::failure(e.message.as_str())),
    };
    match check_values(q, g.as_str()) {
        Ok(_) => {},
        Err(e) => return Err(e),
    }
    if !q.lib_found {
        let lib = provision_lib(home.as_str());
        let text = provision::debug_path(lib.as_str());
        return Err(
            failure::failed(
                compose::concat("provision library directory not found: ", text.as_str()),
            ),
        );
    }
    Ok((home.clone(), g.clone()))
}

/// The stages that provision a container, or why it cannot be provisioned.
pub fn run_provision_container(q: &ProvisionRequest, host: &Result<String, Failure>) -> (r: Result<
    Vec<Stage<String, Vec<String>>>,
    Failure,
>)
    ensures
        types::fault(r) == provision_fault(*q, *host),
        r matches Ok(v) ==> plan::stages(v@) == provision_block(*q, (*host)->Ok_0@),
{
    let (home, g) = match check_request(q, host) {
        Ok(p) => p,
        Err(e) => return Err(e),
    };
    let id = q.id.as_str();
    let name = q.script_name.as_str();
    let dir = compose::concat("/tmp/tnk-provision-", name);
    let lib = compose::concat(dir.as_str(), "/lib");
    let script = provision::guest_script_path(name);
    let host_file = provision_script(home.as_str(), name);
    let host_dir = provision_lib(home.as_str());
    let file_target = compose::concat3(id, ":", script.as_str());
    let dir_target = compose::concat3(id, ":", lib.as_str());
    let url = provision::backend_openai_url(g.as_str(), q.port);
    let bridge = provision::mcp_bridge_url(g.as_str());
    let search = provision::searxng_url(g.as_str());
    let window = number::to_decimal(q.ctx_window as u64);
    let mut envs = shared::no_envs();
    shared::push_env(&mut envs, "TNK_OPENAI_URL", url.as_str());
    shared::push_env(&mut envs, "TNK_INFERENCE_URL", url.as_str());
    shared::push_env(&mut envs, "TNK_MCP_BRIDGE_URL", bridge.as_str());
    shared::push_env(&mut envs, "TNK_MODEL_NAME", q.model_name.as_str());
    shared::push_env(&mut envs, "TNK_CTX_WINDOW", window.as_str());
    shared::push_env(&mut envs, "TNK_WORKSPACE_MOUNT", q.mount_path.as_str());
    shared::push_env(&mut envs, "TNK_SPECS_REV", q.specs_rev.as_str());
    shared::push_env(&mut envs, "TNK_CONTAINER_HOST_GATEWAY", g.as_str());
    shared::push_env(&mut envs, "TNK_SEARXNG_URL", search.as_str());
    shared::push_env(&mut envs, "TNK_ENGINE_RUNTIME", q.engine_runtime.as_str());
    assert(compose::pair_texts(envs@) =~= provision_pairs(*q, g@));
    let mut args = compose::list5("exec", "--workdir", "/tmp", "--user", "tnk");
    session::push_env_args(&mut args, &envs);
    compose::push_all(&mut args, &compose::list3(id, "bash", script.as_str()));
    let done = compose::concat("provisioned: ", name);
    let bad = compose::concat("provision failed: ", name);
    let late = compose::concat3("provision timed out for '", name, "' after 1800s");
    let mut v = plan::no_stages();
    plan::push_stage(
        &mut v,
        showing(compose::list5("exec", id, "mkdir", "-p", lib.as_str())).says(
            announcing(q),
        ).on_bad(plan::stops("failed to prepare guest provision directory")),
    );
    plan::push_stage(
        &mut v,
        showing(compose::list3("copy", host_file.as_str(), file_target.as_str())).on_bad(
            plan::stops("failed to copy provision script into container"),
        ),
    );
    plan::push_stage(
        &mut v,
        showing(compose::list3("copy", host_dir.as_str(), dir_target.as_str())).on_bad(
            plan::stops("failed to copy provision library into container"),
        ),
    );
    plan::push_stage(
        &mut v,
        plan::stage(plan::run_task("container", args, 1800, Output::Shown)).on_good(
            plan::informs(done.as_str(), 0),
        ).on_bad(Effect::Stop(bad)).on_late(Effect::Stop(late)),
    );
    Ok(v)
}

/// A container is reported as provisioned only after the script and its library have been copied
/// into it and the script has run there with success.
pub proof fn provisioning_runs_the_script(
    q: ProvisionRequest,
    host: Seq<char>,
    replies: Seq<Reply>,
    i: int,
)
    requires
        0 <= i < 4,
    ensures
        plan::succeeded(
            provision_block(q, host),
            plan::run(provision_block(q, host), plan::beginning(), replies),
        ) ==> plan::passed(provision_block(q, host), replies, i),
{
    plan::strict_stages_are_passed(provision_block(q, host), replies, i);
}

/// The stages that provision a container, or the one that tells why it cannot be provisioned.
pub open spec fn provision_stages(q: ProvisionRequest, host: Result<String, Failure>) -> Seq<
    StageView,
> {
    match provision_fault(q, host) {
        Some(e) => seq![lima::refusal(e).saying(announcement(q))],
        None => provision_block(q, host->Ok_0@),
    }
}

fn provisioning(q: &ProvisionRequest, host: &Result<String, Failure>) -> (r: Vec<
    Stage<String, Vec<String>>,
>)
    ensures
        plan::stages(r@) == provision_stages(*q, *host),
{
    match run_provision_container(q, host) {
        Ok(stages) => stages,
        Err(e) => {
            let mut v = plan::no_stages();
            plan::push_stage(
                &mut v,
                plan::stage(Task::Nothing).on_good(Effect::Stop(e.message)).says(announcing(q)),
            );
            v
        },
    }
}

/// What is done in place of provisioning when the image has been baked.
pub open spec fn baked_stage(image: Seq<char>, profile: Seq<char>) -> StageView {
    plan::stage_of(Task::Nothing).shouting(
        seq!["info: using pre-baked image "@ + image + " for profile "@ + profile],
    )
}

/// The plan that applies a profile to a running container: it is provisioned unless its image has
/// been baked, and then cut off from the network if the profile says so, even if the provisioning
/// did not succeed.
pub open spec fn profile_plan(
    q: ProvisionRequest,
    host: Result<String, Failure>,
    provision: bool,
    seal: bool,
    image: Seq<char>,
) -> Seq<StageView> {
    (if !provision {
        seq![baked_stage(image, q.script_name@)]
    } else {
        provision_stages(q, host)
    }) + (if seal {
        network_block(q.id@, "none"@)
    } else {
        Seq::empty()
    })
}

/// The plan that applies a profile to a running container.
pub fn apply_profile(
    q: &ProvisionRequest,
    host: &Result<String, Failure>,
    provision: bool,
    seal: bool,
    image: &str,
) -> (r: Vec<Stage<String, Vec<String>>>)
    ensures
        plan::stages(r@) == profile_plan(*q, *host, provision, seal, image@),
{
    let mut v = plan::no_stages();
    if !provision {
        let line = compose::concat4(
            "info: using pre-baked image ",
            image,
            " for profile ",
            q.script_name.as_str(),
        );
        plan::push_stage(
            &mut v,
            plan::stage(Task::Nothing).shouts(compose::list1(line.as_str())),
        );
    } else {
        plan::push_stages(&mut v, provisioning(q, host));
    }
    if seal {
        plan::push_stages(&mut v, update_container_network_mode(q.id.as_str(), "none"));
    }
    assert(plan::stages(v@) =~= profile_plan(*q, *host, provision, seal, image@));
    v
}

/// A profile that forbids the network has its container sealed whatever comes of the provisioning:
/// when the plan is finished, the sealing has been undertaken.
pub proof fn sealing_is_undertaken(
    q: ProvisionRequest,
    host: Result<String, Failure>,
    provision: bool,
    image: Seq<char>,
    replies: Seq<Reply>,
)
    ensures
        ({
            let p = profile_plan(q, host, provision, true, image);
            let i = p.len() - 2;
            &&& p[i] == network_block(q.id@, "none"@)[0]
            &&& plan::finished(p, plan::run(p, plan::beginning(), replies)) ==> plan::performed(
                p,
                replies,
                i,
            )
        }),
{
    let p = profile_plan(q, host, provision, true, image);
    let i = p.len() - 2;
    assert forall|j: int| 0 <= j < i implies plan::skips_at_most(#[trigger] p[j], i - j - 1) by {}
    plan::cleanup_is_performed(p, replies, i);
}

/// The network of a container is changed only after the container tool has said that it can do so,
/// whatever came before.
pub proof fn sealing_asks_first(
    q: ProvisionRequest,
    host: Result<String, Failure>,
    provision: bool,
    image: Seq<char>,
    replies: Seq<Reply>,
)
    ensures
        ({
            let p = profile_plan(q, host, provision, true, image);
            let i = p.len() - 1;
            &&& p[i] == network_block(q.id@, "none"@)[1]
            &&& plan::performed(p, replies, i) ==> plan::passed(p, replies, i - 1)
        }),
{
    let p = profile_plan(q, host, provision, true, image);
    let i = p.len() - 1;
    if plan::performed(p, replies, i) {
        let k = choose|k: int|
            0 <= k < replies.len() && plan::awaited(
                p,
                #[trigger] plan::run(p, plan::beginning(), replies.take(k)),
            ) == i;
        lemma_asked(q, host, provision, image, replies.take(k));
        let m = choose|m: int|
            0 <= m < k && plan::awaited(
                p,
                #[trigger] plan::run(p, plan::beginning(), replies.take(k).take(m)),
            ) == i - 1 && plan::is_good(p[i - 1].want, replies.take(k)[m]);
        assert(replies.take(k).take(m) =~= replies.take(m));
        assert(plan::awaited(p, plan::run(p, plan::beginning(), replies.take(m))) == i - 1);
    }
}

proof fn lemma_asked(
    q: ProvisionRequest,
    host: Result<String, Failure>,
    provision: bool,
    image: Seq<char>,
    replies: Seq<Reply>,
)
    ensures
        ({
            let p = profile_plan(q, host, provision, true, image);
            let s = plan::run(p, plan::beginning(), replies);
            let i = p.len() - 1;
            &&& 0 <= s.at <= p.len()
            &&& s.at <= i - 1 ==> plan::awaited(p, s) <= i - 1
            &&& s.at == i ==> plan::passed(p, replies, i - 1)
        }),
    decreases replies.len(),
{
    let p = profile_plan(q, host, provision, true, image);
    let s = plan::run(p, plan::beginning(), replies);
    let i = p.len() - 1;
    assert(p[i - 1].always);
    assert forall|j: int| 0 <= j < i - 1 implies plan::skips_at_most(
        #[trigger] p[j],
        i - 1 - j - 1,
    ) by {}
    if replies.len() > 0 {
        lemma_asked(q, host, provision, image, replies.drop_last());
        let before = plan::run(p, plan::beginning(), replies.drop_last());
        plan::passing_lasts(p, replies, i - 1);
        plan::awaiting_is_ahead(p, before);
    }
    plan::stops_at_always(p, s, i - 1);
}

/// The program that a profile launches.
pub open spec fn target(profile: Seq<char>) -> Seq<Seq<char>> {
    if profile == "opencode"@ {
        seq![
            "bash"@,
            "-lc"@,
            "export PATH=\"$HOME/.opencode/bin:$HOME/.local/bin:$PATH\"; exec opencode"@,
        ]
    } else {
        seq!["sh"@]
    }
}

/// The program that a profile launches.
pub fn target_args(profile_name: &str) -> (r: Vec<String>)
    ensures
        compose::texts(r@) == target(profile_name@),
{
    if compose::same(profile_name, "opencode") {
        compose::list3(
            "bash",
            "-lc",
            "export PATH=\"$HOME/.opencode/bin:$HOME/.local/bin:$PATH\"; exec opencode",
        )
    } else {
        compose::list1("sh")
    }
}

/// Whether the program that a profile launches needs a terminal.
pub fn profile_requires_tty(profile_name: &str) -> (r: bool)
    ensures
        r == (profile_name@ == "opencode"@),
{
    compose::same(profile_name, "opencode")
}

/// Why a name is not that of a container for a project.
pub open spec fn named_fault(id: Seq<char>) -> Option<Seq<char>> {
    if !edge::begins(id, "tnk-"@) {
        Some("invalid sandbox name '"@ + id + "': must start with 'tnk-'"@)
    } else if lima::serves(id) {
        Some("'"@ + id + "' is a services container, not a project sandbox"@)
    } else {
        None
    }
}

/// Accepts the names of containers for projects.
pub fn validate_named_sandbox(id: &str) -> (r: Result<(), Failure>)
    ensures
        types::fault(r) == named_fault(id@),
{
    if !edge::starts_with(id, "tnk-") {
        return Err(
            failure::failed(
                compose::concat3("invalid sandbox name '", id, "': must start with 'tnk-'"),
            ),
        );
    }
    if compose::same(id, "tnk-services") || compose::same(id, "tnk-searxng") {
        return Err(
            failure::failed(
                compose::concat3("'", id, "' is a services container, not a project sandbox"),
            ),
        );
    }
    Ok(())
}

/// The stages that stop a container that exists.
pub open spec fn stop_block(id: Seq<char>) -> Seq<StageView> {
    seq![
        running_probe(id).when_not_good(plan::informing("already stopped "@ + id, 1)),
        quiet(seq!["stop"@, id]).when_good(plan::informing("stopped "@ + id, 0)).when_bad(
            Effect::Stop("failed to stop container '"@ + id + "'"@),
        ),
    ]
}

fn stopping(id: &str) -> (r: Vec<Stage<String, Vec<String>>>)
    ensures
        plan::stages(r@) == stop_block(id@),
{
    let already = compose::concat("already stopped ", id);
    let stopped = compose::concat("stopped ", id);
    let fails = compose::concat3("failed to stop container '", id, "'");
    let mut v = plan::no_stages();
    plan::push_stage(&mut v, ask_running(id).otherwise(plan::informs(already.as_str(), 1)));
    plan::push_stage(
        &mut v,
        quietly(compose::list2("stop", id)).on_good(plan::informs(stopped.as_str(), 0)).on_bad(
            Effect::Stop(fails),
        ),
    );
    v
}

/// The stages that stop a container that was named by the user.
pub open spec fn named_block(id: Seq<char>) -> Seq<StageView> {
    match named_fault(id) {
        Some(e) => seq![lima::refusal(e)],
        None => seq![
            exists_probe(id).when_not_good(
                plan::warning("sandbox '"@ + id + "' does not exist"@, 2),
            ),
        ] + stop_block(id),
    }
}

fn stopping_named(id: &str) -> (r: Vec<Stage<String, Vec<String>>>)
    ensures
        plan::stages(r@) == named_block(id@),
{
    let mut v = plan::no_stages();
    match validate_named_sandbox(id) {
        Err(e) => {
            plan::push_stage(&mut v, plan::stage(Task::Nothing).on_good(Effect::Stop(e.message)));
        },
        Ok(_) => {
            let missing = compose::concat3("sandbox '", id, "' does not exist");
            plan::push_stage(&mut v, ask_exists(id).otherwise(plan::warns(missing.as_str(), 2)));
            plan::push_stages(&mut v, stopping(id));
        },
    }
    v
}

/// The plan that stops containers one after the other; `named` tells whether the user named them.
pub open spec fn stop_plan(ids: Seq<Seq<char>>, named: bool) -> Seq<StageView>
    decreases ids.len(),
{
    if ids.len() == 0 {
        Seq::empty()
    } else {
        stop_plan(ids.drop_last(), named) + (if named {
            named_block(ids.last())
        } else {
            stop_block(ids.last())
        })
    }
}

fn stopping_all(ids: &Vec<String>, named: bool) -> (r: Vec<Stage<String, Vec<String>>>)
    ensures
        plan::stages(r@) == stop_plan(compose::texts(ids@), named),
{
    let ghost all = compose::texts(ids@);
    let mut v = plan::no_stages();
    let mut i: usize = 0;
    while i < ids.len()
        invariant
            i <= ids@.len(),
            all == compose::texts(ids@),
            plan::stages(v@) == stop_plan(all.take(i as int), named),
        decreases ids@.len() - i,
    {
        assert(all.take(i + 1).drop_last() =~= all.take(i as int));
        assert(all.take(i + 1).last() == ids@[i as int]@);
        if named {
            plan::push_stages(&mut v, stopping_named(ids[i].as_str()));
        } else {
            plan::push_stages(&mut v, stopping(ids[i].as_str()));
        }
        i += 1;
    }
    assert(all.take(i as int) =~= all);
    v
}

/// The plan that stops the container of the current directory.
pub open spec fn stop_current_plan(id: Seq<char>) -> Seq<StageView> {
    seq![exists_probe(id).when_not_good(Effect::Go(2))] + stop_block(id)
}

/// The plan that stops the container of the current directory.
pub fn stop_container(id: &str) -> (r: Vec<Stage<String, Vec<String>>>)
    ensures
        plan::stages(r@) == stop_current_plan(id@),
{
    let mut v = plan::no_stages();
    plan::push_stage(&mut v, ask_exists(id).otherwise(Effect::Go(2)));
    plan::push_stages(&mut v, stopping(id));
    v
}

/// The plan that stops a container within some seconds, if it runs.
pub fn stop_container_with_timeout(id: &str, timeout_secs: u64) -> (r: Vec<
    Stage<String, Vec<String>>,
>)
    ensures
        plan::stages(r@) == seq![
            running_probe(id@).when_not_good(Effect::Go(1)),
            quiet(
                seq!["stop"@, "--time"@, number::decimal(timeout_secs as nat), id@],
            ).when_bad(Effect::Stop("failed to stop container '"@ + id@ + "'"@)),
        ],
{
    let seconds = number::to_decimal(timeout_secs);
    let fails = compose::concat3("failed to stop container '", id, "'");
    let mut v = plan::no_stages();
    plan::push_stage(&mut v, ask_running(id).otherwise(Effect::Go(1)));
    plan::push_stage(
        &mut v,
        quietly(compose::list4("stop", "--time", seconds.as_str(), id)).on_bad(
            Effect::Stop(fails),
        ),
    );
    v
}

/// Whether a container may be deleted; if not, the exit code and the line that end the program.
pub fn may_delete(force: bool, terminal: bool) -> (r: Result<(), (ExitCode, String)>)
    ensures
        match r {
            Ok(_) => force || terminal,
            Err(p) => !force && !terminal && p.0 == ExitCode::PermissionDenied && p.1@
                == "error: terminal required for deletion, use --force to skip"@,
        },
{
    if force || terminal {
        Ok(())
    } else {
        Err(
            (
                ExitCode::PermissionDenied,
                "error: terminal required for deletion, use --force to skip".to_owned(),
            ),
        )
    }
}

/// The plan that deletes a container: it is stopped first if it runs, unless it is deleted by
/// force.
pub open spec fn delete_plan(id: Seq<char>, force: bool) -> Seq<StageView> {
    let gone = quiet(
        if force {
            seq!["delete"@, "--force"@, id]
        } else {
            seq!["delete"@, id]
        },
    ).when_good(plan::informing("deleted "@ + id, 0)).when_bad(
        Effect::Stop("failed to delete container '"@ + id + "'"@),
    );
    if force {
        seq![exists_probe(id).when_not_good(Effect::Go(1)), gone]
    } else {
        seq![
            exists_probe(id).when_not_good(Effect::Go(3)),
            running_probe(id).when_not_good(Effect::Go(1)),
            quiet(seq!["stop"@, id]).when_bad(
                Effect::Stop("failed to stop container '"@ + id + "' before deletion"@),
            ),
            gone,
        ]
    }
}

/// The plan that deletes a container.
pub fn delete_container_impl(id: &str, force: bool) -> (r: Vec<Stage<String, Vec<String>>>)
    ensures
        plan::stages(r@) == delete_plan(id@, force),
{
    let args = if force {
        compose::list3("delete", "--force", id)
    } else {
        compose::list2("delete", id)
    };
    let deleted = compose::concat("deleted ", id);
    let fails = compose::concat3("failed to delete container '", id, "'");
    let no_stop = compose::concat3("failed to stop container '", id, "' before deletion");
    let gone = quietly(args).on_good(plan::informs(deleted.as_str(), 0)).on_bad(
        Effect::Stop(fails),
    );
    let mut v = plan::no_stages();
    if force {
        plan::push_stage(&mut v, ask_exists(id).otherwise(Effect::Go(1)));
    } else {
        plan::push_stage(&mut v, ask_exists(id).otherwise(Effect::Go(3)));
        plan::push_stage(&mut v, ask_running(id).otherwise(Effect::Go(1)));
        plan::push_stage(
            &mut v,
            quietly(compose::list2("stop", id)).on_bad(Effect::Stop(no_stop)),
        );
    }
    plan::push_stage(&mut v, gone);
    v
}

/// Whether an item tells of a container that the program made for a project.
pub open spec fn is_project(item: ContainerListItem) -> bool {
    &&& item.any_id() matches Some(id) && lima::is_managed(id)
    &&& item.label_text("tnk.managed"@) == Some("true"@)
    &&& item.label_text("tnk.owner"@) == Some("project"@)
}

fn label_is(item: &ContainerListItem, key: &str, value: &str) -> (r: bool)
    ensures
        r == (item.label_text(key@) == Some(value@)),
{
    match item.label(key) {
        Some(s) => compose::same(s, value),
        None => false,
    }
}

/// The ids of the containers that the program made for projects.
pub open spec fn project_ids(items: Seq<ContainerListItem>) -> Seq<Seq<char>>
    decreases items.len(),
{
    if items.len() == 0 {
        Seq::empty()
    } else if is_project(items.last()) {
        project_ids(items.drop_last()).push(items.last().any_id()->0)
    } else {
        project_ids(items.drop_last())
    }
}

/// The containers that the program made for projects, each once and in ascending order.
pub fn discover_managed_project_sandboxes(items: &Vec<ContainerListItem>) -> (r: Vec<String>)
    ensures
        order::sorted_set(project_ids(items@), compose::texts(r@)),
{
    let mut v = compose::no_texts();
    let mut i: usize = 0;
    while i < items.len()
        invariant
            i <= items@.len(),
            compose::texts(v@) == project_ids(items@.take(i as int)),
        decreases items@.len() - i,
    {
        assert(items@.take(i + 1).drop_last() =~= items@.take(i as int));
        assert(items@.take(i + 1).last() == items@[i as int]);
        match items[i].id() {
            Some(id) => {
                if lima::managed(id) && label_is(&items[i], "tnk.managed", "true") && label_is(
                    &items[i],
                    "tnk.owner",
                    "project",
                ) {
                    compose::push_text(&mut v, id);
                }
            },
            None => {},
        }
        i += 1;
    }
    assert(items@.take(i as int) =~= items@);
    order::sort_dedup(&v)
}

/// The sandbox that an item tells of.
pub open spec fn entry_of(item: ContainerListItem) -> Option<(Seq<char>, Seq<char>, Seq<char>)> {
    match item.any_id() {
        Some(id) => if lima::is_managed(id) {
            Some(
                (
                    id,
                    match item.any_state() {
                        Some(s) => s,
                        None => "unknown"@,
                    },
                    "/workspace"@,
                ),
            )
        } else {
            None
        },
        None => None,
    }
}

/// The sandboxes that some items tell of.
pub open spec fn entries_of(items: Seq<ContainerListItem>) -> Seq<
    (Seq<char>, Seq<char>, Seq<char>),
>
    decreases items.len(),
{
    if items.len() == 0 {
        Seq::empty()
    } else {
        match entry_of(items.last()) {
            Some(e) => entries_of(items.drop_last()).push(e),
            None => entries_of(items.drop_last()),
        }
    }
}

fn read_entries(items: &Vec<ContainerListItem>) -> (r: Vec<SandboxEntry>)
    ensures
        lima::entry_parts(r@) == entries_of(items@),
{
    let mut v: Vec<SandboxEntry> = Vec::new();
    let mut i: usize = 0;
    assert(lima::entry_parts(v@) =~= entries_of(items@.take(0)));
    while i < items.len()
        invariant
            i <= items@.len(),
            lima::entry_parts(v@) == entries_of(items@.take(i as int)),
        decreases items@.len() - i,
    {
        assert(items@.take(i + 1).drop_last() =~= items@.take(i as int));
        assert(items@.take(i + 1).last() == items@[i as int]);
        match items[i].id() {
            Some(id) => {
                if lima::managed(id) {
                    let status = match items[i].status_state() {
                        Some(s) => s.to_owned(),
                        None => "unknown".to_owned(),
                    };
                    let ghost before = v@;
                    let e = SandboxEntry {
                        id: id.to_owned(),
                        status,
                        mount: "/workspace".to_owned(),
                    };
                    v.push(e);
                    assert(lima::entry_parts(v@) =~= lima::entry_parts(before).push(e.parts()));
                }
            },
            None => {},
        }
        i += 1;
    }
    assert(items@.take(i as int) =~= items@);
    v
}

/// The sandboxes that the list of all containers tells of, or why they cannot be told: there is no
/// such list.
pub fn list_containers(items: &Option<Vec<ContainerListItem>>) -> (r: Result<
    Vec<SandboxEntry>,
    Failure,
>)
    ensures
        match r {
            Ok(v) => *items is Some && lima::entry_parts(v@) == entries_of(items->0@),
            Err(e) => *items is None && e@
                == "failed to list containers (run 'container system start' if the service is not running)"@,
        },
{
    match items {
        Some(v) => Ok(read_entries(v)),
        None => Err(
            failure::failure(
                "failed to list containers (run 'container system start' if the service is not running)",
            ),
        ),
    }
}

/// The warning that containers that have been left behind cannot be looked for.
pub open spec fn cleanup_fault(cache_present: bool, listed: bool) -> Option<Seq<char>> {
    if !cache_present {
        Some(
            "warning: sandbox cache directory is missing; skipping untracked cleanup to avoid accidental deletion"@,
        )
    } else if !listed {
        Some("warning: failed to list containers for cleanup"@)
    } else {
        None
    }
}

/// What is said of a container that can have been left behind. `recorded` tells whether its
/// profiles are on record.
pub open spec fn leftover_note(item: ContainerListItem, recorded: bool) -> Option<Seq<char>> {
    match item.any_id() {
        None => None,
        Some(id) => if !lima::is_managed(id) {
            None
        } else if !is_project(item) {
            Some("info: skipping unlabeled sandbox container "@ + id)
        } else if item.profile_labelled() || recorded {
            None
        } else if container_utils::runs(item) {
            Some("info: skipping running untracked sandbox container "@ + id)
        } else {
            Some(
                "warning: detected unlabeled sandbox container "@ + id
                    + " without profile cache; skipping auto-delete for safety"@,
            )
        },
    }
}

impl ContainerBackend {
    /// The plan that makes the container of a project run.
    pub fn start(id: &str, settings: &ContainerProfileSettings) -> (r: Vec<
        Stage<String, Vec<String>>,
    >)
        ensures
            plan::stages(r@) == bring_up(id@, settings@),
    {
        bringing_up(id, settings)
    }

    /// What a request to stop sandboxes comes to: all containers for projects, else those that
    /// are named, else that of the current directory.
    pub fn stop(names: &Vec<String>, all: bool, items: &Vec<ContainerListItem>) -> (r:
        lima::StopRequest)
        ensures
            match r {
                lima::StopRequest::Nothing(line) => all && project_ids(items@).len() == 0 && line@
                    == "no managed sandbox containers found"@,
                lima::StopRequest::Plan(v) => {
                    &&& all ==> project_ids(items@).len() > 0
                    &&& !all ==> names@.len() > 0
                    &&& exists|ids: Seq<Seq<char>>|
                        {
                            &&& #[trigger] order::sorted_set(
                                stop_targets(compose::texts(names@), all, items@),
                                ids,
                            )
                            &&& plan::stages(v@) == stop_plan(ids, !all)
                        }
                },
                lima::StopRequest::Current => !all && names@.len() == 0,
            },
    {
        if all {
            let ids = discover_managed_project_sandboxes(items);
            let ghost found = project_ids(items@);
            if ids.len() == 0 {
                proof {
                    if found.len() > 0 {
                        assert(found.contains(found[0]));
                        assert(compose::texts(ids@).contains(found[0]));
                    }
                }
                return lima::StopRequest::Nothing(
                    "no managed sandbox containers found".to_owned(),
                );
            }
            assert(order::sorted_set(
                stop_targets(compose::texts(names@), all, items@),
                compose::texts(ids@),
            ));
            assert(compose::texts(ids@).contains(compose::texts(ids@)[0]));
            assert(found.contains(compose::texts(ids@)[0]));
            return lima::StopRequest::Plan(stopping_all(&ids, false));
        }
        if names.len() > 0 {
            let unique = order::sort_dedup(names);
            assert(order::sorted_set(
                stop_targets(compose::texts(names@), all, items@),
                compose::texts(unique@),
            ));
            return lima::StopRequest::Plan(stopping_all(&unique, true));
        }
        lima::StopRequest::Current
    }

    /// The containers that can have been left behind, or the warning that they cannot be looked for.
    pub fn cleanup_candidates(
        cache_present: bool,
        items: Option<Vec<ContainerListItem>>,
    ) -> (r: Result<Vec<ContainerListItem>, String>)
        ensures
            match r {
                Ok(v) => cleanup_fault(cache_present, items is Some) is None && items == Some(v),
                Err(line) => cleanup_fault(cache_present, items is Some) == Some(line@),
            },
    {
        if !cache_present {
            return Err(
                "warning: sandbox cache directory is missing; skipping untracked cleanup to avoid accidental deletion".to_owned(),
            );
        }
        match items {
            Some(v) => Ok(v),
            None => Err("warning: failed to list containers for cleanup".to_owned()),
        }
    }

    /// What is said of a container that can have been left behind. It is never deleted.
    pub fn cleanup_untracked(item: &ContainerListItem, recorded: bool, verbose: bool) -> (r: Option<
        String,
    >)
        ensures
            compose::opt_text(r) == (if verbose {
                leftover_note(*item, recorded)
            } else {
                None
            }),
    {
        if !verbose {
            return None;
        }
        let id = match item.id() {
            Some(id) => id,
            None => return None,
        };
        if !lima::managed(id) {
            return None;
        }
        if !(label_is(item, "tnk.managed", "true") && label_is(item, "tnk.owner", "project")) {
            return Some(compose::concat("info: skipping unlabeled sandbox container ", id));
        }
        if item.has_profile_label() || recorded {
            return None;
        }
        if container_utils::item_runs(item) {
            return Some(
                compose::concat("info: skipping running untracked sandbox container ", id),
            );
        }
        Some(
            compose::concat3(
                "warning: detected unlabeled sandbox container ",
                id,
                " without profile cache; skipping auto-delete for safety",
            ),
        )
    }
}

/// The containers that a request to stop sandboxes is about, in any order.
pub open spec fn stop_targets(
    names: Seq<Seq<char>>,
    all: bool,
    items: Seq<ContainerListItem>,
) -> Seq<Seq<char>> {
    if all {
        project_ids(items)
    } else {
        names
    }
}

/// What a build of a baked image works with.
pub struct GoldenNames {
    /// The container that is provisioned and then exported.
    pub builder: String,
    pub image_tag: String,
    /// The directory that the export goes to.
    pub temp_dir: String,
}

/// Why no image can be baked for a profile.
pub open spec fn golden_fault(profile: Seq<char>) -> Option<Seq<char>> {
    if edge::trimmed(profile).len() == 0 {
        Some("profile cannot be empty"@)
    } else if workspace::kept(profile).len() == 0 {
        Some("invalid profile name"@)
    } else {
        None
    }
}

/// The names that a build of a baked image works with, or why there is none.
pub fn golden_names(profile_name: &str, temp_root: &str) -> (r: Result<GoldenNames, Failure>)
    ensures
        types::fault(r) == golden_fault(profile_name@),
        r matches Ok(n) ==> {
            &&& n.builder@ == "tnk-builder-"@ + workspace::kept(profile_name@)
            &&& n.image_tag@ == container::golden_tag(profile_name@)
            &&& n.temp_dir@ == path::below(
                temp_root@,
                "tnk-image-build-"@ + workspace::kept(profile_name@),
            )
        },
{
    let trimmed = edge::trim(profile_name);
    if trimmed.as_str().is_empty() {
        return Err(failure::failure("profile cannot be empty"));
    }
    match workspace::sanitize_project_name(profile_name) {
        None => Err(failure::failure("invalid profile name")),
        Some(name) => {
            let dir = compose::concat("tnk-image-build-", name.as_str());
            Ok(
                GoldenNames {
                    builder: compose::concat("tnk-builder-", name.as_str()),
                    image_tag: container::golden_image_tag(profile_name),
                    temp_dir: path::join_path(temp_root, dir.as_str()),
                },
            )
        },
    }
}

/// The settings of the container that an image is baked in: it mounts nothing and has the network.
pub open spec fn builder_settings(s: SettingsView) -> SettingsView {
    SettingsView {
        mounts: Seq::empty(),
        guest: "/workspace"@,
        network_none: false,
        golden: false,
        ..s
    }
}

/// The model that a baked image is told of: the configured preset, else the model of the runtime.
pub fn golden_model(preset: &Option<String>, engine_name: &str) -> (r: String)
    ensures
        r@ == (match preset {
            Some(p) => p@,
            None => match engine::runtime_named(engine_name@) {
                Some(s) => s.default_model_id,
                None => engine::llama().default_model_id,
            },
        }),
{
    match preset {
        Some(p) => p.clone(),
        None => engine::default_model_for_runtime(engine_name).to_owned(),
    }
}

/// The settings of the container that an image is baked in.
pub fn golden_settings(settings: ContainerProfileSettings) -> (r: ContainerProfileSettings)
    ensures
        r@ == builder_settings(settings@),
{
    let r = ContainerProfileSettings {
        image: settings.image,
        workspace_guest_path: "/workspace".to_owned(),
        mounts: Vec::new(),
        network_none: false,
        cpus: settings.cpus,
        memory: settings.memory,
        uses_golden_image: false,
    };
    assert(container::mount_views(r.mounts@) =~= Seq::<container::MountView>::empty());
    r
}

/// The plan that clears away what an earlier build left and makes the directory for this one.
pub open spec fn golden_prepare(builder: Seq<char>, temp_dir: Seq<char>) -> Seq<StageView> {
    seq![
        exists_probe(builder).when_not_good(Effect::Go(1)),
        quiet(seq!["delete"@, "--force"@, builder]).when_not_good(Effect::Go(0)),
        plan::stage_of(Task::Exists(temp_dir)).when_not_good(Effect::Go(1)),
        plan::stage_of(Task::RemoveDir(temp_dir)).when_not_good(Effect::Go(0)),
        plan::stage_of(Task::MakeDir(temp_dir)),
    ]
}

/// The plan that clears away what an earlier build left and makes the directory for this one.
pub fn prepare_golden_build(n: &GoldenNames) -> (r: Vec<Stage<String, Vec<String>>>)
    ensures
        plan::stages(r@) == golden_prepare(n.builder@, n.temp_dir@),
{
    let mut v = plan::no_stages();
    plan::push_stage(&mut v, ask_exists(n.builder.as_str()).otherwise(Effect::Go(1)));
    plan::push_stage(
        &mut v,
        quietly(compose::list3("delete", "--force", n.builder.as_str())).otherwise(Effect::Go(0)),
    );
    plan::push_stage(
        &mut v,
        plan::stage(Task::Exists(n.temp_dir.clone())).otherwise(Effect::Go(1)),
    );
    plan::push_stage(
        &mut v,
        plan::stage(Task::RemoveDir(n.temp_dir.clone())).otherwise(Effect::Go(0)),
    );
    plan::push_stage(&mut v, plan::stage(Task::MakeDir(n.temp_dir.clone())));
    v
}

/// The stages that make the builder run.
pub open spec fn golden_up(
    builder: Seq<char>,
    s: SettingsView,
    uid: u32,
    gid: u32,
) -> Seq<StageView> {
    (seq![
        quiet(container::create_args(builder, s)).when_bad(
            Effect::Stop("failed to create builder container '"@ + builder + "'"@),
        ),
        quiet(seq!["start"@, builder]).when_bad(
            Effect::Stop("failed to start builder container '"@ + builder + "'"@),
        ),
    ] + baseline(builder)).push(sync_stage(builder, uid, gid))
}

/// The stages that turn a provisioned builder into an image.
pub open spec fn golden_export(
    builder: Seq<char>,
    image: Seq<char>,
    temp_dir: Seq<char>,
) -> Seq<StageView> {
    let file = path::below(temp_dir, "Containerfile"@);
    seq![
        quiet(seq!["stop"@, builder]).when_bad(
            Effect::Stop("failed to stop builder container before export"@),
        ),
        shown(
            seq!["export"@, "--output"@, path::below(temp_dir, "rootfs.tar"@), builder],
        ).when_bad(Effect::Stop("failed to export builder container filesystem"@)),
        plan::stage_of(Task::Write(file, "FROM scratch\nADD rootfs.tar /\n"@)),
        captured(
            seq![
                "build"@,
                "--platform"@,
                "linux/arm64"@,
                "--file"@,
                file,
                "--tag"@,
                image,
                temp_dir,
            ],
        ).when_good(plan::informing("built golden image "@ + image, 0)).when_bad(
            Effect::Stop("failed to build golden image '"@ + image + "'"@),
        ).excused_by(
            Hearing::LoweredBoth,
            seq!["rosetta"@],
            Effect::Stop(
                "golden image build failed because the container backend buildkit requires Rosetta on this host, even with 'linux/arm64'. This is a backend limitation; use prebuilt arm64 images or install Rosetta for buildkit"@,
            ),
        ),
    ]
}

/// The stages that clear up after a build, whatever came of it.
pub open spec fn golden_cleanup(builder: Seq<char>, temp_dir: Seq<char>) -> Seq<StageView> {
    seq![
        exists_probe(builder).when_not_good(Effect::Go(1)).in_any_case(),
        quiet(seq!["delete"@, "--force"@, builder]).when_not_good(Effect::Go(0)).in_any_case(),
        plan::stage_of(Task::RemoveDir(temp_dir)).when_not_good(Effect::Go(0)).in_any_case(),
    ]
}

/// The plan that bakes an image.
pub open spec fn golden_plan(
    builder: Seq<char>,
    image: Seq<char>,
    temp_dir: Seq<char>,
    s: SettingsView,
    uid: u32,
    gid: u32,
    q: ProvisionRequest,
    host: Result<String, Failure>,
) -> Seq<StageView> {
    golden_up(builder, s, uid, gid) + provision_stages(q, host) + golden_export(builder, image, temp_dir) + golden_cleanup(builder, temp_dir)
}

fn exporting(n: &GoldenNames) -> (r: Vec<Stage<String, Vec<String>>>)
    ensures
        plan::stages(r@) == golden_export(n.builder@, n.image_tag@, n.temp_dir@),
{
    let builder = n.builder.as_str();
    let image = n.image_tag.as_str();
    let dir = n.temp_dir.as_str();
    let file = path::join_path(dir, "Containerfile");
    let tar = path::join_path(dir, "rootfs.tar");
    let built = compose::concat("built golden image ", image);
    let fails = compose::concat3("failed to build golden image '", image, "'");
    let mut v = plan::no_stages();
    plan::push_stage(
        &mut v,
        quietly(compose::list2("stop", builder)).on_bad(
            plan::stops("failed to stop builder container before export"),
        ),
    );
    plan::push_stage(
        &mut v,
        showing(compose::list4("export", "--output", tar.as_str(), builder)).on_bad(
            plan::stops("failed to export builder container filesystem"),
        ),
    );
    plan::push_stage(
        &mut v,
        plan::stage(
            Task::Write(file.clone(), "FROM scratch\nADD rootfs.tar /\n".to_owned()),
        ),
    );
    plan::push_stage(
        &mut v,
        capturing(
            compose::list8(
                "build",
                "--platform",
                "linux/arm64",
                "--file",
                file.as_str(),
                "--tag",
                image,
                dir,
            ),
        ).on_good(plan::informs(built.as_str(), 0)).on_bad(Effect::Stop(fails)).excuses(
            Hearing::LoweredBoth,
            compose::list1("rosetta"),
            plan::stops(
                "golden image build failed because the container backend buildkit requires Rosetta on this host, even with 'linux/arm64'. This is a backend limitation; use prebuilt arm64 images or install Rosetta for buildkit",
            ),
        ),
    );
    v
}

/// The plan that bakes an image.
pub fn build_golden_image_impl(
    n: &GoldenNames,
    settings: &ContainerProfileSettings,
    uid: u32,
    gid: u32,
    q: &ProvisionRequest,
    host: &Result<String, Failure>,
) -> (r: Vec<Stage<String, Vec<String>>>)
    ensures
        plan::stages(r@) == golden_plan(
            n.builder@,
            n.image_tag@,
            n.temp_dir@,
            settings@,
            uid,
            gid,
            *q,
            *host,
        ),
{
    let builder = n.builder.as_str();
    let create = container::create_args_for_settings(builder, settings);
    let no_create = compose::concat3("failed to create builder container '", builder, "'");
    let no_start = compose::concat3("failed to start builder container '", builder, "'");
    let mut v = plan::no_stages();
    plan::push_stage(&mut v, quietly(create).on_bad(Effect::Stop(no_create)));
    plan::push_stage(
        &mut v,
        quietly(compose::list2("start", builder)).on_bad(Effect::Stop(no_start)),
    );
    plan::push_stages(&mut v, ensure_container_runtime_baseline(builder));
    plan::push_stage(&mut v, sync_container_user_ids(builder, uid, gid));
    assert(plan::stages(v@) =~= golden_up(builder@, settings@, uid, gid));
    plan::push_stages(&mut v, provisioning(q, host));
    plan::push_stages(&mut v, exporting(n));
    let mut w = plan::no_stages();
    plan::push_stage(&mut w, ask_exists(builder).otherwise(Effect::Go(1)).regardless());
    plan::push_stage(
        &mut w,
        quietly(compose::list3("delete", "--force", builder)).otherwise(
            Effect::Go(0),
        ).regardless(),
    );
    plan::push_stage(
        &mut w,
        plan::stage(Task::RemoveDir(n.temp_dir.clone())).otherwise(Effect::Go(0)).regardless(),
    );
    plan::push_stages(&mut v, w);
    v
}

/// A build always clears up: when it is finished, the builder has been looked for and the
/// directory removed, whatever came of the build.
pub proof fn builds_clear_up(
    builder: Seq<char>,
    image: Seq<char>,
    temp_dir: Seq<char>,
    s: SettingsView,
    uid: u32,
    gid: u32,
    q: ProvisionRequest,
    host: Result<String, Failure>,
    replies: Seq<Reply>,
)
    ensures
        ({
            let p = golden_plan(builder, image, temp_dir, s, uid, gid, q, host);
            plan::finished(p, plan::run(p, plan::beginning(), replies)) ==> {
                &&& plan::performed(p, replies, p.len() - 3)
                &&& plan::performed(p, replies, p.len() - 1)
                &&& p[p.len() - 3].task == plan::TaskView::ListContainers
                &&& p[p.len() - 1].task == plan::TaskView::RemoveDir(
                    temp_dir,
                )
            }
        }),
{
    let p = golden_plan(builder, image, temp_dir, s, uid, gid, q, host);
    let n = p.len();
    assert forall|j: int| 0 <= j < n - 3 implies plan::skips_at_most(
        #[trigger] p[j],
        n - 3 - j - 1,
    ) by {}
    plan::cleanup_is_performed(p, replies, n - 3);
    assert forall|j: int| 0 <= j < n - 1 implies plan::skips_at_most(
        #[trigger] p[j],
        n - 1 - j - 1,
    ) by {}
    plan::cleanup_is_performed(p, replies, n - 1);
}

/// Whether a run of a plan found that a container does not exist or does not run, or stopped it
/// with success.
pub open spec fn is_settled(p: Seq<StageView>, replies: Seq<Reply>, id: Seq<char>) -> bool {
    ||| plan::replied(p, replies, Task::ListContainers, Want::Lists(id), false)
    ||| plan::replied(p, replies, Task::ListContainers, Want::ListsRunning(id), false)
    ||| plan::replied(
        p,
        replies,
        plan::running("container"@, seq!["stop"@, id], plan::UNLIMITED, Output::Discarded),
        Want::Success,
        true,
    )
}

proof fn lemma_replied(p: Seq<StageView>, replies: Seq<Reply>, k: int, from: int, to: int)
    requires
        0 <= from < to <= p.len(),
        plan::leaves(p, replies, k, from, to),
    ensures
        ({
            let at = plan::run(p, plan::beginning(), replies.take(k)).at;
            let e = plan::effect_of(p[at], replies[k]);
            &&& from <= at < to
            &&& !plan::gives_up(e)
            &&& at + 1 + plan::skipped(e) >= to
            &&& plan::replied(
                p,
                replies,
                p[at].task,
                p[at].want,
                plan::is_good(p[at].want, replies[k]),
            )
        }),
{
    plan::leaving_is_told(p, replies, k, from, to);
}

/// The stages that stop one of some containers.
spec fn block(id: Seq<char>, named: bool) -> Seq<StageView> {
    if named {
        named_block(id)
    } else {
        stop_block(id)
    }
}

proof fn lemma_blocks_are_closed(ids: Seq<Seq<char>>, named: bool)
    ensures
        forall|j: int|
            0 <= j < stop_plan(ids, named).len() ==> plan::skips_at_most(
                #[trigger] stop_plan(ids, named)[j],
                stop_plan(ids, named).len() - j - 1,
            ),
    decreases ids.len(),
{
    if ids.len() > 0 {
        let p = stop_plan(ids, named);
        let earlier = stop_plan(ids.drop_last(), named);
        lemma_blocks_are_closed(ids.drop_last(), named);
        assert forall|j: int| 0 <= j < p.len() implies plan::skips_at_most(
            #[trigger] p[j],
            p.len() - j - 1,
        ) by {
            if j < earlier.len() {
                assert(p[j] == earlier[j]);
            } else {
                let n = j - earlier.len();
                let b = block(ids.last(), named);
                assert(p[j] == b[n]);
                if named && named_fault(ids.last()) is None && n > 0 {
                    assert(b[n] == stop_block(ids.last())[n - 1]);
                }
            }
        }
    }
}

proof fn lemma_stop_plan(ids: Seq<Seq<char>>, named: bool, i: int)
    requires
        0 <= i < ids.len(),
    ensures
        ({
            let p = stop_plan(ids, named);
            let from = stop_plan(ids.take(i), named).len() as int;
            let to = from + block(ids[i], named).len();
            &&& to <= p.len()
            &&& p.subrange(from, to) == block(ids[i], named)
            &&& forall|j: int| 0 <= j < from ==> plan::skips_at_most(#[trigger] p[j], from - j - 1)
        }),
    decreases ids.len(),
{
    let p = stop_plan(ids, named);
    let earlier = stop_plan(ids.drop_last(), named);
    if i == ids.len() - 1 {
        assert(ids.take(i) =~= ids.drop_last());
        assert(p.subrange(earlier.len() as int, p.len() as int) =~= block(ids[i], named));
        lemma_blocks_are_closed(ids.drop_last(), named);
        assert forall|j: int| 0 <= j < earlier.len() implies plan::skips_at_most(
            #[trigger] p[j],
            earlier.len() - j - 1,
        ) by {
            assert(p[j] == earlier[j]);
        }
    } else {
        lemma_stop_plan(ids.drop_last(), named, i);
        assert(ids.drop_last().take(i) =~= ids.take(i));
        let from = stop_plan(ids.take(i), named).len() as int;
        let to = from + block(ids[i], named).len();
        assert(p.subrange(from, to) =~= earlier.subrange(from, to));
        assert forall|j: int| 0 <= j < from implies plan::skips_at_most(
            #[trigger] p[j],
            from - j - 1,
        ) by {
            assert(p[j] == earlier[j]);
        }
    }
}

/// When a plan that stops containers succeeds, every one of them was found not to exist or not to
/// run, or was stopped with success.
#[verifier::rlimit(40)]
pub proof fn containers_are_stopped(
    ids: Seq<Seq<char>>,
    named: bool,
    replies: Seq<Reply>,
    i: int,
)
    requires
        0 <= i < ids.len(),
        plan::succeeded(
            stop_plan(ids, named),
            plan::run(stop_plan(ids, named), plan::beginning(), replies),
        ),
    ensures
        is_settled(stop_plan(ids, named), replies, ids[i]),
        named ==> edge::begins(ids[i], "tnk-"@) && ids[i] != "tnk-services"@ && ids[i]
            != "tnk-searxng"@,
{
    let p = stop_plan(ids, named);
    let id = ids[i];
    let from = stop_plan(ids.take(i), named).len() as int;
    let b = block(id, named);
    let to = from + b.len();
    lemma_stop_plan(ids, named, i);
    plan::successes_are_complete(p, replies);
    plan::stretches_are_crossed(p, replies, from, to);
    let k = choose|k: int| #[trigger] plan::leaves(p, replies, k, from, to);
    lemma_replied(p, replies, k, from, to);
    let at = plan::run(p, plan::beginning(), replies.take(k)).at;
    assert(p.subrange(from, to)[at - from] == p[at]);
    assert(p[at] == b[at - from]);
    if named {
        assert(named_fault(id) is None);
        if at > from {
            assert(p[at] == stop_block(id)[at - from - 1]);
        }
    }
}

/// When the plan that stops the container of the current directory succeeds, the container was found
/// not to exist or not to run, or was stopped with success.
#[verifier::rlimit(40)]
pub proof fn current_containers_are_stopped(id: Seq<char>, replies: Seq<Reply>)
    requires
        plan::succeeded(
            stop_current_plan(id),
            plan::run(stop_current_plan(id), plan::beginning(), replies),
        ),
    ensures
        is_settled(stop_current_plan(id), replies, id),
{
    let p = stop_current_plan(id);
    plan::successes_are_complete(p, replies);
    plan::stretches_are_crossed(p, replies, 0, 3);
    let k = choose|k: int| #[trigger] plan::leaves(p, replies, k, 0, 3);
    lemma_replied(p, replies, k, 0, 3);
}

/// A container that exists is deleted: when the plan that deletes it succeeds, the container tool
/// has deleted it with success. If it does not exist, nothing more is done.
#[verifier::rlimit(40)]
pub proof fn containers_are_deleted(id: Seq<char>, force: bool, replies: Seq<Reply>)
    requires
        replies.len() > 0,
    ensures
        delete_plan(id, force)[0].task == plan::TaskView::ListContainers,
        plan::succeeded(
            delete_plan(id, force),
            plan::run(delete_plan(id, force), plan::beginning(), replies),
        ) && plan::is_good(Want::Lists(id), replies[0]) ==> plan::replied(
            delete_plan(id, force),
            replies,
            plan::running(
                "container"@,
                if force {
                    seq!["delete"@, "--force"@, id]
                } else {
                    seq!["delete"@, id]
                },
                plan::UNLIMITED,
                Output::Discarded,
            ),
            Want::Success,
            true,
        ),
        !plan::is_good(Want::Lists(id), replies[0]) ==> plan::succeeded(
            delete_plan(id, force),
            plan::run(delete_plan(id, force), plan::beginning(), replies.take(1)),
        ),
{
    let p = delete_plan(id, force);
    let n = p.len() as int;
    if plan::succeeded(p, plan::run(p, plan::beginning(), replies)) && plan::is_good(
        Want::Lists(id),
        replies[0],
    ) {
        plan::successes_are_complete(p, replies);
        plan::stretches_are_crossed(p, replies, 0, n);
        let k = choose|k: int| #[trigger] plan::leaves(p, replies, k, 0, n);
        lemma_replied(p, replies, k, 0, n);
        plan::plans_end(p, replies.take(k));
        let at = plan::run(p, plan::beginning(), replies.take(k)).at;
        assert(at == 0 ==> k == 0);
        assert(at == n - 1);
    }
    assert(replies.take(1).drop_last() =~= Seq::<Reply>::empty());
    assert(plan::run(p, plan::beginning(), replies.take(1).drop_last()) == plan::beginning());
    assert(plan::run(p, plan::beginning(), replies.take(1)) == plan::after(
        p,
        plan::beginning(),
        replies[0],
    ));
}

/// Before a container is deleted without force it was found not to run, or it was stopped.
#[verifier::rlimit(40)]
pub proof fn containers_are_stopped_before_they_are_deleted(id: Seq<char>, replies: Seq<Reply>)
    requires
        plan::is_next(
            delete_plan(id, false),
            replies,
            plan::running(
                "container"@,
                seq!["delete"@, id],
                plan::UNLIMITED,
                Output::Discarded,
            ),
        ),
    ensures
        is_settled(delete_plan(id, false), replies, id),
{
    let p = delete_plan(id, false);
    let s = plan::run(p, plan::beginning(), replies);
    let at = plan::awaited(p, s);
    plan::plans_end(p, replies);
    reveal_strlit("delete");
    reveal_strlit("stop");
    assert("delete"@.len() == 6 && "stop"@.len() == 4);
    assert(p[at].task->args[0] == "delete"@);
    assert(at == 3);
    if s.trouble is Some {
        plan::only_cleanup_after_trouble(p, s);
    }
    plan::stretches_are_crossed(p, replies, 0, 3);
    let k = choose|k: int| #[trigger] plan::leaves(p, replies, k, 0, 3);
    lemma_replied(p, replies, k, 0, 3);
}

/// A container that was brought up was seen running or started with success, and it has its
/// baseline: the mark of it was found, or it was installed with success.
#[verifier::rlimit(40)]
pub proof fn containers_are_brought_up(id: Seq<char>, s: SettingsView, replies: Seq<Reply>)
    requires
        plan::succeeded(
            bring_up(id, s),
            plan::run(bring_up(id, s), plan::beginning(), replies),
        ),
    ensures
        plan::replied(bring_up(id, s), replies, Task::ListContainers, Want::ListsRunning(id), true)
            || plan::replied(
            bring_up(id, s),
            replies,
            plan::running("container"@, seq!["start"@, id], plan::UNLIMITED, Output::Discarded),
            Want::Success,
            true,
        ),
        plan::replied(
            bring_up(id, s),
            replies,
            plan::running(
                "container"@,
                seq!["exec"@, id, "sh"@, "-lc"@, "test -f /var/lib/tnk/container-baseline-v2"@],
                plan::UNLIMITED,
                Output::Shown,
            ),
            Want::Success,
            true,
        ) || plan::replied(
            bring_up(id, s),
            replies,
            plan::running(
                "container"@,
                seq!["exec"@, id, "sh"@, "-lc"@, baseline_script()],
                plan::UNLIMITED,
                Output::Shown,
            ),
            Want::Success,
            true,
        ),
{
    let p = bring_up(id, s);
    plan::successes_are_complete(p, replies);
    assert(plan::skips_at_most(p[0], 1));
    plan::stretches_are_crossed(p, replies, 2, 4);
    let a = choose|k: int| #[trigger] plan::leaves(p, replies, k, 2, 4);
    lemma_replied(p, replies, a, 2, 4);
    assert forall|j: int| 0 <= j < 4 implies plan::skips_at_most(#[trigger] p[j], 4 - j - 1) by {}
    plan::stretches_are_crossed(p, replies, 4, 6);
    let b = choose|k: int| #[trigger] plan::leaves(p, replies, k, 4, 6);
    lemma_replied(p, replies, b, 4, 6);
    let at = plan::run(p, plan::beginning(), replies.take(b)).at;
    assert(p[at] == baseline(id)[at - 4]);
}

/// A container is created only if it does not exist, and with what its settings ask for; where it
/// has to be created, nothing else succeeds in its place.
#[verifier::rlimit(40)]
pub proof fn missing_containers_are_created(id: Seq<char>, s: SettingsView, replies: Seq<Reply>)
    requires
        replies.len() > 0,
    ensures
        bring_up(id, s)[0].task == plan::TaskView::ListContainers,
        plan::is_good(Want::Lists(id), replies[0]) ==> !plan::performed(
            bring_up(id, s),
            replies,
            1,
        ),
        plan::succeeded(
            bring_up(id, s),
            plan::run(bring_up(id, s), plan::beginning(), replies),
        ) && !plan::is_good(Want::Lists(id), replies[0]) ==> plan::replied(
            bring_up(id, s),
            replies,
            plan::running(
                "container"@,
                container::create_args(id, s),
                plan::UNLIMITED,
                Output::Discarded,
            ),
            Want::Success,
            true,
        ),
{
    let p = bring_up(id, s);
    if plan::succeeded(p, plan::run(p, plan::beginning(), replies)) && !plan::is_good(
        Want::Lists(id),
        replies[0],
    ) {
        plan::successes_are_complete(p, replies);
        plan::stretches_are_crossed(p, replies, 0, 2);
        let k = choose|k: int| #[trigger] plan::leaves(p, replies, k, 0, 2);
        lemma_replied(p, replies, k, 0, 2);
        plan::plans_end(p, replies.take(k));
        let at = plan::run(p, plan::beginning(), replies.take(k)).at;
        assert(at == 0 ==> k == 0);
        assert(at == 1);
    }
    if plan::is_good(Want::Lists(id), replies[0]) && plan::performed(p, replies, 1) {
        let k = choose|k: int|
            0 <= k < replies.len() && plan::awaited(
                p,
                #[trigger] plan::run(p, plan::beginning(), replies.take(k)),
            ) == 1;
        if k > 0 {
            assert(replies.take(k)[0] == replies[0]);
            plan::first_replies_decide(p, replies.take(k), 2);
        } else {
            assert(plan::run(p, plan::beginning(), replies.take(0)) == plan::beginning());
        }
    }
}

/// The user of a container is given the numbers of the user outside: behind the mark come the number
/// of the user and that of the group, in the order in which the script reads them.
pub proof fn user_numbers_are_kept(id: Seq<char>, uid: u32, gid: u32)
    ensures
        ({
            let args = sync_stage(id, uid, gid).task->args;
            &&& args.len() == 8
            &&& args[1] == id
            &&& edge::begins(args[4], "UID_TARGET=\"$1\"; GID_TARGET=\"$2\"; "@)
            &&& args[5] == "--"@
            &&& number::number(args[6], 4294967295) == Some(uid as nat)
            &&& number::number(args[7], 4294967295) == Some(gid as nat)
        }),
{
    number::parsing_inverts_printing(uid as nat, 4294967295);
    number::parsing_inverts_printing(gid as nat, 4294967295);
    reveal_strlit("UID_TARGET=\"$1\"; GID_TARGET=\"$2\"; ");
    reveal_strlit(
        "UID_TARGET=\"$1\"; GID_TARGET=\"$2\"; if id -u tnk >/dev/null 2>&1; then CURRENT_UID=\"$(id -u tnk)\"; CURRENT_GID=\"$(id -g tnk)\"; if [ \"$CURRENT_GID\" != \"$GID_TARGET\" ]; then groupmod -o -g \"$GID_TARGET\" tnk >/dev/null 2>&1 || true; fi; if [ \"$CURRENT_UID\" != \"$UID_TARGET\" ]; then usermod -o -u \"$UID_TARGET\" -g \"$GID_TARGET\" tnk >/dev/null 2>&1 || true; fi; chown -h tnk:tnk /home/tnk >/dev/null 2>&1 || true; fi",
    );
    let first = "UID_TARGET=\"$1\"; GID_TARGET=\"$2\"; "@;
    assert(sync_script().subrange(0, first.len() as int) =~= first);
}

proof fn lemma_pairs(q: ProvisionRequest, host: Seq<char>)
    ensures
        session::are_named(provision_pairs(q, host)),
        forall|i: int, j: int|
            0 <= i < 10 && 0 <= j < 10 && (#[trigger] provision_pairs(q, host)[i]).0 == (
            #[trigger] provision_pairs(q, host)[j]).0 ==> i == j,
{
    let pairs = provision_pairs(q, host);
    reveal_strlit("TNK_OPENAI_URL");
    reveal_strlit("TNK_INFERENCE_URL");
    reveal_strlit("TNK_MCP_BRIDGE_URL");
    reveal_strlit("TNK_MODEL_NAME");
    reveal_strlit("TNK_CTX_WINDOW");
    reveal_strlit("TNK_WORKSPACE_MOUNT");
    reveal_strlit("TNK_SPECS_REV");
    reveal_strlit("TNK_CONTAINER_HOST_GATEWAY");
    reveal_strlit("TNK_SEARXNG_URL");
    reveal_strlit("TNK_ENGINE_RUNTIME");
    assert("TNK_OPENAI_URL"@.len() == 14 && "TNK_OPENAI_URL"@[4] == 'O');
    assert("TNK_INFERENCE_URL"@.len() == 17 && "TNK_INFERENCE_URL"@[4] == 'I');
    assert("TNK_MCP_BRIDGE_URL"@.len() == 18 && "TNK_MCP_BRIDGE_URL"@[4] == 'M');
    assert("TNK_MODEL_NAME"@.len() == 14 && "TNK_MODEL_NAME"@[4] == 'M');
    assert("TNK_CTX_WINDOW"@.len() == 14 && "TNK_CTX_WINDOW"@[4] == 'C');
    assert("TNK_WORKSPACE_MOUNT"@.len() == 19 && "TNK_WORKSPACE_MOUNT"@[4] == 'W');
    assert("TNK_SPECS_REV"@.len() == 13 && "TNK_SPECS_REV"@[4] == 'S');
    assert("TNK_CONTAINER_HOST_GATEWAY"@.len() == 26 && "TNK_CONTAINER_HOST_GATEWAY"@[4] == 'C');
    assert("TNK_SEARXNG_URL"@.len() == 15 && "TNK_SEARXNG_URL"@[4] == 'S');
    assert("TNK_ENGINE_RUNTIME"@.len() == 18 && "TNK_ENGINE_RUNTIME"@[4] == 'E');
    assert(!"TNK_OPENAI_URL"@.contains('='));
    assert(!"TNK_INFERENCE_URL"@.contains('='));
    assert(!"TNK_MCP_BRIDGE_URL"@.contains('='));
    assert(!"TNK_MODEL_NAME"@.contains('='));
    assert(!"TNK_CTX_WINDOW"@.contains('='));
    assert(!"TNK_WORKSPACE_MOUNT"@.contains('='));
    assert(!"TNK_SPECS_REV"@.contains('='));
    assert(!"TNK_CONTAINER_HOST_GATEWAY"@.contains('='));
    assert(!"TNK_SEARXNG_URL"@.contains('='));
    assert(!"TNK_ENGINE_RUNTIME"@.contains('='));
    assert forall|i: int, j: int|
        0 <= i < 10 && 0 <= j < 10 && (#[trigger] pairs[i]).0 == (#[trigger] pairs[j]).0 implies i
        == j by {
        assert(pairs[i].0.len() == pairs[j].0.len() && pairs[i].0[4] == pairs[j].0[4]);
        if i == 7 || j == 7 {
            assert(pairs[i].0.len() == 26);
        }
    }
}

/// A provision script in a container is told exactly once of everything that was asked for, and it
/// is the script that was copied, run as the user of the container.
#[verifier::rlimit(40)]
pub proof fn container_scripts_are_told(q: ProvisionRequest, host: Seq<char>)
    requires
        q.id@ != "--env"@,
    ensures
        ({
            let name = q.script_name@;
            let script = "/tmp/tnk-provision-"@ + name + "/"@ + name + ".sh"@;
            let p = provision_block(q, host);
            &&& p.len() == 4
            &&& session::exec_reads(p[3].task->args) matches Some(v)
            &&& !v.tty
            &&& v.user == "tnk"@
            &&& v.id == q.id@
            &&& v.command == seq!["bash"@, script]
            &&& p[1].task->args.last() == q.id@ + ":"@ + script
            &&& v.envs.len() == 10
            &&& provision::sets_once(v.envs, "TNK_MODEL_NAME"@, q.model_name@)
            &&& provision::sets_once(v.envs, "TNK_ENGINE_RUNTIME"@, q.engine_runtime@)
            &&& provision::sets_once(v.envs, "TNK_WORKSPACE_MOUNT"@, q.mount_path@)
            &&& provision::sets_once(
                v.envs,
                "TNK_CTX_WINDOW"@,
                number::decimal(q.ctx_window as nat),
            )
            &&& provision::sets_once(
                v.envs,
                "TNK_INFERENCE_URL"@,
                provision::inference_url(host, q.port),
            )
            &&& provision::sets_once(
                v.envs,
                "TNK_OPENAI_URL"@,
                provision::inference_url(host, q.port),
            )
            &&& provision::sets_once(v.envs, "TNK_MCP_BRIDGE_URL"@, provision::bridge_url(host))
            &&& provision::sets_once(v.envs, "TNK_SEARXNG_URL"@, provision::search_url(host))
            &&& provision::sets_once(v.envs, "TNK_CONTAINER_HOST_GATEWAY"@, host)
            &&& provision::sets_once(v.envs, "TNK_SPECS_REV"@, q.specs_rev@)
        }),
{
    let pairs = provision_pairs(q, host);
    let name = q.script_name@;
    let script = "/tmp/tnk-provision-"@ + name + "/"@ + name + ".sh"@;
    let command = seq!["bash"@, script];
    assert(provision::guest_script(name) =~= script);
    lemma_pairs(q, host);
    session::invocations_are_faithful(false, "/tmp"@, pairs, q.id@, command);
    assert(provision_block(q, host)[3].task->args =~= session::exec_args(
        false,
        "/tmp"@,
        pairs,
        q.id@,
        command,
    ));
    provision::distinct_names_are_set_once(pairs, 0);
    provision::distinct_names_are_set_once(pairs, 1);
    provision::distinct_names_are_set_once(pairs, 2);
    provision::distinct_names_are_set_once(pairs, 3);
    provision::distinct_names_are_set_once(pairs, 4);
    provision::distinct_names_are_set_once(pairs, 5);
    provision::distinct_names_are_set_once(pairs, 6);
    provision::distinct_names_are_set_once(pairs, 7);
    provision::distinct_names_are_set_once(pairs, 8);
    provision::distinct_names_are_set_once(pairs, 9);
}

/// A container is reported as provisioned only after its script and the library were copied out of
/// the directory of the user and the script has run, each with success.
#[verifier::rlimit(40)]
pub proof fn container_assets_are_copied(q: ProvisionRequest, host: Seq<char>, replies: Seq<Reply>)
    requires
        q.home is Some,
        plan::succeeded(
            provision_block(q, host),
            plan::run(provision_block(q, host), plan::beginning(), replies),
        ),
    ensures
        ({
            let p = provision_block(q, host);
            let dir = "/tmp/tnk-provision-"@ + q.script_name@;
            &&& copies(
                p,
                replies,
                host_script(q.home->0@, q.script_name@),
                q.id@ + ":"@ + dir + "/"@ + q.script_name@ + ".sh"@,
            )
            &&& copies(p, replies, host_lib(q.home->0@), q.id@ + ":"@ + dir + "/lib"@)
            &&& plan::replied(p, replies, p[3].task, Want::Success, true)
        }),
{
    let p = provision_block(q, host);
    let id = q.id@;
    let dir = "/tmp/tnk-provision-"@ + q.script_name@;
    plan::successes_are_complete(p, replies);
    plan::strict_tasks_succeed(p, replies, 1);
    plan::strict_tasks_succeed(p, replies, 2);
    plan::strict_tasks_succeed(p, replies, 3);
    assert(id + ":"@ + provision::guest_script(q.script_name@) =~= id + ":"@ + dir + "/"@
        + q.script_name@ + ".sh"@);
    assert(id + ":"@ + (provision::guest_dir(q.script_name@) + "/lib"@) =~= id + ":"@ + dir
        + "/lib"@);
}

/// Whether a run of a plan copied something with success.
pub open spec fn copies(
    p: Seq<StageView>,
    replies: Seq<Reply>,
    from: Seq<char>,
    to: Seq<char>,
) -> bool {
    plan::replied(
        p,
        replies,
        plan::running("container"@, seq!["copy"@, from, to], plan::UNLIMITED, Output::Shown),
        Want::Success,
        true,
    )
}

/// Whether a reply says that the container tool cannot change containers: it did not succeed, and
/// its error output has one of the words for that.
pub open spec fn says_unsupported(reply: Reply) -> bool {
    reply matches Reply::Ran { err, .. } && {
        let e = compose::ascii_lower(err@);
        ||| edge::includes(e, "unknown command"@)
        ||| edge::includes(e, "not found"@)
        ||| edge::includes(e, "plugin"@)
    }
}

/// Whether a run of a plan was told that the container tool cannot change containers.
pub open spec fn told_unsupported(replies: Seq<Reply>) -> bool {
    exists|k: int| 0 <= k < replies.len() && says_unsupported(#[trigger] replies[k])
}

proof fn lemma_says_unsupported(reply: Reply)
    requires
        plan::is_excused(Hearing::LoweredErrors, unsupported_words(), reply),
    ensures
        says_unsupported(reply),
{
    let words = unsupported_words();
    assert(words[0] == "unknown command"@ && words[1] == "not found"@ && words[2] == "plugin"@);
}

proof fn lemma_sealed(
    p: Seq<StageView>,
    replies: Seq<Reply>,
    id: Seq<char>,
    from: int,
)
    requires
        0 <= from,
        from + 2 == p.len(),
        p[from] == network_block(id, "none"@)[0],
        p[from + 1] == network_block(id, "none"@)[1],
        forall|j: int| 0 <= j < from ==> plan::skips_at_most(#[trigger] p[j], from - j - 1),
        plan::run(p, plan::beginning(), replies).trouble is None,
        plan::run(p, plan::beginning(), replies).at >= p.len(),
    ensures
        plan::replied(
            p,
            replies,
            plan::running(
                "container"@,
                seq!["update"@, id, "--network"@, "none"@],
                plan::UNLIMITED,
                Output::Captured,
            ),
            Want::Success,
            true,
        ) || told_unsupported(replies),
{
    plan::stretches_are_crossed(p, replies, from, from + 2);
    let k = choose|k: int| #[trigger] plan::leaves(p, replies, k, from, from + 2);
    lemma_replied(p, replies, k, from, from + 2);
    let at = plan::run(p, plan::beginning(), replies.take(k)).at;
    let reply = replies[k];
    if at == from || !plan::is_good(Want::Success, reply) {
        assert(plan::is_excused(Hearing::LoweredErrors, unsupported_words(), reply));
        lemma_says_unsupported(reply);
    }
}

/// A profile that forbids the network is reported as applied only after the network of its container
/// was taken away, unless the container tool said that it cannot do so.
#[verifier::rlimit(40)]
pub proof fn profiles_are_sealed(
    q: ProvisionRequest,
    host: Result<String, Failure>,
    provision: bool,
    image: Seq<char>,
    replies: Seq<Reply>,
)
    requires
        ({
            let p = profile_plan(q, host, provision, true, image);
            plan::succeeded(p, plan::run(p, plan::beginning(), replies))
        }),
    ensures
        ({
            let p = profile_plan(q, host, provision, true, image);
            ||| plan::replied(
                p,
                replies,
                plan::running(
                    "container"@,
                    seq!["update"@, q.id@, "--network"@, "none"@],
                    plan::UNLIMITED,
                    Output::Captured,
                ),
                Want::Success,
                true,
            )
            ||| told_unsupported(replies)
        }),
{
    let p = profile_plan(q, host, provision, true, image);
    let n = p.len() as int;
    plan::successes_are_complete(p, replies);
    assert forall|j: int| 0 <= j < n - 2 implies plan::skips_at_most(
        #[trigger] p[j],
        n - 2 - j - 1,
    ) by {}
    lemma_sealed(p, replies, q.id@, n - 2);
}

/// A profile that has to be provisioned is reported as applied only after its script has run, and
/// never if there was a reason not to run it.
#[verifier::rlimit(40)]
pub proof fn profiles_are_provisioned(
    q: ProvisionRequest,
    host: Result<String, Failure>,
    seal: bool,
    image: Seq<char>,
    replies: Seq<Reply>,
)
    requires
        ({
            let p = profile_plan(q, host, true, seal, image);
            plan::succeeded(p, plan::run(p, plan::beginning(), replies))
        }),
    ensures
        ({
            let p = profile_plan(q, host, true, seal, image);
            &&& provision_fault(q, host) is None
            &&& plan::replied(
                p,
                replies,
                provision_block(q, host->Ok_0@)[3].task,
                Want::Success,
                true,
            )
        }),
{
    let p = profile_plan(q, host, true, seal, image);
    let n = provision_stages(q, host).len() as int;
    plan::successes_are_complete(p, replies);
    assert forall|j: int| 0 <= j < n - 1 implies plan::skips_at_most(
        #[trigger] p[j],
        n - 1 - j - 1,
    ) by {
        assert(p[j] == provision_stages(q, host)[j]);
    }
    plan::stretches_are_crossed(p, replies, n - 1, n);
    let k = choose|k: int| #[trigger] plan::leaves(p, replies, k, n - 1, n);
    lemma_replied(p, replies, k, n - 1, n);
    assert(p[n - 1] == provision_stages(q, host)[n - 1]);
}

/// An image is reported as baked only after the builder was provisioned and exported into the
/// directory of the build, a file was written there that makes an image of the export, and an image
/// was built from that file under its name.
#[verifier::rlimit(40)]
pub proof fn images_are_built(
    builder: Seq<char>,
    image: Seq<char>,
    temp_dir: Seq<char>,
    s: SettingsView,
    uid: u32,
    gid: u32,
    q: ProvisionRequest,
    host: Result<String, Failure>,
    replies: Seq<Reply>,
)
    requires
        ({
            let p = golden_plan(builder, image, temp_dir, s, uid, gid, q, host);
            plan::succeeded(p, plan::run(p, plan::beginning(), replies))
        }),
    ensures
        ({
            let p = golden_plan(builder, image, temp_dir, s, uid, gid, q, host);
            let file = path::below(temp_dir, "Containerfile"@);
            &&& provision_fault(q, host) is None
            &&& plan::replied(
                p,
                replies,
                plan::running(
                    "container"@,
                    container::create_args(builder, s),
                    plan::UNLIMITED,
                    Output::Discarded,
                ),
                Want::Success,
                true,
            )
            &&& plan::replied(
                p,
                replies,
                provision_block(q, host->Ok_0@)[3].task,
                Want::Success,
                true,
            )
            &&& plan::replied(
                p,
                replies,
                plan::running(
                    "container"@,
                    seq!["export"@, "--output"@, path::below(temp_dir, "rootfs.tar"@), builder],
                    plan::UNLIMITED,
                    Output::Shown,
                ),
                Want::Success,
                true,
            )
            &&& plan::replied(
                p,
                replies,
                Task::Write(file, "FROM scratch\nADD rootfs.tar /\n"@),
                Want::Success,
                true,
            )
            &&& plan::replied(
                p,
                replies,
                plan::running(
                    "container"@,
                    seq![
                        "build"@,
                        "--platform"@,
                        "linux/arm64"@,
                        "--file"@,
                        file,
                        "--tag"@,
                        image,
                        temp_dir,
                    ],
                    plan::UNLIMITED,
                    Output::Captured,
                ),
                Want::Success,
                true,
            )
        }),
{
    let p = golden_plan(builder, image, temp_dir, s, uid, gid, q, host);
    let up = golden_up(builder, s, uid, gid);
    let inner = provision_stages(q, host);
    let e = (6 + inner.len()) as int;
    assert(up.len() == 6);
    plan::successes_are_complete(p, replies);
    assert forall|j: int| 0 <= j < 6 implies plan::skips_at_most(#[trigger] p[j], 6 - j - 1) by {
        assert(p[j] == up[j]);
    }
    assert forall|j: int| 6 <= j < e + 4 implies plan::skips_at_most(#[trigger] p[j], 0) by {
        if j < e {
            assert(p[j] == inner[j - 6]);
        } else {
            assert(p[j] == golden_export(builder, image, temp_dir)[j - e]);
        }
    }
    assert(p[0] == up[0]);
    assert(p[e - 1] == inner[inner.len() - 1]);
    assert(p[e + 1] == golden_export(builder, image, temp_dir)[1]);
    assert(p[e + 2] == golden_export(builder, image, temp_dir)[2]);
    assert(p[e + 3] == golden_export(builder, image, temp_dir)[3]);
    assert(provision_fault(q, host) is None) by {
        plan::stretches_are_crossed(p, replies, e - 1, e);
        let k = choose|k: int| #[trigger] plan::leaves(p, replies, k, e - 1, e);
        plan::leaving_is_told(p, replies, k, e - 1, e);
    }
    plan::strict_tasks_succeed(p, replies, 0);
    plan::strict_tasks_succeed(p, replies, e - 1);
    plan::strict_tasks_succeed(p, replies, e + 1);
    plan::strict_tasks_succeed(p, replies, e + 2);
    plan::stretches_are_crossed(p, replies, e + 3, e + 4);
    let k = choose|k: int| #[trigger] plan::leaves(p, replies, k, e + 3, e + 4);
    lemma_replied(p, replies, k, e + 3, e + 4);
}

/// A build begins with a directory of its own, and with an attempt to delete a builder that an
/// earlier build left.
#[verifier::rlimit(40)]
pub proof fn builds_start_over(builder: Seq<char>, temp_dir: Seq<char>, replies: Seq<Reply>)
    requires
        plan::succeeded(
            golden_prepare(builder, temp_dir),
            plan::run(golden_prepare(builder, temp_dir), plan::beginning(), replies),
        ),
    ensures
        ({
            let p = golden_prepare(builder, temp_dir);
            &&& plan::replied(p, replies, Task::MakeDir(temp_dir), Want::Success, true)
            &&& plan::replied(p, replies, Task::ListContainers, Want::Lists(builder), false)
                || plan::tried(
                p,
                replies,
                plan::running(
                    "container"@,
                    seq!["delete"@, "--force"@, builder],
                    plan::UNLIMITED,
                    Output::Discarded,
                ),
            )
            &&& plan::replied(p, replies, Task::Exists(temp_dir), Want::Success, false)
                || plan::tried(p, replies, Task::RemoveDir(temp_dir))
        }),
{
    let p = golden_prepare(builder, temp_dir);
    plan::successes_are_complete(p, replies);
    plan::stretches_are_crossed(p, replies, 0, 2);
    let a = choose|k: int| #[trigger] plan::leaves(p, replies, k, 0, 2);
    lemma_replied(p, replies, a, 0, 2);
    plan::stretches_are_crossed(p, replies, 2, 4);
    let b = choose|k: int| #[trigger] plan::leaves(p, replies, k, 2, 4);
    lemma_replied(p, replies, b, 2, 4);
    assert forall|j: int| 0 <= j < 4 implies plan::skips_at_most(#[trigger] p[j], 4 - j - 1) by {}
    plan::strict_tasks_succeed(p, replies, 4);
}

/// Whether an item tells of the container with an id, and its labels say that it was made for a
/// project.
pub open spec fn is_labelled(item: ContainerListItem, id: Seq<char>) -> bool {
    &&& item.any_id() == Some(id)
    &&& item.label_text("tnk.managed"@) == Some("true"@)
    &&& item.label_text("tnk.owner"@) == Some("project"@)
}

/// Stopping all containers is about exactly those that were made for projects: those whose labels
/// say so and whose name is that of a sandbox and not of a service. None of them is forgotten.
pub proof fn every_container_is_discovered(items: Seq<ContainerListItem>, id: Seq<char>)
    ensures
        project_ids(items).contains(id) <==> edge::begins(id, "tnk-"@) && id != "tnk-services"@ && id
            != "tnk-searxng"@ && exists|i: int|
            0 <= i < items.len() && is_labelled(#[trigger] items[i], id),
    decreases items.len(),
{
    let found = project_ids(items);
    if items.len() > 0 {
        let fewer = items.drop_last();
        let before = project_ids(fewer);
        every_container_is_discovered(fewer, id);
        if found.contains(id) {
            let k = choose|k: int| 0 <= k < found.len() && found[k] == id;
            if k < before.len() {
                assert(before[k] == id);
                let i = choose|i: int|
                    0 <= i < fewer.len() && is_labelled(#[trigger] fewer[i], id);
                assert(is_labelled(items[i], id));
            } else {
                assert(is_labelled(items[items.len() - 1], id));
            }
        }
        if lima::is_managed(id) && exists|i: int|
            0 <= i < items.len() && is_labelled(#[trigger] items[i], id) {
            let i = choose|i: int| 0 <= i < items.len() && is_labelled(#[trigger] items[i], id);
            if i < fewer.len() {
                assert(is_labelled(fewer[i], id));
                let k = choose|k: int| 0 <= k < before.len() && before[k] == id;
                assert(found[k] == id);
            } else {
                assert(found[before.len() as int] == id);
            }
        }
    }
}

/// What the user says of the host counts before what is found out about it: what is configured
/// first, then the environment, then what the container tool tells, then what the container tells;
/// and a host is never empty.
pub proof fn configured_gateways_come_first(
    configured: Option<Seq<char>>,
    env: Option<Seq<char>>,
    discovered: Option<Seq<char>>,
    routed: Option<Seq<char>>,
    host: Seq<char>,
)
    requires
        edge::trimmed(host).len() > 0,
        host.len() > 0,
    ensures
        gateway(Some(host), env, discovered, routed) == Ok::<Seq<char>, Seq<char>>(
            edge::trimmed(host),
        ),
        gateway(None, Some(host), discovered, routed) == Ok::<Seq<char>, Seq<char>>(
            edge::trimmed(host),
        ),
        gateway(None, None, Some(host), routed) == Ok::<Seq<char>, Seq<char>>(host),
        gateway(None, None, None, Some(host)) == Ok::<Seq<char>, Seq<char>>(host),
        gateway(None, None, None, None) is Err,
        gateway(configured, env, discovered, routed) matches Ok(h) ==> h.len() > 0,
{
}

/// The label of a profile is put on the container that was asked for, and says which profile it is.
pub proof fn labels_name_the_profile(id: Seq<char>, profile: Seq<char>)
    ensures
        ({
            let args = mark_stage(id, profile).task->args;
            &&& args.len() == 4
            &&& args[0] == "update"@ && args[1] == id && args[2] == "--label"@
            &&& edge::after_prefix(args[3], "tnk.profile."@) matches Some(t)
            &&& edge::before_suffix(t, "=true"@) == Some(profile)
        }),
{
    let label = "tnk.profile."@ + profile + "=true"@;
    reveal_strlit("tnk.profile.");
    reveal_strlit("=true");
    assert(label.subrange(0, 12) =~= "tnk.profile."@);
    let t = label.skip(12);
    assert(t =~= profile + "=true"@);
    assert(t.subrange(t.len() - 5, t.len() as int) =~= "=true"@);
    assert(t.take(t.len() - 5) =~= profile);
}

} // verus!
