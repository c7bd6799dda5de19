use tnk::json;
use tnk::json::Json;
use tnk::plan::{Effect, Progress, Reply, Stage, Task};
use tnk::sandbox::container::{
    container_profile_settings, create_args_for_settings, parse_guest_mount_target,
    ContainerBackend, ContainerManifest, SecurityCaps,
};
use tnk::sandbox::container_runs::{
    apply_profile, discover_managed_project_sandboxes, golden_model, golden_names,
    list_containers,
    profile_requires_tty, resolve_container_host_gateway, run_provision_container, target_args,
    validate_named_sandbox,
};
use tnk::sandbox::container_utils::{
    container_exists, container_has_label_json, container_id_from_json, container_is_running,
    discover_container_gateway, parse_gateway_from_route_output, ContainerConfiguration,
    ContainerListItem,
};
use tnk::sandbox::flow::{
    container_start, lima_start, open_container_shell, open_lima_shell,
    resize_container_pty, server_settings, session_failure, terminal_dimensions,
    Step,
};
use tnk::sandbox::lima::StopRequest;
use tnk::sandbox::profile_cache::{profile_cache_path, record, record_profile};
use tnk::sandbox::provision::{
    announce_provision, get_specs_rev, run_provision_lima, wait_for_lima_ready, ProvisionRequest,
    Waiting,
};
use tnk::sandbox::session::{
    build_session_script, open_session, refuse_outside_projects, run_container_session,
    session_envs, session_exit, session_exit_code, TerminalEnv,
};
use tnk::sandbox::types::{
    resolve_audit_logger, shell_escape, validate_env_value, validate_model_name,
    validate_script_name,
};
use tnk::sandbox::workspace::{
    guest_workdir, project_name_suffix, resolve_workspace_context, sandbox_id,
    sanitize_project_name, validate_workspace_root, workspace_root, Backend, Canonical,
    Surroundings,
};
use tnk::text::path::parse_dir;

#[test]
fn project_names_lose_only_what_is_not_kept() {
    assert_eq!(sanitize_project_name("my project").as_deref(), Some("myproject"));
    assert_eq!(sanitize_project_name("héllo-1_x").as_deref(), Some("héllo-1_x"));
    assert_eq!(sanitize_project_name("...").as_deref(), None);
}

#[test]
fn changed_names_get_a_mark() {
    assert_eq!(project_name_suffix("my project"), "ccdb78c2");
    assert_eq!(project_name_suffix("héllo.rs"), "22ecc661");
    assert_eq!(project_name_suffix("a.b"), "0466522c");
    assert_eq!(sandbox_id("plain").as_deref(), Some("tnk-plain"));
    assert_eq!(sandbox_id("a.b").as_deref(), Some("tnk-ab-0466522c"));
    assert_eq!(sandbox_id("."), None);
    assert_ne!(sandbox_id("ab"), sandbox_id("a.b"));
    assert_ne!(sandbox_id("a b"), sandbox_id("a.b"));
    assert_eq!(sandbox_id("ab-0466522c"), sandbox_id("a.b"));
}

fn surroundings(current: &str, root: Canonical) -> Surroundings {
    Surroundings {
        current: current.to_string(),
        canonical_current: parse_dir(current),
        home: "/h".to_string(),
        canonical_home: Ok(parse_dir("/h")),
        canonical_config: Some(parse_dir("/h/.config/tnk")),
        root: "/h/code".to_string(),
        canonical_root: root,
    }
}

fn found(p: &str) -> Canonical {
    Canonical::Found(parse_dir(p))
}

#[test]
fn sandboxes_belong_to_the_first_directory_below_the_root() {
    let w = resolve_workspace_context(&surroundings("/h/code/a/src", found("/h/code")), Backend::Lima)
        .ok()
        .unwrap();
    assert_eq!(w.id, "tnk-a");
    assert_eq!(w.project_root, "/h/code/a");
    assert_eq!(w.workdir, "/h/code/a/src");
    let c = resolve_workspace_context(&surroundings("/h/.config/tnk/x", found("/h/code")), Backend::Lima)
        .ok()
        .unwrap();
    assert_eq!(c.id, "tnk-config");
    assert_eq!(c.project_root, "/h/.config/tnk");
}

#[test]
fn places_without_a_sandbox_say_why() {
    let say = |current: &str, root: Canonical| {
        resolve_workspace_context(&surroundings(current, root), Backend::Lima)
            .err()
            .unwrap()
            .message
    };
    assert_eq!(
        say("/h/code", found("/h/code")),
        "navigate into a project directory first"
    );
    assert_eq!(
        say("/tmp", found("/h/code")),
        "current directory is outside the configured workspace root"
    );
    assert_eq!(
        say("/h/code/...", found("/h/code")),
        "sanitized project name is empty"
    );
    assert_eq!(
        say("/x", Canonical::NotFound),
        "workspace root '/h/code' does not exist"
    );
    assert_eq!(
        say("/x", Canonical::Denied("no".to_string())),
        "permission denied resolving workspace root '/h/code': no"
    );
    assert_eq!(
        say("/x", Canonical::Broken("no".to_string())),
        "failed to canonicalize workspace root '/h/code': no"
    );
    assert_eq!(say("/x", found("/")), "workspace root cannot be '/'");
    assert_eq!(say("/x", found("/Users")), "workspace root cannot be '/Users'");
    assert_eq!(
        say("/x", found("/srv")),
        "workspace root must be inside '$HOME'"
    );
    assert!(say("/x", found("/h")).contains("(for example, ~/code)"));
    let other = validate_workspace_root(&parse_dir("/h"), &parse_dir("/h"), Backend::Container);
    assert!(other.unwrap_err().message.contains("(for example, ~/src)"));
}

#[test]
fn roots_and_directories_are_written_out() {
    assert_eq!(workspace_root(&None, &None, "/h"), "/h/code");
    assert_eq!(workspace_root(&None, &Some("$HOME/w".to_string()), "/h"), "/h/w");
    assert_eq!(workspace_root(&Some("${HOME}/w".to_string()), &None, "/h"), "/h/w");
    assert_eq!(workspace_root(&None, &Some("/y".to_string()), "/h"), "/y");
    assert_eq!(
        workspace_root(&Some("~/x".to_string()), &Some("/y".to_string()), "/h"),
        "/h/x"
    );
    assert_eq!(guest_workdir("/workspace", "/p/a/b", "/p/a"), "/workspace/b");
    assert_eq!(guest_workdir("/workspace", "/q", "/p/a"), "/workspace");
}

#[test]
fn shell_words_are_quoted() {
    assert_eq!(shell_escape("it's"), "'it'\\''s'");
    assert_eq!(shell_escape(""), "''");
}

#[test]
fn names_and_values_are_checked() {
    assert!(validate_script_name("py-3_x").is_ok());
    assert_eq!(
        validate_script_name("").unwrap_err().message,
        "invalid profile name: empty"
    );
    assert_eq!(
        validate_script_name("a/b").unwrap_err().message,
        "invalid profile name: unsupported characters"
    );
    assert!(validate_model_name("org/model:1.2").is_ok());
    assert!(validate_env_value("a b", "X").is_ok());
    assert!(validate_env_value("a\nb", "X").is_err());
}

#[test]
fn audit_logs_go_where_they_are_asked_for() {
    assert!(resolve_audit_logger(None, "tnk-a", &None, 5).unwrap_or(None).is_none());
    let own = resolve_audit_logger(Some("/l".to_string()), "tnk-a", &None, 5);
    assert_eq!(own.ok().unwrap().unwrap().path, "/l");
    let kept = resolve_audit_logger(Some(" ".to_string()), "tnk-a", &Some("/h".to_string()), 5);
    assert_eq!(
        kept.ok().unwrap().unwrap().path,
        "/h/.cache/tnk/audit/5-tnk-a.ndjson"
    );
    assert!(resolve_audit_logger(Some("".to_string()), "tnk-a", &None, 5).is_err());
}

#[test]
fn profiles_are_recorded_once() {
    assert_eq!(profile_cache_path("/h", "tnk-a"), "/h/.cache/tnk/tnk-a-profiles");
    assert_eq!(record_profile(&None, "pi").as_deref(), Some("pi\n"));
    let text = Some("base".to_string());
    assert_eq!(record_profile(&text, "pi").as_deref(), Some("base\npi\n"));
    assert_eq!(record_profile(&Some("base\n pi \n".to_string()), "pi"), None);
    assert_eq!(record(&text, "pi", true), None);
    assert_eq!(record(&None, "pi", true).as_deref(), Some("pi\n"));
}

#[test]
fn revisions_are_seven_characters_long() {
    assert_eq!(get_specs_rev(true, &Some("abcdef123\n".to_string())), "git:abcdef1");
    assert_eq!(get_specs_rev(true, &Some("abc".to_string())), "local");
    assert_eq!(get_specs_rev(false, &Some("abcdef123".to_string())), "local");
    assert_eq!(get_specs_rev(true, &None), "local");
}

fn request() -> ProvisionRequest {
    ProvisionRequest {
        id: "tnk-a".to_string(),
        script_name: "pi".to_string(),
        engine_runtime: "llama".to_string(),
        model_name: "m".to_string(),
        ctx_window: 4096,
        mount_path: "/workspace".to_string(),
        port: 8080,
        home: Some("/h".to_string()),
        script_found: true,
        lib_found: false,
        specs_rev: "local".to_string(),
    }
}

#[test]
fn missing_libraries_are_warned_of() {
    let lines = announce_provision(&request());
    assert_eq!(lines.len(), 2);
    assert!(lines[0].starts_with("warning: provision library directory not found at \"/h/"));
    assert_eq!(lines[1], "info: provisioning: pi");
}

#[test]
fn provisioning_needs_a_script_and_good_names() {
    let mut q = request();
    q.script_found = false;
    let e = run_provision_lima(&q).err().unwrap();
    assert!(e.message.contains("\"/h/"));
    let mut q = request();
    q.script_name = "a b".to_string();
    assert!(run_provision_lima(&q).is_err());
    let plan = run_provision_lima(&request()).ok().unwrap();
    let runs_script = plan.iter().any(|s| {
        matches!(&s.task, Task::Run { args, .. } if args.iter().any(|a| a.contains("pi.sh") || a.contains("pi")))
    });
    assert!(runs_script);
}

#[test]
fn machines_are_waited_for() {
    assert!(matches!(
        wait_for_lima_ready("tnk-a", 60, 3, true, true),
        Waiting::Ready(l) if l == "sandbox tnk-a ready after 3 attempts"
    ));
    assert!(matches!(
        wait_for_lima_ready("tnk-a", 60, 3, false, true),
        Waiting::Expired(e) if e.message == "sandbox 'tnk-a' did not become ready within 60s"
    ));
    assert!(matches!(
        wait_for_lima_ready("tnk-a", 60, 3, false, false),
        Waiting::Again(4)
    ));
}

fn terminal() -> TerminalEnv {
    TerminalEnv {
        term: Some("xterm".to_string()),
        colorterm: None,
        columns: None,
        lines: None,
    }
}

fn pair(k: &str, v: &str) -> (String, String) {
    (k.to_string(), v.to_string())
}

#[test]
fn sessions_get_only_chosen_variables() {
    let envs = session_envs(&terminal(), &vec![pair("R", "1")], &vec![pair("E", "it's")]);
    assert_eq!(envs, vec![pair("TERM", "xterm"), pair("R", "1"), pair("E", "it's")]);
    assert_eq!(
        build_session_script(&envs, &Some("ls".to_string())),
        "export TERM='xterm'; export R='1'; export E='it'\\''s'; exec bash -lc 'ls'"
    );
    assert_eq!(build_session_script(&Vec::new(), &None), "exec bash -l");
}

#[test]
fn sessions_know_of_inference_and_users_have_the_last_word() {
    let runtime = tnk::sandbox::provision::runtime_env_contract("host.lima.internal", 9931, "llama", "m");
    let asked = vec![pair("TNK_MODEL_NAME", "other"), pair("TERM", "dumb")];
    let envs = session_envs(&terminal(), &runtime, &asked);
    let value = |key: &str| tnk::sandbox::shared::find_value(&envs, key);
    assert_eq!(
        value("TNK_INFERENCE_URL").as_deref(),
        Some("http://host.lima.internal:9931/v1")
    );
    assert_eq!(value("TNK_ENGINE_RUNTIME").as_deref(), Some("llama"));
    assert_eq!(value("TNK_MODEL_NAME").as_deref(), Some("other"));
    assert_eq!(value("TERM").as_deref(), Some("dumb"));
    assert_eq!(value("HOME"), None);
}

#[test]
fn sessions_need_a_terminal_unless_given_up() {
    assert!(open_session(false, false, &Vec::new()).is_err());
    let opened = open_session(true, false, &vec!["A=1".to_string()]).ok().unwrap();
    assert!(!opened.tty() && !opened.requires_tty());
    assert_eq!(opened.explicit(), &vec![pair("A", "1")]);
    assert!(opened.lima_steps("tnk-a", &None).is_ok());
    assert_eq!(
        opened.lima_steps("tnk-config", &None).unwrap_err().message,
        "sandbox shell is only available inside a project directory"
    );
    assert_eq!(
        opened.container_steps("tnk-config", &None, false).unwrap_err().message,
        "sandbox shell is only available inside a project directory"
    );
    assert!(refuse_outside_projects("tnk-config").is_err());
    assert!(refuse_outside_projects("tnk-a").is_ok());
    assert_eq!(session_exit_code(true, Some(0)), None);
    assert_eq!(session_exit_code(false, None), Some(1));
}

#[test]
fn bad_variables_end_a_session_before_anything_is_done() {
    let texts = vec!["FOO=bar".to_string(), "BAD-KEY=1".to_string(), "=".to_string()];
    assert_eq!(
        open_session(true, false, &texts).err().unwrap().message,
        "invalid --env key 'BAD-KEY': use [A-Za-z0-9_] only"
    );
    assert_eq!(
        open_session(false, false, &texts).err().unwrap().message,
        "interactive TTY is required; use --no-tty for non-interactive commands"
    );
    assert!(open_session(false, true, &vec!["FOO=bar".to_string()]).ok().unwrap().tty());
}

#[test]
fn container_shells_are_opened_with_their_variables() {
    let s = open_container_shell(
        &open_session(false, true, &Vec::new()).ok().unwrap(),
        "tnk-a",
        "/workspace",
        &terminal(),
        &vec![pair("TNK_MODEL_NAME", "m")],
        &None,
        (1, 2),
    );
    assert!(s.tty);
    assert_eq!(
        s.args,
        vec![
            "exec", "--interactive", "--tty", "--workdir", "/workspace", "--user", "tnk", "--env",
            "TERM=xterm", "--env", "TNK_MODEL_NAME=m", "tnk-a", "bash", "-l"
        ]
    );
    assert_eq!(
        json::write(&s.events[0]),
        "{\"container_id\":\"tnk-a\",\"event\":\"session_start\",\"requires_tty\":true,\"runtime_env\":{\"TNK_MODEL_NAME\":\"m\"},\"ts\":1,\"tty\":true,\"workdir\":\"/workspace\"}"
    );
    assert_eq!(s.events.len(), 2);
    assert_eq!(
        json::write(&session_exit(3, "tnk-a", Some(-1), None)),
        "{\"container_id\":\"tnk-a\",\"event\":\"session_exit\",\"exit_code\":-1,\"ts\":3}"
    );
}

#[test]
fn machine_shells_hand_on_the_exit_code() {
    let s = open_lima_shell(
        &open_session(true, false, &Vec::new()).ok().unwrap(),
        "tnk-a",
        "/workspace",
        &terminal(),
        &Vec::new(),
        &Some("x".to_string()),
        (1, 2),
    );
    assert!(!s.tty);
    let mut p = Progress::start();
    p.advance(
        &s.plan,
        &Reply::Ran {
            ok: false,
            code: Some(3),
            out: String::new(),
            err: String::new(),
        },
    );
    assert_eq!(p.trouble.as_deref(), Some("sandbox shell exited with code 3"));
}

fn kinds(v: &[Step<String>]) -> Vec<&'static str> {
    v.iter()
        .map(|s| match s {
            Step::Lock => "lock",
            Step::BringUp => "up",
            Step::FindModel => "model",
            Step::Tell(_) => "tell",
            Step::Apply { .. } => "apply",
            Step::Record { .. } => "record",
            Step::Label(_) => "label",
            Step::Session(_) => "session",
            Step::Shell => "shell",
        })
        .collect()
}

#[test]
fn profiles_are_recorded_after_they_were_applied() {
    assert_eq!(kinds(&lima_start("base")), vec!["lock", "up", "record"]);
    assert_eq!(
        kinds(&lima_start("pi")),
        vec!["lock", "up", "tell", "model", "tell", "tell", "apply", "record", "tell", "tell"]
    );
    let opened = open_session(true, false, &Vec::new()).ok().unwrap();
    let lima_shell = |p: Option<String>| opened.lima_steps("tnk-a", &p).unwrap();
    let container_shell = |p: Option<String>| opened.container_steps("tnk-a", &p, true).unwrap();
    assert_eq!(kinds(&lima_shell(None)), vec!["lock", "up", "shell"]);
    assert_eq!(
        kinds(&lima_shell(Some("pi".to_string()))),
        vec!["lock", "up", "model", "tell", "apply", "record", "shell"]
    );
    assert_eq!(
        kinds(&container_start("pi", false, true)),
        vec!["up", "model", "tell", "apply", "record", "label", "tell", "session"]
    );
    assert!(container_start("pi", false, true)
        .iter()
        .any(|s| matches!(s, Step::Apply { provision: true, seal: true, .. })));
    assert!(container_start("pi", true, true)
        .iter()
        .any(|s| matches!(s, Step::Apply { provision: false, seal: false, .. })));
    assert_eq!(
        kinds(&container_shell(Some("base".to_string()))),
        vec!["lock", "up", "model", "label", "shell"]
    );
    assert_eq!(
        kinds(&container_shell(Some("pi".to_string()))),
        vec!["lock", "up", "model", "tell", "apply", "record", "label", "shell"]
    );
    assert_eq!(
        session_failure("base", "x".to_string()),
        "shell session exited with error"
    );
    assert_eq!(session_failure("pi", "x".to_string()), "x");
}

#[test]
fn terminals_of_no_size_are_not_resized() {
    assert_eq!(terminal_dimensions(true, 24, 80), Some((24, 80)));
    assert_eq!(terminal_dimensions(true, 0, 80), None);
    assert_eq!(terminal_dimensions(false, 24, 80), None);
    assert_eq!(resize_container_pty("c", 24, 80), vec!["resize", "c", "24", "80"]);
    assert_eq!(server_settings(None, None), (9931, "llama".to_string()));
    assert_eq!(server_settings(Some(8080), Some("x".to_string())), (8080, "x".to_string()));
}

#[test]
fn application_sessions_are_tried_twice_at_most() {
    let target = target_args("pi");
    assert_eq!(target, vec!["sh"]);
    assert!(profile_requires_tty("opencode"));
    assert!(!profile_requires_tty("pi"));
    assert!(run_container_session("c", "/w", &Vec::new(), &target, false, true).is_err());
    let plan = run_container_session("c", "/w", &Vec::new(), &target, true, false)
        .ok()
        .unwrap();
    let mut p = Progress::start();
    let line = p.advance(&plan, &Reply::Broken("no".to_string())).unwrap();
    assert_eq!(
        line.text,
        "warning: interactive TTY launch failed; retrying without TTY"
    );
    assert_eq!(p.pending(&plan), Some(1));
    let mut p = Progress::start();
    p.advance(
        &plan,
        &Reply::Ran {
            ok: false,
            code: None,
            out: String::new(),
            err: String::new(),
        },
    );
    assert_eq!(p.pending(&plan), None);
    assert_eq!(
        p.trouble.as_deref(),
        Some("application session exited with error")
    );
}

fn manifest(mounts: Vec<(String, String)>, network: Option<&str>) -> ContainerManifest {
    ContainerManifest {
        image: Some(" img ".to_string()),
        resources: None,
        mounts: Some(mounts),
        security: Some(SecurityCaps {
            network: network.map(str::to_string),
            workspace_mode: None,
        }),
    }
}

#[test]
fn manifests_become_settings() {
    let m = manifest(
        vec![pair("workspace", "/src"), pair("~/data", "/data:ro")],
        Some(" None "),
    );
    let s = container_profile_settings(&Some(m), "pi", "/h/code/a", "/h", false)
        .ok()
        .unwrap();
    assert_eq!(s.image, "img");
    assert_eq!(s.workspace_guest_path, "/src");
    assert_eq!(s.mounts.len(), 2);
    assert_eq!(s.mounts[0].host, "/h/code/a");
    assert!(!s.mounts[0].read_only);
    assert_eq!(s.mounts[1].host, "/h/data");
    assert!(s.mounts[1].read_only);
    assert!(s.network_none);
    let args = create_args_for_settings("tnk-a", &s);
    assert!(args.contains(&"tnk-a".to_string()));
    let baked = container_profile_settings(&None, "pi", "/p", "/h", true).ok().unwrap();
    assert_eq!(baked.image, "tnk-profile-pi:latest");
    assert_eq!(baked.mounts.len(), 1);
    let bad = manifest(vec![pair("/x", "rel")], None);
    assert!(container_profile_settings(&Some(bad), "pi", "/p", "/h", false).is_err());
    assert_eq!(
        parse_guest_mount_target(" ").unwrap_err().message,
        "invalid guest mount target: empty"
    );
}

fn item(id: &str, status: Option<Json>, labels: Vec<(&str, &str)>) -> ContainerListItem {
    ContainerListItem {
        id: None,
        id_alias: None,
        status,
        status_alias: None,
        state: None,
        state_alias: None,
        configuration: Some(ContainerConfiguration {
            id: Some(id.to_string()),
            id_alias: None,
            labels: Some(
                labels
                    .into_iter()
                    .map(|(k, v)| (k.to_string(), json::text_value(v)))
                    .collect(),
            ),
            labels_alias: None,
        }),
        configuration_alias: None,
    }
}

#[test]
fn containers_are_found_and_told_apart() {
    let running = json::object(vec![("state".to_string(), json::text_value("Running"))]);
    let items = vec![
        item("tnk-a", Some(running), vec![("tnk.managed", "true"), ("tnk.owner", "project")]),
        item("tnk-b", Some(json::text_value("stopped")), Vec::new()),
    ];
    assert!(container_exists(&items, "tnk-a"));
    assert!(container_is_running(&items, "tnk-a"));
    assert!(container_exists(&items, "tnk-b"));
    assert!(!container_is_running(&items, "tnk-b"));
    assert!(!container_exists(&items, "tnk-c"));
    assert_eq!(discover_managed_project_sandboxes(&items), vec!["tnk-a"]);
    let note = ContainerBackend::cleanup_untracked(&items[1], false, true);
    assert_eq!(
        note.as_deref(),
        Some("info: skipping unlabeled sandbox container tnk-b")
    );
    assert!(validate_named_sandbox("tnk-a").is_ok());
    assert!(validate_named_sandbox("x").is_err());
}

#[test]
fn gateways_are_discovered() {
    assert_eq!(
        parse_gateway_from_route_output("default via 192.168.64.1 dev eth0\n").as_deref(),
        Some("192.168.64.1")
    );
    assert_eq!(
        parse_gateway_from_route_output("  gateway: 10.0.0.1\n").as_deref(),
        Some("10.0.0.1")
    );
    let text = "[{\"gateway\":\" \"},{\"status\":{\"ipv4Gateway\":\"192.168.64.1\"}}]";
    assert_eq!(
        discover_container_gateway(true, &text.as_bytes().to_vec()).as_deref(),
        Some("192.168.64.1")
    );
    assert_eq!(discover_container_gateway(false, &text.as_bytes().to_vec()), None);
    assert_eq!(discover_container_gateway(true, &b"nonsense".to_vec()), None);
    let got = resolve_container_host_gateway(&None, &None, &Some("g".to_string()), &None);
    assert_eq!(got.ok().as_deref(), Some("g"));
    assert!(resolve_container_host_gateway(&None, &None, &None, &None).is_err());
}

#[test]
fn labels_are_read_from_json() {
    let text = "{\"configuration\":{\"id\":\"x\",\"labels\":{\"k\":\"v\"}}}";
    let j = json::read(&text.as_bytes().to_vec()).unwrap();
    assert_eq!(container_id_from_json(&j).as_deref(), Some("x"));
    assert!(container_has_label_json(&j, "k", "v"));
    assert!(!container_has_label_json(&j, "k", "w"));
}

fn seals(plan: &[Stage<String, Vec<String>>]) -> bool {
    plan.iter().any(|s| {
        s.always || matches!(&s.task, Task::Run { args, .. } if args.iter().any(|a| a == "none"))
    })
}

#[test]
fn sealing_is_tried_even_after_a_failed_provision() {
    let host = Ok("192.168.64.1".to_string());
    let plan = apply_profile(&request(), &host, true, true, "img");
    assert!(seals(&plan));
    let mut p = Progress::start();
    p.advance(&plan, &Reply::Broken("no".to_string()));
    assert!(p.trouble.is_some());
    assert!(p.pending(&plan).is_some());
    let check = p.pending(&plan).unwrap();
    assert_eq!(check, plan.len() - 2);
    let odd = Reply::Ran {
        ok: false,
        code: Some(1),
        out: String::new(),
        err: "odd".to_string(),
    };
    p.advance(&plan, &odd);
    assert_eq!(p.pending(&plan), None);
    assert!(p.trouble.as_ref().unwrap().starts_with("failed to verify container 'update'"));
    let mut p = Progress::start();
    p.advance(&plan, &Reply::Broken("no".to_string()));
    let unknown = Reply::Ran {
        ok: false,
        code: Some(1),
        out: String::new(),
        err: "Unknown command".to_string(),
    };
    assert!(p.advance(&plan, &unknown).unwrap().text.starts_with("warning: container CLI"));
    assert_eq!(p.pending(&plan), None);
    assert_eq!(p.trouble.as_deref(), Some("no"));
    let open = apply_profile(&request(), &host, true, false, "img");
    assert!(!open.iter().any(|s| s.always));
    let baked = apply_profile(&request(), &host, false, false, "img");
    assert_eq!(baked.len(), 1);
    assert_eq!(
        baked[0].shout,
        vec!["info: using pre-baked image img for profile pi"]
    );
    let mut q = request();
    q.script_found = false;
    assert!(run_provision_container(&q, &host).is_err());
    let refused = apply_profile(&q, &host, true, false, "img");
    assert!(matches!(refused[0].good, Effect::Stop(_)));
    assert!(refused[0].say.is_empty());
}

#[test]
fn provisioning_is_told_of_once_the_script_is_there() {
    let host = Ok("192.168.64.1".to_string());
    let plan = apply_profile(&request(), &host, true, false, "img");
    assert_eq!(plan[0].say, vec!["info: provisioning: pi"]);
    let nowhere = resolve_container_host_gateway(&None, &None, &None, &None);
    let refused = apply_profile(&request(), &nowhere, true, false, "img");
    assert_eq!(refused.len(), 1);
    assert_eq!(refused[0].say, vec!["info: provisioning: pi"]);
    assert!(matches!(refused[0].good, Effect::Stop(_)));
}

#[test]
fn stops_find_their_containers() {
    let labels = vec![("tnk.managed", "true"), ("tnk.owner", "project")];
    let items = vec![
        item("tnk-b", None, labels.clone()),
        item("tnk-a", None, labels),
        item("tnk-c", None, Vec::new()),
    ];
    let none = Vec::new();
    assert!(matches!(
        ContainerBackend::stop(&none, true, &Vec::new()),
        StopRequest::Nothing(line) if line == "no managed sandbox containers found"
    ));
    let plan = match ContainerBackend::stop(&none, true, &items) {
        StopRequest::Plan(plan) => plan,
        _ => panic!("a plan is expected"),
    };
    let stopped: Vec<String> = plan
        .iter()
        .filter_map(|s| match &s.task {
            Task::Run { args, .. } => Some(args.join(" ")),
            _ => None,
        })
        .collect();
    assert_eq!(stopped, vec!["stop tnk-a", "stop tnk-b"]);
    assert!(matches!(
        ContainerBackend::stop(&vec!["tnk-a".to_string()], false, &items),
        StopRequest::Plan(plan) if plan.len() == 3
    ));
    assert!(matches!(ContainerBackend::stop(&none, false, &items), StopRequest::Current));
}

#[test]
fn containers_that_cannot_be_listed_are_an_error() {
    let items = vec![item("tnk-a", Some(json::text_value("stopped")), Vec::new())];
    let entries = list_containers(&Some(items)).ok().unwrap();
    assert_eq!(entries.len(), 1);
    assert_eq!(entries[0].id, "tnk-a");
    assert_eq!(entries[0].mount, "/workspace");
    assert_eq!(
        list_containers(&None).unwrap_err().message,
        "failed to list containers (run 'container system start' if the service is not running)"
    );
    assert_eq!(
        ContainerBackend::cleanup_candidates(false, Some(Vec::new())).err().unwrap(),
        "warning: sandbox cache directory is missing; skipping untracked cleanup to avoid accidental deletion"
    );
    assert_eq!(
        ContainerBackend::cleanup_candidates(true, None).err().unwrap(),
        "warning: failed to list containers for cleanup"
    );
    assert!(ContainerBackend::cleanup_candidates(true, Some(Vec::new())).is_ok());
}

#[test]
fn images_are_baked_for_named_profiles() {
    let n = golden_names("pi", "/tmp").ok().unwrap();
    assert_eq!(n.image_tag, "tnk-profile-pi:latest");
    assert!(golden_names(" ", "/tmp").is_err());
    assert_eq!(golden_model(&Some("p".to_string()), "llama"), "p");
    assert_eq!(golden_model(&None, "mlxcel"), "mlx-community/Qwen3.6-35B-A3B-4bit");
    assert_eq!(golden_model(&None, "odd"), golden_model(&None, "llama"));
    assert!(golden_names("...", "/tmp").is_err());
}
