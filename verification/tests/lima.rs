use tnk::doctor::Listed;
use tnk::plan::{Progress, Reply, Task};
use tnk::sandbox::lima::{
    build_mount_set_expr, build_start_args, discover_managed_lima_instances, escape_yq_value,
    managed, may_delete, split_memory, stop_lima_instance_by_id, validate_named_lima_sandbox,
    LimaBackend, StopRequest,
};
use tnk::sandbox::session::open_session;
use tnk::sandbox::{ProfileSettings, ResourceLimits, SandboxManifest};

#[test]
fn manifests_give_limits() {
    let limits = ResourceLimits { cpus: Some(4), memory: Some("8GiB".to_string()) };
    let manifest = SandboxManifest { resources: Some(limits), mounts: None };
    let s = LimaBackend::resolve_settings(Some(manifest));
    assert_eq!(s.cpus, Some(4));
    assert_eq!(s.memory.as_deref(), Some("8GiB"));
    assert_eq!(s.workspace_guest_path, "/workspace");
    let s = LimaBackend::resolve_settings(None);
    assert!(s.cpus.is_none() && s.memory.is_none());
    assert_eq!(s.workspace_guest_path, "/workspace");
}

#[test]
fn escape_yq_value_quotes_simple_path() {
    assert_eq!(
        escape_yq_value("/Users/user/code/project"),
        "\"/Users/user/code/project\""
    );
}

#[test]
fn escape_yq_value_escapes_special_chars() {
    assert_eq!(escape_yq_value("path/with\"quote"), r#""path/with\"quote""#);
    assert_eq!(escape_yq_value("path/with$var"), r#""path/with\$var""#);
}

#[test]
fn build_mount_set_expr_produces_valid_yq() {
    let expr = build_mount_set_expr("/Users/user/code/project", "/workspace", true);
    assert!(expr.starts_with(".mounts |= "));
    assert!(expr.contains("/Users/user/code/project"));
    assert!(expr.contains("/workspace"));
    assert!(expr.contains("writable"));
}

#[test]
fn backslashes_and_backticks_are_escaped_once() {
    assert_eq!(escape_yq_value("a\\b`c"), "\"a\\\\b\\`c\"");
}

#[test]
fn memory_sizes_are_split() {
    assert_eq!(split_memory(" 4.5 GiB "), ("4.5".to_string(), false));
    assert_eq!(split_memory("2048MiB"), ("2048".to_string(), true));
    assert_eq!(split_memory("3"), ("3".to_string(), false));
    assert_eq!(split_memory("2TB"), ("2TB".to_string(), false));
}

fn settings() -> ProfileSettings {
    ProfileSettings {
        cpus: Some(2),
        memory: None,
        workspace_guest_path: "/workspace".to_string(),
    }
}

#[test]
fn start_arguments_mount_the_project() {
    let args = build_start_args("tnk-a", "/h/code/a", &settings(), &Some("4".to_string()));
    assert_eq!(args[3], "tnk-a");
    let cpus = args.iter().position(|a| a == "--cpus").unwrap();
    assert_eq!(args[cpus + 1], "2");
    let memory = args.iter().position(|a| a == "--memory").unwrap();
    assert_eq!(args[memory + 1], "4");
    assert!(args.contains(&build_mount_set_expr("/h/code/a", "/workspace", true)));
    assert_eq!(args.last().unwrap(), "template:ubuntu");
    let bare = build_start_args("tnk-a", "/p", &settings(), &None);
    assert!(!bare.contains(&"--memory".to_string()));
}

fn ran(ok: bool, out: &str) -> Reply {
    Reply::Ran {
        ok,
        code: Some(if ok { 0 } else { 1 }),
        out: out.to_string(),
        err: "l1\nl2".to_string(),
    }
}

#[test]
fn starts_end_with_a_look_at_the_machine() {
    let plan = LimaBackend::start("tnk-a", "/p", &settings(), &None, false);
    let mut p = Progress::start();
    p.advance(&plan, &ran(true, "tnk-a\n"));
    p.advance(&plan, &ran(true, "Running\n"));
    assert_eq!(p.pending(&plan), Some(4));
    p.advance(&plan, &ran(true, "Stopped\n"));
    assert_eq!(
        p.trouble.as_deref(),
        Some("lima instance 'tnk-a' not running after start")
    );
}

#[test]
fn failed_creations_show_the_errors() {
    let opened = open_session(true, false, &Vec::new()).ok().unwrap();
    let plan = LimaBackend::shell(&opened, "tnk-a", "/p", &settings(), &None, false);
    let mut p = Progress::start();
    p.advance(&plan, &ran(true, ""));
    assert_eq!(p.pending(&plan), Some(1));
    p.advance(&plan, &ran(false, ""));
    assert_eq!(
        p.trouble.as_deref(),
        Some("failed to create/start lima instance 'tnk-a': l1\nl2")
    );
    assert_eq!(p.pending(&plan), None);
}

#[test]
fn late_creations_say_so() {
    let plan = LimaBackend::start("tnk-a", "/p", &settings(), &None, false);
    let mut p = Progress::start();
    p.advance(&plan, &ran(true, ""));
    p.advance(&plan, &Reply::Late);
    assert_eq!(
        p.trouble.as_deref(),
        Some("create/start tnk-a: timed out after 300s")
    );
}

#[test]
fn stops_grow_harder_and_fail_only_while_running() {
    let plan = stop_lima_instance_by_id("tnk-a");
    let mut p = Progress::start();
    let mut pauses = 0;
    let mut said = Vec::new();
    while let Some(i) = p.pending(&plan) {
        let reply = match &plan[i].task {
            Task::Pause(_) => {
                pauses += 1;
                Reply::Yes
            }
            Task::Run { args, .. } if args[0] == "list" && args[2] == "{{.Name}}" => {
                ran(true, "tnk-a")
            }
            Task::Run { args, .. } if args[0] == "list" => ran(true, "running"),
            _ => ran(false, ""),
        };
        if let Some(l) = p.advance(&plan, &reply) {
            said.push(l.text);
        }
    }
    assert_eq!(pauses, 1);
    assert_eq!(
        said,
        vec!["warning: graceful stop for 'tnk-a' did not succeed, retrying"]
    );
    assert_eq!(
        p.trouble.as_deref(),
        Some("failed to stop lima instance 'tnk-a'")
    );
}

#[test]
fn missing_machines_need_no_stop() {
    let plan = stop_lima_instance_by_id("tnk-a");
    let mut p = Progress::start();
    p.advance(&plan, &ran(true, ""));
    assert_eq!(p.pending(&plan), None);
    assert!(p.trouble.is_none());
}

#[test]
fn deletions_need_a_terminal_or_consent() {
    assert!(may_delete(true, false).is_ok());
    assert!(may_delete(false, true).is_ok());
    let (code, message) = may_delete(false, false).unwrap_err();
    assert_eq!(code.as_i32(), 77);
    assert_eq!(message, "terminal required for deletion, use --yes");
    let plan = LimaBackend::delete("tnk-a", true);
    let mut p = Progress::start();
    p.advance(&plan, &ran(true, "tnk-a"));
    p.advance(&plan, &ran(true, "Stopped"));
    let i = p.pending(&plan).unwrap();
    assert!(matches!(&plan[i].task, Task::Run { args, .. } if args == &["delete", "--force", "tnk-a"]));
    assert_eq!(
        p.advance(&plan, &ran(true, "")).unwrap().text,
        "info: deleted tnk-a"
    );
    assert_eq!(p.pending(&plan), None);
}

#[test]
fn only_projects_are_managed() {
    assert!(managed("tnk-a"));
    assert!(!managed("tnk-services"));
    assert!(!managed("tnk-searxng"));
    assert!(!managed("other"));
    assert!(validate_named_lima_sandbox("tnk-a").is_ok());
    assert!(validate_named_lima_sandbox("tnk-services").is_err());
    assert!(validate_named_lima_sandbox("a").is_err());
    let mut found = discover_managed_lima_instances("tnk-b\n tnk-a \ntnk-services\nx\ntnk-a\n");
    found.dedup();
    assert_eq!(found, vec!["tnk-a", "tnk-b"]);
}

#[test]
fn stop_requests_are_sorted_out() {
    let names = vec!["tnk-b".to_string(), "tnk-a".to_string(), "tnk-b".to_string()];
    match LimaBackend::stop(&names, false, "") {
        StopRequest::Plan(v) => assert!(!v.is_empty()),
        _ => panic!("a plan is expected"),
    }
    assert!(matches!(
        LimaBackend::stop(&Vec::new(), true, "tnk-services\n"),
        StopRequest::Nothing(line) if line == "no managed lima instances found"
    ));
    assert!(matches!(
        LimaBackend::stop(&Vec::new(), false, ""),
        StopRequest::Current
    ));
}

#[test]
fn listed_machines_have_states() {
    let listed = Listed::Ran {
        ok: true,
        out: "tnk-a\tRunning\nx\tRunning\ntnk-b\t\n".to_string(),
    };
    let v = LimaBackend::ls(listed).ok().unwrap();
    assert_eq!(v.len(), 2);
    assert_eq!(v[0].status, "Running");
    assert_eq!(v[1].status, "unknown");
    assert_eq!(v[1].mount, "/workspace");
}

#[test]
fn machines_that_cannot_be_listed_are_an_error() {
    let failed = Listed::Ran { ok: false, out: "tnk-a\tRunning\n".to_string() };
    assert_eq!(
        LimaBackend::ls(failed).unwrap_err().message,
        "failed to list lima instances (run 'limactl list' to check lima installation)"
    );
    assert_eq!(
        LimaBackend::ls(Listed::Late).unwrap_err().message,
        "limactl list timed out after 15s"
    );
    assert_eq!(LimaBackend::ls(Listed::Broken("gone".to_string())).unwrap_err().message, "gone");
}

#[test]
fn machines_are_looked_for_only_with_a_cache() {
    let listed = || Listed::Ran { ok: true, out: "tnk-a\n x \n tnk-b \n".to_string() };
    assert_eq!(
        LimaBackend::cleanup_candidates(true, listed()).unwrap(),
        vec!["tnk-a".to_string(), "tnk-b".to_string()]
    );
    assert_eq!(
        LimaBackend::cleanup_candidates(false, listed()).unwrap_err(),
        "warning: sandbox cache directory is missing; skipping untracked cleanup"
    );
    let failed = Listed::Ran { ok: false, out: String::new() };
    assert_eq!(
        LimaBackend::cleanup_candidates(true, failed).unwrap_err(),
        "warning: failed to list lima instances for cleanup"
    );
    assert_eq!(
        LimaBackend::cleanup_candidates(true, Listed::Late).unwrap_err(),
        "warning: limactl list timed out or failed for cleanup"
    );
}

#[test]
fn machines_left_behind_are_only_told_of() {
    assert_eq!(LimaBackend::cleanup_untracked("tnk-a", true, false, true), None);
    assert_eq!(
        LimaBackend::cleanup_untracked("tnk-a", false, true, true).as_deref(),
        Some("info: skipping running untracked lima instance tnk-a")
    );
    assert!(LimaBackend::cleanup_untracked("tnk-a", false, false, true)
        .unwrap()
        .starts_with("warning: detected unlabeled lima instance tnk-a"));
}
