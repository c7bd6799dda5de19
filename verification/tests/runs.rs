use tnk::catalog::{list_profiles, manifest_candidates, missing_manifest, resolve_manifest};
use tnk::cli::{
    check_delete, check_stop, choose_profile, init_verdict, ls, require_terminal, skip_note,
    InitEnd, OutputFormat,
};
use tnk::doctor::{check_locks_dir, check_managed_instances, list_lima_instances, Listed};
use tnk::init::{
    copy_dir_contents, install, keep_revision, repository_url, should_install,
    stage_specs_source, Copying, InitCommands,
};
use tnk::lifecycle::{acquire, lock_holder, lock_path, lock_text, LockStep};
use tnk::model::{get_ctx_window, loaded_model, models_url, Answer, Poll, PollStep};
use tnk::plan::{Effect, Order, Output, Progress, Reply, Stage, Task};
use tnk::sandbox::SandboxEntry;
use tnk::services::{
    ensure_lima_services_instance, generate_searxng_secret, provision_lima_services_instance,
    wait_for_services_ready, Course, LimaServices, Readiness, ServiceStep,
};
use tnk::shutdown::{discover_lima_sandboxes, run};
use tnk::text::number::{parse_unsigned, to_decimal};
use tnk::text::order::sort_dedup;
use tnk::text::split::{lines, split};
use tnk::text::class::Class;
use tnk::{json, plan};

fn ran(ok: bool, out: &str, err: &str) -> Reply {
    Reply::Ran {
        ok,
        code: Some(if ok { 0 } else { 1 }),
        out: out.to_string(),
        err: err.to_string(),
    }
}

fn carried(o: Order) -> Vec<Stage<String, Vec<String>>> {
    match o {
        Order::Carry(v) => v,
        _ => panic!("a plan is expected"),
    }
}

#[test]
fn secrets_have_thirty_two_letters() {
    let mut s = String::new();
    let mut bytes = 0u32;
    let mut b = 240u8;
    while !generate_searxng_secret(&mut s, b) {
        b = b.wrapping_add(1);
        bytes += 1;
    }
    assert_eq!(s.len(), 32);
    assert_eq!(bytes, 31 + 8);
    let mut one = String::new();
    for (b, c) in [(0u8, "A"), (25, "Z"), (26, "a"), (51, "z"), (52, "0"), (61, "9"), (62, "A"), (247, "9")] {
        one.clear();
        generate_searxng_secret(&mut one, b);
        assert_eq!(one, c);
    }
    one.clear();
    generate_searxng_secret(&mut one, 248);
    assert_eq!(one, "");
}

#[test]
fn every_letter_comes_from_four_bytes() {
    let mut counts = std::collections::HashMap::new();
    for b in 0..=255u8 {
        let mut s = String::new();
        generate_searxng_secret(&mut s, b);
        *counts.entry(s).or_insert(0) += 1;
    }
    assert_eq!(counts.remove(""), Some(8));
    assert_eq!(counts.len(), 62);
    assert!(counts.values().all(|n| *n == 4));
}

#[test]
fn services_are_created_booted_or_left_running() {
    let plan = ensure_lima_services_instance();
    let mut p = Progress::start();
    p.advance(&plan, &ran(true, "other\n", ""));
    let line = p.advance(&plan, &ran(true, "", "")).unwrap();
    assert_eq!(line.text, "info: services instance 'tnk-services' is running");
    assert_eq!(p.pending(&plan), None);

    let mut p = Progress::start();
    p.advance(&plan, &ran(true, "x\n tnk-services \n", ""));
    p.advance(&plan, &ran(true, " RUNNING\n", ""));
    assert_eq!(p.pending(&plan), None);

    let mut p = Progress::start();
    p.advance(&plan, &ran(true, "tnk-services", ""));
    p.advance(&plan, &ran(true, "Stopped", ""));
    p.advance(&plan, &ran(false, "", "1\n2\n3\n4\n5\n6\n7"));
    assert_eq!(
        p.trouble.as_deref(),
        Some("failed to start services instance: 1\n2\n3\n4\n5\n6")
    );
}

fn service_kinds(c: Course) -> Vec<String> {
    match c {
        Course::Take(v) => v
            .iter()
            .map(|s| match s {
                ServiceStep::Shout(line) | ServiceStep::Tell(line) => line.clone(),
                ServiceStep::Lock => "lock".to_string(),
                ServiceStep::Stop => "stop".to_string(),
                ServiceStep::Pause(n) => format!("pause {n}"),
                ServiceStep::BringUp => "up".to_string(),
                ServiceStep::Await(n) => format!("await {n}"),
                ServiceStep::Provision => "provision".to_string(),
            })
            .collect(),
        Course::Skip(note) => vec![note],
    }
}

#[test]
fn services_are_set_up_once_their_machine_answers() {
    let start = vec![
        "info: services machine: acquiring lifecycle lock",
        "lock",
        "up",
        "await 180",
        "provision",
        "info: searxng:  http://127.0.0.1:18766 (browser access)",
        "info: mcp:      stdio bridge via limactl shell tnk-services",
    ];
    assert_eq!(service_kinds(LimaServices::start(false)), start);
    let again = service_kinds(LimaServices::restart(false));
    assert_eq!(again[..2], ["stop", "pause 2000"]);
    assert_eq!(again[2..], start);
    assert_eq!(
        service_kinds(LimaServices::start(true)),
        vec!["dry run, skipping services start"]
    );
}

#[test]
fn services_time_out() {
    let plan = ensure_lima_services_instance();
    let mut p = Progress::start();
    p.advance(&plan, &Reply::Late);
    p.advance(&plan, &Reply::Late);
    assert_eq!(
        p.trouble.as_deref(),
        Some("failed to create/start services instance: timed out after 300s")
    );
}

#[test]
fn search_engine_failures_are_only_warned_of() {
    let plan = provision_lima_services_instance("/h", "S3cret");
    assert!(matches!(&plan[0].task, Task::Run { args, .. }
        if args[1] == "/h/.config/tnk/sandbox.d/provision.d/tnk-services.sh"));
    assert!(matches!(&plan[1].task, Task::Run { args, .. }
        if args[5].contains("-e SEARXNG_SECRET=S3cret -v ")));
    let mut p = Progress::start();
    p.advance(&plan, &ran(true, "", ""));
    assert_eq!(
        p.advance(&plan, &Reply::Late).unwrap().text,
        "warning: timed out starting searxng in services instance"
    );
    p.advance(&plan, &ran(true, "", ""));
    assert!(p.trouble.is_none());
    assert_eq!(p.pending(&plan), None);
}

#[test]
fn services_stop_by_force_only_while_running() {
    let plan = carried(LimaServices::stop(false));
    let mut p = Progress::start();
    p.advance(&plan, &ran(true, "tnk-services", ""));
    p.advance(&plan, &ran(false, "", ""));
    p.advance(&plan, &ran(true, "Stopped", ""));
    assert_eq!(p.pending(&plan), None);
    assert!(p.trouble.is_none());
    let mut p = Progress::start();
    p.advance(&plan, &ran(true, "tnk-services", ""));
    p.advance(&plan, &Reply::Late);
    p.advance(&plan, &ran(true, "Running", ""));
    p.advance(&plan, &ran(false, "", "no"));
    assert_eq!(
        p.trouble.as_deref(),
        Some("failed to stop services instance: no")
    );
}

#[test]
fn services_are_deleted_with_consent() {
    assert!(matches!(LimaServices::delete(false, false, false),
        Order::Refuse(c, m) if c.as_i32() == 77 && m == "terminal required for deletion, use --yes"));
    assert!(matches!(LimaServices::delete(false, true, false),
        Order::Skip(m) if m == "dry run, skipping services delete"));
    assert!(matches!(LimaServices::restart(true),
        Course::Skip(m) if m == "dry run, skipping services restart"));
    let plan = carried(LimaServices::delete(true, false, false));
    let mut p = Progress::start();
    p.advance(&plan, &ran(true, "", ""));
    assert_eq!(p.pending(&plan), Some(2));
    p.advance(&plan, &ran(true, "tnk-searxng", ""));
    assert!(matches!(&plan[p.pending(&plan).unwrap()].task, Task::Run { args, .. }
        if args == &["delete", "--force", "tnk-searxng"]));
}

#[test]
fn services_tell_their_state() {
    let text = LimaServices::status(true, true, OutputFormat::Text);
    assert_eq!(text.err, vec!["services (vm): running", "searxng (vm): running"]);
    let j = LimaServices::status(true, false, OutputFormat::Json);
    assert_eq!(
        j.out,
        vec!["{\"name\":\"tnk-services\",\"runtime\":\"lima\",\"searxng\":\"stopped\",\"status\":\"stopped\"}"]
    );
    let none = LimaServices::status(false, false, OutputFormat::Json);
    assert!(none.out.is_empty() && none.err.is_empty());
}

#[test]
fn services_are_waited_for() {
    let (r, note) = wait_for_services_ready("i", 180, false, true, false);
    assert!(matches!(r, Readiness::Again));
    assert_eq!(
        note.as_deref(),
        Some("lima shell check timed out after 10s for instance 'i'")
    );
    let (r, _) = wait_for_services_ready("i", 180, false, false, true);
    assert!(matches!(r, Readiness::Expired(e)
        if e.message == "timed out waiting for lima instance 'i' to be ready after 180s"));
    assert!(matches!(
        wait_for_services_ready("i", 180, true, false, true).0,
        Readiness::Ready
    ));
}

#[test]
fn shutdowns_reach_every_machine_and_never_fail() {
    let names = discover_lima_sandboxes(Some("tnk-a\n tnk-b\ntnk-config\nx\n".to_string()));
    assert_eq!(names, vec!["tnk-a", "tnk-b"]);
    assert!(discover_lima_sandboxes(None).is_empty());
    let plan = carried(run(None, false, &names));
    let mut asked = Vec::new();
    let mut said = Vec::new();
    let mut p = Progress::start();
    while let Some(i) = p.pending(&plan) {
        let reply = match &plan[i].task {
            Task::Run { args, .. } if args[0] == "list" => {
                asked.push(args[3].clone());
                ran(true, "running", "")
            }
            Task::Run { limit, args, .. } => {
                if args.len() == 2 {
                    assert_eq!(*limit, 60);
                }
                ran(false, "", "")
            }
            _ => Reply::Yes,
        };
        if let Some(l) = p.advance(&plan, &reply) {
            said.push(l.text);
        }
    }
    assert_eq!(asked, names);
    assert!(p.trouble.is_none());
    assert_eq!(
        said,
        vec![
            "warning: graceful stop for 'tnk-a' did not succeed, escalating to force",
            "warning: failed to stop tnk-a",
            "warning: graceful stop for 'tnk-b' did not succeed, escalating to force",
            "warning: failed to stop tnk-b",
            "info: shutdown complete"
        ]
    );
    assert!(matches!(run(Some(0), true, &names),
        Order::Skip(m) if m == "dry run, skipping shutdown actions"));
    let quick = carried(run(Some(0), false, &names));
    assert!(matches!(quick[1].task, Task::Run { limit: 0, output: Output::Captured, .. }));
}

#[test]
fn setups_leave_full_directories_alone() {
    let cmd = |force: bool| InitCommands {
        git_url: None,
        force,
    };
    assert_eq!(should_install(&cmd(false), true, 2), (false, None));
    assert_eq!(should_install(&cmd(false), true, 0), (true, None));
    assert_eq!(should_install(&cmd(false), false, 0), (true, None));
    assert_eq!(
        should_install(&cmd(true), true, 2),
        (true, Some("overwriting existing configs".to_string()))
    );
    assert_eq!(
        repository_url(&cmd(false)),
        "https://github.com/tappunk/tnk-specs.git"
    );
}

#[test]
fn failed_clones_are_removed() {
    let plan = stage_specs_source("url", "/tmp/x");
    let mut p = Progress::start();
    assert_eq!(
        p.advance(&plan, &Reply::No).unwrap().text,
        "info: cloning tnk-specs into /tmp/x"
    );
    assert_eq!(p.pending(&plan), Some(2));
    p.advance(&plan, &ran(false, "", ""));
    assert!(matches!(&plan[p.pending(&plan).unwrap()].task, Task::RemoveDir(d) if d == "/tmp/x"));
    p.advance(&plan, &Reply::Yes);
    assert_eq!(p.trouble.as_deref(), Some("failed to clone tnk-specs"));
    let mut p = Progress::start();
    p.advance(&plan, &Reply::Yes);
    assert!(matches!(&plan[p.pending(&plan).unwrap()].task, Task::CopyTree(a, b) if a == "url" && b == "/tmp/x"));
    p.advance(&plan, &Reply::Yes);
    assert_eq!(p.pending(&plan), None);
    assert!(p.trouble.is_none());
}

#[test]
fn installed_configurations_stay() {
    let plan = install("/tmp/x", "/h");
    let mut p = Progress::start();
    p.advance(&plan, &Reply::Yes);
    p.advance(&plan, &Reply::No);
    assert!(matches!(&plan[p.pending(&plan).unwrap()].task, Task::Exists(f) if f == "/h/.config/tnk/tnk.toml"));
    p.advance(&plan, &Reply::Yes);
    assert_eq!(p.pending(&plan), None);
    let mut p = Progress::start();
    for reply in [Reply::Yes, Reply::Yes, Reply::Yes, Reply::Yes, Reply::Broken("x".to_string())] {
        p.advance(&plan, &reply);
    }
    assert!(matches!(&plan[p.pending(&plan).unwrap()].task, Task::CopyTree(..)));
    p.advance(&plan, &Reply::Broken("full".to_string()));
    assert_eq!(p.trouble.as_deref(), Some("failed to sync sandbox.d: full"));
}

#[test]
fn repository_data_is_not_copied() {
    assert!(matches!(copy_dir_contents(".git", true, false), Copying::Leave));
    assert!(matches!(copy_dir_contents("d", true, false), Copying::Descend));
    assert!(matches!(copy_dir_contents("f", false, true), Copying::Copy));
    assert!(matches!(copy_dir_contents("s", false, false), Copying::Leave));
    assert_eq!(keep_revision("/h", "local"), None);
    assert_eq!(
        keep_revision("/h", "git:abc"),
        Some(("/h/.config/tnk/.specs_rev".to_string(), "git:abc\n".to_string()))
    );
}

#[test]
fn diagnostics_count_machines() {
    let out = "tnk-a\n\n other \ntnk-services\n".to_string();
    let names = list_lima_instances(Listed::Ran { ok: true, out }).ok().unwrap();
    assert_eq!(names, vec!["tnk-a", "other", "tnk-services"]);
    assert_eq!(
        check_managed_instances(&names),
        "managed lima instances detected: 2"
    );
    let none = list_lima_instances(Listed::Ran { ok: false, out: "x".to_string() });
    assert!(none.ok().unwrap().is_empty());
    assert_eq!(
        list_lima_instances(Listed::Late).err().unwrap().message,
        "limactl list timed out after 15s"
    );
    assert_eq!(
        list_lima_instances(Listed::Broken("b".to_string())).err().unwrap().message,
        "b"
    );
    assert!(check_locks_dir(false).1);
}

#[test]
fn profiles_are_chosen() {
    let known = vec!["pi".to_string()];
    assert_eq!(
        choose_profile(Some("x".to_string()), None, &known, false),
        ("x".to_string(), None)
    );
    assert_eq!(choose_profile(None, None, &known, false), ("pi".to_string(), None));
    let (p, w) = choose_profile(None, Some("zz".to_string()), &known, false);
    assert_eq!(p, "base");
    assert_eq!(
        w.as_deref(),
        Some("warning: default profile 'zz' not found, using 'base'")
    );
    assert_eq!(
        choose_profile(None, Some("zz".to_string()), &known, true),
        ("base".to_string(), None)
    );
}

#[test]
fn misused_commands_are_refused() {
    assert!(check_stop(true, &Vec::new()).is_ok());
    assert_eq!(
        check_stop(true, &vec!["a".to_string()]).unwrap_err().1,
        "--all cannot be combined with --name"
    );
    assert!(check_delete("tnk-a").is_ok());
    assert_eq!(check_delete("tnk-config").unwrap_err().0.as_i32(), 64);
    assert!(check_delete("").is_err());
    assert!(require_terminal(true, true, true).is_ok());
    assert_eq!(
        require_terminal(true, false, true).unwrap_err().1,
        "--shell requires an interactive terminal"
    );
    assert_eq!(skip_note("sandbox start"), "dry run, skipping sandbox start");
    assert_eq!(init_verdict(InitEnd::Done), None);
    assert_eq!(
        init_verdict(InitEnd::Late).as_deref(),
        Some("init timed out after 120s; check network connectivity")
    );
    assert_eq!(
        init_verdict(InitEnd::Panicked("x".to_string())).as_deref(),
        Some("init task panicked: x")
    );
}

#[test]
fn sandboxes_are_listed_in_every_format() {
    let v = vec![SandboxEntry {
        id: "tnk-a".to_string(),
        status: "Running".to_string(),
        mount: "/workspace".to_string(),
    }];
    assert_eq!(
        ls(&v, OutputFormat::Text, false),
        vec![format!("{:<30} {}  mount: {}", "tnk-a", "Running", "/workspace")]
    );
    assert_eq!(ls(&v, OutputFormat::Json, true), vec!["tnk-a"]);
    let one = "{\"mount\":\"/workspace\",\"name\":\"tnk-a\",\"status\":\"Running\"}";
    assert_eq!(ls(&v, OutputFormat::Json, false), vec![format!("[{one}]")]);
    assert_eq!(ls(&v, OutputFormat::Ndjson, false), vec![one]);
    assert_eq!(ls(&Vec::new(), OutputFormat::Json, false), vec!["[]"]);
    assert!(ls(&Vec::new(), OutputFormat::Text, false).is_empty());
}

#[test]
fn locks_tell_their_holders() {
    assert_eq!(lock_path("/h", "engine"), "/h/.cache/tnk/engine.lock");
    assert_eq!(lock_holder(&Some(lock_text(123))), Some(123));
    assert_eq!(lock_holder(&Some("x".to_string())), None);
    assert_eq!(lock_holder(&None), None);
    assert!(matches!(acquire("e", false, true, true), LockStep::RemoveStale));
    assert!(matches!(acquire("e", true, true, true), LockStep::GiveUp(f)
        if f.message == "timed out waiting for lifecycle lock 'e'"));
    assert!(matches!(acquire("e", true, false, true), LockStep::Wait(Some(l))
        if l == "waiting for lifecycle lock 'e'"));
    assert!(matches!(acquire("e", true, false, false), LockStep::Wait(None)));
}

#[test]
fn context_windows_are_read_from_answers() {
    let window = |s: &str| get_ctx_window(&s.as_bytes().to_vec());
    assert_eq!(window("{\"data\":[{\"id\":\"a\"},{\"meta\":{\"n_ctx\":4096}}]}"), Some(4096));
    assert_eq!(window("{\"context_length\":\"8192\"}"), Some(8192));
    assert_eq!(window("{}"), Some(131072));
    assert_eq!(window("{"), None);
    let j = json::read(&b"{\"data\":[{\"id\":\"\"},{\"id\":\"m\"}]}".to_vec()).unwrap();
    assert_eq!(loaded_model(&j).as_deref(), Some("m"));
    assert_eq!(models_url("h", 1), "http://h:1/v1/models");
}

#[test]
fn polls_end_with_a_model() {
    let mut p = Poll::start();
    let empty = Answer::Said(json::read(&b"{}".to_vec()).unwrap());
    assert!(matches!(p.take(&empty, 0, 3), PollStep::Again(_)));
    let full = Answer::Said(json::read(&b"{\"data\":[{\"id\":\"m\"}]}".to_vec()).unwrap());
    assert!(matches!(p.take(&full, 1, 3), PollStep::Found(m) if m == "m"));
}

#[test]
fn profiles_are_listed_in_order() {
    let files = vec!["b.sh".to_string(), "a.sh".to_string(), "readme".to_string()];
    assert_eq!(list_profiles(&files), vec!["a", "b"]);
    let (own, shared) = manifest_candidates("/c", "pi");
    assert_eq!(own, "/c/sandbox.d/manifests/pi.yaml");
    assert_eq!(resolve_manifest("/c", "pi", true, true).as_deref(), Some(own.as_str()));
    assert_eq!(resolve_manifest("/c", "pi", false, true).as_deref(), Some(shared.as_str()));
    assert_eq!(resolve_manifest("/c", "pi", false, false), None);
    assert!(missing_manifest("pi").contains("pi"));
}

#[test]
fn plans_skip_after_trouble_but_clean_up() {
    let v = vec![
        plan::stage(Task::Exists("a".to_string())).otherwise(plan::stops("gone")),
        plan::stage(Task::Exists("b".to_string())),
        plan::stage(Task::RemoveDir("c".to_string())).regardless().otherwise(Effect::Go(0)),
    ];
    let mut p = Progress::start();
    p.advance(&v, &Reply::No);
    assert_eq!(p.pending(&v), Some(2));
    p.advance(&v, &Reply::Broken("x".to_string()));
    assert_eq!(p.pending(&v), None);
    assert_eq!(p.trouble.as_deref(), Some("gone"));
}

#[test]
fn texts_are_cut_and_sorted() {
    assert_eq!(lines("a\r\nb\n\nc"), vec!["a", "b", "", "c"]);
    assert_eq!(split("a//b", Class::Only('/')), vec!["a", "", "b"]);
    assert_eq!(
        sort_dedup(&vec!["b".to_string(), "a".to_string(), "b".to_string()]),
        vec!["a", "b"]
    );
    assert_eq!(to_decimal(u64::MAX), "18446744073709551615");
    assert_eq!(parse_unsigned("+7", 10), Some(7));
    assert_eq!(parse_unsigned("11", 10), None);
    assert_eq!(parse_unsigned("", 10), None);
}
