use tnk::cli::OutputFormat;
use tnk::engine::preset::{
    discover_presets, expand_model_path, parse_ini_file, preset_from_kv, presets_for_runtime,
    resolve_preset, resolve_runtime_for_profile,
};
use tnk::engine::process::{
    detect_running_model_for_runtime, extract_model_from_args, is_running_for_runtime,
    is_runtime_pid, latest_first, list_runtime_pids, read_pid_file, PidFile, Told,
};
use tnk::engine::run::{
    after_launch, before_launch, exit_line, forward_signal, launch_failure, running_runtime,
    say_stop, signal_to_send, stale_pid_warning, start, stop, stop_pid, stop_targets, EngineStep,
    Signal, StartRequest, StopStage,
};
use tnk::engine::status::{
    asks_process, asks_server, lima_status_lines, list_lima_sandboxes, overall_state,
    print_status, print_status_row, read_items, runtime_status, service_state, status, Overall,
};
use tnk::engine::{
    active_preset_file_for_runtime, require_runtime, resolve_bind_host, runtime_args, runtime_spec,
    supported_runtime_names, supports_runtime,
};

#[test]
fn extracts_model_from_flag_pair() {
    let args = "llama-server --model /tmp/model.gguf --host 0.0.0.0";
    assert_eq!(
        extract_model_from_args(args).as_deref(),
        Some("/tmp/model.gguf")
    );
}

#[test]
fn extracts_model_from_flag_assignment() {
    let args = "llama-server --model=/tmp/model.gguf --port 8080";
    assert_eq!(
        extract_model_from_args(args).as_deref(),
        Some("/tmp/model.gguf")
    );
}

#[test]
fn extracts_vllm_model_from_serve_positional() {
    let args = "vllm-mlx serve mlx-community/Qwen3.6-35B-A3B-4bit --port 8080";
    assert_eq!(
        extract_model_from_args(args).as_deref(),
        Some("mlx-community/Qwen3.6-35B-A3B-4bit")
    );
}

#[test]
fn models_are_read_back_from_the_arguments() {
    for name in ["llama", "mlxcel", "vllm-mlx"] {
        let spec = runtime_spec(name).unwrap();
        let extra = vec!["-c".to_string(), "serve other".to_string()];
        let args = runtime_args(&spec, "org/model:Q4", "0.0.0.0", 9931, &extra);
        assert_eq!(args[0], if name == "vllm-mlx" { "serve" } else { "--model" });
        assert_eq!(extract_model_from_args(&args.join(" ")).as_deref(), Some("org/model:Q4"));
    }
}

fn preset(name: &str, text: &str) -> (String, String) {
    (name.to_string(), text.to_string())
}

#[test]
fn preset_files_are_read_line_by_line() {
    let kv = parse_ini_file("# c\n[s]\n Model = \"m.gguf\" \n; x\nbad\nempty =\nextra='-c 4'\n");
    assert_eq!(
        kv,
        vec![
            ("model".to_string(), "m.gguf".to_string()),
            ("extra".to_string(), "-c 4".to_string())
        ]
    );
}

#[test]
fn extra_arguments_are_split_like_a_shell_does() {
    let kv = parse_ini_file("model=m\nextra=--a 'b c' \"d\"\\ e\n");
    let p = preset_from_kv("p", &kv).unwrap();
    assert_eq!(p.extra, vec!["--a", "b c", "d e"]);
    let plain = preset_from_kv("p", &parse_ini_file("model=m\nextra=-c  4096 -x\n")).unwrap();
    assert_eq!(plain.extra, vec!["-c", "4096", "-x"]);
    let open = preset_from_kv("p", &parse_ini_file("model=m\nextra=a 'b\n")).unwrap();
    assert!(open.extra.is_empty());
    assert!(preset_from_kv("p", &parse_ini_file("extra=a\n")).is_none());
}

#[test]
fn presets_are_found_and_resolved() {
    let files = vec![
        preset("b.ini", "model=mb\nruntime=mlxcel\n"),
        preset("a.ini", "model=ma\nruntime=llama\n"),
        preset("notes.txt", "model=x\n"),
    ];
    let presets = discover_presets(&files);
    let names: Vec<&str> = presets.iter().map(|p| p.name.as_str()).collect();
    assert_eq!(names, vec!["a", "b"]);
    assert_eq!(resolve_preset(&presets, "b").unwrap().model, "mb");
    assert!(resolve_preset(&presets, "c").is_none());
    assert_eq!(
        resolve_runtime_for_profile(None, None, Some("b"), &presets).unwrap(),
        "mlxcel"
    );
    let e = resolve_runtime_for_profile(Some("x".to_string()), None, None, &presets).unwrap_err();
    assert!(e.message.contains("unsupported engine runtime 'x'"));
}

#[test]
fn presets_are_shown_for_their_runtime() {
    let files = vec![
        preset("b.ini", "model=mb\nruntime=mlxcel\n"),
        preset("a.ini", "model=ma\nextra=-c 1\n"),
    ];
    let presets = discover_presets(&files);
    let text = presets_for_runtime("llama", &presets, OutputFormat::Text).unwrap();
    assert_eq!(text.err, vec!["a  ma  [-c 1]"]);
    assert!(text.out.is_empty());
    let one = "{\"extra\":[\"-c\",\"1\"],\"model\":\"ma\",\"name\":\"a\",\"runtime\":\"llama\"}";
    let lines = presets_for_runtime("llama", &presets, OutputFormat::Ndjson).unwrap();
    assert_eq!(lines.out, vec![one]);
    let array = presets_for_runtime("llama", &presets, OutputFormat::Json).unwrap();
    assert_eq!(array.out, vec![format!("[{}]", one)]);
    assert!(array.err.is_empty());
    assert_eq!(
        presets_for_runtime("x", &presets, OutputFormat::Text).unwrap_err().message,
        "unsupported engine runtime 'x' (supported: llama, mlxcel, vllm-mlx)"
    );
}

#[test]
fn runtimes_have_names() {
    assert!(supports_runtime("vllm-mlx"));
    assert!(!supports_runtime("vllm"));
    assert_eq!(supported_runtime_names(), ["llama", "mlxcel", "vllm-mlx"]);
    assert_eq!(active_preset_file_for_runtime("mlxcel"), "active-preset-name-mlxcel");
    assert_eq!(active_preset_file_for_runtime("x"), "active-preset-name-llama");
    assert_eq!(
        require_runtime("x").unwrap_err().message,
        "unsupported engine runtime 'x' (supported: llama, mlxcel, vllm-mlx)"
    );
    let spec = runtime_spec("llama").unwrap();
    assert_eq!(
        resolve_bind_host(&spec, &Some("  ".to_string()), &Some(" 1.2.3.4 ".to_string())),
        "1.2.3.4"
    );
}

#[test]
fn launches_are_prepared_as_a_whole() {
    let q = StartRequest {
        preset: Some("a".to_string()),
        default_preset: None,
        presets: discover_presets(&vec![preset("a.ini", "model=/m.gguf\nextra=-c 1\n")]),
        bind_host: Some("0.0.0.0".to_string()),
        default_host: None,
        port: 8080,
        foreground: false,
        home: "/h".to_string(),
        model_dir: None,
    };
    let l = start("llama", &q).unwrap();
    assert_eq!(
        l.args,
        vec!["--model", "/m.gguf", "--host", "0.0.0.0", "--port", "8080", "-c", "1"]
    );
    assert_eq!(l.line, "llama starting (background) on 0.0.0.0:8080");
    assert!(l.files.pid_file.starts_with("/h/.cache/tnk/"));
    assert!(start("x", &q).is_err());
    let calm = before_launch(&l, &Vec::new());
    assert_eq!(calm.len(), 3);
    let spec = runtime_spec("mlxcel").unwrap();
    let busy = before_launch(&l, &vec![(spec, 7)]);
    assert_eq!(busy.len(), 6);
    assert!(matches!(&busy[0], EngineStep::MakeDir(d) if d == "/h/.cache/tnk"));
    assert!(matches!(&busy[1], EngineStep::Say { always: true, .. }));
    assert!(matches!(&busy[2], EngineStep::Stop { runtime, pid: 7 } if runtime == "mlxcel"));
    assert!(matches!(&busy[3], EngineStep::Pause(300)));
    assert!(matches!(&busy[4], EngineStep::Remove(p) if p == "/h/.cache/tnk/llama-server.pid"));
    assert!(matches!(
        &busy[5],
        EngineStep::Say { line, always: true } if line == "llama starting (background) on 0.0.0.0:8080"
    ));
    let settled = after_launch(&l, 9);
    assert!(matches!(
        &settled[0],
        EngineStep::Write { path, text } if path.ends_with("llama-server.pid") && text == "9"
    ));
    assert!(matches!(&settled[1], EngineStep::Write { text, .. } if text == "/m.gguf"));
    assert!(matches!(
        &settled[2],
        EngineStep::Say { line, always: false } if line == "info: started pid 9"
    ));
    assert_eq!(exit_line(true, "x"), None);
    assert_eq!(
        exit_line(false, "exit status: 2").as_deref(),
        Some("error: server exited with code exit status: 2")
    );
    let spec = runtime_spec("llama").unwrap();
    assert_eq!(launch_failure(&spec, false, "boom").message, "boom");
    assert!(launch_failure(&spec, true, "")
        .message
        .contains("executable not found in PATH"));
}

#[test]
fn relative_models_lie_in_the_model_directory() {
    let home = Some("/h".to_string());
    assert_eq!(expand_model_path("~/m.gguf", &home, &None), "/h/m.gguf");
    assert_eq!(expand_model_path("/m.gguf", &home, &None), "/m.gguf");
}

#[test]
fn processes_are_recognized() {
    let spec = runtime_spec("llama").unwrap();
    let name = spec.executable;
    let listed = format!("  10 {name} {name} --model a\n  11 {name} {name} --model b\n  12 bash bash\n");
    assert_eq!(list_runtime_pids(&spec, 11, &listed), vec![10]);
    assert!(!is_runtime_pid(&spec, false, &listed));
    assert_eq!(latest_first(&vec![3, 9, 5]), vec![5, 9, 3]);
    let told = vec![
        Told::Refused,
        Told::Line("llama-server --model z".to_string()),
    ];
    assert_eq!(detect_running_model_for_runtime(&told).as_deref(), Some("z"));
}

#[test]
fn pid_files_are_trusted_only_for_servers() {
    let spec = runtime_spec("llama").unwrap();
    assert_eq!(read_pid_file(&PidFile::Text(" 42\n".to_string())), Some(42));
    assert_eq!(read_pid_file(&PidFile::Text("x".to_string())), None);
    assert_eq!(read_pid_file(&PidFile::Missing), None);
    assert_eq!(
        stale_pid_warning(&spec, &PidFile::Text("42".to_string()), false).as_deref(),
        Some("warning: stale pid file for non-llama process 42, removing")
    );
    let (runs, _) = is_running_for_runtime(&PidFile::Text("42".to_string()), true, false);
    assert!(runs);
}

#[test]
fn signals_grow_harder() {
    let spec = runtime_spec("llama").unwrap();
    let first = forward_signal(&spec, 5, false, Signal::Interrupt);
    assert_eq!(first.send, Some(Signal::Terminate));
    assert_eq!(
        first.line.as_deref(),
        Some("info: forwarding SIGINT to llama pid 5")
    );
    let second = forward_signal(&spec, 5, first.requested, Signal::Interrupt);
    assert_eq!(second.send, Some(Signal::Kill));
    assert_eq!(forward_signal(&spec, 0, false, Signal::Terminate).send, None);
}

#[test]
fn servers_are_killed_only_after_all_looks() {
    let spec = runtime_spec("llama").unwrap();
    let mut s = StopStage::Begin;
    let mut looks = 0;
    while !matches!(s, StopStage::Killed) {
        let next = stop_pid(s, true);
        if matches!(s, StopStage::Begin) {
            assert_eq!(signal_to_send(s, next), Some(Signal::Terminate));
        }
        if matches!(next, StopStage::Killed) {
            assert_eq!(signal_to_send(s, next), Some(Signal::Kill));
        }
        s = next;
        looks += 1;
    }
    assert_eq!(looks, 21);
    assert_eq!(say_stop(s, &spec, 9).len(), 2);
    assert_eq!(stop_pid(StopStage::Asked(3), false), StopStage::Stopped);
    assert_eq!(stop_pid(StopStage::Begin, false), StopStage::Left);
    assert_eq!(stop_targets(Some(4), &vec![7, 4, 7]), vec![4, 7]);
}

#[test]
fn stops_reach_the_recorded_and_the_listed() {
    let file = PidFile::Text("42".to_string());
    let v = stop("llama", "/h", &file, true, &vec![7, 42]).unwrap();
    assert_eq!(v.len(), 3);
    assert!(matches!(&v[0], EngineStep::Stop { pid: 42, .. }));
    assert!(matches!(&v[1], EngineStep::Stop { pid: 7, .. }));
    assert!(matches!(&v[2], EngineStep::Remove(p) if p == "/h/.cache/tnk/llama-server.pid"));
    let stale = stop("llama", "/h", &file, false, &Vec::new()).unwrap();
    assert_eq!(stale.len(), 2);
    assert!(matches!(
        &stale[0],
        EngineStep::Say { line, always: true }
            if line == "warning: stale pid file for non-llama process 42, removing"
    ));
    assert!(stop("x", "/h", &file, false, &Vec::new()).is_err());
}

#[test]
fn first_running_runtime_counts() {
    assert_eq!(
        running_runtime(&vec![false, true, true]).unwrap().name,
        "mlxcel"
    );
    assert!(running_runtime(&vec![false, false, false]).is_none());
}

#[test]
fn status_is_told_in_text_and_json() {
    let spec = runtime_spec("llama").unwrap();
    let off = runtime_status(&spec, &None, false, &None, &None);
    assert_eq!(overall_state(&vec![off]), Overall::NotConfigured);
    let on = runtime_status(&spec, &Some(" \n".to_string()), true, &None, &Some("m".to_string()));
    let v = vec![on];
    assert_eq!(overall_state(&v), Overall::Running);
    let rest = vec!["rest".to_string()];
    let text = status(&v, &rest, OutputFormat::Text);
    assert_eq!(text.err[0], "tnk: running");
    assert_eq!(text.err.last().unwrap(), "rest");
    let json = status(&v, &rest, OutputFormat::Json);
    assert!(json.err.is_empty());
    assert_eq!(
        json.out,
        vec!["{\"runtimes\":{\"llama\":{\"model\":\"m\",\"server_running\":true}},\"state\":\"running\"}"]
    );
    assert!(asks_process(&Some(" \n".to_string()), true));
    assert!(!asks_process(&Some("m".to_string()), true));
    assert!(!asks_process(&None, false));
    assert!(asks_server(&None));
    assert!(!asks_server(&Some("m".to_string())));
    let told = Some((Some("m".to_string()), None));
    assert_eq!(print_status(&told, &rest), vec!["  engine              running  m", "rest"]);
    assert_eq!(print_status(&None, &rest), vec!["rest"]);
    assert_eq!(
        print_status_row("mcp (lima)", "stopped", ""),
        "  mcp (lima)          stopped"
    );
    let rows = list_lima_sandboxes("tnk-services\tRunning\ntnk-a\tStopped\n");
    assert_eq!(rows.len(), 1);
    assert!(!lima_status_lines(true, &rows, false).is_empty());
}

#[test]
fn services_are_found_in_the_output_of_the_container_tool() {
    let text = "[{\"configuration\":{\"id\":\"tnk-services\"},\"status\":{\"state\":\"RUNNING\"}},{\"id\":\"tnk-searxng\",\"state\":\"stopped\"}]";
    let items = read_items(true, &text.as_bytes().to_vec());
    assert_eq!(service_state(&items, "tnk-services"), Some(true));
    assert_eq!(service_state(&items, "tnk-searxng"), Some(false));
    assert_eq!(service_state(&items, "other"), None);
    assert!(read_items(false, &text.as_bytes().to_vec()).is_empty());
    assert!(read_items(true, &b"{".to_vec()).is_empty());
}
