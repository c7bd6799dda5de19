use tnk::config::{
    apply_env_overrides, config_file, expand_path, init_config, EnvOverrides, ResolvedConfig,
    TnkConfig, DEFAULT_CONTEXT_WINDOW,
};
use tnk::plan::{Progress, Reply, Task};

fn home() -> Option<&'static str> {
    Some("/home/user")
}

#[test]
fn resolve_uses_expected_defaults() {
    let cfg = TnkConfig::default();
    let cfg = ResolvedConfig::resolve(&cfg, home()).expect("resolve defaults");

    assert_eq!(cfg.server_port, 9931);
    assert!(cfg.workspace_root.ends_with("/code"));
    assert_eq!(cfg.provision_profile, "pi");
    assert_eq!(cfg.engine_runtime, "llama");
    assert!(cfg.model.is_none());
    assert_eq!(cfg.ctx_window, DEFAULT_CONTEXT_WINDOW);
}

#[test]
fn resolve_preserves_explicit_values() {
    let cfg = TnkConfig {
        server_port: Some(9001),
        workspace_root: Some("/tmp/ws".to_string()),
        default_provision_profile: Some("base".to_string()),
        default_engine_runtime: Some("llama".to_string()),
        default_model: Some("llama-default".to_string()),
        default_context_window: Some(32768),
    };

    let cfg = ResolvedConfig::resolve(&cfg, home()).expect("resolve explicit values");

    assert_eq!(cfg.server_port, 9001);
    assert_eq!(cfg.workspace_root, "/tmp/ws");
    assert_eq!(cfg.provision_profile, "base");
    assert_eq!(cfg.engine_runtime, "llama");
    assert_eq!(cfg.model.as_deref(), Some("llama-default"));
    assert_eq!(cfg.ctx_window, 32768);
}

#[test]
fn expand_path_replaces_tilde() {
    assert_eq!(
        expand_path("~/code".to_string(), "/home/user"),
        "/home/user/code"
    );
    assert_eq!(
        expand_path("~/models".to_string(), "/home/user"),
        "/home/user/models"
    );
}

#[test]
fn expand_path_preserves_absolute() {
    assert_eq!(expand_path("/tmp/ws".to_string(), "/home/user"), "/tmp/ws");
}

#[test]
fn expand_path_preserves_relative() {
    assert_eq!(expand_path("./src".to_string(), "/home/user"), "./src");
}

#[test]
fn expand_path_dollar_home_exact() {
    assert_eq!(expand_path("$HOME".to_string(), "/home/user"), "/home/user");
}

#[test]
fn expand_path_dollar_home_with_slash() {
    assert_eq!(
        expand_path("$HOME/src".to_string(), "/home/user"),
        "/home/user/src"
    );
}

#[test]
fn expand_path_dollar_home_no_separator() {
    assert_eq!(
        expand_path("$HOMEfoo".to_string(), "/home/user"),
        "$HOMEfoo"
    );
}

#[test]
fn expand_path_brace_home_exact() {
    assert_eq!(
        expand_path("${HOME}".to_string(), "/home/user"),
        "/home/user"
    );
}

#[test]
fn expand_path_brace_home_no_separator() {
    assert_eq!(
        expand_path("${HOME}foo".to_string(), "/home/user"),
        "${HOME}foo"
    );
}

#[test]
fn expansion_does_not_change_its_result() {
    let once = expand_path("~/code".to_string(), "/home/user");
    assert_eq!(expand_path(once.clone(), "/home/user"), once);
}

#[test]
fn resolution_needs_a_home() {
    let e = ResolvedConfig::resolve(&TnkConfig::default(), None).unwrap_err();
    assert_eq!(e.message, "could not resolve home directory");
}

#[test]
fn environment_overrides_the_file() {
    let mut cfg = TnkConfig::default();
    let warnings = apply_env_overrides(
        &mut cfg,
        EnvOverrides {
            server_port: Some("8123".to_string()),
            workspace_root: Some("~/ws".to_string()),
            provision_profile: None,
            engine_runtime: None,
            model: Some("m".to_string()),
        },
    );
    assert!(warnings.is_empty());
    assert_eq!(cfg.server_port, Some(8123));
    assert_eq!(cfg.workspace_root.as_deref(), Some("~/ws"));
    assert_eq!(cfg.default_provision_profile, None);
    assert_eq!(cfg.default_model.as_deref(), Some("m"));
}

#[test]
fn bad_port_override_is_ignored_with_a_warning() {
    let mut cfg = TnkConfig::default();
    cfg.server_port = Some(1);
    let warnings = apply_env_overrides(
        &mut cfg,
        EnvOverrides {
            server_port: Some("70000".to_string()),
            workspace_root: None,
            provision_profile: None,
            engine_runtime: None,
            model: None,
        },
    );
    assert_eq!(
        warnings,
        vec!["invalid TNK_SERVER_PORT='70000'; ignoring env override"]
    );
    assert_eq!(cfg.server_port, Some(1));
}

#[test]
fn config_file_lies_below_home() {
    assert_eq!(config_file("/home/user"), "/home/user/.config/tnk/tnk.toml");
}

#[test]
fn existing_config_file_is_not_written_over() {
    let plan = init_config("/home/user", false);
    let mut progress = Progress::start();
    assert_eq!(progress.pending(&plan), Some(0));
    assert!(matches!(&plan[0].task, Task::Exists(p) if p == "/home/user/.config/tnk/tnk.toml"));
    progress.advance(&plan, &Reply::Yes);
    assert_eq!(progress.pending(&plan), None);
    assert!(progress.trouble.is_none());
}

#[test]
fn forced_config_file_is_written() {
    let plan = init_config("/home/user", true);
    let mut progress = Progress::start();
    let mut written = false;
    let mut said = Vec::new();
    while let Some(i) = progress.pending(&plan) {
        if let Task::Write(p, text) = &plan[i].task {
            assert_eq!(p, "/home/user/.config/tnk/tnk.toml");
            assert!(text.starts_with("# tnk configuration\n"));
            assert!(text.contains("server_port = 9931\n"));
            written = true;
        }
        if let Some(line) = progress.advance(&plan, &Reply::Yes) {
            said.push(line.text);
        }
    }
    assert!(written);
    assert_eq!(said, vec!["info: created /home/user/.config/tnk/tnk.toml"]);
}

#[test]
fn models_lie_in_their_directory() {
    let set = Some("~/models".to_string());
    assert_eq!(tnk::config::model_directory(set, "/home/u"), "/home/u/models");
    assert_eq!(tnk::config::model_directory(None, "/home/u"), "/home/u/opt/models");
}

#[test]
fn ports_and_windows_have_defaults() {
    assert_eq!(tnk::config::server_port(None), 9931);
    assert_eq!(tnk::config::server_port(Some(1)), 1);
    assert_eq!(tnk::config::context_window(None), 131072);
    assert_eq!(tnk::config::context_window(Some(32768)), 32768);
}
