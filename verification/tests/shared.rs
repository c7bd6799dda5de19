use tnk::json;
use tnk::sandbox::shared::{
    find_value, now_unix_seconds, parse_explicit_env, parse_explicit_envs,
    resolve_active_model_and_ctx_impl, runtime_env_summary, unix_seconds,
};

#[test]
fn parses_valid_env_pair() {
    let parsed = parse_explicit_env("FOO=bar").expect("valid env");
    assert_eq!(parsed.0, "FOO");
    assert_eq!(parsed.1, "bar");
}

#[test]
fn rejects_invalid_env_key() {
    assert!(parse_explicit_env("BAD-KEY=1").is_err());
}

#[test]
fn refused_variables_say_why() {
    let say = |s: &str| parse_explicit_env(s).unwrap_err().message;
    assert_eq!(say("FOO"), "invalid --env value 'FOO': expected KEY=VALUE");
    assert_eq!(say("=x"), "invalid --env value '=x': key cannot be empty");
    assert_eq!(say("A-B=x"), "invalid --env key 'A-B': use [A-Za-z0-9_] only");
    assert_eq!(
        say("A=x\ny"),
        "invalid --env value for 'A': contains control characters"
    );
    let long = format!("A={}", "é".repeat(2049));
    assert_eq!(
        say(&long),
        "invalid --env value for 'A': exceeds 4096 bytes (got 4098)"
    );
}

#[test]
fn values_keep_their_equals_signs() {
    assert_eq!(
        parse_explicit_env("A=b=c").unwrap(),
        ("A".to_string(), "b=c".to_string())
    );
    let v = parse_explicit_envs(&vec!["A=1".to_string(), "B=2".to_string()]).unwrap();
    assert_eq!(v.len(), 2);
    assert!(parse_explicit_envs(&vec!["A=1".to_string(), "B".to_string()]).is_err());
}

#[test]
fn logs_tell_nothing_secret() {
    let envs = vec![
        ("TNK_MODEL_NAME".to_string(), "m".to_string()),
        ("TOKEN".to_string(), "secret".to_string()),
        ("TNK_MODEL_NAME".to_string(), "n".to_string()),
    ];
    assert_eq!(find_value(&envs, "TNK_MODEL_NAME").as_deref(), Some("n"));
    let text = json::write(&runtime_env_summary(&envs));
    assert_eq!(text, "{\"TNK_MODEL_NAME\":\"n\"}");
}

#[test]
fn the_clock_moves_forward() {
    let now = now_unix_seconds();
    let real = std::time::SystemTime::now()
        .duration_since(std::time::UNIX_EPOCH)
        .unwrap()
        .as_secs() as i64;
    assert!(now <= real && real - now < 10);
    assert_eq!(unix_seconds(None), 0);
    assert_eq!(unix_seconds(Some(7)), 7);
}

#[test]
fn models_come_from_the_configuration() {
    let (m, ctx) =
        resolve_active_model_and_ctx_impl(&Some("ai-fast".to_string()), Some(32768), "llama")
            .unwrap();
    assert_eq!(m, "ai-fast");
    assert_eq!(ctx, 32768);
    let (_, ctx) =
        resolve_active_model_and_ctx_impl(&Some(" ai-fast ".to_string()), None, "llama").unwrap();
    assert_eq!(ctx, 131072);
    assert!(resolve_active_model_and_ctx_impl(&None, Some(32768), "llama").is_err());
}
