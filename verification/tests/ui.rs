use tnk::ui::{
    clap_exit_code_for_kind, exit_code_for_error, log_info, log_warn, report,
    verbosity_from_flags, ErrorKind, ExitCode,
};

#[test]
fn help_exits_zero() {
    assert_eq!(clap_exit_code_for_kind(&ErrorKind::DisplayHelp), 0);
}

#[test]
fn version_exits_zero() {
    assert_eq!(clap_exit_code_for_kind(&ErrorKind::DisplayVersion), 0);
}

#[test]
fn unknown_argument_exits_sixty_four() {
    assert_eq!(clap_exit_code_for_kind(&ErrorKind::UnknownArgument), 64);
}

#[test]
fn invalid_subcommand_exits_sixty_four() {
    assert_eq!(clap_exit_code_for_kind(&ErrorKind::InvalidSubcommand), 64);
}

#[test]
fn missing_required_exits_sixty_four() {
    assert_eq!(
        clap_exit_code_for_kind(&ErrorKind::MissingRequiredArgument),
        64
    );
}

#[test]
fn other_parse_errors_exit_one() {
    assert_eq!(clap_exit_code_for_kind(&ErrorKind::Io), 1);
    assert_eq!(clap_exit_code_for_kind(&ErrorKind::Format), 1);
}

#[test]
fn exit_codes_follow_the_message() {
    assert_eq!(
        exit_code_for_error("Current Directory is OUTSIDE the configured workspace root").as_i32(),
        64
    );
    assert_eq!(
        exit_code_for_error("PERMISSION DENIED resolving").as_i32(),
        77
    );
    assert_eq!(exit_code_for_error("boom").as_i32(), 1);
    assert_eq!(ExitCode::NotFound.as_i32(), 66);
}

#[test]
fn final_lines_are_short_unless_the_error_is_general() {
    assert_eq!(report(ExitCode::Error, "a\nb"), "a\nb");
    assert_eq!(report(ExitCode::Usage, "a\nb"), "error: a");
}

#[test]
fn quiet_programs_do_not_inform() {
    let quiet = verbosity_from_flags(true, true);
    let normal = verbosity_from_flags(false, false);
    assert_eq!(log_info(quiet, "x"), None);
    assert_eq!(log_info(normal, "x").as_deref(), Some("info: x"));
    assert_eq!(log_warn(normal, "x").as_deref(), Some("warning: x"));
}
