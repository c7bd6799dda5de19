use crate::text::{compose, edge, split};
use vstd::prelude::*;

verus! {

/// How much the program tells about its work.
#[derive(Clone, Copy, PartialEq, Eq, Structural, Debug)]
pub enum Verbosity {
    Quiet,
    Normal,
    Verbose,
}

/// What is said, on the error output and on the output.
#[derive(Debug)]
pub struct Said {
    pub err: Vec<String>,
    pub out: Vec<String>,
}

impl Default for Verbosity {
    fn default() -> (r: Self)
        ensures
            r == Verbosity::Normal,
    {
        Verbosity::Normal
    }
}

/// Silences all that is not an error or a plain result.
pub fn set_quiet(v: &mut Verbosity)
    ensures
        *final(v) == Verbosity::Quiet,
{
    *v = Verbosity::Quiet;
}

/// Shows the output of the programs that are run.
pub fn set_verbose(v: &mut Verbosity)
    ensures
        *final(v) == Verbosity::Verbose,
{
    *v = Verbosity::Verbose;
}

/// Whether nothing but errors and plain results is shown.
pub fn is_quiet(v: Verbosity) -> (r: bool)
    ensures
        r == (v == Verbosity::Quiet),
{
    v == Verbosity::Quiet
}

/// Whether the output of the programs that are run is shown.
pub fn is_verbose(v: Verbosity) -> (r: bool)
    ensures
        r == (v == Verbosity::Verbose),
{
    v == Verbosity::Verbose
}

/// The verbosity that the two switches of the command line ask for: the first one wins.
pub fn verbosity_from_flags(quiet: bool, verbose: bool) -> (r: Verbosity)
    ensures
        r == (if quiet {
            Verbosity::Quiet
        } else if verbose {
            Verbosity::Verbose
        } else {
            Verbosity::Normal
        }),
{
    let mut v = Verbosity::Normal;
    if quiet {
        set_quiet(&mut v);
    } else if verbose {
        set_verbose(&mut v);
    }
    v
}

/// A message as an information.
pub open spec fn info(message: Seq<char>) -> Seq<char> {
    "info: "@ + message
}

/// A message as a warning.
pub open spec fn warning(message: Seq<char>) -> Seq<char> {
    "warning: "@ + message
}

/// The line that informs of `message`; none when the program is quiet.
pub fn log_info(v: Verbosity, message: &str) -> (r: Option<String>)
    ensures
        compose::opt_text(r) == (if v == Verbosity::Quiet {
            None
        } else {
            Some(info(message@))
        }),
{
    if is_quiet(v) {
        None
    } else {
        Some(compose::concat("info: ", message))
    }
}

/// The line that warns of `message`; none when the program is quiet.
pub fn log_warn(v: Verbosity, message: &str) -> (r: Option<String>)
    ensures
        compose::opt_text(r) == (if v == Verbosity::Quiet {
            None
        } else {
            Some(warning(message@))
        }),
{
    if is_quiet(v) {
        None
    } else {
        Some(compose::concat("warning: ", message))
    }
}

/// What the program tells its caller at the end.
#[derive(Clone, Copy, PartialEq, Eq, Structural, Debug)]
pub enum ExitCode {
    Usage,
    NotFound,
    PermissionDenied,
    Error,
}

impl ExitCode {
    /// The number of the exit code.
    pub open spec fn number(self) -> i32 {
        match self {
            ExitCode::Usage => 64,
            ExitCode::NotFound => 66,
            ExitCode::PermissionDenied => 77,
            ExitCode::Error => 1,
        }
    }

    /// The number of the exit code.
    pub fn as_i32(&self) -> (r: i32)
        ensures
            r == self.number(),
    {
        match self {
            ExitCode::Usage => 64,
            ExitCode::NotFound => 66,
            ExitCode::PermissionDenied => 77,
            ExitCode::Error => 1,
        }
    }
}

/// Different exit codes have different numbers, and none of them means success.
pub proof fn exit_codes_are_distinct(a: ExitCode, b: ExitCode)
    ensures
        a.number() != 0,
        a.number() == b.number() ==> a == b,
{
}

/// The exit code for an error whose message, in small letters, is given.
pub open spec fn code_for_lowered(message: Seq<char>) -> ExitCode {
    if edge::includes(message, "outside the configured workspace root"@) {
        ExitCode::Usage
    } else if edge::includes(message, "permission denied"@) {
        ExitCode::PermissionDenied
    } else {
        ExitCode::Error
    }
}

/// The exit code for an error, by its message in small letters.
pub fn exit_code_for_lowered(message: &str) -> (r: ExitCode)
    ensures
        r == code_for_lowered(message@),
{
    if edge::contains(message, "outside the configured workspace root") {
        ExitCode::Usage
    } else if edge::contains(message, "permission denied") {
        ExitCode::PermissionDenied
    } else {
        ExitCode::Error
    }
}

/// The exit code for an error, by its message.
pub fn exit_code_for_error(message: &str) -> (r: ExitCode)
    ensures
        r == code_for_lowered(compose::lowercase(message@)),
{
    let lowered = compose::to_lowercase(message);
    exit_code_for_lowered(lowered.as_str())
}

/// What is printed of an error that ends the program with the given exit code: all of a general
/// error, and the first line of any other.
pub open spec fn final_line(code: ExitCode, message: Seq<char>) -> Seq<char> {
    if code == ExitCode::Error {
        message
    } else {
        let lines = split::lines_of(message);
        "error: "@ + (if lines.len() == 0 {
            message
        } else {
            lines[0]
        })
    }
}

/// The line that reports an error at the end of the program.
pub fn report(code: ExitCode, message: &str) -> (r: String)
    ensures
        r@ == final_line(code, message@),
{
    if code == ExitCode::Error {
        message.to_owned()
    } else {
        let lines = split::lines(message);
        assert(compose::texts(lines@).len() == lines@.len());
        if lines.len() == 0 {
            compose::concat("error: ", message)
        } else {
            assert(compose::texts(lines@)[0] == lines@[0]@);
            compose::concat("error: ", lines[0].as_str())
        }
    }
}

/// What can be wrong with a command line.
#[derive(Clone, Copy, PartialEq, Eq, Structural, Debug)]
pub enum ErrorKind {
    InvalidValue,
    UnknownArgument,
    InvalidSubcommand,
    NoEquals,
    ValueValidation,
    TooManyValues,
    TooFewValues,
    WrongNumberOfValues,
    ArgumentConflict,
    MissingRequiredArgument,
    MissingSubcommand,
    InvalidUtf8,
    DisplayHelp,
    DisplayHelpOnMissingArgumentOrSubcommand,
    DisplayVersion,
    Io,
    Format,
    Other,
}

/// Whether help or the version was asked for.
pub open spec fn is_display(kind: ErrorKind) -> bool {
    ||| kind == ErrorKind::DisplayHelp
    ||| kind == ErrorKind::DisplayVersion
    ||| kind == ErrorKind::DisplayHelpOnMissingArgumentOrSubcommand
}

/// Whether the fault lies outside the command line.
pub open spec fn is_foreign(kind: ErrorKind) -> bool {
    ||| kind == ErrorKind::Io
    ||| kind == ErrorKind::Format
    ||| kind == ErrorKind::Other
}

/// The exit code for a command line that cannot be used: none for help, that of a usage error
/// for a mistake of the user.
pub fn clap_exit_code_for_kind(kind: &ErrorKind) -> (r: i32)
    ensures
        r == (if is_display(*kind) {
            0i32
        } else if is_foreign(*kind) {
            1i32
        } else {
            64i32
        }),
{
    match kind {
        ErrorKind::DisplayHelp
        | ErrorKind::DisplayVersion
        | ErrorKind::DisplayHelpOnMissingArgumentOrSubcommand => 0,
        ErrorKind::UnknownArgument
        | ErrorKind::InvalidSubcommand
        | ErrorKind::MissingRequiredArgument
        | ErrorKind::TooManyValues
        | ErrorKind::TooFewValues
        | ErrorKind::WrongNumberOfValues
        | ErrorKind::InvalidValue
        | ErrorKind::ValueValidation
        | ErrorKind::ArgumentConflict
        | ErrorKind::NoEquals
        | ErrorKind::MissingSubcommand
        | ErrorKind::InvalidUtf8 => 64,
        _ => 1,
    }
}

} // verus!
