//! The commands of the program.

use crate::json;
use crate::json::{Json, JsonView};
use crate::sandbox::{lima, SandboxEntry};
use crate::text::compose;
use crate::ui::ExitCode;
use vstd::prelude::*;

verus! {

/// How results are printed.
#[derive(Clone, Copy, PartialEq, Eq, Structural, Debug)]
pub enum OutputFormat {
    Text,
    Json,
    Ndjson,
}

/// The commands on project sandboxes.
pub enum SandboxCommands {
    Start { profile: Option<String>, audit_log: Option<String>, shell: bool },
    Shell {
        profile: Option<String>,
        command: Option<String>,
        no_tty: bool,
        env: Vec<String>,
        audit_log: Option<String>,
    },
    Stop { all: bool, name: Vec<String> },
    Delete { yes: bool, dry_run: bool },
    Ls { output: OutputFormat, quiet: bool },
}

/// What is told instead of doing something.
pub open spec fn skipping(what: Seq<char>) -> Seq<char> {
    "dry run, skipping "@ + what
}

/// What is told instead of doing something.
pub fn skip_note(what: &str) -> (r: String)
    ensures
        r@ == skipping(what@),
{
    compose::concat("dry run, skipping ", what)
}

/// The profile that is used when none is set.
pub open spec fn default_profile(set: Option<Seq<char>>) -> Seq<char> {
    match set {
        Some(p) => p,
        None => "pi"@,
    }
}

/// The profile with which a sandbox is started: the one that is asked for, else the default one if
/// there is such a profile, else the base.
pub open spec fn chosen_profile(
    asked: Option<Seq<char>>,
    default: Seq<char>,
    known: Seq<Seq<char>>,
) -> Seq<char> {
    match asked {
        Some(p) => p,
        None => if default == "base"@ || known.contains(default) {
            default
        } else {
            "base"@
        },
    }
}

/// What the user is told of the choice of a profile: that the default one is missing, unless there
/// is a sandbox already.
pub open spec fn choice_warning(
    asked: Option<Seq<char>>,
    default: Seq<char>,
    known: Seq<Seq<char>>,
    present: bool,
) -> Option<Seq<char>> {
    if asked is None && default != "base"@ && !known.contains(default) && !present {
        Some("warning: default profile '"@ + default + "' not found, using 'base'"@)
    } else {
        None
    }
}

/// The profile with which a sandbox is started, and what the user is told of the choice.
pub fn choose_profile(
    asked: Option<String>,
    set: Option<String>,
    known: &Vec<String>,
    present: bool,
) -> (r: (String, Option<String>))
    ensures
        r.0@ == chosen_profile(
            compose::opt_text(asked),
            default_profile(compose::opt_text(set)),
            compose::texts(known@),
        ),
        compose::opt_text(r.1) == choice_warning(
            compose::opt_text(asked),
            default_profile(compose::opt_text(set)),
            compose::texts(known@),
            present,
        ),
{
    let default = match set {
        Some(p) => p,
        None => "pi".to_owned(),
    };
    match asked {
        Some(p) => (p, None),
        None => {
            if compose::same(default.as_str(), "base") || compose::has_text(
                known,
                default.as_str(),
            ) {
                (default, None)
            } else if present {
                ("base".to_owned(), None)
            } else {
                (
                    "base".to_owned(),
                    Some(
                        compose::concat3(
                            "warning: default profile '",
                            default.as_str(),
                            "' not found, using 'base'",
                        ),
                    ),
                )
            }
        },
    }
}

/// Why a shell cannot be opened right after a start.
pub fn require_terminal(stdin: bool, stdout: bool, stderr: bool) -> (r: Result<
    (),
    (ExitCode, String),
>)
    ensures
        match r {
            Ok(_) => stdin && stdout && stderr,
            Err(p) => !(stdin && stdout && stderr) && p.0 == ExitCode::Usage && p.1@
                == "--shell requires an interactive terminal"@,
        },
{
    if stdin && stdout && stderr {
        Ok(())
    } else {
        Err((ExitCode::Usage, "--shell requires an interactive terminal".to_owned()))
    }
}

/// Whether sandboxes can be stopped as asked for.
pub fn check_stop(all: bool, names: &Vec<String>) -> (r: Result<(), (ExitCode, String)>)
    ensures
        match r {
            Ok(_) => !(all && names@.len() > 0),
            Err(p) => all && names@.len() > 0 && p.0 == ExitCode::Usage && p.1@
                == "--all cannot be combined with --name"@,
        },
{
    if all && names.len() > 0 {
        Err((ExitCode::Usage, "--all cannot be combined with --name".to_owned()))
    } else {
        Ok(())
    }
}

/// Whether a sandbox is that of a project.
pub open spec fn is_project(id: Seq<char>) -> bool {
    id.len() > 0 && id != "tnk-config"@
}

/// Whether the sandbox of the directory at hand can be deleted.
pub fn check_delete(id: &str) -> (r: Result<(), (ExitCode, String)>)
    ensures
        match r {
            Ok(_) => is_project(id@),
            Err(p) => !is_project(id@) && p.0 == ExitCode::Usage && p.1@
                == "must be inside a project directory"@,
        },
{
    if id.is_empty() || compose::same(id, "tnk-config") {
        Err((ExitCode::Usage, "must be inside a project directory".to_owned()))
    } else {
        Ok(())
    }
}

/// How the setup task has ended.
pub enum InitEnd {
    Done,
    Failed(String),
    Panicked(String),
    Late,
}

/// Why the setup failed, if it did.
pub open spec fn init_fault(end: InitEnd) -> Option<Seq<char>> {
    match end {
        InitEnd::Done => None,
        InitEnd::Failed(m) => Some(m@),
        InitEnd::Panicked(m) => Some("init task panicked: "@ + m@),
        InitEnd::Late => Some("init timed out after 120s; check network connectivity"@),
    }
}

/// Why the setup failed, if it did.
pub fn init_verdict(end: InitEnd) -> (r: Option<String>)
    ensures
        compose::opt_text(r) == init_fault(end),
{
    match end {
        InitEnd::Done => None,
        InitEnd::Failed(m) => Some(m),
        InitEnd::Panicked(m) => Some(compose::concat("init task panicked: ", m.as_str())),
        InitEnd::Late => Some(
            "init timed out after 120s; check network connectivity".to_owned(),
        ),
    }
}

/// A sandbox of a listing in JSON.
pub open spec fn entry_json(e: (Seq<char>, Seq<char>, Seq<char>)) -> JsonView {
    JsonView::Object(
        seq![
            ("name"@, JsonView::Text(e.0)),
            ("status"@, JsonView::Text(e.1)),
            ("mount"@, JsonView::Text(e.2)),
        ],
    )
}

/// The row of a sandbox in a listing.
pub open spec fn entry_row(e: (Seq<char>, Seq<char>, Seq<char>)) -> Seq<char> {
    compose::padded(e.0, 30) + " "@ + e.1 + "  mount: "@ + e.2
}

/// What a listing of sandboxes prints.
pub open spec fn listing(
    entries: Seq<(Seq<char>, Seq<char>, Seq<char>)>,
    format: OutputFormat,
    quiet: bool,
) -> Seq<Seq<char>> {
    if entries.len() == 0 {
        if format == OutputFormat::Json {
            seq!["[]"@]
        } else {
            Seq::empty()
        }
    } else if quiet {
        entries.map_values(|e: (Seq<char>, Seq<char>, Seq<char>)| e.0)
    } else {
        match format {
            OutputFormat::Json => seq![
                json::notation(
                    JsonView::Array(
                        entries.map_values(|e: (Seq<char>, Seq<char>, Seq<char>)| entry_json(e)),
                    ),
                ),
            ],
            OutputFormat::Ndjson => entries.map_values(
                |e: (Seq<char>, Seq<char>, Seq<char>)| json::notation(entry_json(e)),
            ),
            OutputFormat::Text => entries.map_values(
                |e: (Seq<char>, Seq<char>, Seq<char>)| entry_row(e),
            ),
        }
    }
}

fn entry_value(e: &SandboxEntry) -> (r: Json)
    ensures
        r@ == entry_json(e.parts()),
{
    let mut v = json::no_pairs();
    json::push_pair(&mut v, "name", json::text_value(e.id.as_str()));
    json::push_pair(&mut v, "status", json::text_value(e.status.as_str()));
    json::push_pair(&mut v, "mount", json::text_value(e.mount.as_str()));
    assert(json::pair_views(v@) =~= entry_json(e.parts())->Object_0);
    json::object(v)
}

fn entry_values(entries: &Vec<SandboxEntry>) -> (r: Json)
    ensures
        r@ == JsonView::Array(
            lima::entry_parts(entries@).map_values(
                |e: (Seq<char>, Seq<char>, Seq<char>)| entry_json(e),
            ),
        ),
{
    let ghost goal = lima::entry_parts(entries@).map_values(
        |e: (Seq<char>, Seq<char>, Seq<char>)| entry_json(e),
    );
    let mut v = json::no_values();
    let mut i: usize = 0;
    assert(json::views(v@) =~= goal.take(0));
    while i < entries.len()
        invariant
            i <= entries@.len(),
            goal == lima::entry_parts(entries@).map_values(
                |e: (Seq<char>, Seq<char>, Seq<char>)| entry_json(e),
            ),
            json::views(v@) == goal.take(i as int),
        decreases entries@.len() - i,
    {
        assert(goal[i as int] == entry_json(entries@[i as int].parts()));
        json::push_value(&mut v, entry_value(&entries[i]));
        i += 1;
        assert(json::views(v@) =~= goal.take(i as int));
    }
    assert(goal.take(i as int) =~= goal);
    json::array(v)
}

fn entry_text(e: &SandboxEntry, format: OutputFormat, quiet: bool) -> (r: String)
    ensures
        r@ == (if quiet {
            e.parts().0
        } else if format == OutputFormat::Text {
            entry_row(e.parts())
        } else {
            json::notation(entry_json(e.parts()))
        }),
        !quiet && format != OutputFormat::Text ==> !r@.contains('\n'),
{
    if quiet {
        return e.id.clone();
    }
    match format {
        OutputFormat::Text => {
            let wide = compose::pad_right(e.id.as_str(), 30);
            compose::concat5(
                wide.as_str(),
                " ",
                e.status.as_str(),
                "  mount: ",
                e.mount.as_str(),
            )
        },
        _ => json::write(&entry_value(e)),
    }
}

/// What a listing of sandboxes prints. What is meant for programs comes in single lines.
pub fn ls(entries: &Vec<SandboxEntry>, format: OutputFormat, quiet: bool) -> (r: Vec<String>)
    ensures
        compose::texts(r@) == listing(lima::entry_parts(entries@), format, quiet),
        !quiet && format != OutputFormat::Text ==> forall|i: int|
            0 <= i < r@.len() ==> !(#[trigger] r@[i])@.contains('\n'),
{
    let ghost all = lima::entry_parts(entries@);
    let ghost goal = listing(all, format, quiet);
    if entries.len() == 0 {
        return match format {
            OutputFormat::Json => {
                proof {
                    reveal_strlit("[]");
                }
                let v = compose::list1("[]");
                assert(compose::texts(v@).len() == 1);
                assert(compose::texts(v@)[0] == v@[0]@);
                assert(!"[]"@.contains('\n'));
                v
            },
            _ => compose::no_texts(),
        };
    }
    let whole = match format {
        OutputFormat::Json => !quiet,
        _ => false,
    };
    if whole {
        let line = json::write(&entry_values(entries));
        let v = compose::list1(line.as_str());
        assert(compose::texts(v@).len() == 1);
        assert(compose::texts(v@)[0] == v@[0]@);
        return v;
    }
    let mut v = compose::no_texts();
    let mut i: usize = 0;
    assert(goal.take(0) =~= Seq::<Seq<char>>::empty());
    while i < entries.len()
        invariant
            i <= entries@.len(),
            entries@.len() > 0,
            all == lima::entry_parts(entries@),
            goal == listing(all, format, quiet),
            goal.len() == all.len(),
            quiet || format != OutputFormat::Json,
            compose::texts(v@) == goal.take(i as int),
            v@.len() == i,
            !quiet && format != OutputFormat::Text ==> forall|k: int|
                0 <= k < i ==> !(#[trigger] v@[k])@.contains('\n'),
        decreases entries@.len() - i,
    {
        assert(all[i as int] == entries@[i as int].parts());
        v.push(entry_text(&entries[i], format, quiet));
        i += 1;
        assert(compose::texts(v@) =~= goal.take(i as int));
    }
    assert(goal.take(i as int) =~= goal);
    v
}

/// However a listing is printed, except as one JSON value, it prints one line for each sandbox.
pub proof fn listings_are_complete(
    entries: Seq<(Seq<char>, Seq<char>, Seq<char>)>,
    format: OutputFormat,
    quiet: bool,
)
    requires
        quiet || format != OutputFormat::Json,
        entries.len() > 0,
    ensures
        listing(entries, format, quiet).len() == entries.len(),
{
}

} // verus!
