use crate::doctor::Listed;
use crate::failure;
use crate::failure::Failure;
use crate::plan;
use crate::plan::{Effect, Output, Reply, Stage, StageView, Task, Want};
use crate::sandbox::session::Opened;
use crate::sandbox::{provision, session, types};
use crate::sandbox::{ProfileSettings, SandboxEntry, SandboxManifest};
use crate::text::class::Class;
use crate::text::{compose, edge, number, order, split};
use crate::ui;
use crate::ui::ExitCode;
use vstd::prelude::*;

verus! {

/// Sandboxes in Lima machines.
pub struct LimaBackend;

/// `s` as a quoted text of `yq`.
pub open spec fn yq_escaped(s: Seq<char>) -> Seq<char> {
    let a = compose::replaced(s, '\\', "\\\\"@);
    let b = compose::replaced(a, '"', "\\\""@);
    let c = compose::replaced(b, '$', "\\$"@);
    "\""@ + compose::replaced(c, '`', "\\`"@) + "\""@
}

/// Quotes `s` for `yq`.
pub fn escape_yq_value(s: &str) -> (r: String)
    ensures
        r@ == yq_escaped(s@),
{
    let a = compose::replace(s, '\\', "\\\\");
    let b = compose::replace(a.as_str(), '"', "\\\"");
    let c = compose::replace(b.as_str(), '$', "\\$");
    let d = compose::replace(c.as_str(), '`', "\\`");
    compose::concat3("\"", d.as_str(), "\"")
}

/// Whether a character has a meaning of its own inside a quoted text of `yq`.
pub open spec fn yq_special(c: char) -> bool {
    c == '\\' || c == '"' || c == '$' || c == '`'
}

/// A text with a backslash before every special character.
pub open spec fn backslashed(s: Seq<char>) -> Seq<char>
    decreases s.len(),
{
    if s.len() == 0 {
        Seq::empty()
    } else {
        backslashed(s.drop_last()) + (if yq_special(s.last()) {
            seq!['\\', s.last()]
        } else {
            seq![s.last()]
        })
    }
}

proof fn lemma_replaced_concat(a: Seq<char>, b: Seq<char>, from: char, to: Seq<char>)
    ensures
        compose::replaced(a + b, from, to) == compose::replaced(a, from, to) + compose::replaced(
            b,
            from,
            to,
        ),
    decreases b.len(),
{
    if b.len() == 0 {
        assert(a + b =~= a);
        assert(compose::replaced(a, from, to) =~= compose::replaced(a, from, to)
            + compose::replaced(b, from, to));
    } else {
        lemma_replaced_concat(a, b.drop_last(), from, to);
        assert((a + b).drop_last() =~= a + b.drop_last());
        assert((a + b).last() == b.last());
        assert(compose::replaced(a + b, from, to) =~= compose::replaced(a, from, to)
            + compose::replaced(b, from, to));
    }
}

proof fn lemma_replaced_one(c: char, from: char, to: Seq<char>)
    ensures
        compose::replaced(seq![c], from, to) == (if c == from {
            to
        } else {
            seq![c]
        }),
{
    assert(seq![c].drop_last() =~= Seq::<char>::empty());
    assert(compose::replaced(seq![c].drop_last(), from, to) =~= Seq::<char>::empty());
    assert(compose::replaced(seq![c], from, to) =~= (if c == from {
        to
    } else {
        seq![c]
    }));
}

proof fn lemma_replaced_two(c: char, d: char, from: char, to: Seq<char>)
    requires
        c != from,
    ensures
        compose::replaced(seq![c, d], from, to) == seq![c] + (if d == from {
            to
        } else {
            seq![d]
        }),
{
    assert(seq![c, d] =~= seq![c] + seq![d]);
    lemma_replaced_concat(seq![c], seq![d], from, to);
    lemma_replaced_one(c, from, to);
    lemma_replaced_one(d, from, to);
}

/// Quoting puts a backslash before every special character, and nothing else.
pub proof fn yq_escaping_marks_specials(s: Seq<char>)
    ensures
        yq_escaped(s) == "\""@ + backslashed(s) + "\""@,
    decreases s.len(),
{
    reveal_strlit("\\\\");
    reveal_strlit("\\\"");
    reveal_strlit("\\$");
    reveal_strlit("\\`");
    lemma_escaped_inner(s);
}

spec fn escaped_inner(s: Seq<char>) -> Seq<char> {
    let a = compose::replaced(s, '\\', "\\\\"@);
    let b = compose::replaced(a, '"', "\\\""@);
    let c = compose::replaced(b, '$', "\\$"@);
    compose::replaced(c, '`', "\\`"@)
}

proof fn lemma_escaped_inner(s: Seq<char>)
    ensures
        escaped_inner(s) == backslashed(s),
    decreases s.len(),
{
    reveal_strlit("\\\\");
    reveal_strlit("\\\"");
    reveal_strlit("\\$");
    reveal_strlit("\\`");
    let bs = "\\\\"@;
    let q = "\\\""@;
    let d = "\\$"@;
    let t = "\\`"@;
    assert(bs =~= seq!['\\', '\\']);
    assert(q =~= seq!['\\', '"']);
    assert(d =~= seq!['\\', '$']);
    assert(t =~= seq!['\\', '`']);
    if s.len() == 0 {
        assert(escaped_inner(s) =~= Seq::<char>::empty());
    } else {
        let p = s.drop_last();
        let c = s.last();
        lemma_escaped_inner(p);
        assert(s =~= p + seq![c]);
        let a0 = compose::replaced(p, '\\', bs);
        let b0 = compose::replaced(a0, '"', q);
        let c0 = compose::replaced(b0, '$', d);
        lemma_replaced_concat(p, seq![c], '\\', bs);
        lemma_replaced_one(c, '\\', bs);
        let a1 = compose::replaced(seq![c], '\\', bs);
        lemma_replaced_concat(a0, a1, '"', q);
        if c == '\\' {
            lemma_chars_stay('\\', '\\', '"', q);
            lemma_chars_stay('\\', '\\', '$', d);
            lemma_chars_stay('\\', '\\', '`', t);
        } else {
            lemma_replaced_one(c, '"', q);
            if c == '"' {
                lemma_chars_stay('\\', '"', '$', d);
                lemma_chars_stay('\\', '"', '`', t);
            } else {
                lemma_replaced_one(c, '$', d);
                if c == '$' {
                    lemma_chars_stay('\\', '$', '`', t);
                } else {
                    lemma_replaced_one(c, '`', t);
                }
            }
        }
        let b1 = compose::replaced(a1, '"', q);
        lemma_replaced_concat(b0, b1, '$', d);
        let c1 = compose::replaced(b1, '$', d);
        lemma_replaced_concat(c0, c1, '`', t);
        assert(escaped_inner(s) == escaped_inner(p) + compose::replaced(c1, '`', t));
        assert(compose::replaced(c1, '`', t) =~= (if yq_special(c) {
            seq!['\\', c]
        } else {
            seq![c]
        }));
    }
}

proof fn lemma_chars_stay(c: char, e: char, from: char, to: Seq<char>)
    requires
        c != from,
        e != from,
    ensures
        compose::replaced(seq![c, e], from, to) == seq![c, e],
{
    lemma_replaced_two(c, e, from, to);
    assert(seq![c] + seq![e] =~= seq![c, e]);
}

/// The expression with which `yq` makes a directory the only mount of a machine.
pub open spec fn mount_expr(host: Seq<char>, guest: Seq<char>, writable: bool) -> Seq<char> {
    ".mounts |= [{\"location\": "@ + yq_escaped(host) + ", \"mountPoint\": "@ + yq_escaped(guest)
        + ", \"writable\": "@ + (if writable {
        "true}]"@
    } else {
        "false}]"@
    })
}

/// The expression with which `yq` makes a directory the only mount of a machine.
pub fn build_mount_set_expr(host_path: &str, guest_path: &str, writable: bool) -> (r: String)
    ensures
        r@ == mount_expr(host_path@, guest_path@, writable),
{
    let host = escape_yq_value(host_path);
    let guest = escape_yq_value(guest_path);
    let r = compose::concat5(
        ".mounts |= [{\"location\": ",
        host.as_str(),
        ", \"mountPoint\": ",
        guest.as_str(),
        ", \"writable\": ",
    );
    let end = if writable {
        "true}]"
    } else {
        "false}]"
    };
    compose::concat(r.as_str(), end)
}

/// What a quoted text says, read from behind its opening quote, and what follows its closing one; a
/// character behind a backslash stands for itself.
pub open spec fn quoted_reads(s: Seq<char>) -> Option<(Seq<char>, Seq<char>)>
    decreases s.len(),
{
    if s.len() == 0 {
        None
    } else if s[0] == '"' {
        Some((Seq::empty(), s.skip(1)))
    } else if s[0] == '\\' {
        if s.len() < 2 {
            None
        } else {
            match quoted_reads(s.skip(2)) {
                Some(r) => Some((seq![s[1]] + r.0, r.1)),
                None => None,
            }
        }
    } else {
        match quoted_reads(s.skip(1)) {
            Some(r) => Some((seq![s[0]] + r.0, r.1)),
            None => None,
        }
    }
}

proof fn lemma_backslashed_front(s: Seq<char>)
    requires
        s.len() > 0,
    ensures
        backslashed(s) == (if yq_special(s[0]) {
            seq!['\\', s[0]]
        } else {
            seq![s[0]]
        }) + backslashed(s.skip(1)),
    decreases s.len(),
{
    let front = if yq_special(s[0]) {
        seq!['\\', s[0]]
    } else {
        seq![s[0]]
    };
    if s.len() == 1 {
        assert(s.drop_last() =~= Seq::<char>::empty());
        assert(s.skip(1) =~= Seq::<char>::empty());
        assert(backslashed(s.drop_last()) =~= Seq::<char>::empty());
        assert(backslashed(s) =~= front + backslashed(s.skip(1)));
    } else {
        lemma_backslashed_front(s.drop_last());
        assert(s.drop_last().skip(1) =~= s.skip(1).drop_last());
        assert(s.skip(1).last() == s.last());
        assert(backslashed(s) =~= front + backslashed(s.skip(1)));
    }
}

proof fn lemma_quoted_reads(s: Seq<char>, rest: Seq<char>)
    ensures
        quoted_reads(backslashed(s) + seq!['"'] + rest) == Some((s, rest)),
    decreases s.len(),
{
    let t = backslashed(s) + seq!['"'] + rest;
    if s.len() == 0 {
        assert(s =~= Seq::<char>::empty());
        assert(t[0] == '"');
        assert(t.skip(1) =~= rest);
    } else {
        lemma_backslashed_front(s);
        lemma_quoted_reads(s.skip(1), rest);
        let u = backslashed(s.skip(1)) + seq!['"'] + rest;
        assert(seq![s[0]] + s.skip(1) =~= s);
        if yq_special(s[0]) {
            assert(t =~= seq!['\\', s[0]] + u);
            assert(t.skip(2) =~= u);
        } else {
            assert(t =~= seq![s[0]] + u);
            assert(t.skip(1) =~= u);
        }
    }
}

/// What quoting makes of a text is read as the text, whatever it holds.
pub proof fn yq_escaping_is_faithful(s: Seq<char>, rest: Seq<char>)
    ensures
        yq_escaped(s)[0] == '"',
        quoted_reads((yq_escaped(s) + rest).skip(1)) == Some((s, rest)),
{
    yq_escaping_marks_specials(s);
    reveal_strlit("\"");
    lemma_quoted_reads(s, rest);
    assert((yq_escaped(s) + rest).skip(1) =~= backslashed(s) + seq!['"'] + rest);
}

/// The quoted text behind a key, and what follows the text.
pub open spec fn field_reads(s: Seq<char>, key: Seq<char>) -> Option<(Seq<char>, Seq<char>)> {
    match edge::after_prefix(s, key + "\""@) {
        Some(t) => quoted_reads(t),
        None => None,
    }
}

/// The one mount that an expression makes the only one of a machine: the directory of the host, the
/// place inside, and whether it can be written to. An expression that says anything else is not
/// read.
pub open spec fn mount_reads(s: Seq<char>) -> Option<(Seq<char>, Seq<char>, bool)> {
    match field_reads(s, ".mounts |= [{\"location\": "@) {
        Some(a) => match field_reads(a.1, ", \"mountPoint\": "@) {
            Some(b) => if b.1 == ", \"writable\": true}]"@ {
                Some((a.0, b.0, true))
            } else if b.1 == ", \"writable\": false}]"@ {
                Some((a.0, b.0, false))
            } else {
                None
            },
            None => None,
        },
        None => None,
    }
}

proof fn lemma_field_reads(key: Seq<char>, value: Seq<char>, rest: Seq<char>)
    ensures
        field_reads(key + yq_escaped(value) + rest, key) == Some((value, rest)),
{
    let s = key + yq_escaped(value) + rest;
    yq_escaping_is_faithful(value, rest);
    reveal_strlit("\"");
    let p = key + "\""@;
    assert(s.subrange(0, p.len() as int) =~= p);
    assert(s.skip(p.len() as int) =~= (yq_escaped(value) + rest).skip(1));
}

/// An expression that sets the mounts of a machine holds one mount: its location is the path on the
/// host, its mount point the path inside, and it can be written to if that was asked for.
pub proof fn mounts_are_read_back(host: Seq<char>, guest: Seq<char>, writable: bool)
    ensures
        mount_reads(mount_expr(host, guest, writable)) == Some((host, guest, writable)),
{
    let flag = if writable {
        "true}]"@
    } else {
        "false}]"@
    };
    let end = ", \"writable\": "@ + flag;
    let second = ", \"mountPoint\": "@ + yq_escaped(guest) + end;
    let first = ".mounts |= [{\"location\": "@;
    assert(mount_expr(host, guest, writable) =~= first + yq_escaped(host) + second);
    lemma_field_reads(first, host, second);
    lemma_field_reads(", \"mountPoint\": "@, guest, end);
    reveal_strlit(", \"writable\": ");
    reveal_strlit("true}]");
    reveal_strlit("false}]");
    reveal_strlit(", \"writable\": true}]");
    reveal_strlit(", \"writable\": false}]");
    if writable {
        assert(end =~= ", \"writable\": true}]"@);
    } else {
        assert(end =~= ", \"writable\": false}]"@);
        assert(end.len() != ", \"writable\": true}]"@.len());
    }
}

/// The part of a memory size that is a number, and whether it counts mebibytes.
pub open spec fn memory_number(memory: Seq<char>) -> (Seq<char>, bool) {
    let t = edge::trimmed(memory);
    match edge::before_suffix(t, "GiB"@) {
        Some(n) => (edge::trimmed(n), false),
        None => match edge::before_suffix(t, "MiB"@) {
            Some(n) => (edge::trimmed(n), true),
            None => (t, false),
        },
    }
}

/// The part of a memory size that is a number, and whether it counts mebibytes and not gibibytes.
pub fn split_memory(memory: &str) -> (r: (String, bool))
    ensures
        (r.0@, r.1) == memory_number(memory@),
{
    let t = edge::trim(memory);
    match edge::strip_suffix(t.as_str(), "GiB") {
        Some(n) => (edge::trim(n.as_str()), false),
        None => match edge::strip_suffix(t.as_str(), "MiB") {
            Some(n) => (edge::trim(n.as_str()), true),
            None => (t, false),
        },
    }
}

/// The arguments that create and start a machine; `memory` is the size in gibibytes as it is
/// printed, if one is known.
pub open spec fn start_args(
    id: Seq<char>,
    project_root: Seq<char>,
    cpus: Option<u32>,
    memory: Option<Seq<char>>,
    guest: Seq<char>,
) -> Seq<Seq<char>> {
    let first = seq![
        "--tty=false"@,
        "start"@,
        "--name"@,
        id,
        "--vm-type=vz"@,
        "--network=vzNAT"@,
        "--mount-type=virtiofs"@,
        "--containerd=system"@,
        "--cpus"@,
        number::decimal(match cpus {
            Some(n) => n as nat,
            None => 4,
        }),
    ];
    let sized = match memory {
        Some(m) => first.push("--memory"@).push(m),
        None => first,
    };
    sized.push("--set"@).push(mount_expr(project_root, guest, true)).push("--set"@).push(
        ".ssh.loadDotSSHPubKeys = false"@,
    ).push("template:ubuntu"@)
}

/// A machine is set up with nothing but the directory of the project as its mount, and without the
/// keys of the host: no other setting is made.
pub proof fn machines_mount_only_the_project(
    id: Seq<char>,
    project_root: Seq<char>,
    cpus: Option<u32>,
    memory: Option<Seq<char>>,
    guest: Seq<char>,
    i: int,
)
    requires
        edge::begins(id, "tnk-"@),
        memory matches Some(m) ==> m != "--set"@,
        0 <= i < start_args(id, project_root, cpus, memory, guest).len() - 1,
        start_args(id, project_root, cpus, memory, guest)[i] == "--set"@,
    ensures
        ({
            let args = start_args(id, project_root, cpus, memory, guest);
            let n = args.len() - 5;
            &&& i == n || i == n + 2
            &&& args[n + 1] == mount_expr(project_root, guest, true)
            &&& mount_reads(args[n + 1]) == Some((project_root, guest, true))
            &&& args[n + 3] == ".ssh.loadDotSSHPubKeys = false"@
        }),
{
    let args = start_args(id, project_root, cpus, memory, guest);
    let n = match cpus {
        Some(n) => n as nat,
        None => 4,
    };
    reveal_strlit("tnk-");
    reveal_strlit("--set");
    reveal_strlit("--tty=false");
    reveal_strlit("start");
    reveal_strlit("--name");
    reveal_strlit("--vm-type=vz");
    reveal_strlit("--network=vzNAT");
    reveal_strlit("--mount-type=virtiofs");
    reveal_strlit("--containerd=system");
    reveal_strlit("--cpus");
    reveal_strlit("--memory");
    reveal_strlit(".mounts |= [{\"location\": ");
    assert("start"@[0] != "--set"@[0]);
    assert(id[0] == id.subrange(0, 4)[0]);
    assert(id[0] != "--set"@[0]);
    number::lemma_decimal_value(n);
    assert(number::decimal(n)[0] != "--set"@[0]);
    let mount = mount_expr(project_root, guest, true);
    mounts_are_read_back(project_root, guest, true);
    assert(mount[0] == '.');
    let k = args.len() - 5;
    assert(args[0] == "--tty=false"@ && args[1] == "start"@ && args[2] == "--name"@);
    assert(args[3] == id && args[4] == "--vm-type=vz"@ && args[5] == "--network=vzNAT"@);
    assert(args[6] == "--mount-type=virtiofs"@ && args[7] == "--containerd=system"@);
    assert(args[8] == "--cpus"@ && args[9] == number::decimal(n));
    if let Some(m) = memory {
        assert(args[10] == "--memory"@ && args[11] == m);
        assert(k == 12);
    } else {
        assert(k == 10);
    }
    assert(args[k + 1] == mount);
    assert(args[k + 3] == ".ssh.loadDotSSHPubKeys = false"@);
    reveal_strlit(".ssh.loadDotSSHPubKeys = false");
    assert("--tty=false"@.len() == 11 && "--name"@.len() == 6 && "--set"@.len() == 5);
    assert(i != 0 && i != 1 && i != 2 && i != 3);
    assert(i != 4 && i != 5 && i != 6 && i != 7 && i != 8 && i != 9);
    assert(i >= k);
    assert(args[k + 1] != "--set"@);
    assert(args[k + 3] != "--set"@);
}

/// The arguments that create and start a machine.
pub fn build_start_args(
    id: &str,
    project_root: &str,
    settings: &ProfileSettings,
    memory_gib: &Option<String>,
) -> (r: Vec<String>)
    ensures
        compose::texts(r@) == start_args(
            id@,
            project_root@,
            settings.cpus,
            compose::opt_text(*memory_gib),
            settings.workspace_guest_path@,
        ),
{
    let cpus: u32 = match settings.cpus {
        Some(n) => n,
        None => 4,
    };
    let mut v = compose::no_texts();
    compose::push_text(&mut v, "--tty=false");
    compose::push_text(&mut v, "start");
    compose::push_text(&mut v, "--name");
    compose::push_text(&mut v, id);
    compose::push_text(&mut v, "--vm-type=vz");
    compose::push_text(&mut v, "--network=vzNAT");
    compose::push_text(&mut v, "--mount-type=virtiofs");
    compose::push_text(&mut v, "--containerd=system");
    compose::push_text(&mut v, "--cpus");
    compose::push_string(&mut v, number::to_decimal(cpus as u64));
    match memory_gib {
        Some(m) => {
            compose::push_text(&mut v, "--memory");
            compose::push_text(&mut v, m.as_str());
        },
        None => {},
    }
    compose::push_text(&mut v, "--set");
    compose::push_string(
        &mut v,
        build_mount_set_expr(project_root, settings.workspace_guest_path.as_str(), true),
    );
    compose::push_text(&mut v, "--set");
    compose::push_text(&mut v, ".ssh.loadDotSSHPubKeys = false");
    compose::push_text(&mut v, "template:ubuntu");
    v
}

/// A stage that asks whether a machine exists.
pub open spec fn exists_probe(id: Seq<char>) -> StageView {
    plan::stage_of(
        plan::running(
            "limactl"@,
            seq!["list"@, "--format"@, "{{.Name}}"@, id],
            15,
            Output::Captured,
        ),
    ).wanting(Want::Reads(id))
}

/// A stage that asks whether a machine runs.
pub open spec fn running_probe(id: Seq<char>) -> StageView {
    plan::stage_of(
        plan::running(
            "limactl"@,
            seq!["list"@, "--format"@, "{{.Status}}"@, id],
            15,
            Output::Captured,
        ),
    ).wanting(Want::ReadsLoosely("running"@))
}

/// Asks whether a machine exists.
pub fn ask_exists(id: &str) -> (r: Stage<String, Vec<String>>)
    ensures
        r@ == exists_probe(id@),
{
    let v = compose::list4("list", "--format", "{{.Name}}", id);
    plan::stage(plan::run_task("limactl", v, 15, Output::Captured)).wants(
        Want::Reads(id.to_owned()),
    )
}

/// Asks whether a machine runs.
pub fn ask_running(id: &str) -> (r: Stage<String, Vec<String>>)
    ensures
        r@ == running_probe(id@),
{
    let v = compose::list4("list", "--format", "{{.Status}}", id);
    plan::stage(plan::run_task("limactl", v, 15, Output::Captured)).wants(
        Want::ReadsLoosely("running".to_owned()),
    )
}

/// The stage that creates a machine. It is followed by the question whether the machine runs and
/// the stage that boots it, which are left out when it succeeds.
pub open spec fn create_stage(
    id: Seq<char>,
    args: Seq<Seq<char>>,
    verbose: bool,
    announce: bool,
) -> StageView {
    let what = "failed to create/start lima instance '"@ + id + "'"@;
    plan::stage_of(
        plan::running(
            "limactl"@,
            args,
            300,
            if verbose {
                Output::Shown
            } else {
                Output::Captured
            },
        ),
    ).saying(
        if announce {
            seq![ui::info("creating lima instance"@), "creating sandbox "@ + id + "..."@]
        } else {
            seq![ui::info("creating lima instance"@)]
        },
    ).when_good(plan::informing("started "@ + id, 2)).when_bad(
        if verbose {
            Effect::Stop(what)
        } else {
            Effect::StopTail(what, 8)
        },
    ).when_late(
        Effect::Stop(
            if verbose {
                "timed out creating lima instance '"@ + id + "' after 300s"@
            } else {
                "create/start "@ + id + ": timed out after 300s"@
            },
        ),
    )
}

fn creating(id: &str, args: Vec<String>, verbose: bool, announce: bool) -> (r: Stage<
    String,
    Vec<String>,
>)
    ensures
        r@ == create_stage(id@, compose::texts(args@), verbose, announce),
{
    let output = if verbose {
        Output::Shown
    } else {
        Output::Captured
    };
    let first = compose::concat("info: ", "creating lima instance");
    let second = compose::concat3("creating sandbox ", id, "...");
    let lines = if announce {
        compose::list2(first.as_str(), second.as_str())
    } else {
        compose::list1(first.as_str())
    };
    let what = compose::concat3("failed to create/start lima instance '", id, "'");
    let bad = if verbose {
        Effect::Stop(what)
    } else {
        Effect::StopTail(what, 8)
    };
    let late = if verbose {
        compose::concat3("timed out creating lima instance '", id, "' after 300s")
    } else {
        compose::concat3("create/start ", id, ": timed out after 300s")
    };
    let started = compose::concat("started ", id);
    plan::stage(plan::run_task("limactl", args, 300, output)).says(lines).on_good(
        plan::informs(started.as_str(), 2),
    ).on_bad(bad).on_late(Effect::Stop(late))
}

/// The stage that boots a machine.
pub open spec fn boot_stage(id: Seq<char>, verbose: bool, announce: bool) -> StageView {
    let what = "failed to start lima instance '"@ + id + "'"@;
    plan::stage_of(
        plan::running(
            "limactl"@,
            seq!["--tty=false"@, "start"@, id],
            240,
            if verbose {
                Output::Shown
            } else {
                Output::Captured
            },
        ),
    ).saying(
        if announce {
            seq!["starting sandbox "@ + id + "..."@]
        } else {
            Seq::empty()
        },
    ).when_good(plan::informing("started "@ + id, 0)).when_bad(
        if verbose {
            Effect::Stop(what)
        } else {
            Effect::StopTail(what, 8)
        },
    ).when_late(
        Effect::Stop(
            if verbose {
                "timed out starting lima instance '"@ + id + "' after 240s"@
            } else {
                "start "@ + id + ": timed out after 240s"@
            },
        ),
    )
}

fn booting(id: &str, verbose: bool, announce: bool) -> (r: Stage<String, Vec<String>>)
    ensures
        r@ == boot_stage(id@, verbose, announce),
{
    let output = if verbose {
        Output::Shown
    } else {
        Output::Captured
    };
    let args = compose::list3("--tty=false", "start", id);
    let note = compose::concat3("starting sandbox ", id, "...");
    let lines = if announce {
        compose::list1(note.as_str())
    } else {
        compose::no_texts()
    };
    let what = compose::concat3("failed to start lima instance '", id, "'");
    let bad = if verbose {
        Effect::Stop(what)
    } else {
        Effect::StopTail(what, 8)
    };
    let late = if verbose {
        compose::concat3("timed out starting lima instance '", id, "' after 240s")
    } else {
        compose::concat3("start ", id, ": timed out after 240s")
    };
    let started = compose::concat("started ", id);
    plan::stage(plan::run_task("limactl", args, 240, output)).says(lines).on_good(
        plan::informs(started.as_str(), 0),
    ).on_bad(bad).on_late(Effect::Stop(late))
}

/// The plan that makes a machine run: it is created if there is none, and booted if it does not
/// run.
pub open spec fn bring_up(
    id: Seq<char>,
    args: Seq<Seq<char>>,
    verbose: bool,
    announce: bool,
) -> Seq<StageView> {
    seq![
        exists_probe(id).when_good(Effect::Go(1)).when_not_good(Effect::Go(0)),
        create_stage(id, args, verbose, announce),
        running_probe(id).when_good(Effect::Go(1)).when_not_good(Effect::Go(0)),
        boot_stage(id, verbose, announce),
    ]
}

fn bringing_up(id: &str, args: Vec<String>, verbose: bool, announce: bool) -> (r: Vec<
    Stage<String, Vec<String>>,
>)
    ensures
        plan::stages(r@) == bring_up(id@, compose::texts(args@), verbose, announce),
{
    let mut v = plan::no_stages();
    plan::push_stage(&mut v, ask_exists(id).on_good(Effect::Go(1)).otherwise(Effect::Go(0)));
    plan::push_stage(&mut v, creating(id, args, verbose, announce));
    plan::push_stage(&mut v, ask_running(id).on_good(Effect::Go(1)).otherwise(Effect::Go(0)));
    plan::push_stage(&mut v, booting(id, verbose, announce));
    v
}

/// The plan that starts the machine of a project: after it the machine is known to run.
pub open spec fn start_plan(id: Seq<char>, args: Seq<Seq<char>>, verbose: bool) -> Seq<StageView> {
    let up = bring_up(id, args, verbose, true);
    up.update(0, up[0].saying(seq![ui::info("target: "@ + id)])).push(
        running_probe(id).when_not_good(
            Effect::Stop("lima instance '"@ + id + "' not running after start"@),
        ),
    )
}

/// The stages that stop a machine: first gently, then by force.
pub open spec fn stop_block(id: Seq<char>) -> Seq<StageView> {
    let stopped = "stopped "@ + id;
    seq![
        exists_probe(id).when_not_good(Effect::Go(7)),
        running_probe(id).when_not_good(plan::informing("already stopped "@ + id, 6)),
        plan::stage_of(plan::running("limactl"@, seq!["stop"@, id], 60, Output::Captured)).when_good(
            plan::informing(stopped, 5),
        ).when_not_good(Effect::Go(0)),
        running_probe(id).when_good(
            plan::warning("graceful stop for '"@ + id + "' did not succeed, retrying"@, 0),
        ).when_not_good(plan::informing(stopped, 4)),
        plan::stage_of(Task::Pause(5000)).when_not_good(Effect::Go(0)),
        running_probe(id).when_not_good(plan::informing(stopped, 2)),
        plan::stage_of(
            plan::running("limactl"@, seq!["stop"@, "--force"@, id], 20, Output::Captured),
        ).when_good(plan::informing(stopped, 1)).when_not_good(Effect::Go(0)),
        running_probe(id).when_good(
            Effect::Stop("failed to stop lima instance '"@ + id + "'"@),
        ).when_not_good(plan::informing(stopped, 0)),
    ]
}

/// The stages that stop a machine: first gently, then by force.
pub fn stop_lima_instance_by_id(id: &str) -> (r: Vec<Stage<String, Vec<String>>>)
    ensures
        plan::stages(r@) == stop_block(id@),
{
    let stopped = compose::concat("stopped ", id);
    let already = compose::concat("already stopped ", id);
    let retry = compose::concat3("graceful stop for '", id, "' did not succeed, retrying");
    let fails = compose::concat3("failed to stop lima instance '", id, "'");
    let gentle = compose::list2("stop", id);
    let force = compose::list3("stop", "--force", id);
    let mut v = plan::no_stages();
    plan::push_stage(&mut v, ask_exists(id).otherwise(Effect::Go(7)));
    plan::push_stage(&mut v, ask_running(id).otherwise(plan::informs(already.as_str(), 6)));
    plan::push_stage(
        &mut v,
        plan::stage(plan::run_task("limactl", gentle, 60, Output::Captured)).on_good(
            plan::informs(stopped.as_str(), 5),
        ).otherwise(Effect::Go(0)),
    );
    plan::push_stage(
        &mut v,
        ask_running(id).on_good(plan::warns(retry.as_str(), 0)).otherwise(
            plan::informs(stopped.as_str(), 4),
        ),
    );
    plan::push_stage(&mut v, plan::stage(Task::Pause(5000)).otherwise(Effect::Go(0)));
    plan::push_stage(&mut v, ask_running(id).otherwise(plan::informs(stopped.as_str(), 2)));
    plan::push_stage(
        &mut v,
        plan::stage(plan::run_task("limactl", force, 20, Output::Captured)).on_good(
            plan::informs(stopped.as_str(), 1),
        ).otherwise(Effect::Go(0)),
    );
    plan::push_stage(
        &mut v,
        ask_running(id).on_good(Effect::Stop(fails)).otherwise(
            plan::informs(stopped.as_str(), 0),
        ),
    );
    v
}

/// A machine whose start succeeds has been seen running at the end of it.
pub proof fn started_machines_run(
    id: Seq<char>,
    args: Seq<Seq<char>>,
    verbose: bool,
    replies: Seq<Reply>,
)
    ensures
        plan::succeeded(
            start_plan(id, args, verbose),
            plan::run(start_plan(id, args, verbose), plan::beginning(), replies),
        ) ==> plan::passed(start_plan(id, args, verbose), replies, 4),
        start_plan(id, args, verbose)[4].want == Want::ReadsLoosely("running"@),
{
    let p = start_plan(id, args, verbose);
    plan::strict_stages_are_passed(p, replies, 4);
}

/// A stop gives up only if the machine was still running after it was to be stopped by force.
pub proof fn stops_fail_only_while_running(id: Seq<char>, replies: Seq<Reply>)
    ensures
        plan::run(stop_block(id), plan::beginning(), replies).trouble is Some ==> plan::passed(
            stop_block(id),
            replies,
            7,
        ),
{
    let p = stop_block(id);
    plan::trouble_has_a_cause(p, replies);
    if plan::run(p, plan::beginning(), replies).trouble is Some {
        let k = choose|k: int|
            0 <= k < replies.len() && plan::caused(p, #[trigger] replies.take(k), replies[k]);
        let i = plan::awaited(p, plan::run(p, plan::beginning(), replies.take(k)));
        assert(i == 7);
        assert(plan::is_good(p[7].want, replies[k]));
        assert(plan::passed(p, replies, 7));
    }
}

/// The plan that starts the machine of a project.
fn starting(id: &str, args: Vec<String>, verbose: bool) -> (r: Vec<Stage<String, Vec<String>>>)
    ensures
        plan::stages(r@) == start_plan(id@, compose::texts(args@), verbose),
{
    let target = compose::concat("target: ", id);
    let line = compose::concat("info: ", target.as_str());
    let fails = compose::concat3("lima instance '", id, "' not running after start");
    let mut v = plan::no_stages();
    plan::push_stage(
        &mut v,
        ask_exists(id).on_good(Effect::Go(1)).otherwise(Effect::Go(0)).says(
            compose::list1(line.as_str()),
        ),
    );
    plan::push_stage(&mut v, creating(id, args, verbose, true));
    plan::push_stage(&mut v, ask_running(id).on_good(Effect::Go(1)).otherwise(Effect::Go(0)));
    plan::push_stage(&mut v, booting(id, verbose, true));
    plan::push_stage(&mut v, ask_running(id).otherwise(Effect::Stop(fails)));
    v
}

/// Why nothing can be deleted: without a terminal the user has to have agreed beforehand.
pub open spec fn deletion_fault(force: bool, terminal: bool) -> Option<Seq<char>> {
    if force || terminal {
        None
    } else {
        Some("terminal required for deletion, use --yes"@)
    }
}

/// Whether a machine may be deleted; if not, the exit code and the message that end the program.
pub fn may_delete(force: bool, terminal: bool) -> (r: Result<(), (ExitCode, String)>)
    ensures
        match r {
            Ok(_) => deletion_fault(force, terminal) is None,
            Err(p) => p.0 == ExitCode::PermissionDenied && deletion_fault(force, terminal) == Some(
                p.1@,
            ),
        },
{
    if force || terminal {
        Ok(())
    } else {
        Err((ExitCode::PermissionDenied, "terminal required for deletion, use --yes".to_owned()))
    }
}

/// The plan that deletes a machine: it is stopped first if it runs.
pub open spec fn delete_plan(id: Seq<char>, force: bool) -> Seq<StageView> {
    seq![
        exists_probe(id).when_not_good(Effect::Go(10)),
        running_probe(id).when_not_good(Effect::Go(8)),
    ] + stop_block(id) + seq![
        plan::stage_of(
            plan::running(
                "limactl"@,
                if force {
                    seq!["delete"@, "--force"@, id]
                } else {
                    seq!["delete"@, id]
                },
                60,
                Output::Captured,
            ),
        ).when_good(plan::informing("deleted "@ + id, 0)).when_bad(
            Effect::Stop("failed to delete lima instance '"@ + id + "'"@),
        ).when_late(Effect::Stop("delete "@ + id + ": timed out after 60s"@)),
    ]
}

/// The plan that deletes a machine.
fn deleting(id: &str, force: bool) -> (r: Vec<Stage<String, Vec<String>>>)
    ensures
        plan::stages(r@) == delete_plan(id@, force),
{
    let args = if force {
        compose::list3("delete", "--force", id)
    } else {
        compose::list2("delete", id)
    };
    let deleted = compose::concat("deleted ", id);
    let fails = compose::concat3("failed to delete lima instance '", id, "'");
    let late = compose::concat3("delete ", id, ": timed out after 60s");
    let mut v = plan::no_stages();
    plan::push_stage(&mut v, ask_exists(id).otherwise(Effect::Go(10)));
    plan::push_stage(&mut v, ask_running(id).otherwise(Effect::Go(8)));
    plan::push_stages(&mut v, stop_lima_instance_by_id(id));
    plan::push_stage(
        &mut v,
        plan::stage(plan::run_task("limactl", args, 60, Output::Captured)).on_good(
            plan::informs(deleted.as_str(), 0),
        ).on_bad(Effect::Stop(fails)).on_late(Effect::Stop(late)),
    );
    v
}

/// Whether a name is that of a machine for the services, not of a project.
pub open spec fn serves(id: Seq<char>) -> bool {
    id == "tnk-services"@ || id == "tnk-searxng"@
}

/// Whether a name is that of a machine for a project.
pub open spec fn is_managed(id: Seq<char>) -> bool {
    edge::begins(id, "tnk-"@) && !serves(id)
}

/// Whether a name is that of a machine for a project.
pub fn managed(id: &str) -> (r: bool)
    ensures
        r == is_managed(id@),
{
    edge::starts_with(id, "tnk-") && !compose::same(id, "tnk-services") && !compose::same(
        id,
        "tnk-searxng",
    )
}

/// Why a name is not that of a machine for a project.
pub open spec fn named_fault(id: Seq<char>) -> Option<Seq<char>> {
    if !edge::begins(id, "tnk-"@) {
        Some("invalid lima instance name '"@ + id + "': must start with 'tnk-'"@)
    } else if serves(id) {
        Some("'"@ + id + "' is a services instance, not a project sandbox"@)
    } else {
        None
    }
}

/// Accepts the names of machines for projects.
pub fn validate_named_lima_sandbox(id: &str) -> (r: Result<(), Failure>)
    ensures
        types::fault(r) == named_fault(id@),
{
    if !edge::starts_with(id, "tnk-") {
        return Err(
            failure::failed(
                compose::concat3(
                    "invalid lima instance name '",
                    id,
                    "': must start with 'tnk-'",
                ),
            ),
        );
    }
    if compose::same(id, "tnk-services") || compose::same(id, "tnk-searxng") {
        return Err(
            failure::failed(
                compose::concat3("'", id, "' is a services instance, not a project sandbox"),
            ),
        );
    }
    Ok(())
}

/// A stage that gives up with a message.
pub open spec fn refusal(message: Seq<char>) -> StageView {
    plan::stage_of(Task::Nothing).when_good(Effect::Stop(message))
}

/// The stages that stop a machine that was named by the user.
pub open spec fn named_block(id: Seq<char>) -> Seq<StageView> {
    match named_fault(id) {
        Some(e) => seq![refusal(e)],
        None => seq![
            exists_probe(id).when_not_good(
                plan::warning("lima instance '"@ + id + "' does not exist"@, 8),
            ),
        ] + stop_block(id),
    }
}

fn stopping_named(id: &str) -> (r: Vec<Stage<String, Vec<String>>>)
    ensures
        plan::stages(r@) == named_block(id@),
{
    let mut v = plan::no_stages();
    match validate_named_lima_sandbox(id) {
        Err(e) => {
            plan::push_stage(&mut v, plan::stage(Task::Nothing).on_good(Effect::Stop(e.message)));
        },
        Ok(_) => {
            let missing = compose::concat3("lima instance '", id, "' does not exist");
            plan::push_stage(&mut v, ask_exists(id).otherwise(plan::warns(missing.as_str(), 8)));
            plan::push_stages(&mut v, stop_lima_instance_by_id(id));
        },
    }
    v
}

/// The plan that stops machines one after the other; `named` tells whether the user named them.
pub open spec fn stop_plan(ids: Seq<Seq<char>>, named: bool) -> Seq<StageView>
    decreases ids.len(),
{
    if ids.len() == 0 {
        Seq::empty()
    } else {
        stop_plan(ids.drop_last(), named) + (if named {
            named_block(ids.last())
        } else {
            stop_block(ids.last())
        })
    }
}

fn stopping(ids: &Vec<String>, named: bool) -> (r: Vec<Stage<String, Vec<String>>>)
    ensures
        plan::stages(r@) == stop_plan(compose::texts(ids@), named),
{
    let ghost all = compose::texts(ids@);
    let mut v = plan::no_stages();
    let mut i: usize = 0;
    while i < ids.len()
        invariant
            i <= ids@.len(),
            all == compose::texts(ids@),
            plan::stages(v@) == stop_plan(all.take(i as int), named),
        decreases ids@.len() - i,
    {
        assert(all.take(i + 1).drop_last() =~= all.take(i as int));
        assert(all.take(i + 1).last() == ids@[i as int]@);
        if named {
            plan::push_stages(&mut v, stopping_named(ids[i].as_str()));
        } else {
            plan::push_stages(&mut v, stop_lima_instance_by_id(ids[i].as_str()));
        }
        i += 1;
    }
    assert(all.take(i as int) =~= all);
    v
}

/// Those of some names that are names of machines for projects.
pub open spec fn managed_among(names: Seq<Seq<char>>) -> Seq<Seq<char>>
    decreases names.len(),
{
    if names.len() == 0 {
        Seq::empty()
    } else if is_managed(names.last()) {
        managed_among(names.drop_last()).push(names.last())
    } else {
        managed_among(names.drop_last())
    }
}

/// The machines for projects in the output of `limactl list`, each once and in ascending order.
pub fn discover_managed_lima_instances(output: &str) -> (r: Vec<String>)
    ensures
        order::sorted_set(
            managed_among(split::all_trimmed(split::lines_of(output@))),
            compose::texts(r@),
        ),
{
    let lines = split::lines(output);
    let names = split::trim_all(&lines);
    let ghost all = compose::texts(names@);
    let mut v = compose::no_texts();
    let mut i: usize = 0;
    while i < names.len()
        invariant
            i <= names@.len(),
            all == compose::texts(names@),
            compose::texts(v@) == managed_among(all.take(i as int)),
        decreases names@.len() - i,
    {
        assert(all.take(i + 1).drop_last() =~= all.take(i as int));
        assert(all.take(i + 1).last() == names@[i as int]@);
        if managed(names[i].as_str()) {
            compose::push_text(&mut v, names[i].as_str());
        }
        i += 1;
    }
    assert(all.take(i as int) =~= all);
    order::sort_dedup(&v)
}

proof fn lemma_managed_among(names: Seq<Seq<char>>)
    ensures
        forall|s: Seq<char>| #[trigger] managed_among(names).contains(s) ==> is_managed(s),
    decreases names.len(),
{
    if names.len() > 0 {
        lemma_managed_among(names.drop_last());
        let before = managed_among(names.drop_last());
        assert forall|s: Seq<char>| #[trigger] managed_among(names).contains(s) implies is_managed(
            s,
        ) by {
            let i = choose|i: int| 0 <= i < managed_among(names).len() && managed_among(names)[i]
                == s;
            if i < before.len() {
                assert(before[i] == s);
                assert(before.contains(s));
            }
        }
    }
}

/// Stopping all machines never touches those of the services or those of others.
pub proof fn only_projects_are_discovered(output: Seq<char>, found: Seq<Seq<char>>, id: Seq<char>)
    requires
        order::sorted_set(managed_among(split::all_trimmed(split::lines_of(output))), found),
        found.contains(id),
    ensures
        is_managed(id),
{
    lemma_managed_among(split::all_trimmed(split::lines_of(output)));
}

impl SandboxEntry {
    /// The texts of an entry.
    pub open spec fn parts(self) -> (Seq<char>, Seq<char>, Seq<char>) {
        (self.id@, self.status@, self.mount@)
    }
}

/// The texts of some entries.
pub open spec fn entry_parts(v: Seq<SandboxEntry>) -> Seq<(Seq<char>, Seq<char>, Seq<char>)> {
    v.map_values(|e: SandboxEntry| e.parts())
}

/// The sandbox that a line of `limactl list` with a name, a tab and a status tells of.
pub open spec fn entry_in(line: Seq<char>) -> Option<(Seq<char>, Seq<char>, Seq<char>)> {
    let cells = split::pieces(line, Class::Only('\t'));
    if cells.len() < 2 || !edge::begins(edge::trimmed(cells[0]), "tnk-"@) {
        None
    } else {
        let status = edge::trimmed(cells[1]);
        Some(
            (
                edge::trimmed(cells[0]),
                if status.len() == 0 {
                    "unknown"@
                } else {
                    status
                },
                "/workspace"@,
            ),
        )
    }
}

/// The sandboxes that some lines tell of.
pub open spec fn entries_in(lines: Seq<Seq<char>>) -> Seq<(Seq<char>, Seq<char>, Seq<char>)>
    decreases lines.len(),
{
    if lines.len() == 0 {
        Seq::empty()
    } else {
        match entry_in(lines.last()) {
            Some(e) => entries_in(lines.drop_last()).push(e),
            None => entries_in(lines.drop_last()),
        }
    }
}

fn read_entry(line: &str) -> (r: Option<SandboxEntry>)
    ensures
        match r {
            Some(e) => entry_in(line@) == Some(e.parts()),
            None => entry_in(line@) is None,
        },
{
    let cells = split::split(line, Class::Only('\t'));
    assert(compose::texts(cells@).len() == cells@.len());
    if cells.len() < 2 {
        return None;
    }
    assert(compose::texts(cells@)[0] == cells@[0]@);
    assert(compose::texts(cells@)[1] == cells@[1]@);
    let id = edge::trim(cells[0].as_str());
    if !edge::starts_with(id.as_str(), "tnk-") {
        return None;
    }
    let raw = edge::trim(cells[1].as_str());
    let status = if raw.as_str().is_empty() {
        "unknown".to_owned()
    } else {
        raw
    };
    Some(SandboxEntry { id, status, mount: "/workspace".to_owned() })
}

/// The sandboxes that the output of `limactl list` with names and statuses tells of.
pub fn list_lima_instances(output: &str) -> (r: Vec<SandboxEntry>)
    ensures
        entry_parts(r@) == entries_in(split::lines_of(output@)),
{
    let lines = split::lines(output);
    let ghost all = compose::texts(lines@);
    let mut v: Vec<SandboxEntry> = Vec::new();
    let mut i: usize = 0;
    assert(entry_parts(v@) =~= entries_in(all.take(0)));
    while i < lines.len()
        invariant
            i <= lines@.len(),
            all == compose::texts(lines@),
            entry_parts(v@) == entries_in(all.take(i as int)),
        decreases lines@.len() - i,
    {
        assert(all.take(i + 1).drop_last() =~= all.take(i as int));
        assert(all.take(i + 1).last() == lines@[i as int]@);
        match read_entry(lines[i].as_str()) {
            Some(e) => {
                let ghost before = v@;
                v.push(e);
                assert(entry_parts(v@) =~= entry_parts(before).push(e.parts()));
            },
            None => {},
        }
        i += 1;
    }
    assert(all.take(i as int) =~= all);
    v
}

/// What a request to stop sandboxes comes to.
pub enum StopRequest {
    /// There is nothing to stop; the line tells so.
    Nothing(String),
    /// These stages are to be performed.
    Plan(Vec<Stage<String, Vec<String>>>),
    /// The sandbox of the current directory is to be stopped.
    Current,
}

/// The machines that a request to stop sandboxes is about, in any order.
pub open spec fn stop_targets(names: Seq<Seq<char>>, all: bool, listed: Seq<char>) -> Seq<
    Seq<char>,
> {
    if all {
        managed_among(split::all_trimmed(split::lines_of(listed)))
    } else {
        names
    }
}

/// Those lines of a list that can tell of machines left behind.
pub open spec fn leftovers(lines: Seq<Seq<char>>) -> Seq<Seq<char>>
    decreases lines.len(),
{
    if lines.len() == 0 {
        Seq::empty()
    } else {
        let id = edge::trimmed(lines.last());
        if edge::begins(id, "tnk-"@) {
            leftovers(lines.drop_last()).push(id)
        } else {
            leftovers(lines.drop_last())
        }
    }
}

/// What is said of a machine: nothing if its profiles are on record.
pub open spec fn leftover_note(id: Seq<char>, recorded: bool, running: bool) -> Option<Seq<char>> {
    if recorded {
        None
    } else if running {
        Some("info: skipping running untracked lima instance "@ + id)
    } else {
        Some(
            "warning: detected unlabeled lima instance "@ + id
                + " without profile cache; skipping auto-delete for safety"@,
        )
    }
}

/// The list of all machines with their statuses, or why there is none.
pub open spec fn listing(listed: Listed) -> Result<Seq<char>, Seq<char>> {
    match listed {
        Listed::Ran { ok, out } => if ok {
            Ok(out@)
        } else {
            Err(
                "failed to list lima instances (run 'limactl list' to check lima installation)"@,
            )
        },
        Listed::Late => Err("limactl list timed out after 15s"@),
        Listed::Broken(e) => Err(e@),
    }
}

/// The list of all machines among which those are looked for that have been left behind, or the
/// warning that this cannot be done.
pub open spec fn cleanup_listing(cache_present: bool, listed: Listed) -> Result<
    Seq<char>,
    Seq<char>,
> {
    if !cache_present {
        Err("warning: sandbox cache directory is missing; skipping untracked cleanup"@)
    } else {
        match listed {
            Listed::Ran { ok, out } => if ok {
                Ok(out@)
            } else {
                Err("warning: failed to list lima instances for cleanup"@)
            },
            _ => Err("warning: limactl list timed out or failed for cleanup"@),
        }
    }
}

impl LimaBackend {
    /// The settings that the manifest of a profile comes to: its limits, if it has any. The project
    /// always lies at the same place inside.
    pub fn resolve_settings(manifest: Option<SandboxManifest>) -> (r: ProfileSettings)
        ensures
            r.cpus == (match manifest {
                Some(m) => match m.resources {
                    Some(l) => l.cpus,
                    None => None,
                },
                None => None,
            }),
            compose::opt_text(r.memory) == (match manifest {
                Some(m) => match m.resources {
                    Some(l) => compose::opt_text(l.memory),
                    None => None,
                },
                None => None,
            }),
            r.workspace_guest_path@ == "/workspace"@,
    {
        let limits = match manifest {
            Some(m) => m.resources,
            None => None,
        };
        let workspace_guest_path = "/workspace".to_owned();
        match limits {
            Some(l) => ProfileSettings { cpus: l.cpus, memory: l.memory, workspace_guest_path },
            None => ProfileSettings { cpus: None, memory: None, workspace_guest_path },
        }
    }

    /// The plan that starts the machine of a project.
    pub fn start(
        id: &str,
        project_root: &str,
        settings: &ProfileSettings,
        memory_gib: &Option<String>,
        verbose: bool,
    ) -> (r: Vec<Stage<String, Vec<String>>>)
        ensures
            plan::stages(r@) == start_plan(
                id@,
                start_args(
                    id@,
                    project_root@,
                    settings.cpus,
                    compose::opt_text(*memory_gib),
                    settings.workspace_guest_path@,
                ),
                verbose,
            ),
    {
        let args = build_start_args(id, project_root, settings, memory_gib);
        starting(id, args, verbose)
    }

    /// The plan that makes the machine of a project run for a session, which has been opened before.
    pub fn shell(
        opened: &Opened,
        id: &str,
        project_root: &str,
        settings: &ProfileSettings,
        memory_gib: &Option<String>,
        verbose: bool,
    ) -> (r: Vec<Stage<String, Vec<String>>>)
        ensures
            plan::stages(r@) == bring_up(
                id@,
                start_args(
                    id@,
                    project_root@,
                    settings.cpus,
                    compose::opt_text(*memory_gib),
                    settings.workspace_guest_path@,
                ),
                verbose,
                false,
            ),
            session::is_checked(opened@),
    {
        proof {
            use_type_invariant(opened);
        }
        let args = build_start_args(id, project_root, settings, memory_gib);
        bringing_up(id, args, verbose, false)
    }

    /// What a request to stop sandboxes comes to: all machines for projects in the output of
    /// `limactl list`, else those that are named, else that of the current directory.
    pub fn stop(names: &Vec<String>, all: bool, listed: &str) -> (r: StopRequest)
        ensures
            match r {
                StopRequest::Nothing(line) => all && managed_among(
                    split::all_trimmed(split::lines_of(listed@)),
                ).len() == 0 && line@ == "no managed lima instances found"@,
                StopRequest::Plan(v) => {
                    &&& all ==> managed_among(
                        split::all_trimmed(split::lines_of(listed@)),
                    ).len() > 0
                    &&& !all ==> names@.len() > 0
                    &&& exists|ids: Seq<Seq<char>>|
                        {
                            &&& #[trigger] order::sorted_set(
                                stop_targets(compose::texts(names@), all, listed@),
                                ids,
                            )
                            &&& plan::stages(v@) == stop_plan(ids, !all)
                        }
                },
                StopRequest::Current => !all && names@.len() == 0,
            },
    {
        if all {
            let ids = discover_managed_lima_instances(listed);
            let ghost found = managed_among(split::all_trimmed(split::lines_of(listed@)));
            if ids.len() == 0 {
                proof {
                    if found.len() > 0 {
                        assert(found.contains(found[0]));
                        assert(compose::texts(ids@).contains(found[0]));
                    }
                }
                return StopRequest::Nothing("no managed lima instances found".to_owned());
            }
            assert(order::sorted_set(
                stop_targets(compose::texts(names@), all, listed@),
                compose::texts(ids@),
            ));
            assert(compose::texts(ids@).contains(compose::texts(ids@)[0]));
            assert(found.contains(compose::texts(ids@)[0]));
            return StopRequest::Plan(stopping(&ids, false));
        }
        if names.len() > 0 {
            let unique = order::sort_dedup(names);
            assert(order::sorted_set(
                stop_targets(compose::texts(names@), all, listed@),
                compose::texts(unique@),
            ));
            return StopRequest::Plan(stopping(&unique, true));
        }
        StopRequest::Current
    }

    /// The plan that deletes a machine.
    pub fn delete(id: &str, force: bool) -> (r: Vec<Stage<String, Vec<String>>>)
        ensures
            plan::stages(r@) == delete_plan(id@, force),
    {
        deleting(id, force)
    }

    /// The sandboxes that the list of all machines tells of, or why they cannot be told.
    pub fn ls(listed: Listed) -> (r: Result<Vec<SandboxEntry>, Failure>)
        ensures
            match r {
                Ok(v) => listing(listed) matches Ok(text) && entry_parts(v@) == entries_in(
                    split::lines_of(text),
                ),
                Err(e) => listing(listed) == Err::<Seq<char>, Seq<char>>(e@),
            },
    {
        match listed {
            Listed::Ran { ok, out } => if ok {
                Ok(list_lima_instances(out.as_str()))
            } else {
                Err(
                    failure::failure(
                        "failed to list lima instances (run 'limactl list' to check lima installation)",
                    ),
                )
            },
            Listed::Late => Err(failure::failure("limactl list timed out after 15s")),
            Listed::Broken(e) => Err(failure::failed(e)),
        }
    }

    /// The machines that can have been left behind, or the warning that they cannot be looked for.
    pub fn cleanup_candidates(cache_present: bool, listed: Listed) -> (r: Result<
        Vec<String>,
        String,
    >)
        ensures
            match r {
                Ok(v) => cleanup_listing(cache_present, listed) matches Ok(text) && compose::texts(
                    v@,
                ) == leftovers(split::lines_of(text)),
                Err(line) => cleanup_listing(cache_present, listed) == Err::<
                    Seq<char>,
                    Seq<char>,
                >(line@),
            },
    {
        if !cache_present {
            return Err(
                "warning: sandbox cache directory is missing; skipping untracked cleanup".to_owned(),
            );
        }
        let output = match listed {
            Listed::Ran { ok, out } => if ok {
                out
            } else {
                return Err("warning: failed to list lima instances for cleanup".to_owned());
            },
            _ => return Err("warning: limactl list timed out or failed for cleanup".to_owned()),
        };
        let lines = split::lines(output.as_str());
        let ghost all = compose::texts(lines@);
        let mut v = compose::no_texts();
        let mut i: usize = 0;
        while i < lines.len()
            invariant
                i <= lines@.len(),
                all == compose::texts(lines@),
                compose::texts(v@) == leftovers(all.take(i as int)),
            decreases lines@.len() - i,
        {
            assert(all.take(i + 1).drop_last() =~= all.take(i as int));
            assert(all.take(i + 1).last() == lines@[i as int]@);
            let id = edge::trim(lines[i].as_str());
            if edge::starts_with(id.as_str(), "tnk-") {
                compose::push_string(&mut v, id);
            }
            i += 1;
        }
        assert(all.take(i as int) =~= all);
        Ok(v)
    }

    /// What is said of a machine that can have been left behind. It is never deleted.
    pub fn cleanup_untracked(id: &str, recorded: bool, running: bool, verbose: bool) -> (r: Option<
        String,
    >)
        ensures
            compose::opt_text(r) == (if verbose {
                leftover_note(id@, recorded, running)
            } else {
                None
            }),
    {
        if !verbose || recorded {
            None
        } else if running {
            Some(compose::concat("info: skipping running untracked lima instance ", id))
        } else {
            Some(
                compose::concat3(
                    "warning: detected unlabeled lima instance ",
                    id,
                    " without profile cache; skipping auto-delete for safety",
                ),
            )
        }
    }

    /// The host as a machine sees it.
    pub fn resolve_gateway() -> (r: String)
        ensures
            r@ == provision::lima_gateway(),
    {
        "host.lima.internal".to_owned()
    }

    /// The variables that tell a machine where inference and the services are.
    pub fn runtime_env(port: u16, engine_runtime: &str, model_name: &str) -> (r: Vec<
        (String, String),
    >)
        ensures
            compose::pair_texts(r@) == provision::runtime_pairs(
                provision::lima_gateway(),
                port,
                engine_runtime@,
                model_name@,
            ),
    {
        let gateway = LimaBackend::resolve_gateway();
        provision::runtime_env_contract(gateway.as_str(), port, engine_runtime, model_name)
    }
}

/// What the stages of a bring-up lead to is told apart from the words of the machine alone: a
/// machine that exists and runs is neither created nor booted.
pub proof fn running_machines_are_left_alone(
    id: Seq<char>,
    args: Seq<Seq<char>>,
    verbose: bool,
    announce: bool,
    first: Reply,
    second: Reply,
)
    requires
        plan::is_good(exists_probe(id).want, first),
        plan::is_good(running_probe(id).want, second),
    ensures
        plan::succeeded(
            bring_up(id, args, verbose, announce),
            plan::run(
                bring_up(id, args, verbose, announce),
                plan::beginning(),
                seq![first, second],
            ),
        ),
{
    let p = bring_up(id, args, verbose, announce);
    let all = seq![first, second];
    assert(all.drop_last() =~= seq![first]);
    assert(seq![first].drop_last() =~= Seq::<Reply>::empty());
    assert(plan::run(p, plan::beginning(), Seq::<Reply>::empty()) == plan::beginning());
    let s1 = plan::run(p, plan::beginning(), seq![first]);
    assert(s1 == plan::after(p, plan::beginning(), first));
    assert(s1.at == 2);
    let s2 = plan::run(p, plan::beginning(), all);
    assert(s2 == plan::after(p, s1, second));
    assert(s2.at == 4);
}

/// Whether a run of a plan found that a machine does not exist or does not run, or stopped it with
/// success, gently or by force.
pub open spec fn is_settled(p: Seq<StageView>, replies: Seq<Reply>, id: Seq<char>) -> bool {
    ||| plan::replied(
        p,
        replies,
        plan::running(
            "limactl"@,
            seq!["list"@, "--format"@, "{{.Name}}"@, id],
            15,
            Output::Captured,
        ),
        Want::Reads(id),
        false,
    )
    ||| plan::replied(
        p,
        replies,
        plan::running(
            "limactl"@,
            seq!["list"@, "--format"@, "{{.Status}}"@, id],
            15,
            Output::Captured,
        ),
        Want::ReadsLoosely("running"@),
        false,
    )
    ||| plan::replied(
        p,
        replies,
        plan::running("limactl"@, seq!["stop"@, id], 60, Output::Captured),
        Want::Success,
        true,
    )
    ||| plan::replied(
        p,
        replies,
        plan::running("limactl"@, seq!["stop"@, "--force"@, id], 20, Output::Captured),
        Want::Success,
        true,
    )
}

proof fn lemma_settled_at(
    p: Seq<StageView>,
    replies: Seq<Reply>,
    id: Seq<char>,
    from: int,
    start: int,
    k: int,
)
    requires
        0 <= from <= start,
        start + 8 <= p.len(),
        p.subrange(start, start + 8) == stop_block(id),
        plan::leaves(p, replies, k, from, start + 8),
        plan::run(p, plan::beginning(), replies.take(k)).at >= start,
    ensures
        is_settled(p, replies, id),
{
    plan::leaving_is_told(p, replies, k, from, start + 8);
    let at = plan::run(p, plan::beginning(), replies.take(k)).at;
    assert(p.subrange(start, start + 8)[at - start] == p[at]);
    assert(p[at] == stop_block(id)[at - start]);
    let reply = replies[k];
    let loosely = Want::ReadsLoosely("running"@);
    assert(plan::replied(p, replies, p[at].task, Want::Success, plan::is_good(Want::Success, reply)));
    assert(plan::replied(
        p,
        replies,
        p[at].task,
        Want::Reads(id),
        plan::is_good(Want::Reads(id), reply),
    ));
    assert(plan::replied(p, replies, p[at].task, loosely, plan::is_good(loosely, reply)));
}

/// A machine that exists is deleted: when the plan that deletes it succeeds, `limactl delete` has
/// been performed on it with success. If it does not exist, nothing more is done.
#[verifier::rlimit(40)]
pub proof fn machines_are_deleted(id: Seq<char>, force: bool, replies: Seq<Reply>)
    requires
        replies.len() > 0,
    ensures
        delete_plan(id, force)[0].task == plan::running(
            "limactl"@,
            seq!["list"@, "--format"@, "{{.Name}}"@, id],
            15,
            Output::Captured,
        ),
        plan::succeeded(
            delete_plan(id, force),
            plan::run(delete_plan(id, force), plan::beginning(), replies),
        ) && plan::is_good(Want::Reads(id), replies[0]) ==> plan::replied(
            delete_plan(id, force),
            replies,
            plan::running(
                "limactl"@,
                if force {
                    seq!["delete"@, "--force"@, id]
                } else {
                    seq!["delete"@, id]
                },
                60,
                Output::Captured,
            ),
            Want::Success,
            true,
        ),
        !plan::is_good(Want::Reads(id), replies[0]) ==> plan::succeeded(
            delete_plan(id, force),
            plan::run(delete_plan(id, force), plan::beginning(), replies.take(1)),
        ),
{
    let p = delete_plan(id, force);
    if plan::succeeded(p, plan::run(p, plan::beginning(), replies)) && plan::is_good(
        Want::Reads(id),
        replies[0],
    ) {
        plan::successes_are_complete(p, replies);
        plan::stretches_are_crossed(p, replies, 0, 11);
        let k = choose|k: int| #[trigger] plan::leaves(p, replies, k, 0, 11);
        plan::leaving_is_told(p, replies, k, 0, 11);
        plan::plans_end(p, replies.take(k));
        let at = plan::run(p, plan::beginning(), replies.take(k)).at;
        assert(2 <= at < 10 ==> p[at] == stop_block(id)[at - 2]);
        assert(at == 0 ==> k == 0);
        assert(at == 10);
        assert(plan::replied(
            p,
            replies,
            p[at].task,
            Want::Success,
            plan::is_good(Want::Success, replies[k]),
        ));
    }
    assert(replies.take(1).drop_last() =~= Seq::<Reply>::empty());
    assert(plan::run(p, plan::beginning(), replies.take(1).drop_last()) == plan::beginning());
    assert(plan::run(p, plan::beginning(), replies.take(1)) == plan::after(
        p,
        plan::beginning(),
        replies[0],
    ));
}

/// Before a machine is deleted it was found not to run, or it was stopped.
#[verifier::rlimit(40)]
pub proof fn machines_are_stopped_before_they_are_deleted(
    id: Seq<char>,
    force: bool,
    replies: Seq<Reply>,
)
    requires
        plan::is_next(
            delete_plan(id, force),
            replies,
            plan::running(
                "limactl"@,
                if force {
                    seq!["delete"@, "--force"@, id]
                } else {
                    seq!["delete"@, id]
                },
                60,
                Output::Captured,
            ),
        ),
    ensures
        is_settled(delete_plan(id, force), replies, id),
{
    let p = delete_plan(id, force);
    let s = plan::run(p, plan::beginning(), replies);
    let at = plan::awaited(p, s);
    let delete = if force {
        seq!["delete"@, "--force"@, id]
    } else {
        seq!["delete"@, id]
    };
    plan::plans_end(p, replies);
    reveal_strlit("delete");
    reveal_strlit("list");
    reveal_strlit("stop");
    assert("delete"@.len() == 6 && "list"@.len() == 4 && "stop"@.len() == 4);
    assert(2 <= at < 10 ==> p[at] == stop_block(id)[at - 2]);
    assert(p[at].task->args[0] == "delete"@);
    assert(at == 10);
    if s.trouble is Some {
        plan::only_cleanup_after_trouble(p, s);
    }
    plan::stretches_are_crossed(p, replies, 0, 10);
    let k = choose|k: int| #[trigger] plan::leaves(p, replies, k, 0, 10);
    plan::leaving_is_told(p, replies, k, 0, 10);
    let i = plan::run(p, plan::beginning(), replies.take(k)).at;
    if i < 2 {
        let loosely = Want::ReadsLoosely("running"@);
        let reply = replies[k];
        assert(plan::replied(
            p,
            replies,
            p[i].task,
            Want::Reads(id),
            plan::is_good(Want::Reads(id), reply),
        ));
        assert(plan::replied(p, replies, p[i].task, loosely, plan::is_good(loosely, reply)));
    } else {
        assert(p.subrange(2, 10) =~= stop_block(id));
        lemma_settled_at(p, replies, id, 0, 2, k);
    }
}

/// The stages that stop one of some machines.
spec fn block(id: Seq<char>, named: bool) -> Seq<StageView> {
    if named {
        named_block(id)
    } else {
        stop_block(id)
    }
}

proof fn lemma_stop_plan(ids: Seq<Seq<char>>, named: bool, i: int)
    requires
        0 <= i < ids.len(),
    ensures
        ({
            let p = stop_plan(ids, named);
            let from = stop_plan(ids.take(i), named).len() as int;
            let to = from + block(ids[i], named).len();
            &&& to <= p.len()
            &&& p.subrange(from, to) == block(ids[i], named)
            &&& forall|j: int| 0 <= j < from ==> plan::skips_at_most(#[trigger] p[j], from - j - 1)
        }),
    decreases ids.len(),
{
    let p = stop_plan(ids, named);
    let earlier = stop_plan(ids.drop_last(), named);
    if i == ids.len() - 1 {
        assert(ids.take(i) =~= ids.drop_last());
        assert(p.subrange(earlier.len() as int, p.len() as int) =~= block(ids[i], named));
        lemma_blocks_are_closed(ids.drop_last(), named);
        assert forall|j: int| 0 <= j < earlier.len() implies plan::skips_at_most(
            #[trigger] p[j],
            earlier.len() - j - 1,
        ) by {
            assert(p[j] == earlier[j]);
        }
    } else {
        lemma_stop_plan(ids.drop_last(), named, i);
        assert(ids.drop_last().take(i) =~= ids.take(i));
        let from = stop_plan(ids.take(i), named).len() as int;
        let to = from + block(ids[i], named).len();
        assert(p.subrange(from, to) =~= earlier.subrange(from, to));
        assert forall|j: int| 0 <= j < from implies plan::skips_at_most(
            #[trigger] p[j],
            from - j - 1,
        ) by {
            assert(p[j] == earlier[j]);
        }
    }
}

proof fn lemma_blocks_are_closed(ids: Seq<Seq<char>>, named: bool)
    ensures
        forall|j: int|
            0 <= j < stop_plan(ids, named).len() ==> plan::skips_at_most(
                #[trigger] stop_plan(ids, named)[j],
                stop_plan(ids, named).len() - j - 1,
            ),
    decreases ids.len(),
{
    if ids.len() > 0 {
        let p = stop_plan(ids, named);
        let earlier = stop_plan(ids.drop_last(), named);
        lemma_blocks_are_closed(ids.drop_last(), named);
        assert forall|j: int| 0 <= j < p.len() implies plan::skips_at_most(
            #[trigger] p[j],
            p.len() - j - 1,
        ) by {
            if j < earlier.len() {
                assert(p[j] == earlier[j]);
            } else {
                let n = j - earlier.len();
                let b = block(ids.last(), named);
                assert(p[j] == b[n]);
                if named && named_fault(ids.last()) is None && n > 0 {
                    assert(b[n] == stop_block(ids.last())[n - 1]);
                }
            }
        }
    }
}

/// When a plan that stops machines succeeds, every one of them was found not to exist or not to
/// run, or was stopped with success.
#[verifier::rlimit(40)]
pub proof fn machines_are_stopped(
    ids: Seq<Seq<char>>,
    named: bool,
    replies: Seq<Reply>,
    i: int,
)
    requires
        0 <= i < ids.len(),
        plan::succeeded(
            stop_plan(ids, named),
            plan::run(stop_plan(ids, named), plan::beginning(), replies),
        ),
    ensures
        is_settled(stop_plan(ids, named), replies, ids[i]),
        named ==> edge::begins(ids[i], "tnk-"@) && ids[i] != "tnk-services"@ && ids[i]
            != "tnk-searxng"@,
{
    let p = stop_plan(ids, named);
    let id = ids[i];
    let from = stop_plan(ids.take(i), named).len() as int;
    let b = block(id, named);
    let to = from + b.len();
    lemma_stop_plan(ids, named, i);
    plan::successes_are_complete(p, replies);
    plan::stretches_are_crossed(p, replies, from, to);
    let k = choose|k: int| #[trigger] plan::leaves(p, replies, k, from, to);
    plan::leaving_is_told(p, replies, k, from, to);
    let at = plan::run(p, plan::beginning(), replies.take(k)).at;
    assert(p.subrange(from, to)[at - from] == p[at]);
    assert(p[at] == b[at - from]);
    if !named {
        lemma_settled_at(p, replies, id, from, from, k);
    } else {
        assert(named_fault(id) is None);
        if at == from {
            assert(plan::replied(
                p,
                replies,
                p[at].task,
                Want::Reads(id),
                plan::is_good(Want::Reads(id), replies[k]),
            ));
        } else {
            assert(p.subrange(from + 1, to) =~= p.subrange(from, to).subrange(1, 9));
            assert(p.subrange(from + 1, to) =~= stop_block(id));
            lemma_settled_at(p, replies, id, from, from + 1, k);
        }
    }
}

/// Whether a run of a plan created a machine with these arguments, with success.
pub open spec fn is_created(
    p: Seq<StageView>,
    replies: Seq<Reply>,
    args: Seq<Seq<char>>,
    verbose: bool,
) -> bool {
    plan::replied(
        p,
        replies,
        plan::running(
            "limactl"@,
            args,
            300,
            if verbose {
                Output::Shown
            } else {
                Output::Captured
            },
        ),
        Want::Success,
        true,
    )
}

/// Whether a run of a plan found that a machine runs, or booted it with success.
pub open spec fn is_up(
    p: Seq<StageView>,
    replies: Seq<Reply>,
    id: Seq<char>,
    verbose: bool,
) -> bool {
    ||| plan::replied(
        p,
        replies,
        plan::running(
            "limactl"@,
            seq!["list"@, "--format"@, "{{.Status}}"@, id],
            15,
            Output::Captured,
        ),
        Want::ReadsLoosely("running"@),
        true,
    )
    ||| plan::replied(
        p,
        replies,
        plan::running(
            "limactl"@,
            seq!["--tty=false"@, "start"@, id],
            240,
            if verbose {
                Output::Shown
            } else {
                Output::Captured
            },
        ),
        Want::Success,
        true,
    )
}

proof fn lemma_created(
    p: Seq<StageView>,
    id: Seq<char>,
    args: Seq<Seq<char>>,
    verbose: bool,
    announce: bool,
    replies: Seq<Reply>,
)
    requires
        p.len() >= 4,
        !p[0].always,
        plan::effect_of(p[0], replies[0]) == Effect::<Seq<char>>::Go(0),
        p[1] == create_stage(id, args, verbose, announce),
        replies.len() > 0,
        plan::run(p, plan::beginning(), replies).trouble is None,
        plan::run(p, plan::beginning(), replies).at >= 4,
    ensures
        is_created(p, replies, args, verbose),
{
    plan::stretches_are_crossed(p, replies, 0, 2);
    let a = choose|k: int| #[trigger] plan::leaves(p, replies, k, 0, 2);
    plan::leaving_is_told(p, replies, a, 0, 2);
    plan::plans_end(p, replies.take(a));
    let at = plan::run(p, plan::beginning(), replies.take(a)).at;
    assert(at == 0 ==> a == 0);
    assert(plan::replied(
        p,
        replies,
        p[at].task,
        Want::Success,
        plan::is_good(Want::Success, replies[a]),
    ));
}

proof fn lemma_up(
    p: Seq<StageView>,
    id: Seq<char>,
    verbose: bool,
    announce: bool,
    replies: Seq<Reply>,
)
    requires
        p.len() >= 4,
        !p[0].always,
        plan::effect_of(p[0], replies[0]) == Effect::<Seq<char>>::Go(1),
        p[2] == running_probe(id).when_good(Effect::Go(1)).when_not_good(Effect::Go(0)),
        p[3] == boot_stage(id, verbose, announce),
        replies.len() > 0,
        plan::run(p, plan::beginning(), replies).trouble is None,
        plan::run(p, plan::beginning(), replies).at >= 4,
    ensures
        is_up(p, replies, id, verbose),
{
    plan::stretches_are_crossed(p, replies, 0, 4);
    let b = choose|k: int| #[trigger] plan::leaves(p, replies, k, 0, 4);
    plan::leaving_is_told(p, replies, b, 0, 4);
    let i = plan::run(p, plan::beginning(), replies.take(b)).at;
    if b > 0 {
        assert(replies.take(b)[0] == replies[0]);
        plan::first_replies_decide(p, replies.take(b), 2);
    } else {
        assert(plan::run(p, plan::beginning(), replies.take(0)) == plan::beginning());
    }
    assert(i == 2 || i == 3);
    assert(plan::replied(p, replies, p[i].task, p[i].want, plan::is_good(p[i].want, replies[b])));
}

/// When the plan that makes a machine run succeeds, a machine that did not exist was created with
/// the arguments that were given, and one that existed was found to run or was booted.
#[verifier::rlimit(40)]
pub proof fn machines_are_brought_up(
    id: Seq<char>,
    args: Seq<Seq<char>>,
    verbose: bool,
    announce: bool,
    replies: Seq<Reply>,
)
    requires
        replies.len() > 0,
        plan::succeeded(
            bring_up(id, args, verbose, announce),
            plan::run(bring_up(id, args, verbose, announce), plan::beginning(), replies),
        ),
    ensures
        ({
            let p = bring_up(id, args, verbose, announce);
            &&& p[0].task == plan::running(
                "limactl"@,
                seq!["list"@, "--format"@, "{{.Name}}"@, id],
                15,
                Output::Captured,
            )
            &&& !plan::is_good(Want::Reads(id), replies[0]) ==> is_created(
                p,
                replies,
                args,
                verbose,
            )
            &&& plan::is_good(Want::Reads(id), replies[0]) ==> is_up(p, replies, id, verbose)
        }),
{
    let p = bring_up(id, args, verbose, announce);
    plan::successes_are_complete(p, replies);
    if plan::is_good(Want::Reads(id), replies[0]) {
        lemma_up(p, id, verbose, announce, replies);
    } else {
        lemma_created(p, id, args, verbose, announce, replies);
    }
}

/// When the start of a machine succeeds, a machine that did not exist was created, and the only
/// directory of the host that it can see is that of the project; one that existed was found to run
/// or was booted.
#[verifier::rlimit(40)]
pub proof fn machines_are_started(
    id: Seq<char>,
    project_root: Seq<char>,
    cpus: Option<u32>,
    memory: Option<Seq<char>>,
    guest: Seq<char>,
    verbose: bool,
    replies: Seq<Reply>,
)
    requires
        replies.len() > 0,
        ({
            let args = start_args(id, project_root, cpus, memory, guest);
            plan::succeeded(
                start_plan(id, args, verbose),
                plan::run(start_plan(id, args, verbose), plan::beginning(), replies),
            )
        }),
    ensures
        ({
            let args = start_args(id, project_root, cpus, memory, guest);
            let p = start_plan(id, args, verbose);
            let n = args.len() - 5;
            &&& !plan::is_good(Want::Reads(id), replies[0]) ==> is_created(
                p,
                replies,
                args,
                verbose,
            )
            &&& plan::is_good(Want::Reads(id), replies[0]) ==> is_up(p, replies, id, verbose)
            &&& args[2] == "--name"@ && args[3] == id
            &&& args[n] == "--set"@
            &&& mount_reads(args[n + 1]) == Some((project_root, guest, true))
        }),
{
    let args = start_args(id, project_root, cpus, memory, guest);
    let p = start_plan(id, args, verbose);
    plan::successes_are_complete(p, replies);
    if plan::is_good(Want::Reads(id), replies[0]) {
        lemma_up(p, id, verbose, true, replies);
    } else {
        lemma_created(p, id, args, verbose, true, replies);
    }
    mounts_are_read_back(project_root, guest, true);
}

/// A machine has as many processors and as much memory as was asked for.
pub proof fn machines_are_sized(
    id: Seq<char>,
    project_root: Seq<char>,
    cpus: Option<u32>,
    memory: Option<Seq<char>>,
    guest: Seq<char>,
)
    ensures
        ({
            let args = start_args(id, project_root, cpus, memory, guest);
            &&& args[8] == "--cpus"@
            &&& number::number(args[9], 4294967295) == Some(
                match cpus {
                    Some(n) => n as nat,
                    None => 4,
                },
            )
            &&& memory matches Some(m) ==> args[10] == "--memory"@ && args[11] == m
        }),
{
    number::parsing_inverts_printing(
        match cpus {
            Some(n) => n as nat,
            None => 4,
        },
        4294967295,
    );
}

/// Stopping all machines forgets none of those for projects: every name that begins as they do, and
/// is not that of the services, is found.
pub proof fn every_project_is_discovered(output: Seq<char>, found: Seq<Seq<char>>, id: Seq<char>)
    requires
        order::sorted_set(managed_among(split::all_trimmed(split::lines_of(output))), found),
        split::all_trimmed(split::lines_of(output)).contains(id),
        edge::begins(id, "tnk-"@),
        id != "tnk-services"@,
        id != "tnk-searxng"@,
    ensures
        found.contains(id),
{
    let names = split::all_trimmed(split::lines_of(output));
    lemma_all_managed(names, id);
    assert(managed_among(names).contains(id));
}

proof fn lemma_all_managed(names: Seq<Seq<char>>, id: Seq<char>)
    requires
        names.contains(id),
        is_managed(id),
    ensures
        managed_among(names).contains(id),
    decreases names.len(),
{
    let i = choose|i: int| 0 <= i < names.len() && names[i] == id;
    let fewer = names.drop_last();
    let before = managed_among(fewer);
    if i == names.len() - 1 {
        assert(managed_among(names)[before.len() as int] == id);
    } else {
        assert(fewer[i] == id);
        lemma_all_managed(fewer, id);
        let k = choose|k: int| 0 <= k < before.len() && before[k] == id;
        assert(managed_among(names)[k] == id);
    }
}

} // verus!
