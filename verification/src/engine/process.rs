use crate::engine;
use crate::engine::{EngineRuntimeSpec, RuntimeView};
use crate::text::class::Class;
use crate::text::{compose, edge, number, order, path, split};
use vstd::prelude::*;

verus! {

/// The first word of a text; nothing if it has none.
pub open spec fn first_word(s: Seq<char>) -> Seq<char> {
    let w = split::words_of(s);
    if w.len() == 0 {
        Seq::empty()
    } else {
        w[0]
    }
}

/// Whether a process is a server of a runtime: its command or the first word of its command line
/// is the program, wherever that lies.
pub open spec fn is_server(executable: Seq<char>, comm: Seq<char>, args: Seq<char>) -> bool {
    ||| path::base_name(comm) == executable
    ||| path::base_name(first_word(args)) == executable
}

/// Whether a process is a server of a runtime.
pub fn matches_runtime_process(spec_: &EngineRuntimeSpec, comm: &str, args: &str) -> (r: bool)
    ensures
        r == is_server(spec_@.executable, comm@, args@),
{
    let name = path::file_name(comm);
    if compose::same(name.as_str(), spec_.executable) {
        return true;
    }
    let words = split::words(args);
    assert(compose::texts(words@).len() == words@.len());
    let first = if words.len() == 0 {
        String::new()
    } else {
        assert(compose::texts(words@)[0] == words@[0]@);
        words[0].clone()
    };
    let base = path::file_name(first.as_str());
    compose::same(base.as_str(), spec_.executable)
}

/// Whether a line with a command and a command line tells of a server.
pub open spec fn line_tells(executable: Seq<char>, line: Seq<char>) -> bool {
    match edge::cut(edge::trimmed(line), ' ') {
        Some((comm, args)) => is_server(executable, edge::trimmed(comm), args),
        None => false,
    }
}

/// Whether what `ps` prints of one process tells of a server.
pub open spec fn tells(executable: Seq<char>, lines: Seq<Seq<char>>) -> bool {
    exists|i: int| 0 <= i < lines.len() && line_tells(executable, #[trigger] lines[i])
}

/// Whether what `ps -o comm= -o args=` prints of one process tells of a server.
pub fn is_runtime_pid(spec_: &EngineRuntimeSpec, alive: bool, output: &str) -> (r: bool)
    ensures
        r == (alive && tells(spec_@.executable, split::lines_of(output@))),
{
    if !alive {
        return false;
    }
    let lines = split::lines(output);
    let ghost all = compose::texts(lines@);
    let mut i: usize = 0;
    while i < lines.len()
        invariant
            i <= lines@.len(),
            all == compose::texts(lines@),
            all == split::lines_of(output@),
            alive,
            forall|k: int| 0 <= k < i ==> !line_tells(spec_@.executable, #[trigger] all[k]),
        decreases lines@.len() - i,
    {
        assert(all[i as int] == lines@[i as int]@);
        let trimmed = edge::trim(lines[i].as_str());
        match edge::split_once(trimmed.as_str(), ' ') {
            Some((first, args)) => {
                let comm = edge::trim(first.as_str());
                if matches_runtime_process(spec_, comm.as_str(), args.as_str()) {
                    assert(line_tells(spec_@.executable, all[i as int]));
                    return true;
                }
            },
            None => {},
        }
        i += 1;
    }
    false
}

/// The server that a line with a number, a command and a command line tells of.
pub open spec fn pid_in(executable: Seq<char>, own: u32, line: Seq<char>) -> Option<u32> {
    let w = split::words_of(edge::trimmed(line));
    if w.len() < 2 {
        None
    } else {
        match number::number(w[0], u32::MAX as nat) {
            Some(n) => if n != own && is_server(
                executable,
                w[1],
                compose::joined(w.skip(2), " "@),
            ) {
                Some(n as u32)
            } else {
                None
            },
            None => None,
        }
    }
}

/// The servers that some lines tell of, in their order.
pub open spec fn pids_in(executable: Seq<char>, own: u32, lines: Seq<Seq<char>>) -> Seq<u32>
    decreases lines.len(),
{
    if lines.len() == 0 {
        Seq::empty()
    } else {
        match pid_in(executable, own, lines.last()) {
            Some(n) => pids_in(executable, own, lines.drop_last()).push(n),
            None => pids_in(executable, own, lines.drop_last()),
        }
    }
}

fn read_pid(spec_: &EngineRuntimeSpec, own: u32, line: &str) -> (r: Option<u32>)
    ensures
        r == pid_in(spec_@.executable, own, line@),
{
    let trimmed = edge::trim(line);
    let words = split::words(trimmed.as_str());
    let ghost w = compose::texts(words@);
    assert(w.len() == words@.len());
    if words.len() < 2 {
        return None;
    }
    assert(w[0] == words@[0]@);
    assert(w[1] == words@[1]@);
    let pid: u32 = match number::parse_unsigned(words[0].as_str(), u32::MAX as u64) {
        Some(n) => n as u32,
        None => return None,
    };
    let mut rest = compose::no_texts();
    let mut i: usize = 2;
    assert(w.subrange(2, 2) =~= Seq::<Seq<char>>::empty());
    while i < words.len()
        invariant
            2 <= i <= words@.len(),
            w == compose::texts(words@),
            compose::texts(rest@) == w.subrange(2, i as int),
        decreases words@.len() - i,
    {
        compose::push_text(&mut rest, words[i].as_str());
        i += 1;
        assert(compose::texts(rest@) =~= w.subrange(2, i as int));
    }
    assert(w.subrange(2, i as int) =~= w.skip(2));
    let args = compose::join(&rest, " ");
    if pid != own && matches_runtime_process(spec_, words[1].as_str(), args.as_str()) {
        Some(pid)
    } else {
        None
    }
}

/// The servers of a runtime in the output of `ps -axo pid=,comm=,args=`, without this process, each
/// once and in ascending order.
pub fn list_runtime_pids(spec_: &EngineRuntimeSpec, own_pid: u32, output: &str) -> (r: Vec<u32>)
    ensures
        order::rising_set(pids_in(spec_@.executable, own_pid, split::lines_of(output@)), r@),
{
    let lines = split::lines(output);
    let ghost all = compose::texts(lines@);
    let mut v: Vec<u32> = Vec::new();
    let mut i: usize = 0;
    assert(v@ =~= pids_in(spec_@.executable, own_pid, all.take(0)));
    while i < lines.len()
        invariant
            i <= lines@.len(),
            all == compose::texts(lines@),
            v@ == pids_in(spec_@.executable, own_pid, all.take(i as int)),
        decreases lines@.len() - i,
    {
        assert(all.take(i + 1).drop_last() =~= all.take(i as int));
        assert(all.take(i + 1).last() == lines@[i as int]@);
        match read_pid(spec_, own_pid, lines[i].as_str()) {
            Some(n) => v.push(n),
            None => {},
        }
        i += 1;
    }
    assert(all.take(i as int) =~= all);
    order::sort_dedup_numbers(&v)
}

proof fn lemma_own_is_left_out(executable: Seq<char>, own: u32, lines: Seq<Seq<char>>)
    ensures
        !pids_in(executable, own, lines).contains(own),
    decreases lines.len(),
{
    if lines.len() > 0 {
        lemma_own_is_left_out(executable, own, lines.drop_last());
        let before = pids_in(executable, own, lines.drop_last());
        let now = pids_in(executable, own, lines);
        if now.contains(own) {
            let i = choose|i: int| 0 <= i < now.len() && now[i] == own;
            if i < before.len() {
                assert(before[i] == own);
                assert(before.contains(own));
            }
        }
    }
}

/// The program never takes itself for a server.
pub proof fn own_process_is_left_out(
    executable: Seq<char>,
    own: u32,
    lines: Seq<Seq<char>>,
    found: Seq<u32>,
)
    requires
        order::rising_set(pids_in(executable, own, lines), found),
    ensures
        !found.contains(own),
{
    lemma_own_is_left_out(executable, own, lines);
}

/// A word of a command line without the quotes and the white space round it.
pub open spec fn cleaned(w: Seq<char>) -> Seq<char> {
    edge::trimmed(
        edge::both_trimmed(edge::both_trimmed(w, Class::Only('"')), Class::Only('\'')),
    )
}

fn clean(w: &str) -> (r: String)
    ensures
        r@ == cleaned(w@),
{
    let a = edge::trim_both(w, Class::Only('"'));
    let b = edge::trim_both(a.as_str(), Class::Only('\''));
    edge::trim(b.as_str())
}

/// The model that a word of a command line names: as the word behind it, or behind its `=`.
pub open spec fn model_at(words: Seq<Seq<char>>) -> Option<Seq<char>> {
    let next = if words[0] == "--model"@ && words.len() >= 2 {
        cleaned(words[1])
    } else {
        Seq::empty()
    };
    if next.len() > 0 {
        Some(next)
    } else {
        match edge::after_prefix(words[0], "--model="@) {
            Some(v) => if cleaned(v).len() > 0 {
                Some(cleaned(v))
            } else {
                None
            },
            None => None,
        }
    }
}

/// The first model that an option of a command line names.
pub open spec fn flagged_model(words: Seq<Seq<char>>) -> Option<Seq<char>>
    decreases words.len(),
{
    if words.len() == 0 {
        None
    } else {
        match model_at(words) {
            Some(m) => Some(m),
            None => flagged_model(words.skip(1)),
        }
    }
}

/// The first model that follows the word `serve` in a command line.
pub open spec fn served_model(words: Seq<Seq<char>>) -> Option<Seq<char>>
    decreases words.len(),
{
    if words.len() < 2 {
        None
    } else if words[0] == "serve"@ && cleaned(words[1]).len() > 0 && !edge::begins(
        cleaned(words[1]),
        "-"@,
    ) {
        Some(cleaned(words[1]))
    } else {
        served_model(words.skip(1))
    }
}

/// The model that a command line names.
pub open spec fn model_in(args: Seq<char>) -> Option<Seq<char>> {
    let words = split::words_of(args);
    match flagged_model(words) {
        Some(m) => Some(m),
        None => served_model(words),
    }
}

fn find_flagged(words: &Vec<String>) -> (r: Option<String>)
    ensures
        compose::opt_text(r) == flagged_model(compose::texts(words@)),
{
    let ghost all = compose::texts(words@);
    let mut i: usize = 0;
    assert(all.skip(0) =~= all);
    while i < words.len()
        invariant
            i <= words@.len(),
            all == compose::texts(words@),
            flagged_model(all) == flagged_model(all.skip(i as int)),
        decreases words@.len() - i,
    {
        let ghost here = all.skip(i as int);
        assert(here[0] == words@[i as int]@);
        if compose::same(words[i].as_str(), "--model") && i + 1 < words.len() {
            assert(here[1] == words@[i + 1]@);
            let m = clean(words[i + 1].as_str());
            if !m.as_str().is_empty() {
                return Some(m);
            }
        }
        match edge::strip_prefix(words[i].as_str(), "--model=") {
            Some(v) => {
                let m = clean(v.as_str());
                if !m.as_str().is_empty() {
                    return Some(m);
                }
            },
            None => {},
        }
        assert(here.skip(1) =~= all.skip(i + 1));
        i += 1;
    }
    None
}

fn find_served(words: &Vec<String>) -> (r: Option<String>)
    ensures
        compose::opt_text(r) == served_model(compose::texts(words@)),
{
    let ghost all = compose::texts(words@);
    let mut i: usize = 0;
    assert(all.skip(0) =~= all);
    while i < words.len()
        invariant
            i <= words@.len(),
            all == compose::texts(words@),
            served_model(all) == served_model(all.skip(i as int)),
        decreases words@.len() - i,
    {
        let ghost here = all.skip(i as int);
        assert(here[0] == words@[i as int]@);
        if i + 1 < words.len() && compose::same(words[i].as_str(), "serve") {
            assert(here[1] == words@[i + 1]@);
            let m = clean(words[i + 1].as_str());
            if !m.as_str().is_empty() && !edge::starts_with(m.as_str(), "-") {
                return Some(m);
            }
        }
        assert(here.skip(1) =~= all.skip(i + 1));
        i += 1;
    }
    None
}

/// The model that the command line of a server names.
pub fn extract_model_from_args(args: &str) -> (r: Option<String>)
    ensures
        compose::opt_text(r) == model_in(args@),
{
    let words = split::words(args);
    match find_flagged(&words) {
        Some(m) => Some(m),
        None => find_served(&words),
    }
}

proof fn lemma_cleaned(w: Seq<char>)
    requires
        w.len() > 0,
        split::free_of(w, Class::Blank),
        split::free_of(w, Class::Only('"')),
        split::free_of(w, Class::Only('\'')),
    ensures
        cleaned(w) == w,
{
    assert(!Class::Blank.has(w[0]) && !Class::Blank.has(w[w.len() - 1]));
    assert(!Class::Only('"').has(w[0]) && !Class::Only('"').has(w[w.len() - 1]));
    assert(!Class::Only('\'').has(w[0]) && !Class::Only('\'').has(w[w.len() - 1]));
}

proof fn lemma_no_flag(words: Seq<Seq<char>>)
    requires
        forall|i: int| 0 <= i < words.len() ==> !edge::begins(#[trigger] words[i], "--model"@),
    ensures
        flagged_model(words) is None,
    decreases words.len(),
{
    if words.len() > 0 {
        reveal_strlit("--model");
        reveal_strlit("--model=");
        let w = words[0];
        if w == "--model"@ {
            assert(w.subrange(0, 7) =~= "--model"@);
            assert(edge::begins(words[0], "--model"@));
        }
        if edge::begins(w, "--model="@) {
            assert(w.subrange(0, 7) =~= w.subrange(0, 8).subrange(0, 7));
            assert("--model="@.subrange(0, 7) =~= "--model"@);
            assert(edge::begins(words[0], "--model"@));
        }
        assert forall|i: int| 0 <= i < words.skip(1).len() implies !edge::begins(
            #[trigger] words.skip(1)[i],
            "--model"@,
        ) by {
            assert(words.skip(1)[i] == words[i + 1]);
        }
        lemma_no_flag(words.skip(1));
    }
}

/// Whether none of some words begins like the option that names a model.
spec fn flagless(words: Seq<Seq<char>>) -> bool {
    forall|i: int| 0 <= i < words.len() ==> !edge::begins(#[trigger] words[i], "--model"@)
}

proof fn lemma_flagless_words(s: Seq<char>)
    requires
        !edge::includes(s, "--model"@),
    ensures
        flagless(split::words_of(s)),
{
    reveal_strlit("--model");
    split::words_stand_in_their_text(s);
    let words = split::words_of(s);
    assert forall|i: int| 0 <= i < words.len() implies !edge::begins(
        #[trigger] words[i],
        "--model"@,
    ) by {
        let w = words[i];
        if edge::begins(w, "--model"@) {
            let at = choose|at: int| edge::occurs_at(s, w, at);
            assert(s.subrange(at, at + 7) =~= s.subrange(at, at + w.len()).subrange(0, 7));
            assert(edge::occurs_at(s, "--model"@, at));
        }
    }
}

proof fn lemma_flagless_texts(parts: Seq<Seq<char>>)
    requires
        forall|i: int| 0 <= i < parts.len() ==> !edge::includes(#[trigger] parts[i], "--model"@),
    ensures
        flagless(split::words_of_all(parts)),
    decreases parts.len(),
{
    if parts.len() > 0 {
        let fewer = parts.drop_last();
        assert forall|i: int| 0 <= i < fewer.len() implies !edge::includes(
            #[trigger] fewer[i],
            "--model"@,
        ) by {
            assert(fewer[i] == parts[i]);
        }
        lemma_flagless_texts(fewer);
        assert(!edge::includes(parts[parts.len() - 1], "--model"@));
        lemma_flagless_words(parts.last());
    }
}

proof fn lemma_marks_of_options(port: u16)
    ensures
        !edge::includes("--host"@, "--model"@),
        !edge::includes("--port"@, "--model"@),
        !edge::includes("serve"@, "--model"@),
        !edge::includes(number::decimal(port as nat), "--model"@),
        "--model"@.len() == 7,
        split::free_of("serve"@, Class::Blank),
        split::free_of("--model"@, Class::Blank),
{
    reveal_strlit("--model");
    reveal_strlit("--host");
    reveal_strlit("--port");
    reveal_strlit("serve");
    assert("--host"@.len() == 6 && "--port"@.len() == 6 && "serve"@.len() == 5);
    let digits = number::decimal(port as nat);
    number::lemma_decimal_value(port as nat);
    if edge::includes(digits, "--model"@) {
        let at = choose|at: int| edge::occurs_at(digits, "--model"@, at);
        assert(digits.subrange(at, at + 7)[0] == '-');
        assert(digits[at] == '-');
    }
}

/// The model that a server is started with is the one that is read back from its command line, if
/// its name is a single word without quotes that is no option, and nothing else names a model.
pub proof fn models_are_read_back(
    s: RuntimeView,
    model: Seq<char>,
    host: Seq<char>,
    port: u16,
    extra: Seq<Seq<char>>,
)
    requires
        model.len() > 0,
        model[0] != '-',
        split::free_of(model, Class::Blank),
        split::free_of(model, Class::Only('"')),
        split::free_of(model, Class::Only('\'')),
        !edge::includes(host, "--model"@),
        forall|i: int| 0 <= i < extra.len() ==> !edge::includes(#[trigger] extra[i], "--model"@),
    ensures
        model_in(compose::joined(engine::server_args(s, model, host, port, extra), " "@)) == Some(
            model,
        ),
{
    let args = engine::server_args(s, model, host, port, extra);
    let first = args[0];
    let rest = args.skip(2);
    lemma_marks_of_options(port);
    lemma_cleaned(model);
    split::joining_keeps_words(args);
    assert(args =~= seq![first, model] + rest);
    split::words_add_up(seq![first, model], rest);
    assert(seq![first, model].drop_last() =~= seq![first]);
    assert(seq![first].drop_last() =~= Seq::<Seq<char>>::empty());
    assert(first.len() > 0) by {
        reveal_strlit("serve");
    }
    split::plain_texts_are_words(first);
    split::plain_texts_are_words(model);
    reveal_with_fuel(split::words_of_all, 3);
    let words = split::words_of_all(args);
    assert(words =~= seq![first, model] + split::words_of_all(rest));
    assert(words[0] == first && words[1] == model);
    if s.name == "vllm-mlx"@ {
        assert forall|i: int| 0 <= i < rest.len() implies !edge::includes(
            #[trigger] rest[i],
            "--model"@,
        ) by {
            if i >= 4 {
                assert(rest[i] == extra[i - 4]);
            }
        }
        lemma_flagless_texts(rest);
        let tail = split::words_of_all(rest);
        assert forall|i: int| 0 <= i < words.len() implies !edge::begins(
            #[trigger] words[i],
            "--model"@,
        ) by {
            reveal_strlit("serve");
            reveal_strlit("--model");
            if i == 1 {
                if edge::begins(model, "--model"@) {
                    assert(model.subrange(0, 7)[0] == '-');
                }
            } else if i >= 2 {
                assert(words[i] == tail[i - 2]);
            }
        }
        lemma_no_flag(words);
        if edge::begins(model, "-"@) {
            reveal_strlit("-");
            assert(model.subrange(0, 1)[0] == '-');
        }
    }
}

/// What `ps` told of the command line of a server.
pub enum Told {
    /// `ps` could not be run.
    Broken,
    /// It reported a failure.
    Refused,
    /// It printed this.
    Line(String),
}

/// The model that the first of some command lines names; none once `ps` cannot be run.
pub open spec fn told_model(told: Seq<Told>) -> Option<Seq<char>>
    decreases told.len(),
{
    if told.len() == 0 {
        None
    } else {
        match told[0] {
            Told::Broken => None,
            Told::Refused => told_model(told.skip(1)),
            Told::Line(s) => match model_in(edge::trimmed(s@)) {
                Some(m) => Some(m),
                None => told_model(told.skip(1)),
            },
        }
    }
}

/// The model that a server has been started with, given what `ps` told of the servers, the latest
/// first.
pub fn detect_running_model_for_runtime(told: &Vec<Told>) -> (r: Option<String>)
    ensures
        compose::opt_text(r) == told_model(told@),
{
    let mut i: usize = 0;
    assert(told@.skip(0) =~= told@);
    while i < told.len()
        invariant
            i <= told@.len(),
            told_model(told@) == told_model(told@.skip(i as int)),
        decreases told@.len() - i,
    {
        assert(told@.skip(i as int)[0] == told@[i as int]);
        match &told[i] {
            Told::Broken => return None,
            Told::Refused => {},
            Told::Line(s) => {
                let t = edge::trim(s.as_str());
                match extract_model_from_args(t.as_str()) {
                    Some(m) => return Some(m),
                    None => {},
                }
            },
        }
        assert(told@.skip(i as int).skip(1) =~= told@.skip(i + 1));
        i += 1;
    }
    None
}

/// Numbers in the opposite order: the latest processes first.
pub fn latest_first(pids: &Vec<u32>) -> (r: Vec<u32>)
    ensures
        r@ == pids@.reverse(),
{
    let mut v: Vec<u32> = Vec::new();
    let mut i: usize = pids.len();
    while i > 0
        invariant
            i <= pids@.len(),
            v@.len() == pids@.len() - i,
            forall|k: int| 0 <= k < v@.len() ==> v@[k] == pids@[pids@.len() - 1 - k],
        decreases i,
    {
        i -= 1;
        v.push(pids[i]);
    }
    assert(v@ =~= pids@.reverse());
    v
}

/// What is known of the file that tells the number of a server.
pub enum PidFile {
    /// There is no such file, or no place for it.
    Missing,
    /// It cannot be read.
    Unreadable,
    /// It holds this.
    Text(String),
}

/// The process that the file tells of.
pub open spec fn recorded_pid(f: PidFile) -> Option<nat> {
    match f {
        PidFile::Text(s) => number::number(edge::trimmed(s@), u32::MAX as nat),
        _ => None,
    }
}

/// The process that the file tells of.
pub fn read_pid_file(f: &PidFile) -> (r: Option<u32>)
    ensures
        match r {
            Some(p) => recorded_pid(*f) == Some(p as nat),
            None => recorded_pid(*f) is None,
        },
{
    match f {
        PidFile::Text(s) => {
            let t = edge::trim(s.as_str());
            match number::parse_unsigned(t.as_str(), u32::MAX as u64) {
                Some(n) => Some(n as u32),
                None => None,
            }
        },
        _ => None,
    }
}

/// Whether a server runs, and whether its file is to be removed because it tells nothing true.
/// `recorded_runs` tells whether the process of the file is a server, `any_listed` whether any
/// server is listed.
pub fn is_running_for_runtime(f: &PidFile, recorded_runs: bool, any_listed: bool) -> (r: (
    bool,
    bool,
))
    ensures
        r.0 == ((recorded_pid(*f) is Some && recorded_runs) || any_listed),
        r.1 == (*f is Text && !(recorded_pid(*f) is Some && recorded_runs)),
{
    match f {
        PidFile::Missing => (any_listed, false),
        PidFile::Unreadable => (any_listed, false),
        PidFile::Text(_) => match read_pid_file(f) {
            Some(_) => if recorded_runs {
                (true, false)
            } else {
                (any_listed, true)
            },
            None => (any_listed, true),
        },
    }
}

} // verus!
