use crate::failure;
use crate::failure::Failure;
use crate::json;
use crate::json::Json;
use crate::text::{class, compose, edge, number, path, split};
use vstd::prelude::*;

verus! {

/// A file that the events of a session are written to, one JSON object a line.
pub struct AuditLogger {
    pub path: String,
}

impl AuditLogger {
    /// A log at the given path.
    pub fn new(path: String) -> (r: AuditLogger)
        ensures
            r.path@ == path@,
    {
        AuditLogger { path }
    }
}

/// The line of an event in a log. It is a single one, whatever the event holds.
pub fn event_line(event: &Json) -> (r: String)
    ensures
        r@ == json::notation(event@) + "\n"@,
        split::lines_of(r@) == seq![json::notation(event@)],
{
    let text = json::write(event);
    proof {
        reveal_strlit("\n");
        split::lemma_single_line(text@);
        assert(text@ + "\n"@ =~= text@.push('\n'));
    }
    compose::concat(text.as_str(), "\n")
}

/// Where the events of a session go: nowhere unless asked for, to a file of their own in the
/// cache if no path is given.
pub open spec fn audit_path(
    asked: Option<Seq<char>>,
    id: Seq<char>,
    home: Option<Seq<char>>,
    now: i64,
) -> Result<Option<Seq<char>>, Seq<char>> {
    match asked {
        None => Ok(None),
        Some(p) => if edge::trimmed(p).len() > 0 {
            Ok(Some(p))
        } else {
            match home {
                None => Err("environment variable not found"@),
                Some(h) => Ok(
                    Some(
                        path::below(
                            path::below(h, ".cache/tnk/audit"@),
                            number::signed(now as int) + "-"@ + id + ".ndjson"@,
                        ),
                    ),
                ),
            }
        },
    }
}

/// The log that the events of a session go to, if any.
pub fn resolve_audit_logger(
    audit_log: Option<String>,
    id: &str,
    home: &Option<String>,
    now: i64,
) -> (r: Result<Option<AuditLogger>, Failure>)
    ensures
        match r {
            Ok(None) => audit_path(compose::opt_text(audit_log), id@, compose::opt_text(*home), now)
                == Ok::<Option<Seq<char>>, Seq<char>>(None),
            Ok(Some(l)) => audit_path(
                compose::opt_text(audit_log),
                id@,
                compose::opt_text(*home),
                now,
            ) == Ok::<Option<Seq<char>>, Seq<char>>(Some(l.path@)),
            Err(e) => audit_path(compose::opt_text(audit_log), id@, compose::opt_text(*home), now)
                == Err::<Option<Seq<char>>, Seq<char>>(e@),
        },
{
    match audit_log {
        None => Ok(None),
        Some(p) => {
            let t = edge::trim(p.as_str());
            if !t.as_str().is_empty() {
                return Ok(Some(AuditLogger::new(p)));
            }
            match home {
                None => Err(failure::failure("environment variable not found")),
                Some(h) => {
                    let dir = path::join_path(h.as_str(), ".cache/tnk/audit");
                    let stamp = number::to_signed(now);
                    let name = compose::concat4(stamp.as_str(), "-", id, ".ndjson");
                    Ok(Some(AuditLogger::new(path::join_path(dir.as_str(), name.as_str()))))
                },
            }
        },
    }
}

/// `s` as one word of a shell command.
pub open spec fn escaped(s: Seq<char>) -> Seq<char> {
    "'"@ + compose::replaced(s, '\'', "'\\''"@) + "'"@
}

/// Quotes `s` so that a shell takes it as one word.
pub fn shell_escape(s: &str) -> (r: String)
    ensures
        r@ == escaped(s@),
{
    let inner = compose::replace(s, '\'', "'\\''");
    compose::concat3("'", inner.as_str(), "'")
}

/// What a shell reads from a word made of quoted parts and escaped characters; `quoted` tells
/// whether the text begins inside single quotes. Nothing is read from a text with an unquoted
/// character or without the closing quote.
pub open spec fn shell_reads(s: Seq<char>, quoted: bool) -> Option<Seq<char>>
    decreases s.len(),
{
    if s.len() == 0 {
        if quoted {
            None
        } else {
            Some(Seq::empty())
        }
    } else if s[0] == '\'' {
        shell_reads(s.skip(1), !quoted)
    } else if quoted {
        match shell_reads(s.skip(1), true) {
            Some(t) => Some(seq![s[0]] + t),
            None => None,
        }
    } else if s[0] == '\\' && s.len() >= 2 {
        match shell_reads(s.skip(2), false) {
            Some(t) => Some(seq![s[1]] + t),
            None => None,
        }
    } else {
        None
    }
}

proof fn lemma_replaced_front(s: Seq<char>, from: char, to: Seq<char>)
    requires
        s.len() > 0,
    ensures
        compose::replaced(s, from, to) == (if s[0] == from {
            to
        } else {
            seq![s[0]]
        }) + compose::replaced(s.skip(1), from, to),
    decreases s.len(),
{
    let front = if s[0] == from {
        to
    } else {
        seq![s[0]]
    };
    if s.len() == 1 {
        assert(s.drop_last() =~= Seq::<char>::empty());
        assert(s.skip(1) =~= Seq::<char>::empty());
        assert(compose::replaced(s.drop_last(), from, to) =~= Seq::<char>::empty());
        assert(compose::replaced(s.skip(1), from, to) =~= Seq::<char>::empty());
        assert(compose::replaced(s, from, to) =~= front + Seq::<char>::empty());
    } else {
        lemma_replaced_front(s.drop_last(), from, to);
        assert(s.drop_last().skip(1) =~= s.skip(1).drop_last());
        assert(s.skip(1).last() == s.last());
        assert(compose::replaced(s, from, to) =~= front + compose::replaced(s.skip(1), from, to));
    }
}

proof fn lemma_reads_back(s: Seq<char>)
    ensures
        shell_reads(compose::replaced(s, '\'', "'\\''"@) + "'"@, true) == Some(s),
    decreases s.len(),
{
    reveal_strlit("'");
    reveal_strlit("'\\''");
    let mark = "'\\''"@;
    let end = "'"@;
    if s.len() == 0 {
        let t = compose::replaced(s, '\'', mark) + end;
        assert(t =~= end);
        assert(t.skip(1) =~= Seq::<char>::empty());
        assert(shell_reads(t.skip(1), false) == Some(Seq::<char>::empty()));
        assert(s =~= Seq::<char>::empty());
    } else {
        let rest = compose::replaced(s.skip(1), '\'', mark) + end;
        let t = compose::replaced(s, '\'', mark) + end;
        lemma_replaced_front(s, '\'', mark);
        lemma_reads_back(s.skip(1));
        assert(shell_reads(rest, true) == Some(s.skip(1)));
        assert(seq![s[0]] + s.skip(1) =~= s);
        if s[0] == '\'' {
            assert(t =~= mark + rest);
            let t1 = t.skip(1);
            assert(t1[0] == '\\' && t1[1] == '\'');
            let t3 = t1.skip(2);
            assert(t3 =~= end + rest);
            assert(t3[0] == '\'');
            assert(t3.skip(1) =~= rest);
            assert(shell_reads(t3, false) == Some(s.skip(1)));
            assert(shell_reads(t1, false) == Some(seq!['\''] + s.skip(1)));
            assert(shell_reads(t, true) == shell_reads(t1, false));
        } else {
            assert(t =~= seq![s[0]] + rest);
            assert(t.skip(1) =~= rest);
            assert(shell_reads(t, true) == Some(seq![s[0]] + s.skip(1)));
        }
    }
}

/// A shell that is given an escaped text reads the text, whatever it holds.
pub proof fn escaping_is_faithful(s: Seq<char>)
    ensures
        shell_reads(escaped(s), false) == Some(s),
{
    reveal_strlit("'");
    lemma_reads_back(s);
    let inner = compose::replaced(s, '\'', "'\\''"@) + "'"@;
    assert(escaped(s).skip(1) =~= inner);
    assert(escaped(s)[0] == '\'');
}

/// The word that a command of a shell goes on with, and what follows it; `quoted` tells whether the
/// text begins inside single quotes. Outside of them a word is made of letters, digits and escaped
/// characters, and ends with the command: at a semicolon or at the end of the line.
pub open spec fn word_reads(s: Seq<char>, quoted: bool) -> Option<(Seq<char>, Seq<char>)>
    decreases s.len(),
{
    if s.len() == 0 {
        if quoted {
            None
        } else {
            Some((Seq::empty(), s))
        }
    } else if s[0] == '\'' {
        word_reads(s.skip(1), !quoted)
    } else if quoted || class::ascii_alphanumeric(s[0]) {
        match word_reads(s.skip(1), quoted) {
            Some(r) => Some((seq![s[0]] + r.0, r.1)),
            None => None,
        }
    } else if s[0] == '\n' || s[0] == ';' {
        Some((Seq::empty(), s))
    } else if s[0] == '\\' && s.len() >= 2 {
        match word_reads(s.skip(2), false) {
            Some(r) => Some((seq![s[1]] + r.0, r.1)),
            None => None,
        }
    } else {
        None
    }
}

/// Whether a text begins with the end of a command, or is empty.
pub open spec fn ends_command(s: Seq<char>) -> bool {
    s.len() == 0 || s[0] == '\n' || s[0] == ';'
}

proof fn lemma_word_reads_back(s: Seq<char>, rest: Seq<char>)
    requires
        ends_command(rest),
    ensures
        word_reads(compose::replaced(s, '\'', "'\\''"@) + "'"@ + rest, true) == Some((s, rest)),
    decreases s.len(),
{
    reveal_strlit("'");
    reveal_strlit("'\\''");
    let mark = "'\\''"@;
    let end = "'"@;
    let t = compose::replaced(s, '\'', mark) + end + rest;
    if s.len() == 0 {
        assert(t =~= end + rest);
        assert(t.skip(1) =~= rest);
        assert(word_reads(rest, false) == Some((Seq::<char>::empty(), rest)));
        assert(s =~= Seq::<char>::empty());
    } else {
        let more = compose::replaced(s.skip(1), '\'', mark) + end + rest;
        lemma_replaced_front(s, '\'', mark);
        lemma_word_reads_back(s.skip(1), rest);
        assert(seq![s[0]] + s.skip(1) =~= s);
        if s[0] == '\'' {
            assert(t =~= mark + more);
            let t1 = t.skip(1);
            assert(t1[0] == '\\' && t1[1] == '\'');
            let t3 = t1.skip(2);
            assert(t3 =~= end + more);
            assert(t3[0] == '\'');
            assert(t3.skip(1) =~= more);
            assert(word_reads(t3, false) == Some((s.skip(1), rest)));
            assert(word_reads(t1, false) == Some((seq!['\''] + s.skip(1), rest)));
            assert(word_reads(t, true) == word_reads(t1, false));
        } else {
            assert(t =~= seq![s[0]] + more);
            assert(t.skip(1) =~= more);
        }
    }
}

/// An escaped text at the end of a command is one word, which is the text.
pub proof fn escaped_words_are_read(s: Seq<char>, rest: Seq<char>)
    requires
        ends_command(rest),
    ensures
        word_reads(escaped(s) + rest, false) == Some((s, rest)),
{
    reveal_strlit("'");
    lemma_word_reads_back(s, rest);
    let t = escaped(s) + rest;
    assert(t.skip(1) =~= compose::replaced(s, '\'', "'\\''"@) + "'"@ + rest);
}

/// A text of letters and digits at the end of a command is one word, which is the text.
pub proof fn plain_words_are_read(s: Seq<char>, rest: Seq<char>)
    requires
        ends_command(rest),
        forall|i: int| 0 <= i < s.len() ==> class::ascii_alphanumeric(#[trigger] s[i]),
    ensures
        word_reads(s + rest, false) == Some((s, rest)),
    decreases s.len(),
{
    let t = s + rest;
    if s.len() == 0 {
        assert(t =~= rest);
        assert(s =~= Seq::<char>::empty());
    } else {
        let u = s.skip(1);
        assert forall|i: int| 0 <= i < u.len() implies class::ascii_alphanumeric(#[trigger] u[i]) by {
            assert(u[i] == s[i + 1]);
        }
        plain_words_are_read(u, rest);
        assert(t.skip(1) =~= u + rest);
        assert(seq![s[0]] + u =~= s);
        assert(class::ascii_alphanumeric(s[0]));
        assert(s[0] != '\'');
    }
}

/// A kind of name with its own set of characters.
#[derive(Clone, Copy, PartialEq, Eq, Structural, Debug)]
pub enum Alphabet {
    /// Letters, digits, hyphens and underscores.
    Word,
    /// The same, and the marks of model names.
    Model,
    /// Letters, digits and underscores.
    Variable,
}

impl Alphabet {
    /// The characters of the alphabet.
    pub open spec fn has(self, c: char) -> bool {
        ||| class::ascii_alphanumeric(c)
        ||| c == '_'
        ||| c == '-' && self != Alphabet::Variable
        ||| (c == '.' || c == ':' || c == '/') && self == Alphabet::Model
    }

    fn holds(self, c: char) -> (r: bool)
        ensures
            r == self.has(c),
    {
        class::is_ascii_alphanumeric(c) || c == '_' || (c == '-' && self != Alphabet::Variable)
            || ((c == '.' || c == ':' || c == '/') && self == Alphabet::Model)
    }
}

/// Whether all characters of `s` are in an alphabet.
pub open spec fn written_in(s: Seq<char>, a: Alphabet) -> bool {
    forall|i: int| 0 <= i < s.len() ==> a.has(#[trigger] s[i])
}

/// Whether all characters of `s` are in an alphabet.
pub fn is_written_in(s: &str, a: Alphabet) -> (r: bool)
    ensures
        r == written_in(s@, a),
{
    let cs = compose::chars_of(s);
    let mut i: usize = 0;
    while i < cs.len()
        invariant
            i <= cs@.len(),
            cs@ == s@,
            forall|k: int| 0 <= k < i ==> a.has(#[trigger] s@[k]),
        decreases cs@.len() - i,
    {
        if !a.holds(cs[i]) {
            assert(!a.has(s@[i as int]));
            return false;
        }
        i += 1;
    }
    true
}

/// Why a name is no name of the given kind.
pub open spec fn name_fault(name: Seq<char>, what: Seq<char>, a: Alphabet) -> Option<Seq<char>> {
    if name.len() == 0 {
        Some("invalid "@ + what + ": empty"@)
    } else if !written_in(name, a) {
        Some("invalid "@ + what + ": unsupported characters"@)
    } else {
        None
    }
}

/// The message of a result that holds nothing else.
pub open spec fn fault<A>(r: Result<A, Failure>) -> Option<Seq<char>> {
    match r {
        Ok(_) => None,
        Err(e) => Some(e@),
    }
}

fn validate_name(name: &str, what: &str, a: Alphabet) -> (r: Result<(), Failure>)
    ensures
        fault(r) == name_fault(name@, what@, a),
{
    if name.is_empty() {
        Err(failure::failed(compose::concat3("invalid ", what, ": empty")))
    } else if !is_written_in(name, a) {
        Err(failure::failed(compose::concat3("invalid ", what, ": unsupported characters")))
    } else {
        Ok(())
    }
}

/// Accepts the names of profiles: letters, digits, hyphens and underscores.
pub fn validate_script_name(name: &str) -> (r: Result<(), Failure>)
    ensures
        fault(r) == name_fault(name@, "profile name"@, Alphabet::Word),
{
    validate_name(name, "profile name", Alphabet::Word)
}

/// Accepts the names of engine runtimes: letters, digits, hyphens and underscores.
pub fn validate_engine_runtime(runtime: &str) -> (r: Result<(), Failure>)
    ensures
        fault(r) == name_fault(runtime@, "runtime"@, Alphabet::Word),
{
    validate_name(runtime, "runtime", Alphabet::Word)
}

/// Accepts the names of models: letters, digits and the marks `.`, `_`, `-`, `:` and `/`.
pub fn validate_model_name(name: &str) -> (r: Result<(), Failure>)
    ensures
        fault(r) == name_fault(name@, "model name"@, Alphabet::Model),
{
    validate_name(name, "model name", Alphabet::Model)
}

/// Whether a text holds a character that would end a line or a string elsewhere.
pub open spec fn has_control(s: Seq<char>) -> bool {
    s.contains('\0') || s.contains('\n') || s.contains('\r')
}

/// Whether a text holds a character that would end a line or a string elsewhere.
pub fn contains_control(s: &str) -> (r: bool)
    ensures
        r == has_control(s@),
{
    edge::has_char(s, '\0') || edge::has_char(s, '\n') || edge::has_char(s, '\r')
}

/// Why a text is no value for an environment variable.
pub open spec fn value_fault(value: Seq<char>, field: Seq<char>) -> Option<Seq<char>> {
    if has_control(value) {
        Some("invalid value for "@ + field + ": contains control characters"@)
    } else {
        None
    }
}

/// Accepts the values of environment variables: one line, without a null character.
pub fn validate_env_value(value: &str, field: &str) -> (r: Result<(), Failure>)
    ensures
        fault(r) == value_fault(value@, field@),
{
    if contains_control(value) {
        Err(
            failure::failed(
                compose::concat3("invalid value for ", field, ": contains control characters"),
            ),
        )
    } else {
        Ok(())
    }
}

} // verus!
