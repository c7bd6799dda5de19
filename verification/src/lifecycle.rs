use crate::failure;
use crate::failure::Failure;
use crate::text::class::Class;
use crate::text::{class, compose, edge, number, path};
use vstd::prelude::*;

verus! {

/// A lock that this process holds: a file that tells the number of the process.
pub struct RuntimeLock {
    pub path: String,
}

/// The file of a lock.
pub open spec fn lock_file(home: Seq<char>, name: Seq<char>) -> Seq<char> {
    path::below(path::below(home, ".cache/tnk"@), name + ".lock"@)
}

/// The file of a lock.
pub fn lock_path(home: &str, name: &str) -> (r: String)
    ensures
        r@ == lock_file(home@, name@),
{
    let dir = path::join_path(home, ".cache/tnk");
    let file = compose::concat(name, ".lock");
    path::join_path(dir.as_str(), file.as_str())
}

/// What a process writes into the file of its lock.
pub fn lock_text(pid: u32) -> (r: String)
    ensures
        r@ == number::decimal(pid as nat),
{
    number::to_decimal(pid as u64)
}

/// The process that a lock file tells of.
pub open spec fn holder(text: Option<Seq<char>>) -> Option<nat> {
    match text {
        Some(t) => number::number(edge::trimmed(t), u32::MAX as nat),
        None => None,
    }
}

/// The process that a lock file tells of, if the file can be read and holds a number.
pub fn lock_holder(text: &Option<String>) -> (r: Option<u32>)
    ensures
        match r {
            Some(pid) => holder(compose::opt_text(*text)) == Some(pid as nat),
            None => holder(compose::opt_text(*text)) is None,
        },
{
    match text {
        Some(t) => {
            let trimmed = edge::trim(t.as_str());
            match number::parse_unsigned(trimmed.as_str(), u32::MAX as u64) {
                Some(n) => Some(n as u32),
                None => None,
            }
        },
        None => None,
    }
}

/// The process that writes a lock file is the one that the file tells of.
pub proof fn holders_are_read_back(pid: u32)
    ensures
        holder(Some(number::decimal(pid as nat))) == Some(pid as nat),
{
    let t = number::decimal(pid as nat);
    number::lemma_decimal_value(pid as nat);
    assert(class::ascii_digit(t[0]));
    assert(class::ascii_digit(t[t.len() - 1]));
    assert(edge::left_trimmed(t, Class::Blank) == t);
    assert(edge::right_trimmed(t, Class::Blank) == t);
    number::parsing_inverts_printing(pid as nat, u32::MAX as nat);
}

/// What is to be done about a lock that is taken.
pub enum LockStep {
    /// Its holder is gone: the file is removed, and the lock is tried again at once.
    RemoveStale,
    /// The time is up.
    GiveUp(Failure),
    /// The lock is tried again after a tenth of a second; the line, if any, is said first.
    Wait(Option<String>),
}

/// What is to be done about a lock that is taken: a lock whose holder does not live is removed,
/// one whose holder lives is waited for until the time is up.
pub fn acquire(name: &str, holder_lives: bool, expired: bool, first_wait: bool) -> (r: LockStep)
    ensures
        match r {
            LockStep::RemoveStale => !holder_lives,
            LockStep::GiveUp(e) => holder_lives && expired && e@
                == "timed out waiting for lifecycle lock '"@ + name@ + "'"@,
            LockStep::Wait(line) => holder_lives && !expired && compose::opt_text(line) == (
            if first_wait {
                Some("waiting for lifecycle lock '"@ + name@ + "'"@)
            } else {
                None
            }),
        },
{
    if !holder_lives {
        LockStep::RemoveStale
    } else if expired {
        LockStep::GiveUp(
            failure::failed(
                compose::concat3("timed out waiting for lifecycle lock '", name, "'"),
            ),
        )
    } else if first_wait {
        LockStep::Wait(Some(compose::concat3("waiting for lifecycle lock '", name, "'")))
    } else {
        LockStep::Wait(None)
    }
}

} // verus!
