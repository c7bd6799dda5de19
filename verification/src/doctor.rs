//! Checks of the installation.

use crate::failure;
use crate::failure::Failure;
use crate::text::{compose, edge, number, path, split};
use vstd::prelude::*;

verus! {

/// What the list of all machines came to.
pub enum Listed {
    /// The list was printed, or the program that prints it failed.
    Ran { ok: bool, out: String },
    /// The time ran out.
    Late,
    /// The program could not be run.
    Broken(String),
}

/// The names of all machines, or why they cannot be told.
pub open spec fn names_of(listed: Listed) -> Result<Seq<Seq<char>>, Seq<char>> {
    match listed {
        Listed::Ran { ok, out } => Ok(
            if ok {
                split::nonempty(split::all_trimmed(split::lines_of(out@)))
            } else {
                Seq::empty()
            },
        ),
        Listed::Late => Err("limactl list timed out after 15s"@),
        Listed::Broken(e) => Err(e@),
    }
}

/// The names of all machines, or why they cannot be told.
pub fn list_lima_instances(listed: Listed) -> (r: Result<Vec<String>, Failure>)
    ensures
        match r {
            Ok(v) => names_of(listed) == Ok::<Seq<Seq<char>>, Seq<char>>(compose::texts(v@)),
            Err(e) => names_of(listed) == Err::<Seq<Seq<char>>, Seq<char>>(e@),
        },
{
    match listed {
        Listed::Ran { ok, out } => {
            if !ok {
                return Ok(compose::no_texts());
            }
            let lines = split::lines(out.as_str());
            let names = split::trim_all(&lines);
            Ok(split::keep_nonempty(&names))
        },
        Listed::Late => Err(failure::failure("limactl list timed out after 15s")),
        Listed::Broken(e) => Err(failure::failed(e)),
    }
}

/// How many names are those of machines of this program.
pub open spec fn own_count(names: Seq<Seq<char>>) -> nat
    decreases names.len(),
{
    if names.len() == 0 {
        0
    } else {
        own_count(names.drop_last()) + if edge::begins(names.last(), "tnk-"@) {
            1nat
        } else {
            0
        }
    }
}

/// What is told of the machines of this program.
pub fn check_managed_instances(names: &Vec<String>) -> (r: String)
    ensures
        r@ == "managed lima instances detected: "@ + number::decimal(
            own_count(compose::texts(names@)),
        ),
{
    let ghost all = compose::texts(names@);
    let mut n: usize = 0;
    let mut i: usize = 0;
    while i < names.len()
        invariant
            n <= i <= names@.len(),
            all == compose::texts(names@),
            n == own_count(all.take(i as int)),
        decreases names@.len() - i,
    {
        assert(all.take(i + 1).drop_last() =~= all.take(i as int));
        assert(all.take(i + 1).last() == names@[i as int]@);
        if edge::starts_with(names[i].as_str(), "tnk-") {
            n += 1;
        }
        i += 1;
    }
    assert(all.take(i as int) =~= all);
    compose::concat("managed lima instances detected: ", number::to_decimal(n as u64).as_str())
}

/// Where what is kept between runs lies.
pub fn locks_dir(home: &str) -> (r: String)
    ensures
        r@ == path::below(home@, ".cache/tnk"@),
{
    path::join_path(home, ".cache/tnk")
}

/// What is told of the directory of what is kept between runs, and whether that is a mere
/// information.
pub fn check_locks_dir(present: bool) -> (r: (String, bool))
    ensures
        present ==> r.0@ == "ok: runtime cache directory exists"@ && !r.1,
        !present ==> r.0@ == "runtime cache directory not present yet"@ && r.1,
{
    if present {
        ("ok: runtime cache directory exists".to_owned(), false)
    } else {
        ("runtime cache directory not present yet".to_owned(), true)
    }
}

} // verus!
