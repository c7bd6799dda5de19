use crate::text::{compose, edge, order, path};
use vstd::prelude::*;

verus! {

/// A way to provision a sandbox.
pub struct Profile {
    pub name: String,
    pub manifest_path: Option<String>,
}

/// The names of the files with the given suffix, without it; names that are nothing but the
/// suffix are left out.
pub open spec fn stems(files: Seq<Seq<char>>, suffix: Seq<char>) -> Seq<Seq<char>>
    decreases files.len(),
{
    if files.len() == 0 {
        Seq::empty()
    } else {
        let earlier = stems(files.drop_last(), suffix);
        match edge::before_suffix(files.last(), suffix) {
            Some(s) => if s.len() == 0 {
                earlier
            } else {
                earlier.push(s)
            },
            None => earlier,
        }
    }
}

/// The names of the files with the given suffix, without it.
pub fn file_stems(files: &Vec<String>, suffix: &str) -> (r: Vec<String>)
    ensures
        compose::texts(r@) == stems(compose::texts(files@), suffix@),
{
    let mut r = compose::no_texts();
    let ghost all = compose::texts(files@);
    let mut i: usize = 0;
    while i < files.len()
        invariant
            i <= files@.len(),
            all == compose::texts(files@),
            compose::texts(r@) == stems(all.take(i as int), suffix@),
        decreases files@.len() - i,
    {
        assert(all.take(i + 1).drop_last() =~= all.take(i as int));
        assert(all.take(i + 1).last() == files@[i as int]@);
        match edge::strip_suffix(files[i].as_str(), suffix) {
            Some(s) => {
                if !s.as_str().is_empty() {
                    compose::push_string(&mut r, s);
                }
            },
            None => {},
        }
        i += 1;
    }
    assert(all.take(i as int) =~= all);
    r
}

/// Texts in ascending order.
pub open spec fn sorted(v: Seq<Seq<char>>) -> Seq<Seq<char>> {
    order::stable_order(v).map_values(|i: int| v[i])
}

/// Sorts texts.
pub fn sort(v: &Vec<String>) -> (r: Vec<String>)
    ensures
        compose::texts(r@) == sorted(compose::texts(v@)),
{
    let ranks = order::rank(v);
    let ghost all = compose::texts(v@);
    let ghost goal = sorted(all);
    let ghost places = ranks@.map_values(|i: usize| i as int);
    let mut r = compose::no_texts();
    let mut i: usize = 0;
    assert(goal.take(0) =~= Seq::<Seq<char>>::empty());
    while i < ranks.len()
        invariant
            i <= ranks@.len(),
            all == compose::texts(v@),
            goal == sorted(all),
            places == ranks@.map_values(|i: usize| i as int),
            places == order::stable_order(all),
            goal.len() == ranks@.len(),
            forall|k: int| 0 <= k < ranks@.len() ==> #[trigger] ranks@[k] < v@.len(),
            compose::texts(r@) == goal.take(i as int),
        decreases ranks@.len() - i,
    {
        assert(places[i as int] == ranks@[i as int]);
        assert(goal[i as int] == all[ranks@[i as int] as int]);
        compose::push_text(&mut r, v[ranks[i]].as_str());
        i += 1;
        assert(compose::texts(r@) =~= goal.take(i as int));
    }
    assert(goal.take(i as int) =~= goal);
    r
}

/// The names of the profiles, in ascending order, given the names of the provision scripts.
pub fn list_profiles(files: &Vec<String>) -> (r: Vec<String>)
    ensures
        compose::texts(r@) == sorted(stems(compose::texts(files@), ".sh"@)),
{
    let names = file_stems(files, ".sh");
    sort(&names)
}

/// The profile names of a list come in ascending order, and they are those of the scripts.
pub proof fn profiles_are_sorted(files: Seq<Seq<char>>, i: int, j: int)
    requires
        0 <= i < j < stems(files, ".sh"@).len(),
    ensures
        sorted(stems(files, ".sh"@)).len() == stems(files, ".sh"@).len(),
        !order::before(sorted(stems(files, ".sh"@))[j], sorted(stems(files, ".sh"@))[i]),
{
    let names = stems(files, ".sh"@);
    order::ranking_is_stable(names, names.len());
    let ranks = order::stable_order(names);
    assert(order::ranked_before(names, ranks[i], ranks[j]));
    order::order_is_total(names[ranks[i]], names[ranks[j]]);
}

/// Where the manifest of a profile can be.
pub open spec fn own_manifest(config_dir: Seq<char>, profile: Seq<char>) -> Seq<char> {
    path::below(path::below(config_dir, "sandbox.d/manifests"@), profile + ".yaml"@)
}

/// Where the manifest of all profiles can be that have none of their own.
pub open spec fn shared_manifest(config_dir: Seq<char>) -> Seq<char> {
    path::below(path::below(config_dir, "sandbox.d/manifests"@), "base.yaml"@)
}

/// The two files that can hold the manifest of a profile.
pub fn manifest_candidates(config_dir: &str, profile_name: &str) -> (r: (String, String))
    ensures
        r.0@ == own_manifest(config_dir@, profile_name@),
        r.1@ == shared_manifest(config_dir@),
{
    let dir = path::join_path(config_dir, "sandbox.d/manifests");
    let name = compose::concat(profile_name, ".yaml");
    (path::join_path(dir.as_str(), name.as_str()), path::join_path(dir.as_str(), "base.yaml"))
}

/// The manifest of a profile: its own, else the shared one, if it is told which of the two files
/// are there.
pub fn resolve_manifest(
    config_dir: &str,
    profile_name: &str,
    own_is_file: bool,
    shared_is_file: bool,
) -> (r: Option<String>)
    ensures
        compose::opt_text(r) == (if own_is_file {
            Some(own_manifest(config_dir@, profile_name@))
        } else if shared_is_file {
            Some(shared_manifest(config_dir@))
        } else {
            None
        }),
{
    let (own, shared) = manifest_candidates(config_dir, profile_name);
    if own_is_file {
        Some(own)
    } else if shared_is_file {
        Some(shared)
    } else {
        None
    }
}

/// The warning about a profile without a manifest.
pub fn missing_manifest(profile_name: &str) -> (r: String)
    ensures
        r@ == "no manifest for profile '"@ + profile_name@ + "' and base.yaml is missing"@,
{
    compose::concat3("no manifest for profile '", profile_name, "' and base.yaml is missing")
}

} // verus!
