use crate::text::class::Class;
use crate::text::{compose, edge, path, split};
use vstd::prelude::*;

verus! {

/// The file that tells which profiles a sandbox has been provisioned with.
pub open spec fn cache_file(home: Seq<char>, id: Seq<char>) -> Seq<char> {
    path::below(path::below(home, ".cache/tnk"@), id + "-profiles"@)
}

/// The file that tells which profiles a sandbox has been provisioned with.
pub fn profile_cache_path(home: &str, id: &str) -> (r: String)
    ensures
        r@ == cache_file(home@, id@),
{
    let dir = path::join_path(home, ".cache/tnk");
    let name = compose::concat(id, "-profiles");
    path::join_path(dir.as_str(), name.as_str())
}

/// Whether a text tells of a profile, on a line of its own.
pub open spec fn tells(text: Seq<char>, profile: Seq<char>) -> bool {
    split::all_trimmed(split::lines_of(text)).contains(profile)
}

/// A text that a line can be added to.
pub open spec fn closed_line(text: Seq<char>) -> Seq<char> {
    if text.len() == 0 || text.last() == '\n' {
        text
    } else {
        text.push('\n')
    }
}

/// The new text of the file after a sandbox has been provisioned with a profile; nothing if the
/// file tells of the profile already.
pub open spec fn recorded(existing: Option<Seq<char>>, profile: Seq<char>) -> Option<Seq<char>> {
    match existing {
        None => Some((Seq::empty() + profile).push('\n')),
        Some(text) => if tells(text, profile) {
            None
        } else {
            Some((closed_line(text) + profile).push('\n'))
        },
    }
}

/// The new text of the file after a sandbox has been provisioned with a profile.
pub fn record_profile(existing: &Option<String>, profile: &str) -> (r: Option<String>)
    ensures
        compose::opt_text(r) == recorded(compose::opt_text(*existing), profile@),
{
    let text = match existing {
        None => String::new(),
        Some(t) => {
            let lines = split::lines(t.as_str());
            let trimmed = split::trim_all(&lines);
            if compose::has_text(&trimmed, profile) {
                return None;
            }
            let cs = compose::chars_of(t.as_str());
            let mut u = t.clone();
            if cs.len() > 0 && cs[cs.len() - 1] != '\n' {
                u.push('\n');
            }
            u
        },
    };
    let mut r = compose::concat(text.as_str(), profile);
    r.push('\n');
    Some(r)
}

/// The new text of the file after a sandbox has been provisioned with a profile: nothing where
/// only the first profile is recorded and there is a file, whatever it holds.
pub fn record(existing: &Option<String>, profile: &str, only_first: bool) -> (r: Option<String>)
    ensures
        compose::opt_text(r) == (if only_first && *existing is Some {
            None
        } else {
            recorded(compose::opt_text(*existing), profile@)
        }),
{
    if only_first && existing.is_some() {
        return None;
    }
    record_profile(existing, profile)
}

/// Whether a profile name can stand on a line: it has no line ends and no white space round it.
pub open spec fn is_line(profile: Seq<char>) -> bool {
    &&& !profile.contains('\n')
    &&& !profile.contains('\r')
    &&& edge::trimmed(profile) == profile
}

/// A recorded profile is told of afterwards, so that it is not recorded twice, and all that was
/// in the file stays in it.
pub proof fn recording_lasts(existing: Option<Seq<char>>, profile: Seq<char>)
    requires
        is_line(profile),
    ensures
        recorded(existing, profile) matches Some(text) ==> {
            &&& tells(text, profile)
            &&& recorded(Some(text), profile) is None
            &&& existing matches Some(old_text) ==> edge::begins(text, old_text)
        },
{
    if let Some(text) = recorded(existing, profile) {
        let base = match existing {
            None => Seq::empty(),
            Some(t) => closed_line(t),
        };
        let k = Class::Only('\n');
        split::lemma_pieces_len(base, k);
        split::lemma_pieces_append(base, profile, '\n');
        let pa = split::pieces(base, k);
        assert(pa.last() + profile =~= profile);
        let all = split::pieces(text, k);
        assert(text.drop_last() =~= base + profile);
        assert(all == split::pieces(base + profile, k).push(Seq::empty()));
        assert(all.drop_last() =~= split::pieces(base + profile, k));
        let ended = all.drop_last().map_values(|p: Seq<char>| split::without_return(p));
        let n = pa.len() - 1;
        assert(all.drop_last()[n] == profile);
        assert(split::without_return(profile) == profile) by {
            if profile.len() > 0 {
                assert(profile[profile.len() - 1] == profile.last());
            }
        }
        assert(ended[n] == profile);
        assert(split::lines_of(text) == ended);
        assert(split::all_trimmed(split::lines_of(text))[n] == profile);
        if let Some(t) = existing {
            assert(text.subrange(0, t.len() as int) =~= t);
        }
    }
}

} // verus!
