use crate::text::class::Class;
use crate::text::compose;
use vstd::prelude::*;

verus! {

/// Whether `p` stands in `s` from position `i` on.
pub open spec fn occurs_at(s: Seq<char>, p: Seq<char>, i: int) -> bool {
    0 <= i && i + p.len() <= s.len() && s.subrange(i, i + p.len()) == p
}

/// Whether `s` begins with `p`.
pub open spec fn begins(s: Seq<char>, p: Seq<char>) -> bool {
    occurs_at(s, p, 0)
}

/// Whether `s` ends with `p`.
pub open spec fn ends(s: Seq<char>, p: Seq<char>) -> bool {
    occurs_at(s, p, s.len() - p.len())
}

/// Whether `p` stands somewhere in `s`.
pub open spec fn includes(s: Seq<char>, p: Seq<char>) -> bool {
    exists|i: int| occurs_at(s, p, i)
}

/// What follows the leading `p` of `s`.
pub open spec fn after_prefix(s: Seq<char>, p: Seq<char>) -> Option<Seq<char>> {
    if begins(s, p) {
        Some(s.skip(p.len() as int))
    } else {
        None
    }
}

/// What stands before the trailing `p` of `s`.
pub open spec fn before_suffix(s: Seq<char>, p: Seq<char>) -> Option<Seq<char>> {
    if ends(s, p) {
        Some(s.take(s.len() - p.len()))
    } else {
        None
    }
}

/// Compares a stretch of characters with a text.
fn matches_at(cs: &Vec<char>, p: &Vec<char>, i: usize) -> (r: bool)
    ensures
        r == occurs_at(cs@, p@, i as int),
{
    let n: usize = cs.len();
    if p.len() > n || i > n - p.len() {
        return false;
    }
    let mut k: usize = 0;
    while k < p.len()
        invariant
            k <= p@.len(),
            n == cs@.len(),
            i + p@.len() <= cs@.len(),
            forall|j: int| 0 <= j < k ==> cs@[i + j] == p@[j],
        decreases p@.len() - k,
    {
        if cs[i + k] != p[k] {
            assert(cs@.subrange(i as int, i + p@.len())[k as int] == cs@[i + k]);
            return false;
        }
        k += 1;
    }
    assert(cs@.subrange(i as int, i + p@.len()) =~= p@);
    true
}

/// Whether `s` begins with `p`.
pub fn starts_with(s: &str, p: &str) -> (r: bool)
    ensures
        r == begins(s@, p@),
{
    let cs = compose::chars_of(s);
    let ps = compose::chars_of(p);
    matches_at(&cs, &ps, 0)
}

/// Whether `s` ends with `p`.
pub fn ends_with(s: &str, p: &str) -> (r: bool)
    ensures
        r == ends(s@, p@),
{
    let cs = compose::chars_of(s);
    let ps = compose::chars_of(p);
    if ps.len() > cs.len() {
        return false;
    }
    matches_at(&cs, &ps, cs.len() - ps.len())
}

/// Whether `p` stands somewhere in `s`.
pub fn contains(s: &str, p: &str) -> (r: bool)
    ensures
        r == includes(s@, p@),
{
    let cs = compose::chars_of(s);
    let ps = compose::chars_of(p);
    let mut i: usize = 0;
    while i < cs.len()
        invariant
            i <= cs@.len(),
            cs@ == s@,
            ps@ == p@,
            forall|k: int| 0 <= k < i ==> !occurs_at(s@, p@, k),
        decreases cs@.len() - i,
    {
        if matches_at(&cs, &ps, i) {
            return true;
        }
        i += 1;
    }
    matches_at(&cs, &ps, i)
}

/// What follows the leading `p` of `s`, if `s` begins with `p`.
pub fn strip_prefix(s: &str, p: &str) -> (r: Option<String>)
    ensures
        compose::opt_text(r) == after_prefix(s@, p@),
{
    let cs = compose::chars_of(s);
    let ps = compose::chars_of(p);
    if matches_at(&cs, &ps, 0) {
        assert(s@.skip(p@.len() as int) =~= s@.subrange(p@.len() as int, s@.len() as int));
        Some(compose::text_between(&cs, ps.len(), cs.len()))
    } else {
        None
    }
}

/// What stands before the trailing `p` of `s`, if `s` ends with `p`.
pub fn strip_suffix(s: &str, p: &str) -> (r: Option<String>)
    ensures
        compose::opt_text(r) == before_suffix(s@, p@),
{
    let cs = compose::chars_of(s);
    let ps = compose::chars_of(p);
    if ps.len() <= cs.len() && matches_at(&cs, &ps, cs.len() - ps.len()) {
        Some(compose::text_between(&cs, 0, cs.len() - ps.len()))
    } else {
        None
    }
}

/// `s` without the leading characters that are in `k`.
pub open spec fn left_trimmed(s: Seq<char>, k: Class) -> Seq<char>
    decreases s.len(),
{
    if s.len() > 0 && k.has(s[0]) {
        left_trimmed(s.skip(1), k)
    } else {
        s
    }
}

/// `s` without the trailing characters that are in `k`.
pub open spec fn right_trimmed(s: Seq<char>, k: Class) -> Seq<char>
    decreases s.len(),
{
    if s.len() > 0 && k.has(s.last()) {
        right_trimmed(s.drop_last(), k)
    } else {
        s
    }
}

/// `s` without the leading and the trailing characters that are in `k`.
pub open spec fn both_trimmed(s: Seq<char>, k: Class) -> Seq<char> {
    right_trimmed(left_trimmed(s, k), k)
}

/// `s` without leading and trailing white space.
pub open spec fn trimmed(s: Seq<char>) -> Seq<char> {
    both_trimmed(s, Class::Blank)
}

/// Removes the leading characters that are in `k`.
pub fn trim_start(s: &str, k: Class) -> (r: String)
    ensures
        r@ == left_trimmed(s@, k),
{
    let cs = compose::chars_of(s);
    let mut i: usize = 0;
    assert(s@.skip(0) =~= s@);
    while i < cs.len() && k.holds(cs[i])
        invariant
            i <= cs@.len(),
            cs@ == s@,
            left_trimmed(s@, k) == left_trimmed(s@.skip(i as int), k),
        decreases cs@.len() - i,
    {
        assert(s@.skip(i as int).skip(1) =~= s@.skip(i + 1));
        i += 1;
    }
    assert(s@.skip(i as int) =~= s@.subrange(i as int, s@.len() as int));
    compose::text_between(&cs, i, cs.len())
}

/// Removes the trailing characters that are in `k`.
pub fn trim_end(s: &str, k: Class) -> (r: String)
    ensures
        r@ == right_trimmed(s@, k),
{
    let cs = compose::chars_of(s);
    let mut i: usize = cs.len();
    assert(s@.take(i as int) =~= s@);
    while i > 0 && k.holds(cs[i - 1])
        invariant
            i <= cs@.len(),
            cs@ == s@,
            right_trimmed(s@, k) == right_trimmed(s@.take(i as int), k),
        decreases i,
    {
        assert(s@.take(i as int).drop_last() =~= s@.take(i - 1));
        i -= 1;
    }
    assert(s@.take(i as int) =~= s@.subrange(0, i as int));
    compose::text_between(&cs, 0, i)
}

/// Removes the leading and the trailing characters that are in `k`.
pub fn trim_both(s: &str, k: Class) -> (r: String)
    ensures
        r@ == both_trimmed(s@, k),
{
    let left = trim_start(s, k);
    trim_end(left.as_str(), k)
}

/// Removes leading and trailing white space.
pub fn trim(s: &str) -> (r: String)
    ensures
        r@ == trimmed(s@),
{
    trim_both(s, Class::Blank)
}

/// What trimming leaves neither begins nor ends with a character of the class.
pub proof fn trimming_is_complete(s: Seq<char>, k: Class)
    ensures
        both_trimmed(s, k).len() > 0 ==> !k.has(both_trimmed(s, k)[0]) && !k.has(
            both_trimmed(s, k).last(),
        ),
{
    let t = left_trimmed(s, k);
    lemma_left_trimmed(s, k);
    lemma_right_trimmed(t, k);
}

proof fn lemma_left_trimmed(s: Seq<char>, k: Class)
    ensures
        left_trimmed(s, k).len() > 0 ==> !k.has(left_trimmed(s, k)[0]),
    decreases s.len(),
{
    if s.len() > 0 && k.has(s[0]) {
        lemma_left_trimmed(s.skip(1), k);
    }
}

proof fn lemma_right_trimmed(s: Seq<char>, k: Class)
    ensures
        right_trimmed(s, k).len() > 0 ==> !k.has(right_trimmed(s, k).last()),
        right_trimmed(s, k).len() > 0 ==> right_trimmed(s, k)[0] == s[0],
    decreases s.len(),
{
    if s.len() > 0 && k.has(s.last()) {
        lemma_right_trimmed(s.drop_last(), k);
    }
}

/// The position of the first `c` in `s`; the length of `s` if there is none.
pub open spec fn first_at(s: Seq<char>, c: char) -> int
    decreases s.len(),
{
    if s.len() == 0 || s[0] == c {
        0
    } else {
        1 + first_at(s.skip(1), c)
    }
}

/// The position of the last `c` in `s`; -1 if there is none.
pub open spec fn last_at(s: Seq<char>, c: char) -> int
    decreases s.len(),
{
    if s.len() == 0 || s.last() == c {
        s.len() - 1
    } else {
        last_at(s.drop_last(), c)
    }
}

/// `first_at` is the least position that holds `c`.
pub proof fn lemma_first_at(s: Seq<char>, c: char)
    ensures
        0 <= first_at(s, c) <= s.len(),
        first_at(s, c) < s.len() ==> s[first_at(s, c)] == c,
        forall|i: int| 0 <= i < first_at(s, c) ==> s[i] != c,
        s.contains(c) == (first_at(s, c) < s.len()),
    decreases s.len(),
{
    if s.len() > 0 && s[0] != c {
        lemma_first_at(s.skip(1), c);
        assert forall|i: int| 0 <= i < first_at(s, c) implies s[i] != c by {
            if i > 0 {
                assert(s.skip(1)[i - 1] == s[i]);
            }
        }
        if s.contains(c) {
            let k = choose|k: int| 0 <= k < s.len() && s[k] == c;
            assert(s.skip(1)[k - 1] == c);
        }
    }
}

/// `last_at` is the greatest position that holds `c`.
pub proof fn lemma_last_at(s: Seq<char>, c: char)
    ensures
        -1 <= last_at(s, c) < s.len(),
        last_at(s, c) >= 0 ==> s[last_at(s, c)] == c,
        forall|i: int| last_at(s, c) < i < s.len() ==> s[i] != c,
        s.contains(c) == (last_at(s, c) >= 0),
    decreases s.len(),
{
    if s.len() > 0 && s.last() != c {
        lemma_last_at(s.drop_last(), c);
        assert forall|i: int| last_at(s, c) < i < s.len() implies s[i] != c by {
            if i < s.len() - 1 {
                assert(s.drop_last()[i] == s[i]);
            }
        }
        if s.contains(c) {
            let k = choose|k: int| 0 <= k < s.len() && s[k] == c;
            assert(s.drop_last()[k] == c);
        }
    }
}

/// The position of the first `c`; the number of characters if there is none.
pub fn find_first(cs: &Vec<char>, c: char) -> (r: usize)
    ensures
        r == first_at(cs@, c),
        r <= cs@.len(),
        (r < cs@.len()) == cs@.contains(c),
{
    proof {
        lemma_first_at(cs@, c);
    }
    let mut i: usize = 0;
    while i < cs.len() && cs[i] != c
        invariant
            i <= cs@.len(),
            forall|k: int| 0 <= k < i ==> cs@[k] != c,
        decreases cs@.len() - i,
    {
        i += 1;
    }
    i
}

/// The position of the last `c`, if there is one.
pub fn find_last(cs: &Vec<char>, c: char) -> (r: Option<usize>)
    ensures
        r matches Some(i) ==> i == last_at(cs@, c) && i < cs@.len(),
        r is None ==> last_at(cs@, c) == -1,
        r is Some == cs@.contains(c),
{
    proof {
        lemma_last_at(cs@, c);
    }
    let mut i: usize = cs.len();
    while i > 0
        invariant
            i <= cs@.len(),
            forall|k: int| i <= k < cs@.len() ==> cs@[k] != c,
            -1 <= last_at(cs@, c) < cs@.len(),
            last_at(cs@, c) >= 0 ==> cs@[last_at(cs@, c)] == c,
            forall|i: int| last_at(cs@, c) < i < cs@.len() ==> cs@[i] != c,
            cs@.contains(c) == (last_at(cs@, c) >= 0),
        decreases i,
    {
        if cs[i - 1] == c {
            return Some(i - 1);
        }
        i -= 1;
    }
    None
}

/// Whether `c` occurs in `s`.
pub fn has_char(s: &str, c: char) -> (r: bool)
    ensures
        r == s@.contains(c),
{
    let cs = compose::chars_of(s);
    find_first(&cs, c) < cs.len()
}

/// What stands before and after the first `c` of `s`.
pub open spec fn cut(s: Seq<char>, c: char) -> Option<(Seq<char>, Seq<char>)> {
    if s.contains(c) {
        Some((s.take(first_at(s, c)), s.skip(first_at(s, c) + 1)))
    } else {
        None
    }
}

/// Cuts `s` at its first `c`.
pub fn split_once(s: &str, c: char) -> (r: Option<(String, String)>)
    ensures
        match r {
            Some(p) => cut(s@, c) == Some((p.0@, p.1@)),
            None => cut(s@, c) is None,
        },
{
    let cs = compose::chars_of(s);
    let i: usize = find_first(&cs, c);
    if i < cs.len() {
        assert(s@.skip(i + 1) =~= s@.subrange(i + 1, s@.len() as int));
        Some((compose::text_between(&cs, 0, i), compose::text_between(&cs, i + 1, cs.len())))
    } else {
        None
    }
}

/// What stands before and after the last `c` of `s`.
pub open spec fn cut_last(s: Seq<char>, c: char) -> Option<(Seq<char>, Seq<char>)> {
    if s.contains(c) {
        Some((s.take(last_at(s, c)), s.skip(last_at(s, c) + 1)))
    } else {
        None
    }
}

/// Cuts `s` at its last `c`.
pub fn split_once_last(s: &str, c: char) -> (r: Option<(String, String)>)
    ensures
        match r {
            Some(p) => cut_last(s@, c) == Some((p.0@, p.1@)),
            None => cut_last(s@, c) is None,
        },
{
    let cs = compose::chars_of(s);
    let n: usize = cs.len();
    match find_last(&cs, c) {
        Some(i) => {
            assert(s@.skip(i + 1) =~= s@.subrange(i + 1, s@.len() as int));
            Some((compose::text_between(&cs, 0, i), compose::text_between(&cs, i + 1, n)))
        },
        None => None,
    }
}

/// A text cut at a character is its two parts with the character between them, and the first
/// part is free of it.
pub proof fn cutting_loses_nothing(s: Seq<char>, c: char)
    ensures
        match cut(s, c) {
            Some(p) => s == p.0.push(c) + p.1 && !p.0.contains(c),
            None => !s.contains(c),
        },
{
    lemma_first_at(s, c);
    if s.contains(c) {
        let i = first_at(s, c);
        assert(s =~= s.take(i).push(c) + s.skip(i + 1));
        assert forall|k: int| 0 <= k < i implies s.take(i)[k] != c by {}
    }
}

} // verus!
