use crate::text::class::Class;
use crate::text::compose;
use crate::text::edge;
use vstd::prelude::*;

verus! {

/// The pieces of `s` between the characters of `k`: one more than there are such characters.
pub open spec fn pieces(s: Seq<char>, k: Class) -> Seq<Seq<char>>
    decreases s.len(),
{
    if s.len() == 0 {
        seq![Seq::empty()]
    } else {
        let before = pieces(s.drop_last(), k);
        if k.has(s.last()) {
            before.push(Seq::empty())
        } else {
            before.update(before.len() - 1, before.last().push(s.last()))
        }
    }
}

proof fn lemma_pieces_nonempty(s: Seq<char>, k: Class)
    ensures
        pieces(s, k).len() >= 1,
    decreases s.len(),
{
    if s.len() > 0 {
        lemma_pieces_nonempty(s.drop_last(), k);
    }
}

/// Cuts `s` at every character of `k`.
pub fn split(s: &str, k: Class) -> (r: Vec<String>)
    ensures
        compose::texts(r@) == pieces(s@, k),
        r@.len() >= 1,
{
    let cs = compose::chars_of(s);
    let mut done = compose::no_texts();
    let mut open = String::new();
    let mut i: usize = 0;
    assert(compose::texts(done@).push(open@) =~= pieces(s@.take(0), k));
    while i < cs.len()
        invariant
            i <= cs@.len(),
            cs@ == s@,
            compose::texts(done@).push(open@) == pieces(s@.take(i as int), k),
        decreases cs@.len() - i,
    {
        let ghost before = compose::texts(done@);
        let ghost begun = open@;
        assert(s@.take(i + 1).drop_last() =~= s@.take(i as int));
        if k.holds(cs[i]) {
            compose::push_string(&mut done, open);
            open = String::new();
            assert(compose::texts(done@).push(open@) == before.push(begun).push(Seq::empty()));
        } else {
            open.push(cs[i]);
            assert(before.push(begun).update(before.len() as int, open@) =~= before.push(open@));
            assert(before.push(begun).last() == begun);
        }
        i += 1;
    }
    assert(s@.take(i as int) =~= s@);
    compose::push_string(&mut done, open);
    done
}

/// Splitting at a character and joining with it again gives the text back, and no piece
/// holds the character.
pub proof fn splitting_loses_nothing(s: Seq<char>, c: char)
    ensures
        compose::joined(pieces(s, Class::Only(c)), seq![c]) == s,
        forall|i: int|
            0 <= i < pieces(s, Class::Only(c)).len() ==> !(#[trigger] pieces(
                s,
                Class::Only(c),
            )[i]).contains(c),
    decreases s.len(),
{
    let k = Class::Only(c);
    let all = pieces(s, k);
    lemma_pieces_nonempty(s, k);
    if s.len() == 0 {
        assert(compose::joined(all, seq![c]) =~= s);
        assert forall|i: int| 0 <= i < all.len() implies !(#[trigger] all[i]).contains(c) by {
            assert(all[i] == Seq::<char>::empty());
        }
    } else {
        let t = s.drop_last();
        let before = pieces(t, k);
        splitting_loses_nothing(t, c);
        lemma_pieces_nonempty(t, k);
        if s.last() == c {
            assert(all.drop_last() =~= before);
            assert(compose::joined(all, seq![c]) == t + seq![c] + Seq::<char>::empty());
            assert(compose::joined(all, seq![c]) =~= s);
        } else {
            assert(all.drop_last() =~= before.drop_last());
            assert(all.last() == before.last().push(s.last()));
            assert forall|i: int| 0 <= i < all.len() implies !(#[trigger] all[i]).contains(c) by {
                if i < all.len() - 1 {
                    assert(all[i] == before[i]);
                } else {
                    let old_piece = before.last();
                    assert(!old_piece.contains(c));
                    assert forall|j: int| 0 <= j < all[i].len() implies all[i][j] != c by {
                        if j < old_piece.len() {
                            assert(all[i][j] == old_piece[j]);
                        }
                    }
                }
            }
            if all.len() == 1 {
                assert(compose::joined(before, seq![c]) == before[0]);
                assert(compose::joined(all, seq![c]) =~= s);
            } else {
                assert(compose::joined(all, seq![c]) =~= compose::joined(before, seq![c]).push(
                    s.last(),
                ));
                assert(compose::joined(all, seq![c]) =~= s);
            }
        }
    }
}

/// Those of `parts` that are not empty.
pub open spec fn nonempty(parts: Seq<Seq<char>>) -> Seq<Seq<char>>
    decreases parts.len(),
{
    if parts.len() == 0 {
        Seq::empty()
    } else {
        let before = nonempty(parts.drop_last());
        if parts.last().len() == 0 {
            before
        } else {
            before.push(parts.last())
        }
    }
}

/// Keeps the texts that are not empty.
pub fn keep_nonempty(parts: &Vec<String>) -> (r: Vec<String>)
    ensures
        compose::texts(r@) == nonempty(compose::texts(parts@)),
{
    let mut r = compose::no_texts();
    let mut i: usize = 0;
    let ghost all = compose::texts(parts@);
    while i < parts.len()
        invariant
            i <= parts@.len(),
            all == compose::texts(parts@),
            compose::texts(r@) == nonempty(all.take(i as int)),
        decreases parts@.len() - i,
    {
        assert(all.take(i + 1).drop_last() =~= all.take(i as int));
        assert(all.take(i + 1).last() == parts@[i as int]@);
        if !parts[i].as_str().is_empty() {
            compose::push_text(&mut r, parts[i].as_str());
        }
        i += 1;
    }
    assert(all.take(i as int) =~= all);
    r
}

/// The stretches of `s` without white space.
pub open spec fn words_of(s: Seq<char>) -> Seq<Seq<char>> {
    nonempty(pieces(s, Class::Blank))
}

/// Cuts `s` into its stretches without white space.
pub fn words(s: &str) -> (r: Vec<String>)
    ensures
        compose::texts(r@) == words_of(s@),
{
    let parts = split(s, Class::Blank);
    keep_nonempty(&parts)
}

/// A line without the carriage return that ends it.
pub open spec fn without_return(s: Seq<char>) -> Seq<char> {
    if s.len() > 0 && s.last() == '\r' {
        s.drop_last()
    } else {
        s
    }
}

/// The lines of `s`: what stands before each line feed, without a carriage return at its end,
/// and what follows the last line feed, if that is not empty.
pub open spec fn lines_of(s: Seq<char>) -> Seq<Seq<char>> {
    let all = pieces(s, Class::Only('\n'));
    let ended = all.drop_last().map_values(|p: Seq<char>| without_return(p));
    if all.last().len() == 0 {
        ended
    } else {
        ended.push(all.last())
    }
}

/// Cuts `s` into lines.
pub fn lines(s: &str) -> (r: Vec<String>)
    ensures
        compose::texts(r@) == lines_of(s@),
{
    let parts = split(s, Class::Only('\n'));
    let ghost all = compose::texts(parts@);
    let ghost ended = all.drop_last().map_values(|p: Seq<char>| without_return(p));
    let n: usize = parts.len() - 1;
    let mut r = compose::no_texts();
    let mut i: usize = 0;
    assert(ended.take(0) =~= Seq::<Seq<char>>::empty());
    while i < n
        invariant
            i <= n,
            n == parts@.len() - 1,
            all == compose::texts(parts@),
            ended == all.drop_last().map_values(|p: Seq<char>| without_return(p)),
            compose::texts(r@) == ended.take(i as int),
        decreases n - i,
    {
        let stripped = strip_return(parts[i].as_str());
        compose::push_string(&mut r, stripped);
        assert(ended[i as int] == without_return(parts@[i as int]@));
        i += 1;
        assert(compose::texts(r@) =~= ended.take(i as int));
    }
    assert(ended.take(i as int) =~= ended);
    assert(all.last() == parts@[n as int]@);
    if !parts[n].as_str().is_empty() {
        compose::push_text(&mut r, parts[n].as_str());
    }
    r
}

fn strip_return(s: &str) -> (r: String)
    ensures
        r@ == without_return(s@),
{
    let cs = compose::chars_of(s);
    if cs.len() > 0 && cs[cs.len() - 1] == '\r' {
        assert(s@.drop_last() =~= s@.subrange(0, s@.len() - 1));
        compose::text_between(&cs, 0, cs.len() - 1)
    } else {
        s.to_owned()
    }
}

/// The trimmed texts of a list.
pub open spec fn all_trimmed(parts: Seq<Seq<char>>) -> Seq<Seq<char>> {
    parts.map_values(|p: Seq<char>| edge::trimmed(p))
}

/// Trims each text of a list.
pub fn trim_all(parts: &Vec<String>) -> (r: Vec<String>)
    ensures
        compose::texts(r@) == all_trimmed(compose::texts(parts@)),
{
    let mut r = compose::no_texts();
    let ghost all = all_trimmed(compose::texts(parts@));
    let mut i: usize = 0;
    assert(all.take(0) =~= Seq::<Seq<char>>::empty());
    while i < parts.len()
        invariant
            i <= parts@.len(),
            all == all_trimmed(compose::texts(parts@)),
            compose::texts(r@) == all.take(i as int),
        decreases parts@.len() - i,
    {
        let t = edge::trim(parts[i].as_str());
        compose::push_string(&mut r, t);
        assert(all[i as int] == edge::trimmed(parts@[i as int]@));
        i += 1;
        assert(compose::texts(r@) =~= all.take(i as int));
    }
    assert(all.take(i as int) =~= all);
    r
}

/// A text has at least one piece, and the last one is empty behind a mark.
pub proof fn lemma_pieces_len(s: Seq<char>, k: Class)
    ensures
        pieces(s, k).len() >= 1,
        s.len() == 0 || k.has(s.last()) ==> pieces(s, k).last() == Seq::<char>::empty(),
    decreases s.len(),
{
    if s.len() > 0 {
        lemma_pieces_len(s.drop_last(), k);
    }
}

/// What is put behind a text without a mark goes to its last piece.
pub proof fn lemma_pieces_append(a: Seq<char>, b: Seq<char>, c: char)
    requires
        !b.contains(c),
    ensures
        pieces(a + b, Class::Only(c)) == pieces(a, Class::Only(c)).update(
            pieces(a, Class::Only(c)).len() - 1,
            pieces(a, Class::Only(c)).last() + b,
        ),
    decreases b.len(),
{
    let k = Class::Only(c);
    let pa = pieces(a, k);
    lemma_pieces_len(a, k);
    if b.len() == 0 {
        assert(a + b =~= a);
        assert(pa.last() + b =~= pa.last());
        assert(pa.update(pa.len() - 1, pa.last() + b) =~= pa);
    } else {
        let d = b.drop_last();
        assert(!d.contains(c)) by {
            if d.contains(c) {
                let i = choose|i: int| 0 <= i < d.len() && d[i] == c;
                assert(b[i] == c);
            }
        }
        lemma_pieces_append(a, d, c);
        assert((a + b).drop_last() =~= a + d);
        assert((a + b).last() == b.last());
        assert(b.last() != c) by {
            assert(b[b.len() - 1] == b.last());
        }
        let before = pieces(a + d, k);
        assert(before.last() == pa.last() + d);
        assert((pa.last() + d).push(b.last()) =~= pa.last() + b);
        assert(pieces(a + b, k) =~= pa.update(pa.len() - 1, pa.last() + b));
    }
}

/// A text with a mark in it has the pieces of what stands before the mark, then those of what
/// follows it.
pub proof fn splitting_at_a_mark(a: Seq<char>, c: char, b: Seq<char>, k: Class)
    requires
        k.has(c),
    ensures
        pieces(a.push(c) + b, k) == pieces(a, k) + pieces(b, k),
    decreases b.len(),
{
    let s = a.push(c) + b;
    lemma_pieces_len(a, k);
    if b.len() == 0 {
        assert(s =~= a.push(c));
        assert(s.drop_last() =~= a);
        assert(pieces(b, k) =~= seq![Seq::<char>::empty()]);
        assert(pieces(s, k) =~= pieces(a, k) + pieces(b, k));
    } else {
        let d = b.drop_last();
        splitting_at_a_mark(a, c, d, k);
        lemma_pieces_len(d, k);
        assert(s.drop_last() =~= a.push(c) + d);
        assert(s.last() == b.last());
        let before = pieces(a, k) + pieces(d, k);
        assert(before.last() == pieces(d, k).last());
        assert(pieces(s, k) =~= pieces(a, k) + pieces(b, k));
    }
}

proof fn lemma_nonempty_both(a: Seq<Seq<char>>, b: Seq<Seq<char>>)
    ensures
        nonempty(a + b) == nonempty(a) + nonempty(b),
    decreases b.len(),
{
    if b.len() == 0 {
        assert(a + b =~= a);
        assert(nonempty(a) + nonempty(b) =~= nonempty(a));
    } else {
        assert((a + b).drop_last() =~= a + b.drop_last());
        lemma_nonempty_both(a, b.drop_last());
        assert(nonempty(a + b) =~= nonempty(a) + nonempty(b));
    }
}

/// The words of some texts, one text after the other.
pub open spec fn words_of_all(parts: Seq<Seq<char>>) -> Seq<Seq<char>>
    decreases parts.len(),
{
    if parts.len() == 0 {
        Seq::empty()
    } else {
        words_of_all(parts.drop_last()) + words_of(parts.last())
    }
}

/// The words of texts that are joined with spaces are those of the texts.
pub proof fn joining_keeps_words(parts: Seq<Seq<char>>)
    ensures
        words_of(compose::joined(parts, " "@)) == words_of_all(parts),
    decreases parts.len(),
{
    reveal_strlit(" ");
    if parts.len() == 0 {
        let none = Seq::<char>::empty();
        assert(pieces(none, Class::Blank) =~= seq![none]);
        assert(seq![none].drop_last() =~= Seq::<Seq<char>>::empty());
        assert(nonempty(seq![none].drop_last()) =~= Seq::<Seq<char>>::empty());
        assert(words_of(none) =~= Seq::<Seq<char>>::empty());
    } else {
        joining_keeps_words(parts.drop_last());
        if parts.len() == 1 {
            assert(words_of_all(parts.drop_last()) =~= Seq::<Seq<char>>::empty());
            assert(words_of_all(parts) =~= words_of(parts[0]));
        } else {
            let a = compose::joined(parts.drop_last(), " "@);
            assert(a + " "@ + parts.last() =~= a.push(' ') + parts.last());
            splitting_at_a_mark(a, ' ', parts.last(), Class::Blank);
            lemma_nonempty_both(
                pieces(a, Class::Blank),
                pieces(parts.last(), Class::Blank),
            );
        }
    }
}

/// The words of two lists of texts are those of the first, then those of the second.
pub proof fn words_add_up(a: Seq<Seq<char>>, b: Seq<Seq<char>>)
    ensures
        words_of_all(a + b) == words_of_all(a) + words_of_all(b),
    decreases b.len(),
{
    if b.len() == 0 {
        assert(a + b =~= a);
        assert(words_of_all(a) + words_of_all(b) =~= words_of_all(a));
    } else {
        assert((a + b).drop_last() =~= a + b.drop_last());
        words_add_up(a, b.drop_last());
        assert(words_of_all(a + b) =~= words_of_all(a) + words_of_all(b));
    }
}

/// Whether a text holds no character of a class.
pub open spec fn free_of(s: Seq<char>, k: Class) -> bool {
    forall|i: int| 0 <= i < s.len() ==> !k.has(#[trigger] s[i])
}

/// A text without a mark is its only piece.
pub proof fn lemma_one_piece(s: Seq<char>, k: Class)
    requires
        free_of(s, k),
    ensures
        pieces(s, k) == seq![s],
    decreases s.len(),
{
    if s.len() == 0 {
        assert(s =~= Seq::<char>::empty());
        assert(pieces(s, k) =~= seq![s]);
    } else {
        let d = s.drop_last();
        assert forall|i: int| 0 <= i < d.len() implies !k.has(#[trigger] d[i]) by {
            assert(d[i] == s[i]);
        }
        lemma_one_piece(d, k);
        assert(!k.has(s[s.len() - 1]));
        assert(d.push(s.last()) =~= s);
        assert(pieces(s, k) =~= seq![s]);
    }
}

/// A text without white space is its only word.
pub proof fn plain_texts_are_words(s: Seq<char>)
    requires
        s.len() > 0,
        free_of(s, Class::Blank),
    ensures
        words_of(s) == seq![s],
{
    lemma_one_piece(s, Class::Blank);
    assert(seq![s].drop_last() =~= Seq::<Seq<char>>::empty());
    assert(nonempty(seq![s].drop_last()) =~= Seq::<Seq<char>>::empty());
    assert(words_of(s) =~= seq![s]);
}

proof fn lemma_pieces_lie_in(s: Seq<char>, k: Class)
    ensures
        edge::ends(s, pieces(s, k).last()),
        forall|i: int|
            0 <= i < pieces(s, k).len() ==> edge::includes(s, #[trigger] pieces(s, k)[i])
                && free_of(pieces(s, k)[i], k),
    decreases s.len(),
{
    lemma_pieces_len(s, k);
    let all = pieces(s, k);
    if s.len() == 0 {
        assert(s.subrange(0, 0) =~= all[0]);
        assert(edge::occurs_at(s, all[0], 0));
    } else {
        let d = s.drop_last();
        let before = pieces(d, k);
        lemma_pieces_lie_in(d, k);
        lemma_pieces_len(d, k);
        if k.has(s.last()) {
            assert(s.subrange(s.len() as int, s.len() as int) =~= Seq::<char>::empty());
        } else {
            let old_piece = before.last();
            let n = d.len() - old_piece.len();
            assert(d.subrange(n, d.len() as int) == old_piece);
            assert(s.subrange(n, s.len() as int) =~= old_piece.push(s.last()));
        }
        assert(edge::ends(s, all.last()));
        assert forall|i: int| 0 <= i < all.len() implies edge::includes(s, #[trigger] all[i])
            && free_of(all[i], k) by {
            if i < all.len() - 1 {
                assert(all[i] == before[i]);
                let at = choose|at: int| edge::occurs_at(d, before[i], at);
                assert(s.subrange(at, at + before[i].len()) =~= d.subrange(
                    at,
                    at + before[i].len(),
                ));
                assert(edge::occurs_at(s, all[i], at));
            } else {
                assert(edge::occurs_at(s, all[i], s.len() - all[i].len()));
                if !k.has(s.last()) {
                    assert(free_of(before[before.len() - 1], k));
                    assert forall|j: int| 0 <= j < all[i].len() implies !k.has(
                        #[trigger] all[i][j],
                    ) by {
                        if j < before.last().len() {
                            assert(all[i][j] == before.last()[j]);
                        }
                    }
                }
            }
        }
    }
}

proof fn lemma_nonempty_among(parts: Seq<Seq<char>>)
    ensures
        forall|i: int|
            0 <= i < nonempty(parts).len() ==> (#[trigger] nonempty(parts)[i]).len() > 0
                && parts.contains(nonempty(parts)[i]),
    decreases parts.len(),
{
    if parts.len() > 0 {
        let fewer = parts.drop_last();
        let kept = nonempty(fewer);
        lemma_nonempty_among(fewer);
        assert forall|i: int| 0 <= i < nonempty(parts).len() implies (#[trigger] nonempty(
            parts,
        )[i]).len() > 0 && parts.contains(nonempty(parts)[i]) by {
            if i < kept.len() {
                assert(nonempty(parts)[i] == kept[i]);
                let j = choose|j: int| 0 <= j < fewer.len() && fewer[j] == kept[i];
                assert(parts[j] == kept[i]);
            } else {
                assert(parts[parts.len() - 1] == nonempty(parts)[i]);
            }
        }
    }
}

/// A word is not empty, holds no white space and stands in its text.
pub proof fn words_stand_in_their_text(s: Seq<char>)
    ensures
        forall|i: int|
            0 <= i < words_of(s).len() ==> (#[trigger] words_of(s)[i]).len() > 0 && free_of(
                words_of(s)[i],
                Class::Blank,
            ) && edge::includes(s, words_of(s)[i]),
{
    let all = pieces(s, Class::Blank);
    lemma_pieces_lie_in(s, Class::Blank);
    lemma_nonempty_among(all);
    assert forall|i: int| 0 <= i < words_of(s).len() implies (#[trigger] words_of(s)[i]).len() > 0
        && free_of(words_of(s)[i], Class::Blank) && edge::includes(s, words_of(s)[i]) by {
        let w = words_of(s)[i];
        let j = choose|j: int| 0 <= j < all.len() && all[j] == w;
        assert(edge::includes(s, all[j]));
    }
}

/// A line that is closed is the only line of its text.
pub proof fn lemma_single_line(s: Seq<char>)
    requires
        !s.contains('\n'),
        !s.contains('\r'),
    ensures
        lines_of(s.push('\n')) == seq![s],
{
    let k = Class::Only('\n');
    let none = Seq::<char>::empty();
    assert(none + s =~= s);
    lemma_pieces_append(none, s, '\n');
    assert(pieces(none, k) =~= seq![none]);
    assert(pieces(s, k) =~= seq![s]);
    assert(s.push('\n').drop_last() =~= s);
    assert(without_return(s) == s) by {
        if s.len() > 0 {
            assert(s[s.len() - 1] == s.last());
        }
    }
    assert(lines_of(s.push('\n')) =~= seq![s]);
}

} // verus!
