use crate::text::class::Class;
use crate::text::{compose, edge, split};
use vstd::prelude::*;

verus! {

/// The path `b` as seen from the directory `a`.
pub open spec fn below(a: Seq<char>, b: Seq<char>) -> Seq<char> {
    if edge::begins(b, "/"@) {
        b
    } else if a.len() == 0 || a.last() == '/' {
        a + b
    } else {
        a + "/"@ + b
    }
}

/// The path `b` as seen from the directory `a`: an absolute path stays as it is.
pub fn join_path(a: &str, b: &str) -> (r: String)
    ensures
        r@ == below(a@, b@),
{
    if edge::starts_with(b, "/") {
        b.to_owned()
    } else {
        let cs = compose::chars_of(a);
        if cs.len() == 0 || cs[cs.len() - 1] == '/' {
            compose::concat(a, b)
        } else {
            compose::concat3(a, "/", b)
        }
    }
}

/// What follows the last slash of a path; all of it if there is none.
pub open spec fn base_name(s: Seq<char>) -> Seq<char> {
    match edge::cut_last(s, '/') {
        Some(p) => p.1,
        None => s,
    }
}

/// What follows the last slash of a path.
pub fn file_name(s: &str) -> (r: String)
    ensures
        r@ == base_name(s@),
{
    match edge::split_once_last(s, '/') {
        Some(p) => p.1,
        None => s.to_owned(),
    }
}

/// A base name has no slash, and the path ends with it.
pub proof fn base_name_is_last(s: Seq<char>)
    ensures
        !base_name(s).contains('/'),
        edge::ends(s, base_name(s)),
{
    edge::lemma_last_at(s, '/');
    let b = base_name(s);
    if s.contains('/') {
        let i = edge::last_at(s, '/');
        assert forall|k: int| 0 <= k < b.len() implies b[k] != '/' by {
            assert(b[k] == s[i + 1 + k]);
        }
        assert(s.subrange(s.len() - b.len(), s.len() as int) =~= b);
    } else {
        assert(s.subrange(0, s.len() as int) =~= s);
    }
}

/// A directory without symbolic links, from the root on: the names on the way to it.
pub struct DirPath {
    pub parts: Vec<String>,
}

impl View for DirPath {
    type V = Seq<Seq<char>>;

    open spec fn view(&self) -> Seq<Seq<char>> {
        compose::texts(self.parts@)
    }
}

/// Whether `a` is `b` or lies below it.
pub open spec fn within(a: Seq<Seq<char>>, b: Seq<Seq<char>>) -> bool {
    b.len() <= a.len() && a.take(b.len() as int) == b
}

/// The notation of a directory.
pub open spec fn shown(d: Seq<Seq<char>>) -> Seq<char> {
    "/"@ + compose::joined(d, "/"@)
}

impl DirPath {
    /// Whether the directory is `other` or lies below it.
    pub fn starts_with(&self, other: &DirPath) -> (r: bool)
        ensures
            r == within(self@, other@),
    {
        let ghost a = self@;
        let ghost b = other@;
        if other.parts.len() > self.parts.len() {
            return false;
        }
        let mut i: usize = 0;
        while i < other.parts.len()
            invariant
                a == self@,
                b == other@,
                i <= other.parts@.len() <= self.parts@.len(),
                forall|k: int| 0 <= k < i ==> a[k] == b[k],
            decreases other.parts@.len() - i,
        {
            assert(a[i as int] == self.parts@[i as int]@);
            assert(b[i as int] == other.parts@[i as int]@);
            if !compose::same(self.parts[i].as_str(), other.parts[i].as_str()) {
                assert(a.take(b.len() as int)[i as int] == a[i as int]);
                return false;
            }
            i += 1;
        }
        assert(a.take(b.len() as int) =~= b);
        true
    }

    /// Whether two directories are the same.
    pub fn equals(&self, other: &DirPath) -> (r: bool)
        ensures
            r == (self@ == other@),
    {
        if self.parts.len() != other.parts.len() {
            return false;
        }
        assert(self@.take(other@.len() as int) =~= self@);
        self.starts_with(other)
    }

    /// The notation of the directory.
    pub fn to_text(&self) -> (r: String)
        ensures
            r@ == shown(self@),
    {
        let inner = compose::join(&self.parts, "/");
        compose::concat("/", inner.as_str())
    }

    /// The directory of the given name below this one.
    pub fn child(&self, name: &str) -> (r: DirPath)
        ensures
            r@ == self@.push(name@),
    {
        let mut parts = compose::copy_texts(&self.parts);
        compose::push_text(&mut parts, name);
        DirPath { parts }
    }

    /// The names that lead from `base` to this directory.
    pub fn relative_to(&self, base: &DirPath) -> (r: Option<Vec<String>>)
        ensures
            match r {
                Some(v) => within(self@, base@) && compose::texts(v@) == self@.skip(
                    base@.len() as int,
                ),
                None => !within(self@, base@),
            },
    {
        if !self.starts_with(base) {
            return None;
        }
        let ghost all = self@;
        let n: usize = base.parts.len();
        let mut v = compose::no_texts();
        let mut i: usize = n;
        assert(all.subrange(n as int, n as int) =~= Seq::<Seq<char>>::empty());
        while i < self.parts.len()
            invariant
                all == self@,
                n <= i <= self.parts@.len(),
                compose::texts(v@) == all.subrange(n as int, i as int),
            decreases self.parts@.len() - i,
        {
            compose::push_text(&mut v, self.parts[i].as_str());
            i += 1;
            assert(compose::texts(v@) =~= all.subrange(n as int, i as int));
        }
        assert(all.subrange(n as int, i as int) =~= all.skip(n as int));
        Some(v)
    }
}

/// Those of some names that are neither empty nor a single dot.
pub open spec fn steps(parts: Seq<Seq<char>>) -> Seq<Seq<char>>
    decreases parts.len(),
{
    if parts.len() == 0 {
        Seq::empty()
    } else {
        let earlier = steps(parts.drop_last());
        if parts.last().len() == 0 || parts.last() == "."@ {
            earlier
        } else {
            earlier.push(parts.last())
        }
    }
}

/// The names on the way to the directory that an absolute path denotes.
pub open spec fn directory(s: Seq<char>) -> Seq<Seq<char>> {
    steps(split::pieces(s, Class::Only('/')))
}

/// Reads the notation of a directory.
pub fn parse_dir(s: &str) -> (r: DirPath)
    ensures
        r@ == directory(s@),
{
    let parts = split::split(s, Class::Only('/'));
    let ghost all = compose::texts(parts@);
    let mut kept = compose::no_texts();
    let mut i: usize = 0;
    while i < parts.len()
        invariant
            i <= parts@.len(),
            all == compose::texts(parts@),
            compose::texts(kept@) == steps(all.take(i as int)),
        decreases parts@.len() - i,
    {
        assert(all.take(i + 1).drop_last() =~= all.take(i as int));
        assert(all.take(i + 1).last() == parts@[i as int]@);
        if !parts[i].as_str().is_empty() && !compose::same(parts[i].as_str(), ".") {
            compose::push_text(&mut kept, parts[i].as_str());
        }
        i += 1;
    }
    assert(all.take(i as int) =~= all);
    DirPath { parts: kept }
}

/// Whether a text is one name on the way to a directory.
pub open spec fn is_step(name: Seq<char>) -> bool {
    name.len() > 0 && name != "."@ && !name.contains('/')
}

proof fn lemma_steps_both(a: Seq<Seq<char>>, b: Seq<Seq<char>>)
    ensures
        steps(a + b) == steps(a) + steps(b),
    decreases b.len(),
{
    if b.len() == 0 {
        assert(a + b =~= a);
        assert(steps(a) + steps(b) =~= steps(a));
    } else {
        assert((a + b).drop_last() =~= a + b.drop_last());
        lemma_steps_both(a, b.drop_last());
        assert(steps(a + b) =~= steps(a) + steps(b));
    }
}

proof fn lemma_no_steps()
    ensures
        directory(Seq::empty()) == Seq::<Seq<char>>::empty(),
{
    let none = Seq::<char>::empty();
    assert(split::pieces(none, Class::Only('/')) =~= seq![none]);
    assert(seq![none].drop_last() =~= Seq::<Seq<char>>::empty());
    assert(steps(seq![none].drop_last()) =~= Seq::<Seq<char>>::empty());
    assert(steps(seq![none]) =~= Seq::<Seq<char>>::empty());
}

/// The names on the way to a place below a directory are those of the directory, then those of the
/// place.
pub proof fn slashes_lead_down(a: Seq<char>, b: Seq<char>)
    ensures
        directory(a.push('/') + b) == directory(a) + directory(b),
{
    split::splitting_at_a_mark(a, '/', b, Class::Only('/'));
    lemma_steps_both(
        split::pieces(a, Class::Only('/')),
        split::pieces(b, Class::Only('/')),
    );
}

proof fn lemma_steps_are_names(parts: Seq<Seq<char>>)
    requires
        forall|i: int| 0 <= i < parts.len() ==> !(#[trigger] parts[i]).contains('/'),
    ensures
        forall|i: int| 0 <= i < steps(parts).len() ==> is_step(#[trigger] steps(parts)[i]),
    decreases parts.len(),
{
    if parts.len() > 0 {
        let fewer = parts.drop_last();
        assert forall|i: int| 0 <= i < fewer.len() implies !(#[trigger] fewer[i]).contains('/') by {
            assert(fewer[i] == parts[i]);
        }
        lemma_steps_are_names(fewer);
        assert(!parts[parts.len() - 1].contains('/'));
        assert forall|i: int| 0 <= i < steps(parts).len() implies is_step(
            #[trigger] steps(parts)[i],
        ) by {
            if i < steps(fewer).len() {
                assert(steps(parts)[i] == steps(fewer)[i]);
            }
        }
    }
}

/// Every name on the way to a directory is one.
pub proof fn directories_are_named(s: Seq<char>, i: int)
    requires
        0 <= i < directory(s).len(),
    ensures
        is_step(directory(s)[i]),
{
    split::splitting_loses_nothing(s, '/');
    lemma_steps_are_names(split::pieces(s, Class::Only('/')));
}

/// Names that are joined with slashes are read as the same names.
pub proof fn joined_names_are_read(names: Seq<Seq<char>>)
    requires
        forall|i: int| 0 <= i < names.len() ==> is_step(#[trigger] names[i]),
    ensures
        directory(compose::joined(names, "/"@)) == names,
    decreases names.len(),
{
    reveal_strlit("/");
    if names.len() == 0 {
        lemma_no_steps();
        assert(names =~= Seq::<Seq<char>>::empty());
    } else {
        let last = names.last();
        assert(is_step(names[names.len() - 1]));
        assert forall|i: int| 0 <= i < last.len() implies !Class::Only('/').has(
            #[trigger] last[i],
        ) by {
            if last[i] == '/' {
                assert(last.contains('/'));
            }
        }
        split::lemma_one_piece(last, Class::Only('/'));
        assert(seq![last].drop_last() =~= Seq::<Seq<char>>::empty());
        assert(steps(seq![last].drop_last()) =~= Seq::<Seq<char>>::empty());
        assert(directory(last) =~= seq![last]);
        if names.len() == 1 {
            assert(names =~= seq![last]);
        } else {
            let fewer = names.drop_last();
            assert forall|i: int| 0 <= i < fewer.len() implies is_step(#[trigger] fewer[i]) by {
                assert(fewer[i] == names[i]);
            }
            joined_names_are_read(fewer);
            let a = compose::joined(fewer, "/"@);
            assert(a + "/"@ + last =~= a.push('/') + last);
            slashes_lead_down(a, last);
            assert(fewer + seq![last] =~= names);
        }
    }
}

proof fn lemma_joined_begins(names: Seq<Seq<char>>)
    requires
        names.len() > 0,
        forall|i: int| 0 <= i < names.len() ==> is_step(#[trigger] names[i]),
    ensures
        compose::joined(names, "/"@).len() > 0,
        compose::joined(names, "/"@)[0] == names[0][0],
    decreases names.len(),
{
    assert(is_step(names[0]));
    if names.len() > 1 {
        let fewer = names.drop_last();
        assert forall|i: int| 0 <= i < fewer.len() implies is_step(#[trigger] fewer[i]) by {
            assert(fewer[i] == names[i]);
        }
        lemma_joined_begins(fewer);
    }
}

/// The way to names below a directory leads to the directory, and then on through all the names in
/// their order.
pub proof fn ways_lead_on(a: Seq<char>, names: Seq<Seq<char>>)
    requires
        forall|i: int| 0 <= i < names.len() ==> is_step(#[trigger] names[i]),
    ensures
        directory(below(a, compose::joined(names, "/"@))) == directory(a) + names,
{
    let b = compose::joined(names, "/"@);
    reveal_strlit("/");
    joined_names_are_read(names);
    lemma_no_steps();
    if names.len() > 0 {
        lemma_joined_begins(names);
        assert(is_step(names[0]));
        assert(b[0] != '/') by {
            if b[0] == '/' {
                assert(names[0].contains(names[0][0]));
            }
        }
    }
    assert(!edge::begins(b, "/"@)) by {
        if edge::begins(b, "/"@) {
            assert(b.subrange(0, 1)[0] == b[0]);
        }
    }
    if a.len() == 0 {
        assert(a =~= Seq::<char>::empty());
        assert(a + b =~= b);
        assert(directory(a) + names =~= names);
    } else if a.last() == '/' {
        let d = a.drop_last();
        assert(a =~= d.push('/') + Seq::<char>::empty());
        slashes_lead_down(d, Seq::empty());
        assert(directory(a) =~= directory(d));
        assert(a + b =~= d.push('/') + b);
        slashes_lead_down(d, b);
    } else {
        assert(a + "/"@ + b =~= a.push('/') + b);
        slashes_lead_down(a, b);
    }
}

/// The notation of a directory is read as the same directory.
pub proof fn shown_directories_are_read(d: Seq<Seq<char>>)
    requires
        forall|i: int| 0 <= i < d.len() ==> is_step(#[trigger] d[i]),
    ensures
        directory(shown(d)) == d,
{
    let none = Seq::<char>::empty();
    reveal_strlit("/");
    joined_names_are_read(d);
    lemma_no_steps();
    assert(shown(d) =~= none.push('/') + compose::joined(d, "/"@));
    slashes_lead_down(none, compose::joined(d, "/"@));
    assert(directory(none) + d =~= d);
}

/// A place below a directory is reached through the directory.
pub proof fn places_below_lead_on(a: Seq<char>, b: Seq<char>)
    requires
        !edge::begins(b, "/"@),
    ensures
        directory(below(a, b)) == directory(a) + directory(b),
{
    reveal_strlit("/");
    lemma_no_steps();
    if a.len() == 0 {
        assert(a =~= Seq::<char>::empty());
        assert(a + b =~= b);
        assert(directory(a) + directory(b) =~= directory(b));
    } else if a.last() == '/' {
        let d = a.drop_last();
        assert(a =~= d.push('/') + Seq::<char>::empty());
        slashes_lead_down(d, Seq::empty());
        assert(directory(a) =~= directory(d));
        assert(a + b =~= d.push('/') + b);
        slashes_lead_down(d, b);
    } else {
        assert(a + "/"@ + b =~= a.push('/') + b);
        slashes_lead_down(a, b);
    }
}

/// Slashes at the end of a path do not change where it leads.
pub proof fn trailing_slashes_do_not_count(s: Seq<char>)
    ensures
        directory(edge::right_trimmed(s, Class::Only('/'))) == directory(s),
    decreases s.len(),
{
    if s.len() > 0 && s.last() == '/' {
        let d = s.drop_last();
        lemma_no_steps();
        assert(s =~= d.push('/') + Seq::<char>::empty());
        slashes_lead_down(d, Seq::empty());
        assert(directory(s) =~= directory(d));
        trailing_slashes_do_not_count(d);
    }
}

/// A name leads one step down.
pub proof fn names_are_steps(name: Seq<char>)
    requires
        is_step(name),
    ensures
        directory(name) == seq![name],
{
    joined_names_are_read(seq![name]);
}

} // verus!
