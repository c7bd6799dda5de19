use crate::text::compose;
use vstd::prelude::*;

verus! {

/// A JSON value.
pub enum Json {
    Null,
    Bool(bool),
    /// A whole number that is not negative.
    Unsigned(u64),
    /// A negative whole number.
    Negative(i64),
    /// Any other number, as it is printed.
    Decimal(String),
    Text(String),
    Array(Vec<Json>),
    /// Keys with their values; no key occurs twice.
    Object(Vec<(String, Json)>),
}

/// A JSON value as a mathematical tree.
pub enum JsonView {
    Null,
    Bool(bool),
    Unsigned(u64),
    Negative(i64),
    Decimal(Seq<char>),
    Text(Seq<char>),
    Array(Seq<JsonView>),
    Object(Seq<(Seq<char>, JsonView)>),
}

/// The tree of a JSON value.
pub open spec fn tree(j: Json) -> JsonView
    decreases j,
{
    match j {
        Json::Null => JsonView::Null,
        Json::Bool(b) => JsonView::Bool(b),
        Json::Unsigned(n) => JsonView::Unsigned(n),
        Json::Negative(n) => JsonView::Negative(n),
        Json::Decimal(s) => JsonView::Decimal(s@),
        Json::Text(s) => JsonView::Text(s@),
        Json::Array(v) => JsonView::Array(
            Seq::new(
                v@.len(),
                |i: int|
                    if 0 <= i < v@.len() {
                        tree(v@[i])
                    } else {
                        JsonView::Null
                    },
            ),
        ),
        Json::Object(v) => JsonView::Object(
            Seq::new(
                v@.len(),
                |i: int|
                    if 0 <= i < v@.len() {
                        (v@[i].0@, tree(v@[i].1))
                    } else {
                        (Seq::empty(), JsonView::Null)
                    },
            ),
        ),
    }
}

impl View for Json {
    type V = JsonView;

    open spec fn view(&self) -> JsonView {
        tree(*self)
    }
}

/// The value that the first pair with the given key holds.
pub open spec fn lookup(pairs: Seq<(Seq<char>, JsonView)>, key: Seq<char>) -> Option<JsonView>
    decreases pairs.len(),
{
    if pairs.len() == 0 {
        None
    } else if pairs[0].0 == key {
        Some(pairs[0].1)
    } else {
        lookup(pairs.skip(1), key)
    }
}

impl JsonView {
    /// What an object holds under a key.
    pub open spec fn field(self, key: Seq<char>) -> Option<JsonView> {
        match self {
            JsonView::Object(pairs) => lookup(pairs, key),
            _ => None,
        }
    }

    /// The text, if the value is one.
    pub open spec fn text(self) -> Option<Seq<char>> {
        match self {
            JsonView::Text(s) => Some(s),
            _ => None,
        }
    }

    /// What the value of a first key holds under a second one.
    pub open spec fn inner(self, outer: Seq<char>, key: Seq<char>) -> Option<JsonView> {
        match self.field(outer) {
            Some(v) => v.field(key),
            None => None,
        }
    }

    /// The text that the value holds under a key.
    pub open spec fn text_at(self, key: Seq<char>) -> Option<Seq<char>> {
        match self.field(key) {
            Some(v) => v.text(),
            None => None,
        }
    }

    /// The text that the value of a first key holds under a second one.
    pub open spec fn inner_text(self, outer: Seq<char>, key: Seq<char>) -> Option<Seq<char>> {
        match self.field(outer) {
            Some(v) => v.text_at(key),
            None => None,
        }
    }
}

/// A key that occurs once is looked up where it stands.
pub proof fn lookups_find(pairs: Seq<(Seq<char>, JsonView)>, i: int)
    requires
        0 <= i < pairs.len(),
        forall|j: int| 0 <= j < i ==> (#[trigger] pairs[j]).0 != pairs[i].0,
    ensures
        lookup(pairs, pairs[i].0) == Some(pairs[i].1),
    decreases i,
{
    if i > 0 {
        assert(pairs[0].0 != pairs[i].0);
        let rest = pairs.skip(1);
        assert forall|j: int| 0 <= j < i - 1 implies (#[trigger] rest[j]).0 != rest[i - 1].0 by {
            assert(rest[j] == pairs[j + 1]);
        }
        lookups_find(rest, i - 1);
    }
}

/// The tree of an optional value.
pub open spec fn opt_view(o: Option<&Json>) -> Option<JsonView> {
    match o {
        Some(j) => Some(j@),
        None => None,
    }
}

/// The trees of a list of values.
pub open spec fn views(v: Seq<Json>) -> Seq<JsonView> {
    Seq::new(v.len(), |i: int| v[i]@)
}

/// The text of an optional borrowed string.
pub open spec fn opt_str(o: Option<&str>) -> Option<Seq<char>> {
    match o {
        Some(s) => Some(s@),
        None => None,
    }
}

impl Json {
    /// What an object holds under a key; nothing for any other value.
    pub fn field(&self, key: &str) -> (r: Option<&Json>)
        ensures
            opt_view(r) == self@.field(key@),
    {
        match self {
            Json::Object(v) => {
                let ghost all = self@->Object_0;
                let mut i: usize = 0;
                assert(all.skip(0) =~= all);
                while i < v.len()
                    invariant
                        i <= v@.len(),
                        all.len() == v@.len(),
                        forall|k: int|
                            0 <= k < v@.len() ==> #[trigger] all[k] == (v@[k].0@, v@[k].1@),
                        lookup(all, key@) == lookup(all.skip(i as int), key@),
                        self@.field(key@) == lookup(all, key@),
                    decreases v@.len() - i,
                {
                    assert(all.skip(i as int)[0] == all[i as int]);
                    if compose::same(v[i].0.as_str(), key) {
                        return Some(&v[i].1);
                    }
                    assert(all.skip(i as int).skip(1) =~= all.skip(i + 1));
                    i += 1;
                }
                None
            },
            _ => None,
        }
    }

    /// The text, if the value is one.
    pub fn as_str(&self) -> (r: Option<&str>)
        ensures
            opt_str(r) == self@.text(),
    {
        match self {
            Json::Text(s) => Some(s.as_str()),
            _ => None,
        }
    }

    /// The elements, if the value is an array.
    pub fn as_array(&self) -> (r: Option<&Vec<Json>>)
        ensures
            match r {
                Some(v) => self@ == JsonView::Array(views(v@)),
                None => !(self@ is Array),
            },
    {
        match self {
            Json::Array(v) => {
                assert(self@->Array_0 =~= views(v@));
                Some(v)
            },
            _ => None,
        }
    }

    /// What the value of a first key holds under a second one.
    pub fn inner(&self, outer: &str, key: &str) -> (r: Option<&Json>)
        ensures
            opt_view(r) == self@.inner(outer@, key@),
    {
        match self.field(outer) {
            Some(v) => v.field(key),
            None => None,
        }
    }

    /// The text that the value holds under a key.
    pub fn text_at(&self, key: &str) -> (r: Option<&str>)
        ensures
            opt_str(r) == self@.text_at(key@),
    {
        match self.field(key) {
            Some(v) => v.as_str(),
            None => None,
        }
    }

    /// The text that the value of a first key holds under a second one.
    pub fn inner_text(&self, outer: &str, key: &str) -> (r: Option<&str>)
        ensures
            opt_str(r) == self@.inner_text(outer@, key@),
    {
        match self.field(outer) {
            Some(v) => v.text_at(key),
            None => None,
        }
    }
}

/// The JSON values of `serde_json`.
#[verifier::external_type_specification]
#[verifier::external_body]
pub struct ExValue(serde_json::Value);

/// A JSON value of `serde_json` taken apart by one level.
pub enum Part {
    Null,
    Bool(bool),
    Unsigned(u64),
    Negative(i64),
    Decimal(String),
    Text(String),
    Array(Vec<serde_json::Value>),
    Object(Vec<(String, serde_json::Value)>),
}

/// A JSON value taken apart by one level, as mathematical values.
pub enum PartView {
    Null,
    Bool(bool),
    Unsigned(u64),
    Negative(i64),
    Decimal(Seq<char>),
    Text(Seq<char>),
    Array(Seq<serde_json::Value>),
    Object(Seq<(Seq<char>, serde_json::Value)>),
}

/// The members of an object that was taken apart.
pub open spec fn members(v: Seq<(String, serde_json::Value)>) -> Seq<
    (Seq<char>, serde_json::Value),
> {
    Seq::new(v.len(), |i: int| (v[i].0@, v[i].1))
}

impl View for Part {
    type V = PartView;

    open spec fn view(&self) -> PartView {
        match *self {
            Part::Null => PartView::Null,
            Part::Bool(b) => PartView::Bool(b),
            Part::Unsigned(n) => PartView::Unsigned(n),
            Part::Negative(n) => PartView::Negative(n),
            Part::Decimal(s) => PartView::Decimal(s@),
            Part::Text(s) => PartView::Text(s@),
            Part::Array(v) => PartView::Array(v@),
            Part::Object(v) => PartView::Object(members(v@)),
        }
    }
}

/// What `serde_json` reads from a text of bytes.
pub uninterp spec fn value_read(bytes: Seq<u8>) -> Option<serde_json::Value>;

/// What a `serde_json` value is, taken apart by one level.
pub uninterp spec fn value_part(v: serde_json::Value) -> PartView;

/// The `serde_json` value that is put together from one level.
pub uninterp spec fn part_value(p: PartView) -> serde_json::Value;

/// The compact notation that `serde_json` gives a value.
pub uninterp spec fn value_text(v: serde_json::Value) -> Seq<char>;

/// Calls `serde_json::from_slice` for any JSON value. Claimed: what is read, or that nothing
/// can be read, depends on the bytes alone.
#[verifier::external_body]
fn read_value(bytes: &Vec<u8>) -> (r: Option<serde_json::Value>)
    ensures
        r == value_read(bytes@),
{
    serde_json::from_slice::<serde_json::Value>(bytes.as_slice()).ok()
}

/// Takes a `serde_json::Value` apart, one variant for one; a number is told by `as_u64`, else by
/// `as_i64`, else as it is printed, and a map by its entries in their order. Claimed: the part
/// depends on the value alone.
#[verifier::external_body]
fn open_value(v: serde_json::Value) -> (r: Part)
    ensures
        r@ == value_part(v),
{
    match v {
        serde_json::Value::Null => Part::Null,
        serde_json::Value::Bool(b) => Part::Bool(b),
        serde_json::Value::Number(n) => match (n.as_u64(), n.as_i64()) {
            (Some(u), _) => Part::Unsigned(u),
            (None, Some(i)) => Part::Negative(i),
            (None, None) => Part::Decimal(n.to_string()),
        },
        serde_json::Value::String(s) => Part::Text(s),
        serde_json::Value::Array(a) => Part::Array(a),
        serde_json::Value::Object(o) => Part::Object(o.into_iter().collect()),
    }
}

/// Puts a `serde_json::Value` together, one variant for one. A number that is not whole is read
/// back from its notation with `serde_json::from_str`: any other JSON in its place becomes the
/// value that it denotes, and what is no JSON becomes `null`. Claimed: the value depends on the
/// part alone.
#[verifier::external_body]
fn close_value(p: Part) -> (r: serde_json::Value)
    ensures
        r == part_value(p@),
{
    match p {
        Part::Null => serde_json::Value::Null,
        Part::Bool(b) => serde_json::Value::Bool(b),
        Part::Unsigned(n) => serde_json::Value::from(n),
        Part::Negative(n) => serde_json::Value::from(n),
        Part::Decimal(s) => serde_json::from_str(&s).unwrap_or(serde_json::Value::Null),
        Part::Text(s) => serde_json::Value::String(s),
        Part::Array(v) => serde_json::Value::Array(v),
        Part::Object(v) => serde_json::Value::Object(v.into_iter().collect()),
    }
}

/// Prints a `serde_json::Value` without spaces, as `serde_json::to_string` does. Claimed: the
/// text depends on the value alone, and is a single line, since line feeds and carriage returns
/// are written as escapes inside texts and not at all outside.
#[verifier::external_body]
fn print_value(v: &serde_json::Value) -> (r: String)
    ensures
        r@ == value_text(*v),
        !r@.contains('\n'),
        !r@.contains('\r'),
{
    v.to_string()
}

/// How many levels a document can have.
pub const MAX_DEPTH: u64 = 128;

/// The tree of a value, if it has no more than `depth` levels.
pub open spec fn tree_of(v: serde_json::Value, depth: nat) -> Option<JsonView>
    decreases depth, 0nat,
{
    if depth == 0 {
        None
    } else {
        match value_part(v) {
            PartView::Null => Some(JsonView::Null),
            PartView::Bool(b) => Some(JsonView::Bool(b)),
            PartView::Unsigned(n) => Some(JsonView::Unsigned(n)),
            PartView::Negative(n) => Some(JsonView::Negative(n)),
            PartView::Decimal(s) => Some(JsonView::Decimal(s)),
            PartView::Text(s) => Some(JsonView::Text(s)),
            PartView::Array(a) => match trees_of(a, (depth - 1) as nat) {
                Some(t) => Some(JsonView::Array(t)),
                None => None,
            },
            PartView::Object(o) => match pairs_of(o, (depth - 1) as nat) {
                Some(t) => Some(JsonView::Object(t)),
                None => None,
            },
        }
    }
}

/// The trees of some values, if none has more than `depth` levels.
pub open spec fn trees_of(a: Seq<serde_json::Value>, depth: nat) -> Option<Seq<JsonView>>
    decreases depth, a.len() + 1,
{
    if a.len() == 0 {
        Some(Seq::empty())
    } else {
        match (trees_of(a.drop_last(), depth), tree_of(a.last(), depth)) {
            (Some(before), Some(t)) => Some(before.push(t)),
            _ => None,
        }
    }
}

/// The trees of some members, if none has more than `depth` levels.
pub open spec fn pairs_of(o: Seq<(Seq<char>, serde_json::Value)>, depth: nat) -> Option<
    Seq<(Seq<char>, JsonView)>,
>
    decreases depth, o.len() + 1,
{
    if o.len() == 0 {
        Some(Seq::empty())
    } else {
        match (pairs_of(o.drop_last(), depth), tree_of(o.last().1, depth)) {
            (Some(before), Some(t)) => Some(before.push((o.last().0, t))),
            _ => None,
        }
    }
}

proof fn lemma_deep_array(a: Seq<serde_json::Value>, depth: nat, n: int)
    requires
        0 <= n <= a.len(),
        trees_of(a.take(n), depth) is None,
    ensures
        trees_of(a, depth) is None,
    decreases a.len() - n,
{
    if n < a.len() {
        assert(a.take(n + 1).drop_last() =~= a.take(n));
        lemma_deep_array(a, depth, n + 1);
    } else {
        assert(a.take(n) =~= a);
    }
}

proof fn lemma_deep_object(o: Seq<(Seq<char>, serde_json::Value)>, depth: nat, n: int)
    requires
        0 <= n <= o.len(),
        pairs_of(o.take(n), depth) is None,
    ensures
        pairs_of(o, depth) is None,
    decreases o.len() - n,
{
    if n < o.len() {
        assert(o.take(n + 1).drop_last() =~= o.take(n));
        lemma_deep_object(o, depth, n + 1);
    } else {
        assert(o.take(n) =~= o);
    }
}

fn from_value(v: serde_json::Value, depth: u64) -> (r: Option<Json>)
    ensures
        match r {
            Some(j) => tree_of(v, depth as nat) == Some(j@),
            None => tree_of(v, depth as nat) is None,
        },
    decreases depth,
{
    if depth == 0 {
        return None;
    }
    match open_value(v) {
        Part::Null => Some(Json::Null),
        Part::Bool(b) => Some(Json::Bool(b)),
        Part::Unsigned(n) => Some(Json::Unsigned(n)),
        Part::Negative(n) => Some(Json::Negative(n)),
        Part::Decimal(s) => Some(Json::Decimal(s)),
        Part::Text(s) => Some(Json::Text(s)),
        Part::Array(a) => {
            let ghost all = a@;
            let mut out = no_values();
            assert(all.take(0) =~= Seq::<serde_json::Value>::empty());
            for x in it: a
                invariant
                    it.seq() == all,
                    depth > 0,
                    value_part(v) == PartView::Array(all),
                    trees_of(all.take(it.index() as int), (depth - 1) as nat) == Some(views(out@)),
            {
                let ghost k = it.index() as int;
                assert(all.take(k + 1).drop_last() =~= all.take(k));
                assert(all.take(k + 1).last() == x);
                match from_value(x, depth - 1) {
                    Some(j) => push_value(&mut out, j),
                    None => {
                        proof {
                            lemma_deep_array(all, (depth - 1) as nat, k + 1);
                        }
                        return None;
                    },
                }
            }
            assert(all.take(all.len() as int) =~= all);
            Some(array(out))
        },
        Part::Object(o) => {
            let ghost all = members(o@);
            let ghost raw = o@;
            let mut out = no_pairs();
            assert(all.take(0) =~= Seq::<(Seq<char>, serde_json::Value)>::empty());
            for x in it: o
                invariant
                    it.seq() == raw,
                    all == members(raw),
                    depth > 0,
                    value_part(v) == PartView::Object(all),
                    pairs_of(all.take(it.index() as int), (depth - 1) as nat) == Some(
                        pair_views(out@),
                    ),
            {
                let ghost k = it.index() as int;
                assert(all.take(k + 1).drop_last() =~= all.take(k));
                assert(all.take(k + 1).last() == (x.0@, x.1));
                let (key, value) = x;
                match from_value(value, depth - 1) {
                    Some(j) => push_pair(&mut out, key.as_str(), j),
                    None => {
                        proof {
                            lemma_deep_object(all, (depth - 1) as nat, k + 1);
                        }
                        return None;
                    },
                }
            }
            assert(all.take(all.len() as int) =~= all);
            Some(object(out))
        },
    }
}

/// The `serde_json` value of a tree.
pub open spec fn tree_value(t: JsonView) -> serde_json::Value
    decreases t,
{
    part_value(
        match t {
            JsonView::Null => PartView::Null,
            JsonView::Bool(b) => PartView::Bool(b),
            JsonView::Unsigned(n) => PartView::Unsigned(n),
            JsonView::Negative(n) => PartView::Negative(n),
            JsonView::Decimal(s) => PartView::Decimal(s),
            JsonView::Text(s) => PartView::Text(s),
            JsonView::Array(a) => PartView::Array(array_values(a)),
            JsonView::Object(o) => PartView::Object(object_values(o)),
        },
    )
}

/// The `serde_json` values of some trees.
pub open spec fn array_values(a: Seq<JsonView>) -> Seq<serde_json::Value>
    decreases a,
{
    if a.len() == 0 {
        Seq::empty()
    } else {
        array_values(a.subrange(0, a.len() - 1)).push(tree_value(a[a.len() - 1]))
    }
}

/// The `serde_json` values of some members.
pub open spec fn object_values(o: Seq<(Seq<char>, JsonView)>) -> Seq<
    (Seq<char>, serde_json::Value),
>
    decreases o,
{
    if o.len() == 0 {
        Seq::empty()
    } else {
        object_values(o.subrange(0, o.len() - 1)).push(
            (o[o.len() - 1].0, tree_value(o[o.len() - 1].1)),
        )
    }
}

fn to_value(j: &Json) -> (r: serde_json::Value)
    ensures
        r == tree_value(j@),
    decreases j,
{
    match j {
        Json::Null => close_value(Part::Null),
        Json::Bool(b) => close_value(Part::Bool(*b)),
        Json::Unsigned(n) => close_value(Part::Unsigned(*n)),
        Json::Negative(n) => close_value(Part::Negative(*n)),
        Json::Decimal(s) => close_value(Part::Decimal(s.clone())),
        Json::Text(s) => close_value(Part::Text(s.clone())),
        Json::Array(a) => {
            let ghost all = views(a@);
            let mut out: Vec<serde_json::Value> = Vec::new();
            let mut i: usize = 0;
            assert(all.take(0) =~= Seq::<JsonView>::empty());
            while i < a.len()
                invariant
                    i <= a@.len(),
                    *j == Json::Array(*a),
                    all == views(a@),
                    out@ == array_values(all.take(i as int)),
                decreases a@.len() - i,
            {
                assert(all.take(i + 1).subrange(0, i as int) =~= all.take(i as int));
                assert(all.take(i + 1)[i as int] == a@[i as int]@);
                assert(decreases_to!(*j => j->Array_0));
                assert(decreases_to!(*a => a@));
                assert(decreases_to!(a@ => a@[i as int]));
                out.push(to_value(&a[i]));
                i += 1;
            }
            assert(all.take(i as int) =~= all);
            assert(j@->Array_0 =~= all);
            close_value(Part::Array(out))
        },
        Json::Object(o) => {
            let ghost all = pair_views(o@);
            let mut out: Vec<(String, serde_json::Value)> = Vec::new();
            let mut i: usize = 0;
            assert(all.take(0) =~= Seq::<(Seq<char>, JsonView)>::empty());
            assert(members(out@) =~= object_values(all.take(0)));
            while i < o.len()
                invariant
                    i <= o@.len(),
                    *j == Json::Object(*o),
                    all == pair_views(o@),
                    members(out@) == object_values(all.take(i as int)),
                decreases o@.len() - i,
            {
                let ghost before = members(out@);
                assert(all.take(i + 1).subrange(0, i as int) =~= all.take(i as int));
                assert(all.take(i + 1)[i as int] == (o@[i as int].0@, o@[i as int].1@));
                assert(decreases_to!(*j => j->Object_0));
                assert(decreases_to!(*o => o@));
                assert(decreases_to!(o@ => o@[i as int]));
                assert(decreases_to!(o@[i as int] => o@[i as int].1));
                let v = to_value(&o[i].1);
                out.push((o[i].0.clone(), v));
                assert(members(out@) =~= before.push((o@[i as int].0@, v)));
                i += 1;
            }
            assert(all.take(i as int) =~= all);
            assert(j@->Object_0 =~= all);
            close_value(Part::Object(out))
        },
    }
}

/// What a text of bytes says in JSON.
pub open spec fn document(bytes: Seq<u8>) -> Option<JsonView> {
    match value_read(bytes) {
        Some(v) => tree_of(v, MAX_DEPTH as nat),
        None => None,
    }
}

/// Reads a JSON document.
pub fn read(bytes: &Vec<u8>) -> (r: Option<Json>)
    ensures
        match r {
            Some(j) => document(bytes@) == Some(j@),
            None => document(bytes@) is None,
        },
{
    match read_value(bytes) {
        Some(v) => from_value(v, MAX_DEPTH),
        None => None,
    }
}

/// The compact notation of a tree.
pub open spec fn notation(t: JsonView) -> Seq<char> {
    value_text(tree_value(t))
}

/// Writes a value in compact notation, on a single line.
pub fn write(j: &Json) -> (r: String)
    ensures
        r@ == notation(j@),
        !r@.contains('\n'),
        !r@.contains('\r'),
{
    print_value(&to_value(j))
}

/// A text value.
pub fn text_value(s: &str) -> (r: Json)
    ensures
        r@ == JsonView::Text(s@),
{
    Json::Text(s.to_owned())
}

/// The tree of an object under construction.
pub open spec fn pair_views(v: Seq<(String, Json)>) -> Seq<(Seq<char>, JsonView)> {
    Seq::new(v.len(), |i: int| (v[i].0@, v[i].1@))
}

/// Adds a key with its value.
pub fn push_pair(v: &mut Vec<(String, Json)>, key: &str, value: Json)
    ensures
        pair_views(final(v)@) == pair_views(old(v)@).push((key@, value@)),
{
    let ghost before = v@;
    v.push((key.to_owned(), value));
    assert(pair_views(v@) =~= pair_views(before).push((key@, value@)));
}

/// No pairs.
pub fn no_pairs() -> (r: Vec<(String, Json)>)
    ensures
        pair_views(r@) == Seq::<(Seq<char>, JsonView)>::empty(),
{
    let r: Vec<(String, Json)> = Vec::new();
    assert(pair_views(r@) =~= Seq::<(Seq<char>, JsonView)>::empty());
    r
}

/// An object of the given pairs.
pub fn object(v: Vec<(String, Json)>) -> (r: Json)
    ensures
        r@ == JsonView::Object(pair_views(v@)),
{
    let r = Json::Object(v);
    assert(r@->Object_0 =~= pair_views(v@));
    r
}

/// Adds a value to a list.
pub fn push_value(v: &mut Vec<Json>, value: Json)
    ensures
        views(final(v)@) == views(old(v)@).push(value@),
{
    let ghost before = v@;
    v.push(value);
    assert(views(v@) =~= views(before).push(value@));
}

/// No values.
pub fn no_values() -> (r: Vec<Json>)
    ensures
        views(r@) == Seq::<JsonView>::empty(),
{
    let r: Vec<Json> = Vec::new();
    assert(views(r@) =~= Seq::<JsonView>::empty());
    r
}

/// An array of the given values.
pub fn array(v: Vec<Json>) -> (r: Json)
    ensures
        r@ == JsonView::Array(views(v@)),
{
    let r = Json::Array(v);
    assert(r@->Array_0 =~= views(v@));
    r
}

/// The array of some texts.
pub open spec fn text_views(s: Seq<Seq<char>>) -> JsonView {
    JsonView::Array(s.map_values(|t: Seq<char>| JsonView::Text(t)))
}

/// An array of texts.
pub fn text_array(s: &Vec<String>) -> (r: Json)
    ensures
        r@ == text_views(compose::texts(s@)),
{
    let mut v = no_values();
    let ghost all = compose::texts(s@).map_values(|t: Seq<char>| JsonView::Text(t));
    let mut i: usize = 0;
    assert(all.take(0) =~= Seq::<JsonView>::empty());
    while i < s.len()
        invariant
            i <= s@.len(),
            all == compose::texts(s@).map_values(|t: Seq<char>| JsonView::Text(t)),
            views(v@) == all.take(i as int),
        decreases s@.len() - i,
    {
        push_value(&mut v, text_value(s[i].as_str()));
        assert(all[i as int] == JsonView::Text(s@[i as int]@));
        i += 1;
        assert(views(v@) =~= all.take(i as int));
    }
    assert(all.take(i as int) =~= all);
    array(v)
}

} // verus!
