use crate::text::compose;
use vstd::prelude::*;

verus! {

/// Whether `a` comes before `b` in the order of their code points.
pub open spec fn before(a: Seq<char>, b: Seq<char>) -> bool
    decreases b.len(),
{
    if b.len() == 0 {
        false
    } else if a.len() == 0 {
        true
    } else if a[0] != b[0] {
        a[0] < b[0]
    } else {
        before(a.skip(1), b.skip(1))
    }
}

/// Of two different texts exactly one comes before the other.
pub proof fn order_is_total(a: Seq<char>, b: Seq<char>)
    ensures
        before(a, b) || before(b, a) || a == b,
        !(before(a, b) && before(b, a)),
        !before(a, a),
    decreases a.len() + b.len(),
{
    lemma_irreflexive(a);
    if a.len() == 0 && b.len() == 0 {
        assert(a =~= b);
    } else if a.len() > 0 && b.len() > 0 {
        order_is_total(a.skip(1), b.skip(1));
        if a[0] == b[0] && a.skip(1) == b.skip(1) {
            assert(a =~= b) by {
                assert forall|i: int| 0 <= i < a.len() implies a[i] == b[i] by {
                    if i > 0 {
                        assert(a[i] == a.skip(1)[i - 1]);
                        assert(b[i] == b.skip(1)[i - 1]);
                    }
                }
                assert(a.len() == a.skip(1).len() + 1);
                assert(b.len() == b.skip(1).len() + 1);
            }
        }
    }
}

proof fn lemma_irreflexive(a: Seq<char>)
    ensures
        !before(a, a),
    decreases a.len(),
{
    if a.len() > 0 {
        lemma_irreflexive(a.skip(1));
    }
}

/// What comes before a text comes before all that follow it.
pub proof fn order_is_transitive(a: Seq<char>, b: Seq<char>, c: Seq<char>)
    requires
        before(a, b),
        before(b, c),
    ensures
        before(a, c),
    decreases a.len(),
{
    if a.len() > 0 && a[0] == b[0] && b[0] == c[0] {
        order_is_transitive(a.skip(1), b.skip(1), c.skip(1));
    }
}

/// Whether `a` comes before `b`.
pub fn precedes(a: &str, b: &str) -> (r: bool)
    ensures
        r == before(a@, b@),
{
    let x = compose::chars_of(a);
    let y = compose::chars_of(b);
    let mut i: usize = 0;
    assert(a@.skip(0) =~= a@);
    assert(b@.skip(0) =~= b@);
    while i < x.len() && i < y.len()
        invariant
            i <= x@.len(),
            i <= y@.len(),
            x@ == a@,
            y@ == b@,
            before(a@, b@) == before(a@.skip(i as int), b@.skip(i as int)),
        decreases x@.len() - i,
    {
        assert(a@.skip(i as int)[0] == x@[i as int]);
        assert(b@.skip(i as int)[0] == y@[i as int]);
        if x[i] != y[i] {
            return x[i] < y[i];
        }
        assert(a@.skip(i as int).skip(1) =~= a@.skip(i + 1));
        assert(b@.skip(i as int).skip(1) =~= b@.skip(i + 1));
        i += 1;
    }
    i < y.len()
}

/// Whether each text comes before the next ones.
pub open spec fn ascending(v: Seq<Seq<char>>) -> bool {
    forall|i: int, j: int| 0 <= i < j < v.len() ==> before(#[trigger] v[i], #[trigger] v[j])
}

/// Whether `r` holds what `v` holds, each text once and in ascending order.
pub open spec fn sorted_set(v: Seq<Seq<char>>, r: Seq<Seq<char>>) -> bool {
    &&& ascending(r)
    &&& forall|s: Seq<char>| #[trigger] r.contains(s) == v.contains(s)
}

/// At most one list holds given texts once and in ascending order.
pub proof fn sorted_set_is_unique(v: Seq<Seq<char>>, r: Seq<Seq<char>>, q: Seq<Seq<char>>)
    requires
        sorted_set(v, r),
        sorted_set(v, q),
    ensures
        r == q,
{
    lemma_agree(r, q, r.len() as int);
    lemma_agree(q, r, q.len() as int);
    assert(r =~= q);
}

proof fn lemma_agree(r: Seq<Seq<char>>, q: Seq<Seq<char>>, n: int)
    requires
        ascending(r),
        ascending(q),
        forall|s: Seq<char>| #[trigger] r.contains(s) == q.contains(s),
        0 <= n <= r.len(),
    ensures
        n <= q.len(),
        forall|i: int| 0 <= i < n ==> r[i] == q[i],
    decreases n,
{
    if n > 0 {
        lemma_agree(r, q, n - 1);
        let s = r[n - 1];
        assert(r.contains(s));
        let k = choose|k: int| 0 <= k < q.len() && q[k] == s;
        if k < n - 1 {
            assert(r[k] == q[k]);
            order_is_total(r[k], s);
            assert(false);
        }
        let t = q[n - 1];
        assert(q.contains(t));
        assert(r.contains(t));
        let m = choose|m: int| 0 <= m < r.len() && r[m] == t;
        if m < n - 1 {
            assert(q[m] == r[m]);
            order_is_total(q[m], t);
            assert(false);
        }
        if k > n - 1 {
            assert(before(t, s));
            if m > n - 1 {
                assert(before(s, t));
            }
            order_is_total(s, t);
            assert(false);
        }
    }
}

proof fn lemma_insert(r: Seq<Seq<char>>, k: int, s: Seq<char>)
    requires
        ascending(r),
        0 <= k <= r.len(),
        forall|i: int| 0 <= i < k ==> before(#[trigger] r[i], s),
        k < r.len() ==> before(s, r[k]),
    ensures
        ascending(r.insert(k, s)),
        forall|t: Seq<char>| #[trigger] r.insert(k, s).contains(t) == (r.contains(t) || t == s),
{
    let w = r.insert(k, s);
    assert forall|i: int, j: int| 0 <= i < j < w.len() implies before(
        #[trigger] w[i],
        #[trigger] w[j],
    ) by {
        if i == k {
            if j > k + 1 {
                order_is_transitive(s, r[k], r[j - 1]);
            }
        }
    }
    assert forall|t: Seq<char>| #[trigger] w.contains(t) == (r.contains(t) || t == s) by {
        if w.contains(t) {
            let i = choose|i: int| 0 <= i < w.len() && w[i] == t;
            if i < k {
                assert(r[i] == t);
            } else if i > k {
                assert(r[i - 1] == t);
            }
        }
        if r.contains(t) {
            let i = choose|i: int| 0 <= i < r.len() && r[i] == t;
            if i < k {
                assert(w[i] == t);
            } else {
                assert(w[i + 1] == t);
            }
        }
        assert(w[k] == s);
    }
}

/// Sorts texts and drops repetitions.
pub fn sort_dedup(v: &Vec<String>) -> (r: Vec<String>)
    ensures
        sorted_set(compose::texts(v@), compose::texts(r@)),
{
    let mut r = compose::no_texts();
    let ghost all = compose::texts(v@);
    let mut i: usize = 0;
    while i < v.len()
        invariant
            i <= v@.len(),
            all == compose::texts(v@),
            sorted_set(all.take(i as int), compose::texts(r@)),
        decreases v@.len() - i,
    {
        let ghost sorted = compose::texts(r@);
        let ghost s = v@[i as int]@;
        let mut k: usize = 0;
        while k < r.len() && precedes(r[k].as_str(), v[i].as_str())
            invariant
                i < v@.len(),
                k <= r@.len(),
                s == v@[i as int]@,
                sorted == compose::texts(r@),
                forall|j: int| 0 <= j < k ==> before(#[trigger] sorted[j], s),
            decreases r@.len() - k,
        {
            assert(sorted[k as int] == r@[k as int]@);
            k += 1;
        }
        assert(all.take(i + 1) =~= all.take(i as int).push(s));
        proof {
            assert forall|t: Seq<char>| #[trigger] all.take(i + 1).contains(t) == (all.take(
                i as int,
            ).contains(t) || t == s) by {
                if all.take(i as int).contains(t) {
                    let j = choose|j: int|
                        0 <= j < all.take(i as int).len() && all.take(i as int)[j] == t;
                    assert(all.take(i + 1)[j] == t);
                }
                assert(all.take(i + 1)[i as int] == s);
            }
        }
        if k < r.len() && compose::same(r[k].as_str(), v[i].as_str()) {
            assert(sorted[k as int] == s);
            assert(sorted.contains(s));
        } else {
            if k < r.len() {
                assert(sorted[k as int] == r@[k as int]@);
                proof {
                    order_is_total(s, sorted[k as int]);
                }
            }
            proof {
                lemma_insert(sorted, k as int, s);
            }
            r.insert(k, v[i].clone());
            assert(compose::texts(r@) =~= sorted.insert(k as int, s));
        }
        i += 1;
    }
    assert(all.take(i as int) =~= all);
    r
}

/// Where the key `k` goes among the ranked ones: behind all that do not follow it.
pub open spec fn slot(ranks: Seq<int>, keys: Seq<Seq<char>>, k: int) -> int
    decreases ranks.len(),
{
    if ranks.len() > 0 && before(keys[k], keys[ranks.last()]) {
        slot(ranks.drop_last(), keys, k)
    } else {
        ranks.len() as int
    }
}

/// The positions of the first `n` keys in ascending order of the keys, equal keys in the order
/// of their positions.
pub open spec fn ranking(keys: Seq<Seq<char>>, n: nat) -> Seq<int>
    decreases n,
{
    if n == 0 {
        Seq::empty()
    } else {
        let earlier = ranking(keys, (n - 1) as nat);
        earlier.insert(slot(earlier, keys, n - 1), n - 1)
    }
}

/// The positions of all keys in ascending order of the keys.
pub open spec fn stable_order(keys: Seq<Seq<char>>) -> Seq<int> {
    ranking(keys, keys.len())
}

/// Whether position `i` comes before position `j` by its key, or by itself where keys are equal.
pub open spec fn ranked_before(keys: Seq<Seq<char>>, i: int, j: int) -> bool {
    before(keys[i], keys[j]) || (keys[i] == keys[j] && i < j)
}

proof fn lemma_slot(ranks: Seq<int>, keys: Seq<Seq<char>>, k: int)
    ensures
        0 <= slot(ranks, keys, k) <= ranks.len(),
        forall|i: int|
            slot(ranks, keys, k) <= i < ranks.len() ==> before(keys[k], keys[#[trigger] ranks[i]]),
        slot(ranks, keys, k) > 0 ==> !before(keys[k], keys[ranks[slot(ranks, keys, k) - 1]]),
    decreases ranks.len(),
{
    if ranks.len() > 0 && before(keys[k], keys[ranks.last()]) {
        let fewer = ranks.drop_last();
        lemma_slot(fewer, keys, k);
        assert forall|i: int| slot(ranks, keys, k) <= i < ranks.len() implies before(
            keys[k],
            keys[#[trigger] ranks[i]],
        ) by {
            if i < fewer.len() {
                assert(fewer[i] == ranks[i]);
            }
        }
    }
}

/// A ranking holds each position once, in ascending order of the keys, and leaves positions
/// with equal keys in their order.
pub proof fn ranking_is_stable(keys: Seq<Seq<char>>, n: nat)
    requires
        n <= keys.len(),
    ensures
        ranking(keys, n).len() == n,
        forall|i: int| 0 <= i < n ==> #[trigger] ranking(keys, n).contains(i),
        forall|i: int| 0 <= i < n ==> 0 <= #[trigger] ranking(keys, n)[i] < n,
        forall|i: int, j: int|
            0 <= i < j < n ==> ranked_before(
                keys,
                #[trigger] ranking(keys, n)[i],
                #[trigger] ranking(keys, n)[j],
            ),
    decreases n,
{
    if n > 0 {
        let m = (n - 1) as nat;
        let old_ranks = ranking(keys, m);
        let k = m as int;
        ranking_is_stable(keys, m);
        lemma_slot(old_ranks, keys, k);
        let at = slot(old_ranks, keys, k);
        let ranks = ranking(keys, n);
        assert(ranks == old_ranks.insert(at, k));
        assert forall|i: int| 0 <= i < n implies #[trigger] ranks.contains(i) by {
            if i == k {
                assert(ranks[at] == i);
            } else {
                assert(old_ranks.contains(i));
                let p = choose|p: int| 0 <= p < old_ranks.len() && old_ranks[p] == i;
                if p < at {
                    assert(ranks[p] == i);
                } else {
                    assert(ranks[p + 1] == i);
                }
            }
        }
        assert forall|i: int, j: int| 0 <= i < j < n implies ranked_before(
            keys,
            #[trigger] ranks[i],
            #[trigger] ranks[j],
        ) by {
            if i < at && j == at {
                let last = old_ranks[at - 1];
                order_is_total(keys[k], keys[last]);
                if i < at - 1 {
                    assert(ranked_before(keys, old_ranks[i], old_ranks[at - 1]));
                    if before(keys[old_ranks[i]], keys[last]) && before(keys[last], keys[k]) {
                        order_is_transitive(keys[old_ranks[i]], keys[last], keys[k]);
                    }
                }
            } else if i == at {
                assert(before(keys[k], keys[old_ranks[j - 1]]));
            }
        }
    }
}

/// The positions of `keys` in ascending order of the keys, equal keys in the order of their
/// positions.
pub fn rank(keys: &Vec<String>) -> (r: Vec<usize>)
    ensures
        r@.map_values(|i: usize| i as int) == stable_order(compose::texts(keys@)),
        r@.len() == keys@.len(),
        forall|i: int| 0 <= i < r@.len() ==> #[trigger] r@[i] < keys@.len(),
{
    let mut r: Vec<usize> = Vec::new();
    let ghost all = compose::texts(keys@);
    let mut n: usize = 0;
    assert(r@.map_values(|i: usize| i as int) =~= ranking(all, 0));
    while n < keys.len()
        invariant
            n <= keys@.len(),
            all == compose::texts(keys@),
            r@.len() == n,
            r@.map_values(|i: usize| i as int) == ranking(all, n as nat),
            forall|i: int| 0 <= i < r@.len() ==> #[trigger] r@[i] < n,
        decreases keys@.len() - n,
    {
        let ghost ranks = r@.map_values(|i: usize| i as int);
        let mut k: usize = r.len();
        assert(ranks.take(k as int) =~= ranks);
        while k > 0 && precedes(keys[n].as_str(), keys[r[k - 1]].as_str())
            invariant
                n < keys@.len(),
                all == compose::texts(keys@),
                r@.len() == n,
                k <= r@.len(),
                ranks == r@.map_values(|i: usize| i as int),
                forall|i: int| 0 <= i < r@.len() ==> #[trigger] r@[i] < n,
                slot(ranks, all, n as int) == slot(ranks.take(k as int), all, n as int),
            decreases k,
        {
            assert(ranks.take(k as int).drop_last() =~= ranks.take(k - 1));
            assert(ranks.take(k as int).last() == r@[k - 1]);
            assert(all[n as int] == keys@[n as int]@);
            assert(all[r@[k - 1] as int] == keys@[r@[k - 1] as int]@);
            k -= 1;
        }
        proof {
            if k > 0 {
                assert(ranks.take(k as int).last() == r@[k - 1]);
                assert(all[n as int] == keys@[n as int]@);
                assert(all[r@[k - 1] as int] == keys@[r@[k - 1] as int]@);
            }
            assert(slot(ranks.take(k as int), all, n as int) == k);
        }
        r.insert(k, n);
        n += 1;
        assert(r@.map_values(|i: usize| i as int) =~= ranks.insert(k as int, n - 1));
    }
    r
}

/// Whether the numbers ascend strictly.
pub open spec fn rising(v: Seq<u32>) -> bool {
    forall|i: int, j: int| 0 <= i < j < v.len() ==> #[trigger] v[i] < #[trigger] v[j]
}

/// Whether `r` holds what `v` holds, each number once and in ascending order.
pub open spec fn rising_set(v: Seq<u32>, r: Seq<u32>) -> bool {
    &&& rising(r)
    &&& forall|n: u32| #[trigger] r.contains(n) == v.contains(n)
}

/// Sorts numbers and drops repetitions.
pub fn sort_dedup_numbers(v: &Vec<u32>) -> (r: Vec<u32>)
    ensures
        rising_set(v@, r@),
{
    let mut r: Vec<u32> = Vec::new();
    let mut i: usize = 0;
    while i < v.len()
        invariant
            i <= v@.len(),
            rising_set(v@.take(i as int), r@),
        decreases v@.len() - i,
    {
        let n: u32 = v[i];
        let mut k: usize = 0;
        while k < r.len() && r[k] < n
            invariant
                k <= r@.len(),
                forall|j: int| 0 <= j < k ==> #[trigger] r@[j] < n,
            decreases r@.len() - k,
        {
            k += 1;
        }
        let ghost sorted = r@;
        let ghost earlier = v@.take(i as int);
        let ghost now = v@.take(i + 1);
        proof {
            assert(now =~= earlier.push(n));
            assert forall|t: u32| #[trigger] now.contains(t) == (earlier.contains(t) || t
                == n) by {
                if earlier.contains(t) {
                    let j = choose|j: int| 0 <= j < earlier.len() && earlier[j] == t;
                    assert(now[j] == t);
                }
                assert(now[i as int] == n);
            }
        }
        if k < r.len() && r[k] == n {
            assert(sorted.contains(n));
        } else {
            r.insert(k, n);
            proof {
                let w = r@;
                assert forall|t: u32| #[trigger] w.contains(t) == (sorted.contains(t) || t
                    == n) by {
                    if w.contains(t) {
                        let j = choose|j: int| 0 <= j < w.len() && w[j] == t;
                        if j < k {
                            assert(sorted[j] == t);
                        } else if j > k {
                            assert(sorted[j - 1] == t);
                        }
                    }
                    if sorted.contains(t) {
                        let j = choose|j: int| 0 <= j < sorted.len() && sorted[j] == t;
                        if j < k {
                            assert(w[j] == t);
                        } else {
                            assert(w[j + 1] == t);
                        }
                    }
                    assert(w[k as int] == n);
                }
            }
        }
        i += 1;
    }
    assert(v@.take(i as int) =~= v@);
    r
}

} // verus!
