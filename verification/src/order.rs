//! Stable sorting, and what it promises.

use vstd::prelude::*;
use vstd::seq_lib::*;

verus! {

/// `x` placed as late as it can go without standing behind anything it comes
/// before.
pub open spec fn placed<T>(s: Seq<T>, x: T, lt: spec_fn(T, T) -> bool) -> Seq<T>
    decreases s.len(),
{
    if s.len() == 0 || !lt(x, s.last()) {
        s.push(x)
    } else {
        placed(s.drop_last(), x, lt).push(s.last())
    }
}

/// The stable sort of a sequence: each element placed in turn.
pub open spec fn sorted_by<T>(s: Seq<T>, lt: spec_fn(T, T) -> bool) -> Seq<T>
    decreases s.len(),
{
    if s.len() == 0 {
        Seq::empty()
    } else {
        placed(sorted_by(s.drop_last(), lt), s.last(), lt)
    }
}

/// Whether `lt` orders values up to ties: nothing comes before itself, and
/// "does not come after" carries over.
pub open spec fn is_order<T>(lt: spec_fn(T, T) -> bool) -> bool {
    &&& forall|a: T| !#[trigger] lt(a, a)
    &&& forall|a: T, b: T, c: T| #![trigger lt(a, b), lt(b, c)] lt(a, b) && lt(b, c) ==> lt(a, c)
    &&& forall|a: T, b: T, c: T|
        #![trigger lt(a, b), lt(b, c)]
        !lt(a, b) && !lt(b, c) ==> !lt(a, c)
}

/// Whether no element comes before one that stands in front of it.
pub open spec fn is_sorted<T>(s: Seq<T>, lt: spec_fn(T, T) -> bool) -> bool {
    forall|i: int, j: int| 0 <= i < j < s.len() ==> !#[trigger] lt(s[j], s[i])
}

/// Whether two values tie.
pub open spec fn ties<T>(a: T, b: T, lt: spec_fn(T, T) -> bool) -> bool {
    !lt(a, b) && !lt(b, a)
}

/// Sorts `v`, keeping tied elements in the order they came in.
pub fn stable_sort<T, F: Fn(&T, &T) -> bool>(
    v: Vec<T>,
    before: F,
    Ghost(lt): Ghost<spec_fn(T, T) -> bool>,
) -> (r: Vec<T>)
    requires
        forall|a: T, b: T| call_requires(before, (&a, &b)),
        forall|a: T, b: T, c: bool| call_ensures(before, (&a, &b), c) ==> c == lt(a, b),
    ensures
        r@ == sorted_by(v@, lt),
{
    let mut out: Vec<T> = Vec::new();
    let ghost whole = v@;
    for x in it: v
        invariant
            it.seq() == whole,
            out@ == sorted_by(whole.take(it.index() as int), lt),
            forall|a: T, b: T| call_requires(before, (&a, &b)),
            forall|a: T, b: T, c: bool| call_ensures(before, (&a, &b), c) ==> c == lt(a, b),
    {
        let ghost base = out@;
        let mut j: usize = out.len();
        proof {
            assert(base.take(j as int) =~= base);
            assert(placed(base, x, lt) + base.skip(j as int) =~= placed(base, x, lt));
        }
        while j > 0 && before(&x, &out[j - 1])
            invariant
                j <= out.len(),
                out@ == base,
                forall|a: T, b: T| call_requires(before, (&a, &b)),
                forall|a: T, b: T, c: bool| call_ensures(before, (&a, &b), c) ==> c == lt(a, b),
                placed(base, x, lt) == placed(base.take(j as int), x, lt) + base.skip(j as int),
            decreases j,
        {
            proof {
                assert(base.take(j as int).drop_last() =~= base.take(j - 1));
                assert(placed(base.take(j - 1), x, lt) + base.skip(j - 1) =~= placed(
                    base.take(j - 1),
                    x,
                    lt,
                ).push(base[j - 1]) + base.skip(j as int));
            }
            j = j - 1;
        }
        proof {
            assert(whole.take(it.index() + 1).drop_last() =~= whole.take(it.index() as int));
            assert(base.insert(j as int, x) =~= base.take(j as int).push(x) + base.skip(j as int));
        }
        out.insert(j, x);
    }
    assert(whole.take(whole.len() as int) =~= whole);
    out
}

/// Reverses a list.
pub fn reverse<T>(v: Vec<T>) -> (r: Vec<T>)
    ensures
        r@ == v@.reverse(),
{
    let mut from = v;
    let mut out: Vec<T> = Vec::new();
    let ghost whole = v@;
    while from.len() > 0
        invariant
            from@ == whole.take(from@.len() as int),
            from@.len() <= whole.len(),
            out@ == whole.reverse().take(whole.len() - from@.len()),
        decreases from.len(),
    {
        let ghost n = from@.len() as int;
        if let Some(x) = from.pop() {
            proof {
                let r = whole.reverse();
                assert(whole.take(n - 1) =~= from@);
                assert(r.take(whole.len() - n + 1) =~= r.take(whole.len() - n).push(x));
            }
            out.push(x);
        }
    }
    assert(whole.reverse().take(whole.len() as int) =~= whole.reverse());
    out
}

proof fn lemma_placed_members<T>(s: Seq<T>, x: T, lt: spec_fn(T, T) -> bool)
    ensures
        placed(s, x, lt).to_multiset() == s.to_multiset().insert(x),
        placed(s, x, lt).len() == s.len() + 1,
    decreases s.len(),
{
    broadcast use group_to_multiset_ensures;

    if s.len() == 0 || !lt(x, s.last()) {
    } else {
        lemma_placed_members(s.drop_last(), x, lt);
        assert(s =~= s.drop_last().push(s.last()));
        assert(placed(s, x, lt).to_multiset() =~= s.to_multiset().insert(x));
    }
}

/// Sorting loses nothing and makes nothing up.
pub proof fn law_sort_is_a_permutation<T>(s: Seq<T>, lt: spec_fn(T, T) -> bool)
    ensures
        sorted_by(s, lt).to_multiset() == s.to_multiset(),
        sorted_by(s, lt).len() == s.len(),
    decreases s.len(),
{
    broadcast use group_to_multiset_ensures;

    if s.len() > 0 {
        law_sort_is_a_permutation(s.drop_last(), lt);
        lemma_placed_members(sorted_by(s.drop_last(), lt), s.last(), lt);
        assert(s =~= s.drop_last().push(s.last()));
    } else {
        assert(s =~= Seq::empty());
    }
}

/// An element stands in the sorted sequence exactly when it stood in
/// the one that was sorted.
pub proof fn lemma_sorted_contains<T>(s: Seq<T>, lt: spec_fn(T, T) -> bool, x: T)
    ensures
        sorted_by(s, lt).contains(x) == s.contains(x),
{
    broadcast use group_to_multiset_ensures;

    law_sort_is_a_permutation(s, lt);
    assert(s.contains(x) == (s.to_multiset().count(x) > 0));
    assert(sorted_by(s, lt).contains(x) == (sorted_by(s, lt).to_multiset().count(x) > 0));
}

proof fn lemma_placed_sorted<T>(s: Seq<T>, x: T, lt: spec_fn(T, T) -> bool)
    requires
        is_order(lt),
        is_sorted(s, lt),
    ensures
        is_sorted(placed(s, x, lt), lt),
        forall|i: int|
            0 <= i < placed(s, x, lt).len() ==> placed(s, x, lt)[i] == x || s.contains(
                #[trigger] placed(s, x, lt)[i],
            ),
    decreases s.len(),
{
    let p = placed(s, x, lt);
    if s.len() == 0 {
        assert(p =~= seq![x]);
    } else if !lt(x, s.last()) {
        assert forall|i: int, j: int| 0 <= i < j < p.len() implies !#[trigger] lt(p[j], p[i]) by {
            if j == s.len() {
                if i < s.len() - 1 {
                    assert(!lt(s.last(), s[i]));
                }
            } else {
                assert(!lt(s[j], s[i]));
            }
        }
        assert forall|i: int| 0 <= i < p.len() implies p[i] == x || s.contains(#[trigger] p[i]) by {
            if i < s.len() {
                assert(s[i] == p[i]);
            }
        }
    } else {
        let t = s.drop_last();
        lemma_placed_sorted(t, x, lt);
        let q = placed(t, x, lt);
        assert forall|i: int, j: int| 0 <= i < j < p.len() implies !#[trigger] lt(p[j], p[i]) by {
            if j == p.len() - 1 {
                assert(q[i] == x || t.contains(q[i]));
                if q[i] != x {
                    let k = choose|k: int| 0 <= k < t.len() && t[k] == q[i];
                    assert(!lt(s[s.len() - 1], s[k]));
                } else {
                    assert(lt(x, s.last()));
                    if lt(s.last(), x) {
                        assert(lt(x, x));
                    }
                }
            } else {
                assert(!lt(q[j], q[i]));
            }
        }
        assert forall|i: int| 0 <= i < p.len() implies p[i] == x || s.contains(#[trigger] p[i]) by {
            if i < q.len() {
                assert(q[i] == x || t.contains(q[i]));
                if q[i] != x {
                    let k = choose|k: int| 0 <= k < t.len() && t[k] == q[i];
                    assert(s[k] == p[i]);
                }
            } else {
                assert(s[s.len() - 1] == p[i]);
            }
        }
    }
}

/// After sorting, nothing comes before an element that stands in front of it.
pub proof fn law_sort_sorts<T>(s: Seq<T>, lt: spec_fn(T, T) -> bool)
    requires
        is_order(lt),
    ensures
        is_sorted(sorted_by(s, lt), lt),
    decreases s.len(),
{
    if s.len() > 0 {
        law_sort_sorts(s.drop_last(), lt);
        lemma_placed_sorted(sorted_by(s.drop_last(), lt), s.last(), lt);
    }
}

proof fn lemma_placed_keeps_ties<T>(s: Seq<T>, x: T, key: T, lt: spec_fn(T, T) -> bool)
    requires
        is_order(lt),
    ensures
        placed(s, x, lt).filter(|y: T| ties(y, key, lt)) == s.push(x).filter(
            |y: T| ties(y, key, lt),
        ),
    decreases s.len(),
{
    reveal(Seq::filter);
    let f = |y: T| ties(y, key, lt);
    if s.len() == 0 || !lt(x, s.last()) {
    } else {
        let t = s.drop_last();
        let q = placed(t, x, lt);
        lemma_placed_keeps_ties(t, x, key, lt);
        assert(q.push(s.last()).drop_last() =~= q);
        assert(s.push(x).drop_last() =~= s);
        assert(t.push(x).drop_last() =~= t);
        if f(x) && f(s.last()) {
            assert(!lt(x, key) && !lt(key, s.last()));
            assert(!lt(x, s.last()));
        }
        assert(s.filter(f) == if f(s.last()) {
            t.filter(f).push(s.last())
        } else {
            t.filter(f)
        });
    }
}

/// Elements that tie keep the order they came in.
pub proof fn law_sort_is_stable<T>(s: Seq<T>, key: T, lt: spec_fn(T, T) -> bool)
    requires
        is_order(lt),
    ensures
        sorted_by(s, lt).filter(|y: T| ties(y, key, lt)) == s.filter(|y: T| ties(y, key, lt)),
    decreases s.len(),
{
    reveal(Seq::filter);
    let f = |y: T| ties(y, key, lt);
    if s.len() > 0 {
        let t = s.drop_last();
        law_sort_is_stable(t, key, lt);
        lemma_placed_keeps_ties(sorted_by(t, lt), s.last(), key, lt);
        assert(sorted_by(t, lt).push(s.last()).drop_last() =~= sorted_by(t, lt));
    }
}

proof fn lemma_placed_map<T, U>(
    s: Seq<T>,
    x: T,
    lt: spec_fn(T, T) -> bool,
    f: spec_fn(T) -> U,
    over: spec_fn(U, U) -> bool,
)
    requires
        forall|a: T, b: T| #[trigger] lt(a, b) == over(f(a), f(b)),
    ensures
        placed(s, x, lt).map_values(f) == placed(s.map_values(f), f(x), over),
    decreases s.len(),
{
    let m = s.map_values(f);
    if s.len() == 0 || !lt(x, s.last()) {
        if s.len() > 0 {
            assert(m.last() == f(s.last()));
        }
        assert(s.push(x).map_values(f) =~= m.push(f(x)));
    } else {
        lemma_placed_map(s.drop_last(), x, lt, f, over);
        assert(m.last() == f(s.last()));
        assert(m.drop_last() =~= s.drop_last().map_values(f));
        assert(placed(s.drop_last(), x, lt).push(s.last()).map_values(f) =~= placed(
            s.drop_last(),
            x,
            lt,
        ).map_values(f).push(f(s.last())));
    }
}

/// Sorting by what is seen of the elements sorts what is seen.
pub proof fn lemma_sorted_map<T, U>(
    s: Seq<T>,
    lt: spec_fn(T, T) -> bool,
    f: spec_fn(T) -> U,
    over: spec_fn(U, U) -> bool,
)
    requires
        forall|a: T, b: T| #[trigger] lt(a, b) == over(f(a), f(b)),
    ensures
        sorted_by(s, lt).map_values(f) == sorted_by(s.map_values(f), over),
    decreases s.len(),
{
    let m = s.map_values(f);
    if s.len() > 0 {
        lemma_sorted_map(s.drop_last(), lt, f, over);
        lemma_placed_map(sorted_by(s.drop_last(), lt), s.last(), lt, f, over);
        assert(m.drop_last() =~= s.drop_last().map_values(f));
    } else {
        assert(sorted_by(s, lt).map_values(f) =~= Seq::empty());
    }
}

/// What is already sorted stays as it is.
pub proof fn lemma_sorted_stays<T>(s: Seq<T>, lt: spec_fn(T, T) -> bool)
    requires
        is_sorted(s, lt),
    ensures
        sorted_by(s, lt) == s,
    decreases s.len(),
{
    if s.len() > 0 {
        let front = s.drop_last();
        assert forall|i: int, j: int| 0 <= i < j < front.len() implies !#[trigger] lt(
            front[j],
            front[i],
        ) by {
            assert(!lt(s[j], s[i]));
        }
        lemma_sorted_stays(front, lt);
        if front.len() > 0 {
            assert(!lt(s[s.len() - 1], s[s.len() - 2]));
        }
        assert(front.push(s.last()) =~= s);
    } else {
        assert(s =~= Seq::empty());
    }
}

/// Taking a new element out again leaves what it was placed into.
pub proof fn lemma_placed_filtered<T>(s: Seq<T>, x: T, lt: spec_fn(T, T) -> bool)
    requires
        !s.contains(x),
    ensures
        placed(s, x, lt).filter(|y: T| y != x) == s,
    decreases s.len(),
{
    reveal(Seq::filter);
    let keep = |y: T| y != x;
    if s.len() == 0 || !lt(x, s.last()) {
        assert(s.push(x).drop_last() =~= s);
        lemma_filter_all(s, x);
    } else {
        let front = s.drop_last();
        assert(!front.contains(x)) by {
            if front.contains(x) {
                let i = choose|i: int| 0 <= i < front.len() && front[i] == x;
                assert(s[i] == x);
            }
        }
        lemma_placed_filtered(front, x, lt);
        assert(placed(front, x, lt).push(s.last()).drop_last() =~= placed(front, x, lt));
        assert(s[s.len() - 1] != x);
        assert(front.push(s.last()) =~= s);
    }
}

proof fn lemma_filter_all<T>(s: Seq<T>, x: T)
    requires
        !s.contains(x),
    ensures
        s.filter(|y: T| y != x) == s,
    decreases s.len(),
{
    reveal(Seq::filter);
    if s.len() > 0 {
        let front = s.drop_last();
        assert(!front.contains(x)) by {
            if front.contains(x) {
                let i = choose|i: int| 0 <= i < front.len() && front[i] == x;
                assert(s[i] == x);
            }
        }
        lemma_filter_all(front, x);
        assert(s[s.len() - 1] != x);
        assert(front.push(s.last()) =~= s);
    } else {
        assert(s =~= Seq::empty());
    }
}

/// Sorting makes no element occur twice that occurred once.
pub proof fn law_sort_keeps_elements_distinct<T>(s: Seq<T>, lt: spec_fn(T, T) -> bool)
    requires
        s.no_duplicates(),
    ensures
        sorted_by(s, lt).no_duplicates(),
{
    law_sort_is_a_permutation(s, lt);
    s.lemma_multiset_has_no_duplicates();
    sorted_by(s, lt).lemma_multiset_has_no_duplicates_conv();
}

} // verus!
