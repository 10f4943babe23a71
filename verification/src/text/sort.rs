//! Stable sorting.

use vstd::prelude::*;

verus! {

/// A sorted sequence with `x` put before the first element that does not
/// precede it.
pub open spec fn inserted<T>(x: T, s: Seq<T>, before: spec_fn(T, T) -> bool) -> Seq<T>
    decreases s.len(),
{
    if s.len() == 0 || !before(s[0], x) {
        seq![x] + s
    } else {
        seq![s[0]] + inserted(x, s.skip(1), before)
    }
}

/// The elements in order, where those that neither precedes stay as they were.
pub open spec fn stable_sorted<T>(s: Seq<T>, before: spec_fn(T, T) -> bool) -> Seq<T>
    decreases s.len(),
{
    if s.len() == 0 {
        s
    } else {
        inserted(s[0], stable_sorted(s.skip(1), before), before)
    }
}

/// No element precedes an earlier one.
pub open spec fn is_sorted<T>(s: Seq<T>, before: spec_fn(T, T) -> bool) -> bool {
    forall|i: int, j: int| 0 <= i < j < s.len() ==> !before(#[trigger] s[j], #[trigger] s[i])
}

/// Precedence is that of a rank: what does not precede goes on not preceding.
pub open spec fn is_ranking<T>(before: spec_fn(T, T) -> bool) -> bool {
    &&& forall|a: T, b: T| #[trigger] before(a, b) ==> !before(b, a)
    &&& forall|a: T, b: T, c: T|
        !(#[trigger] before(a, b)) && !(#[trigger] before(b, c)) ==> !before(a, c)
}

proof fn lemma_inserted<T>(x: T, s: Seq<T>, before: spec_fn(T, T) -> bool)
    ensures
        inserted(x, s, before).len() == s.len() + 1,
        inserted(x, s, before).to_multiset() == s.to_multiset().insert(x),
        is_ranking(before) && is_sorted(s, before) ==> is_sorted(inserted(x, s, before), before),
        forall|i: int|
            0 <= i < inserted(x, s, before).len() ==> #[trigger] inserted(x, s, before)[i] == x
                || s.contains(inserted(x, s, before)[i]),
    decreases s.len(),
{
    broadcast use vstd::seq_lib::group_to_multiset_ensures;

    let r = inserted(x, s, before);
    if s.len() == 0 || !before(s[0], x) {
        assert(r =~= s.insert(0, x));
        assert(r.to_multiset() =~= s.to_multiset().insert(x));
        assert forall|i: int| 0 <= i < r.len() implies #[trigger] r[i] == x || s.contains(r[i]) by {
            if i > 0 {
                assert(r[i] == s[i - 1]);
            }
        }
        if is_ranking(before) && is_sorted(s, before) {
            assert forall|i: int, j: int| 0 <= i < j < r.len() implies !before(
                #[trigger] r[j],
                #[trigger] r[i],
            ) by {
                if i == 0 {
                    assert(r[j] == s[j - 1]);
                    if j > 1 {
                        assert(!before(s[j - 1], s[0]));
                        assert(!before(s[0], x));
                    }
                } else {
                    assert(r[j] == s[j - 1] && r[i] == s[i - 1]);
                }
            }
        }
    } else {
        let rest = inserted(x, s.skip(1), before);
        lemma_inserted(x, s.skip(1), before);
        assert(r =~= rest.insert(0, s[0]));
        assert(s =~= s.skip(1).insert(0, s[0]));
        assert(r.to_multiset() =~= s.to_multiset().insert(x));
        assert forall|i: int| 0 <= i < r.len() implies #[trigger] r[i] == x || s.contains(r[i]) by {
            if i > 0 {
                assert(r[i] == rest[i - 1]);
                if rest[i - 1] != x {
                    let k = choose|k: int| 0 <= k < s.skip(1).len() && s.skip(1)[k] == rest[i - 1];
                    assert(s[k + 1] == rest[i - 1]);
                }
            } else {
                assert(r[0] == s[0]);
            }
        }
        if is_ranking(before) && is_sorted(s, before) {
            assert forall|i: int, j: int| 0 <= i < j < s.skip(1).len() implies !before(
                #[trigger] s.skip(1)[j],
                #[trigger] s.skip(1)[i],
            ) by {
                assert(!before(s[j + 1], s[i + 1]));
            }
            assert(is_sorted(rest, before));
            assert forall|i: int, j: int| 0 <= i < j < r.len() implies !before(
                #[trigger] r[j],
                #[trigger] r[i],
            ) by {
                if i == 0 {
                    assert(r[j] == rest[j - 1]);
                    if rest[j - 1] == x {
                    } else {
                        let k = choose|k: int|
                            0 <= k < s.skip(1).len() && s.skip(1)[k] == rest[j - 1];
                        assert(s[k + 1] == r[j]);
                        assert(!before(s[k + 1], s[0]));
                    }
                } else {
                    assert(r[j] == rest[j - 1] && r[i] == rest[i - 1]);
                }
            }
        }
    }
}

/// Sorting loses and adds nothing, and by a ranking it leaves no element before
/// one that precedes it.
pub proof fn law_stable_sorting<T>(s: Seq<T>, before: spec_fn(T, T) -> bool)
    ensures
        stable_sorted(s, before).len() == s.len(),
        stable_sorted(s, before).to_multiset() == s.to_multiset(),
        is_ranking(before) ==> is_sorted(stable_sorted(s, before), before),
    decreases s.len(),
{
    broadcast use vstd::seq_lib::group_to_multiset_ensures;

    if s.len() > 0 {
        law_stable_sorting(s.skip(1), before);
        lemma_inserted(s[0], stable_sorted(s.skip(1), before), before);
        assert(s =~= s.skip(1).insert(0, s[0]));
    }
}

/// Sorting commutes with a map that keeps precedence.
pub proof fn lemma_sorted_map<T, U>(
    s: Seq<T>,
    before: spec_fn(T, T) -> bool,
    f: spec_fn(T) -> U,
    after: spec_fn(U, U) -> bool,
)
    requires
        forall|a: T, b: T| #[trigger] before(a, b) == after(f(a), f(b)),
    ensures
        stable_sorted(s, before).map_values(f) == stable_sorted(s.map_values(f), after),
    decreases s.len(),
{
    if s.len() > 0 {
        lemma_sorted_map(s.skip(1), before, f, after);
        lemma_inserted_map(s[0], stable_sorted(s.skip(1), before), before, f, after);
        assert(s.map_values(f).skip(1) =~= s.skip(1).map_values(f));
    } else {
        assert(stable_sorted(s, before).map_values(f) =~= stable_sorted(s.map_values(f), after));
    }
}

proof fn lemma_inserted_map<T, U>(
    x: T,
    s: Seq<T>,
    before: spec_fn(T, T) -> bool,
    f: spec_fn(T) -> U,
    after: spec_fn(U, U) -> bool,
)
    requires
        forall|a: T, b: T| #[trigger] before(a, b) == after(f(a), f(b)),
    ensures
        inserted(x, s, before).map_values(f) == inserted(f(x), s.map_values(f), after),
    decreases s.len(),
{
    if s.len() == 0 || !before(s[0], x) {
        if s.len() > 0 {
            assert(before(s[0], x) == after(f(s[0]), f(x)));
        }
        assert((seq![x] + s).map_values(f) =~= seq![f(x)] + s.map_values(f));
    } else {
        lemma_inserted_map(x, s.skip(1), before, f, after);
        assert(s.map_values(f).skip(1) =~= s.skip(1).map_values(f));
        assert((seq![s[0]] + inserted(x, s.skip(1), before)).map_values(f) =~= seq![f(s[0])]
            + inserted(x, s.skip(1), before).map_values(f));
    }
}

/// A value that can be put in order.
pub trait Ranked: Sized {
    spec fn ranks_before(&self, other: &Self) -> bool;

    fn is_before(&self, other: &Self) -> (r: bool)
        ensures
            r == self.ranks_before(other),
    ;
}

/// The precedence of a type.
pub open spec fn rank_order<T: Ranked>() -> spec_fn(T, T) -> bool {
    |a: T, b: T| a.ranks_before(&b)
}

proof fn lemma_inserted_at<T>(x: T, s: Seq<T>, before: spec_fn(T, T) -> bool, k: int)
    requires
        0 <= k <= s.len(),
        forall|i: int| 0 <= i < k ==> before(#[trigger] s[i], x),
        k < s.len() ==> !before(s[k], x),
    ensures
        inserted(x, s, before) == s.insert(k, x),
    decreases k,
{
    if k == 0 {
        assert(seq![x] + s =~= s.insert(0, x));
    } else {
        assert forall|i: int| 0 <= i < k - 1 implies before(#[trigger] s.skip(1)[i], x) by {
            assert(before(s[i + 1], x));
        }
        assert(before(s[0], x));
        lemma_inserted_at(x, s.skip(1), before, k - 1);
        assert(seq![s[0]] + s.skip(1).insert(k - 1, x) =~= s.insert(k, x));
    }
}

/// Sorts, leaving what neither precedes as it was.
pub fn sort_stable<T: Ranked>(v: Vec<T>) -> (r: Vec<T>)
    ensures
        r@ == stable_sorted(v@, rank_order::<T>()),
{
    let ghost all = v@;
    let ghost before = rank_order::<T>();
    let mut v: Vec<T> = v;
    let mut r: Vec<T> = Vec::new();
    assert(all.skip(all.len() as int) =~= Seq::empty());
    while v.len() > 0
        invariant
            v@.len() <= all.len(),
            v@ == all.take(v@.len() as int),
            before == rank_order::<T>(),
            r@ == stable_sorted(all.skip(v@.len() as int), before),
        decreases v@.len(),
    {
        let ghost n = v@.len();
        let x: T = match v.pop() {
            Some(x) => x,
            None => {
                return r;
            },
        };
        assert(x == all[n - 1]);
        assert(v@ =~= all.take(n - 1));
        let mut k: usize = 0;
        while k < r.len() && r[k].is_before(&x)
            invariant
                k <= r@.len(),
                before == rank_order::<T>(),
                forall|i: int| 0 <= i < k ==> before(#[trigger] r@[i], x),
            decreases r@.len() - k,
        {
            assert(before(r@[k as int], x));
            k += 1;
        }
        proof {
            lemma_inserted_at(x, r@, before, k as int);
            assert(all.skip(n - 1).skip(1) =~= all.skip(n as int));
            assert(all.skip(n - 1)[0] == x);
        }
        r.insert(k, x);
    }
    assert(all.skip(0) =~= all);
    r
}

} // verus!
