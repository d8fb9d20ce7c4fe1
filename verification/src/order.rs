//! Orders on text and stable sorting.

use vstd::prelude::*;
use crate::text::chars_of;

verus! {

/// Whether `a` comes strictly before `b` in code point order.
pub open spec fn text_lt(a: Seq<char>, b: Seq<char>) -> bool
    decreases a.len(),
{
    if b.len() == 0 {
        false
    } else if a.len() == 0 {
        true
    } else if a[0] != b[0] {
        a[0] < b[0]
    } else {
        text_lt(a.drop_first(), b.drop_first())
    }
}

/// Whether `a` comes strictly before `b` in code point order.
#[verifier::loop_isolation(false)]
pub fn text_before(a: &str, b: &str) -> (r: bool)
    ensures
        r == text_lt(a@, b@),
{
    let x = chars_of(a);
    let y = chars_of(b);
    let mut i: usize = 0;
    assert(a@.skip(0) =~= a@ && b@.skip(0) =~= b@);
    while i < x.len() && i < y.len()
        invariant
            i <= x@.len(),
            i <= y@.len(),
            text_lt(a@, b@) == text_lt(a@.skip(i as int), b@.skip(i as int)),
        decreases x@.len() - i,
    {
        if x[i] != y[i] {
            return x[i] < y[i];
        }
        assert(a@.skip(i as int).drop_first() =~= a@.skip(i + 1));
        assert(b@.skip(i as int).drop_first() =~= b@.skip(i + 1));
        i += 1;
    }
    i < y.len()
}

/// No text comes before itself.
pub proof fn lemma_text_lt_irreflexive(a: Seq<char>)
    ensures
        !text_lt(a, a),
    decreases a.len(),
{
    if a.len() > 0 {
        lemma_text_lt_irreflexive(a.drop_first());
    }
}

/// Of two different texts one comes before the other.
pub proof fn lemma_text_lt_total(a: Seq<char>, b: Seq<char>)
    ensures
        a == b || text_lt(a, b) || text_lt(b, a),
    decreases a.len(),
{
    if a.len() == 0 && b.len() == 0 {
        assert(a =~= b);
    } else if a.len() > 0 && b.len() > 0 && a[0] == b[0] {
        lemma_text_lt_total(a.drop_first(), b.drop_first());
        if a.drop_first() == b.drop_first() {
            assert(a =~= seq![a[0]] + a.drop_first());
            assert(b =~= seq![b[0]] + b.drop_first());
        }
    }
}

/// Code point order is transitive.
pub proof fn lemma_text_lt_transitive(a: Seq<char>, b: Seq<char>, c: Seq<char>)
    requires
        text_lt(a, b),
        text_lt(b, c),
    ensures
        text_lt(a, c),
    decreases a.len(),
{
    if a.len() > 0 && a[0] == b[0] && b[0] == c[0] {
        lemma_text_lt_transitive(a.drop_first(), b.drop_first(), c.drop_first());
    }
}

/// `x` placed into `s` behind every element that need not stand after it.
pub open spec fn placed<V>(s: Seq<V>, x: V, before: spec_fn(V, V) -> bool) -> Seq<V>
    decreases s.len(),
{
    if s.len() == 0 || !before(x, s.last()) {
        s.push(x)
    } else {
        placed(s.drop_last(), x, before).push(s.last())
    }
}

/// The elements in the order of `before`; of two that neither comes before the
/// other, the one that stood first stays first.
pub open spec fn stable_sort<V>(s: Seq<V>, before: spec_fn(V, V) -> bool) -> Seq<V>
    decreases s.len(),
{
    if s.len() == 0 {
        s
    } else {
        placed(stable_sort(s.drop_last(), before), s.last(), before)
    }
}

/// What makes `before` usable for sorting: no two elements come before each
/// other, and where `a` is before `c`, every `b` is after `a` or before `c`.
pub open spec fn orders<V>(before: spec_fn(V, V) -> bool) -> bool {
    &&& forall|a: V, b: V| #[trigger] before(a, b) ==> !before(b, a)
    &&& forall|a: V, b: V, c: V|
        #![trigger before(a, c), before(a, b)]
        #![trigger before(a, c), before(b, c)]
        before(a, c) ==> before(a, b) || before(b, c)
}

/// No element of `s` must stand before an earlier one.
pub open spec fn in_order<V>(s: Seq<V>, before: spec_fn(V, V) -> bool) -> bool {
    forall|i: int, j: int| 0 <= i < j < s.len() ==> !before(#[trigger] s[j], #[trigger] s[i])
}

proof fn lemma_placed<V>(s: Seq<V>, x: V, before: spec_fn(V, V) -> bool)
    requires
        orders(before),
        in_order(s, before),
    ensures
        in_order(placed(s, x, before), before),
        placed(s, x, before).len() == s.len() + 1,
        placed(s, x, before).to_multiset() == s.to_multiset().insert(x),
        forall|k: int|
            0 <= k <= s.len() ==> (#[trigger] placed(s, x, before)[k] == x || s.contains(
                placed(s, x, before)[k],
            )),
    decreases s.len(),
{
    broadcast use vstd::seq_lib::group_to_multiset_ensures;

    if s.len() == 0 || !before(x, s.last()) {
        let p = s.push(x);
        assert forall|i: int, j: int| 0 <= i < j < p.len() implies !before(
            #[trigger] p[j],
            #[trigger] p[i],
        ) by {
            if j == s.len() && before(x, s[i]) {
                assert(before(x, s.last()) || before(s.last(), s[i]));
            }
        }
        assert forall|k: int| 0 <= k <= s.len() implies (#[trigger] p[k] == x || s.contains(
            p[k],
        )) by {
            if k < s.len() {
                assert(s[k] == p[k]);
            }
        }
    } else {
        let d = s.drop_last();
        assert(s =~= d.push(s.last()));
        lemma_placed(d, x, before);
        let p = placed(d, x, before);
        let q = p.push(s.last());
        assert forall|i: int, j: int| 0 <= i < j < q.len() implies !before(
            #[trigger] q[j],
            #[trigger] q[i],
        ) by {
            if j == p.len() && p[i] != x {
                let m = choose|m: int| 0 <= m < d.len() && d[m] == p[i];
                assert(s[m] == p[i]);
            }
        }
        assert forall|k: int| 0 <= k <= s.len() implies (#[trigger] q[k] == x || s.contains(
            q[k],
        )) by {
            if k == p.len() {
                assert(s[s.len() - 1] == q[k]);
            } else if p[k] != x {
                let m = choose|m: int| 0 <= m < d.len() && d[m] == p[k];
                assert(s[m] == q[k]);
            }
        }
    }
}

/// Sorting yields the same elements, in order.
pub proof fn law_sort_orders<V>(s: Seq<V>, before: spec_fn(V, V) -> bool)
    requires
        orders(before),
    ensures
        in_order(stable_sort(s, before), before),
        stable_sort(s, before).to_multiset() == s.to_multiset(),
        stable_sort(s, before).len() == s.len(),
    decreases s.len(),
{
    broadcast use vstd::seq_lib::group_to_multiset_ensures;

    if s.len() > 0 {
        law_sort_orders(s.drop_last(), before);
        lemma_placed(stable_sort(s.drop_last(), before), s.last(), before);
        assert(s =~= s.drop_last().push(s.last()));
    }
}

/// Whether of any two elements of `s` one comes before the other.
pub open spec fn all_differ<V>(s: Seq<V>, before: spec_fn(V, V) -> bool) -> bool {
    forall|i: int, j: int|
        0 <= i < j < s.len() ==> before(#[trigger] s[i], #[trigger] s[j]) || before(s[j], s[i])
}

/// Sorting loses no element and makes none stand twice.
pub proof fn lemma_sorted_holds<V>(s: Seq<V>, before: spec_fn(V, V) -> bool)
    requires
        orders(before),
    ensures
        forall|x: V| #[trigger] s.contains(x) ==> stable_sort(s, before).contains(x),
        s.no_duplicates() ==> stable_sort(s, before).no_duplicates(),
        stable_sort(s, before).len() == s.len(),
{
    let r = stable_sort(s, before);
    law_sort_orders(s, before);
    assert forall|x: V| #[trigger] s.contains(x) implies r.contains(x) by {
        lemma_has_member(s, r, x);
    }
    if s.no_duplicates() {
        s.lemma_multiset_has_no_duplicates();
        r.lemma_multiset_has_no_duplicates_conv();
    }
}

proof fn lemma_has_member<V>(a: Seq<V>, b: Seq<V>, x: V)
    requires
        a.to_multiset() == b.to_multiset(),
        a.contains(x),
    ensures
        b.contains(x),
{
    broadcast use vstd::seq_lib::group_to_multiset_ensures;

    assert(a.to_multiset().count(x) > 0);
}

/// The same elements in order are the same list, where of any two one comes before
/// the other.
pub proof fn lemma_order_unique<V>(a: Seq<V>, b: Seq<V>, before: spec_fn(V, V) -> bool)
    requires
        orders(before),
        a.to_multiset() == b.to_multiset(),
        in_order(a, before),
        in_order(b, before),
        all_differ(a, before),
        all_differ(b, before),
    ensures
        a == b,
    decreases a.len(),
{
    broadcast use vstd::seq_lib::group_to_multiset_ensures;

    assert(a.len() == a.to_multiset().len());
    assert(b.len() == b.to_multiset().len());
    if a.len() > 0 {
        let x = a.last();
        let y = b.last();
        assert(a[a.len() - 1] == x);
        assert(b[b.len() - 1] == y);
        lemma_has_member(a, b, x);
        lemma_has_member(b, a, y);
        let i = choose|i: int| 0 <= i < b.len() && b[i] == x;
        let j = choose|j: int| 0 <= j < a.len() && a[j] == y;
        if i < b.len() - 1 && j < a.len() - 1 {
            assert(!before(b[b.len() - 1], b[i]));
            assert(!before(a[a.len() - 1], a[j]));
            assert(before(b[i], b[b.len() - 1]) || before(b[b.len() - 1], b[i]));
        }
        assert(x == y);
        let c = a.drop_last();
        let d = b.drop_last();
        assert(a =~= c.push(x));
        assert(b =~= d.push(x));
        assert(a.to_multiset() == c.to_multiset().insert(x));
        assert(b.to_multiset() == d.to_multiset().insert(x));
        assert(c.to_multiset() =~= a.to_multiset().remove(x));
        assert(d.to_multiset() =~= b.to_multiset().remove(x));
        assert forall|i: int, j: int| 0 <= i < j < c.len() implies before(
            #[trigger] c[i],
            #[trigger] c[j],
        ) || before(c[j], c[i]) by {
            assert(c[i] == a[i] && c[j] == a[j]);
        }
        assert forall|i: int, j: int| 0 <= i < j < d.len() implies before(
            #[trigger] d[i],
            #[trigger] d[j],
        ) || before(d[j], d[i]) by {
            assert(d[i] == b[i] && d[j] == b[j]);
        }
        lemma_order_unique(c, d, before);
    } else {
        assert(a =~= b);
    }
}

/// Going by texts in code point order is usable for sorting.
pub proof fn lemma_text_orders<V>(before: spec_fn(V, V) -> bool, key: spec_fn(V) -> Seq<char>)
    requires
        forall|a: V, b: V| #[trigger] before(a, b) == text_lt(key(a), key(b)),
    ensures
        orders(before),
{
    assert forall|a: V, b: V| #[trigger] before(a, b) implies !before(b, a) by {
        if before(b, a) {
            lemma_text_lt_transitive(key(a), key(b), key(a));
            lemma_text_lt_irreflexive(key(a));
        }
    }
    assert forall|a: V, b: V, c: V|
        #![trigger before(a, c), before(a, b)]
        #![trigger before(a, c), before(b, c)]
        before(a, c) implies before(a, b) || before(b, c) by {
        lemma_text_lt_total(key(a), key(b));
        if text_lt(key(b), key(a)) {
            lemma_text_lt_transitive(key(b), key(a), key(c));
        }
    }
}

/// Sorting makes up no elements.
pub proof fn lemma_sorted_from<V>(s: Seq<V>, before: spec_fn(V, V) -> bool)
    ensures
        forall|i: int|
            0 <= i < stable_sort(s, before).len() ==> s.contains(
                #[trigger] stable_sort(s, before)[i],
            ),
    decreases s.len(),
{
    if s.len() > 0 {
        let d = s.drop_last();
        lemma_sorted_from(d, before);
        lemma_placed_from(stable_sort(d, before), s.last(), before);
        let r = stable_sort(s, before);
        assert forall|i: int| 0 <= i < r.len() implies s.contains(#[trigger] r[i]) by {
            if r[i] == s.last() {
                assert(s[s.len() - 1] == r[i]);
            } else {
                let k = choose|k: int|
                    0 <= k < stable_sort(d, before).len() && #[trigger] stable_sort(d, before)[k]
                        == r[i];
                assert(d.contains(stable_sort(d, before)[k]));
                let m = choose|m: int| 0 <= m < d.len() && d[m] == r[i];
                assert(s[m] == r[i]);
            }
        }
    }
}

proof fn lemma_placed_from<V>(s: Seq<V>, x: V, before: spec_fn(V, V) -> bool)
    ensures
        forall|i: int|
            0 <= i < placed(s, x, before).len() ==> #[trigger] placed(s, x, before)[i] == x || (
            exists|k: int| 0 <= k < s.len() && #[trigger] s[k] == placed(s, x, before)[i]),
    decreases s.len(),
{
    let p = placed(s, x, before);
    if s.len() == 0 || !before(x, s.last()) {
        assert forall|i: int| 0 <= i < p.len() implies #[trigger] p[i] == x || (exists|k: int|
            0 <= k < s.len() && #[trigger] s[k] == p[i]) by {
            if i < s.len() {
                assert(s[i] == p[i]);
            }
        }
    } else {
        let d = s.drop_last();
        lemma_placed_from(d, x, before);
        let q = placed(d, x, before);
        assert forall|i: int| 0 <= i < p.len() implies #[trigger] p[i] == x || (exists|k: int|
            0 <= k < s.len() && #[trigger] s[k] == p[i]) by {
            if i < q.len() {
                assert(q[i] == p[i]);
                if q[i] != x {
                    let k = choose|k: int| 0 <= k < d.len() && #[trigger] d[k] == q[i];
                    assert(s[k] == p[i]);
                }
            } else {
                assert(s[s.len() - 1] == p[i]);
            }
        }
    }
}

/// A type whose values are sorted by what stands in them.
pub trait Ranked: DeepView + Sized {
    /// Whether `a` must stand before `b`.
    spec fn ranks_before(a: Self::V, b: Self::V) -> bool;

    /// Whether this value must stand before the other.
    fn goes_before(&self, other: &Self) -> (r: bool)
        ensures
            r == Self::ranks_before(self.deep_view(), other.deep_view()),
    ;
}

/// The order of a ranked type.
pub open spec fn rank<T: Ranked>() -> spec_fn(T::V, T::V) -> bool {
    |a: T::V, b: T::V| T::ranks_before(a, b)
}

proof fn lemma_placed_at<V>(s: Seq<V>, x: V, before: spec_fn(V, V) -> bool, p: int)
    requires
        0 <= p <= s.len(),
        p == 0 || !before(x, s[p - 1]),
        forall|k: int| p <= k < s.len() ==> before(x, #[trigger] s[k]),
    ensures
        placed(s, x, before) == s.insert(p, x),
    decreases s.len(),
{
    if s.len() == p {
        assert(s.insert(p, x) =~= s.push(x));
    } else {
        lemma_placed_at(s.drop_last(), x, before, p);
        assert(s.drop_last().insert(p, x).push(s.last()) =~= s.insert(p, x));
    }
}

/// The elements in the order of their type, equals in their former order.
#[verifier::loop_isolation(false)]
pub fn sort_ranked<T: Ranked>(items: Vec<T>) -> (r: Vec<T>)
    ensures
        r.deep_view() == stable_sort(items.deep_view(), rank::<T>()),
{
    let ghost all = items.deep_view();
    let mut v = items;
    let mut i: usize = 0;
    assert(all.take(0) =~= Seq::<T::V>::empty());
    assert(v.deep_view() =~= stable_sort(all.take(0), rank::<T>()) + all.skip(0));
    while i < v.len()
        invariant
            i <= v@.len(),
            v@.len() == all.len(),
            stable_sort(all.take(i as int), rank::<T>()).len() == i,
            v.deep_view() == stable_sort(all.take(i as int), rank::<T>()) + all.skip(i as int),
        decreases v@.len() - i,
    {
        let ghost sorted = stable_sort(all.take(i as int), rank::<T>());
        let ghost full = v.deep_view();
        let ghost held = v@;
        let x = v.remove(i);
        assert(x.deep_view() == full[i as int]);
        assert(full[i as int] == all[i as int]);
        assert forall|k: int| 0 <= k < i implies #[trigger] sorted[k] == v@[k].deep_view() by {
            assert(sorted[k] == full[k]);
            assert(v@[k] == held[k]);
        }
        assert forall|k: int| i <= k < v@.len() implies #[trigger] v@[k].deep_view() == all[k + 1] by {
            assert(full[k + 1] == held[k + 1].deep_view());
            assert(v@[k] == held[k + 1]);
        }
        let mut p: usize = i;
        while p > 0 && x.goes_before(&v[p - 1])
            invariant
                p <= i,
                i <= v@.len(),
                forall|k: int| 0 <= k < i ==> #[trigger] sorted[k] == v@[k].deep_view(),
                forall|k: int| p <= k < i ==> rank::<T>()(x.deep_view(), #[trigger] sorted[k]),
            decreases p,
        {
            assert(sorted[p - 1] == v@[p - 1].deep_view());
            p -= 1;
        }
        let ghost rest = v@;
        v.insert(p, x);
        i += 1;
        proof {
            assert(v@ == rest.insert(p as int, x));
            assert(p > 0 ==> sorted[p - 1] == v@[p - 1].deep_view());
            lemma_placed_at(sorted, x.deep_view(), rank::<T>(), p as int);
            assert(all.take(i as int).drop_last() =~= all.take(i - 1));
            let now = stable_sort(all.take(i as int), rank::<T>());
            assert(now == sorted.insert(p as int, x.deep_view()));
            assert forall|k: int| 0 <= k < all.len() implies #[trigger] v@[k].deep_view() == (now + all.skip(i as int))[k] by {
                if k < p {
                    assert(v@[k] == rest[k]);
                } else if k > p {
                    assert(v@[k] == rest[k - 1]);
                    if k < i {
                        assert(sorted[k - 1] == rest[k - 1].deep_view());
                    }
                }
            }
            assert(v.deep_view() =~= now + all.skip(i as int));
        }
    }
    assert(all.take(i as int) =~= all);
    assert(v.deep_view() =~= stable_sort(all, rank::<T>()));
    v
}

/// A text, sorted in code point order.
impl Ranked for String {
    open spec fn ranks_before(a: Seq<char>, b: Seq<char>) -> bool {
        text_lt(a, b)
    }

    fn goes_before(&self, other: &Self) -> (r: bool) {
        text_before(self.as_str(), other.as_str())
    }
}

} // verus!
