use vstd::prelude::*;

verus! {

/// A type with one order for stable sorting, given on its view: `precedes`
/// is the strict "sorts before".
pub trait Sortable: View + Sized {
    spec fn precedes(a: Self::V, b: Self::V) -> bool;

    fn sorts_before(&self, other: &Self) -> (r: bool)
        ensures
            r == Self::precedes(self@, other@),
    ;
}

/// `x` placed into `s` after every element it does not sort before.
pub open spec fn insert_in_order<V>(s: Seq<V>, x: V, lt: spec_fn(V, V) -> bool) -> Seq<V>
    decreases s.len(),
{
    if s.len() == 0 {
        seq![x]
    } else if lt(x, s[0]) {
        seq![x] + s
    } else {
        seq![s[0]] + insert_in_order(s.drop_first(), x, lt)
    }
}

/// `s` sorted stably by `lt`: elements that neither sorts before the other
/// keep their order (what `sort_by` on a slice does).
pub open spec fn sorted_stably<V>(s: Seq<V>, lt: spec_fn(V, V) -> bool) -> Seq<V>
    decreases s.len(),
{
    if s.len() == 0 {
        s
    } else {
        insert_in_order(sorted_stably(s.drop_last(), lt), s.last(), lt)
    }
}

pub open spec fn seq_views<T: View>(s: Seq<T>) -> Seq<T::V> {
    s.map_values(|t: T| t@)
}

pub open spec fn order_of<T: Sortable>() -> spec_fn(T::V, T::V) -> bool {
    |a: T::V, b: T::V| T::precedes(a, b)
}

proof fn lemma_insert_at<V>(s: Seq<V>, x: V, p: int, lt: spec_fn(V, V) -> bool)
    requires
        0 <= p <= s.len(),
        forall|j: int| 0 <= j < p ==> !lt(x, #[trigger] s[j]),
        p < s.len() ==> lt(x, s[p]),
    ensures
        insert_in_order(s, x, lt) == s.insert(p, x),
    decreases s.len(),
{
    if s.len() == 0 {
        assert(s.insert(p, x) =~= seq![x]);
    } else if p == 0 {
        assert(s.insert(0, x) =~= seq![x] + s);
    } else {
        assert(!lt(x, s[0]));
        let t = s.drop_first();
        assert forall|j: int| 0 <= j < p - 1 implies !lt(x, #[trigger] t[j]) by {
            assert(t[j] == s[j + 1]);
        }
        if p < s.len() {
            assert(t[p - 1] == s[p]);
        }
        lemma_insert_at(t, x, p - 1, lt);
        assert(seq![s[0]] + t.insert(p - 1, x) =~= s.insert(p, x));
    }
}

/// `v` sorted stably by its type's order.
pub fn stable_sort<T: Sortable>(v: Vec<T>) -> (r: Vec<T>)
    ensures
        seq_views(r@) == sorted_stably(seq_views(v@), order_of::<T>()),
{
    let ghost orig = seq_views(v@);
    let ghost lt = order_of::<T>();
    let mut src = v;
    let mut out: Vec<T> = Vec::new();
    let mut k: usize = 0;
    let n = src.len();
    assert(seq_views(src@) =~= orig.skip(0));
    assert(orig.take(0) =~= Seq::<T::V>::empty());
    assert(seq_views(out@) =~= Seq::<T::V>::empty());
    while src.len() > 0
        invariant
            k + src@.len() == n,
            n == orig.len(),
            lt == order_of::<T>(),
            seq_views(src@) == orig.skip(k as int),
            seq_views(out@) == sorted_stably(orig.take(k as int), lt),
        decreases src.len(),
    {
        let ghost before_src = src@;
        let x = src.remove(0);
        assert(seq_views(before_src)[0] == x@);
        assert(x@ == orig[k as int]);
        assert(src@ =~= before_src.drop_first());
        assert forall|j: int| 0 <= j < src@.len() implies seq_views(src@)[j] == orig.skip(k + 1)[j] by {
            assert(src@[j] == before_src[j + 1]);
            assert(seq_views(before_src)[j + 1] == orig.skip(k as int)[j + 1]);
        }
        assert(seq_views(src@) =~= orig.skip(k + 1));
        let mut p: usize = 0;
        while p < out.len() && !x.sorts_before(&out[p])
            invariant
                p <= out@.len(),
                lt == order_of::<T>(),
                forall|j: int| 0 <= j < p ==> !lt(x@, #[trigger] seq_views(out@)[j]),
            decreases out.len() - p,
        {
            assert(seq_views(out@)[p as int] == out@[p as int]@);
            p += 1;
        }
        proof {
            if p < out.len() {
                assert(seq_views(out@)[p as int] == out@[p as int]@);
            }
            lemma_insert_at(seq_views(out@), x@, p as int, lt);
            assert(orig.take(k + 1).drop_last() =~= orig.take(k as int));
        }
        let ghost before_out = out@;
        out.insert(p, x);
        assert(seq_views(out@) =~= seq_views(before_out).insert(p as int, x@));
        k += 1;
    }
    assert(orig.take(n as int) =~= orig);
    out
}

proof fn lemma_insert_contains<V>(s: Seq<V>, x: V, lt: spec_fn(V, V) -> bool)
    ensures
        insert_in_order(s, x, lt).len() == s.len() + 1,
        forall|v: V| #[trigger] insert_in_order(s, x, lt).contains(v) ==> v == x || s.contains(v),
    decreases s.len(),
{
    if s.len() > 0 && !lt(x, s[0]) {
        lemma_insert_contains(s.drop_first(), x, lt);
        let r = insert_in_order(s, x, lt);
        assert forall|v: V| #[trigger] r.contains(v) implies v == x || s.contains(v) by {
            let k = choose|k: int| 0 <= k < r.len() && r[k] == v;
            if k == 0 {
                assert(s[0] == v);
            } else {
                let t = insert_in_order(s.drop_first(), x, lt);
                assert(r[k] == t[k - 1]);
                assert(t.contains(v));
                if v != x {
                    let m = choose|m: int| 0 <= m < s.drop_first().len() && s.drop_first()[m] == v;
                    assert(s[m + 1] == v);
                }
            }
        }
    } else if s.len() > 0 {
        let r = insert_in_order(s, x, lt);
        assert forall|v: V| #[trigger] r.contains(v) implies v == x || s.contains(v) by {
            let k = choose|k: int| 0 <= k < r.len() && r[k] == v;
            if k > 0 {
                assert(s[k - 1] == v);
            }
        }
    } else {
        let r = insert_in_order(s, x, lt);
        assert forall|v: V| #[trigger] r.contains(v) implies v == x || s.contains(v) by {
            let k = choose|k: int| 0 <= k < r.len() && r[k] == v;
            assert(r[k] == x);
        }
    }
}

/// Sorting keeps the length, and brings in nothing new.
pub proof fn lemma_sorted_contains<V>(s: Seq<V>, lt: spec_fn(V, V) -> bool)
    ensures
        sorted_stably(s, lt).len() == s.len(),
        forall|v: V| #[trigger] sorted_stably(s, lt).contains(v) ==> s.contains(v),
    decreases s.len(),
{
    if s.len() > 0 {
        lemma_sorted_contains(s.drop_last(), lt);
        lemma_insert_contains(sorted_stably(s.drop_last(), lt), s.last(), lt);
        assert forall|v: V| #[trigger] sorted_stably(s, lt).contains(v) implies s.contains(v) by {
            if v == s.last() {
                assert(s[s.len() - 1] == v);
            } else {
                assert(sorted_stably(s.drop_last(), lt).contains(v));
                let m = choose|m: int| 0 <= m < s.drop_last().len() && s.drop_last()[m] == v;
                assert(s[m] == v);
            }
        }
    }
}

/// Where `insert_in_order` puts `x`: before the first element it sorts
/// before.
pub open spec fn insert_pos<V>(s: Seq<V>, x: V, lt: spec_fn(V, V) -> bool) -> int
    decreases s.len(),
{
    if s.len() == 0 || lt(x, s[0]) {
        0
    } else {
        1 + insert_pos(s.drop_first(), x, lt)
    }
}

pub proof fn lemma_insert_is_insert<V>(s: Seq<V>, x: V, lt: spec_fn(V, V) -> bool)
    ensures
        0 <= insert_pos(s, x, lt) <= s.len(),
        insert_in_order(s, x, lt) == s.insert(insert_pos(s, x, lt), x),
        forall|k: int| 0 <= k < insert_pos(s, x, lt) ==> !lt(x, #[trigger] s[k]),
        insert_pos(s, x, lt) < s.len() ==> lt(x, s[insert_pos(s, x, lt)]),
    decreases s.len(),
{
    if s.len() == 0 {
        assert(s.insert(0, x) =~= seq![x]);
    } else if lt(x, s[0]) {
        assert(s.insert(0, x) =~= seq![x] + s);
    } else {
        let t = s.drop_first();
        lemma_insert_is_insert(t, x, lt);
        let p = insert_pos(t, x, lt);
        assert(seq![s[0]] + t.insert(p, x) =~= s.insert(p + 1, x));
        assert forall|k: int| 0 <= k < p + 1 implies !lt(x, #[trigger] s[k]) by {
            if k > 0 {
                assert(s[k] == t[k - 1]);
            }
        }
        if p < t.len() {
            assert(s[p + 1] == t[p]);
        }
    }
}

/// `lt` is a strict order: irreflexive and transitive.
pub open spec fn strict_order<V>(lt: spec_fn(V, V) -> bool) -> bool {
    &&& forall|a: V| !#[trigger] lt(a, a)
    &&& forall|a: V, b: V, c: V| #[trigger] lt(a, b) && #[trigger] lt(b, c) ==> lt(a, c)
}

/// No element sorts before one ahead of it.
pub open spec fn sorted_by<V>(s: Seq<V>, lt: spec_fn(V, V) -> bool) -> bool {
    forall|i: int, j: int| 0 <= i < j < s.len() ==> !lt(#[trigger] s[j], #[trigger] s[i])
}

/// Stable sorting by a strict order sorts.
pub proof fn lemma_sorted_stably_sorted<V>(s: Seq<V>, lt: spec_fn(V, V) -> bool)
    requires
        strict_order(lt),
    ensures
        sorted_by(sorted_stably(s, lt), lt),
    decreases s.len(),
{
    if s.len() > 0 {
        let d = sorted_stably(s.drop_last(), lt);
        lemma_sorted_stably_sorted(s.drop_last(), lt);
        let x = s.last();
        lemma_insert_is_insert(d, x, lt);
        let p = insert_pos(d, x, lt);
        let r = d.insert(p, x);
        assert forall|i: int, j: int| 0 <= i < j < r.len() implies !lt(#[trigger] r[j], #[trigger] r[i]) by {
            if j < p {
                assert(r[i] == d[i] && r[j] == d[j]);
            } else if j == p {
                assert(r[i] == d[i]);
            } else if i < p {
                assert(r[i] == d[i] && r[j] == d[j - 1]);
            } else if i == p {
                assert(r[j] == d[j - 1]);
                if lt(d[j - 1], x) {
                    assert(lt(x, d[p]));
                    if j - 1 > p {
                        assert(lt(d[j - 1], d[p]));
                    }
                }
            } else {
                assert(r[i] == d[i - 1] && r[j] == d[j - 1]);
            }
        }
    }
}

/// Stable sorting keeps values of `f` that differ between positions apart.
pub proof fn lemma_sorted_stably_distinct<V, K>(s: Seq<V>, lt: spec_fn(V, V) -> bool, f: spec_fn(V) -> K)
    requires
        forall|i: int, j: int| 0 <= i < j < s.len() ==> f(#[trigger] s[i]) != f(#[trigger] s[j]),
    ensures
        forall|i: int, j: int|
            0 <= i < j < sorted_stably(s, lt).len() ==> f(#[trigger] sorted_stably(s, lt)[i]) != f(
                #[trigger] sorted_stably(s, lt)[j],
            ),
    decreases s.len(),
{
    if s.len() > 0 {
        let dl = s.drop_last();
        assert forall|i: int, j: int| 0 <= i < j < dl.len() implies f(#[trigger] dl[i]) != f(#[trigger] dl[j]) by {
            assert(dl[i] == s[i] && dl[j] == s[j]);
        }
        lemma_sorted_stably_distinct(dl, lt, f);
        lemma_sorted_contains(dl, lt);
        let d = sorted_stably(dl, lt);
        let x = s.last();
        lemma_insert_is_insert(d, x, lt);
        let p = insert_pos(d, x, lt);
        let r = d.insert(p, x);
        assert forall|k: int| 0 <= k < d.len() implies f(#[trigger] d[k]) != f(x) by {
            assert(d.contains(d[k]));
            let m = choose|m: int| 0 <= m < dl.len() && dl[m] == d[k];
            assert(s[m] == dl[m]);
            assert(s[s.len() - 1] == x);
        }
        assert forall|i: int, j: int| 0 <= i < j < r.len() implies f(#[trigger] r[i]) != f(#[trigger] r[j]) by {
            if j < p {
                assert(r[i] == d[i] && r[j] == d[j]);
            } else if j == p {
                assert(r[i] == d[i]);
            } else if i < p {
                assert(r[i] == d[i] && r[j] == d[j - 1]);
            } else if i == p {
                assert(r[j] == d[j - 1]);
            } else {
                assert(r[i] == d[i - 1] && r[j] == d[j - 1]);
            }
        }
    }
}

/// Sorting loses nothing: what the sequence holds, the sorted one holds.
pub proof fn lemma_sorted_keeps<V>(s: Seq<V>, lt: spec_fn(V, V) -> bool)
    ensures
        forall|v: V| #[trigger] s.contains(v) ==> sorted_stably(s, lt).contains(v),
    decreases s.len(),
{
    if s.len() > 0 {
        lemma_sorted_keeps(s.drop_last(), lt);
        let d = sorted_stably(s.drop_last(), lt);
        let x = s.last();
        lemma_insert_is_insert(d, x, lt);
        let p = insert_pos(d, x, lt);
        let r = d.insert(p, x);
        assert forall|v: V| #[trigger] s.contains(v) implies r.contains(v) by {
            let m = choose|m: int| 0 <= m < s.len() && s[m] == v;
            if m == s.len() - 1 {
                assert(r[p] == x);
            } else {
                assert(s.drop_last()[m] == v);
                assert(s.drop_last().contains(v));
                assert(d.contains(v));
                let k = choose|k: int| 0 <= k < d.len() && d[k] == v;
                if k < p {
                    assert(r[k] == v);
                } else {
                    assert(r[k + 1] == v);
                }
            }
        }
    }
}

} // verus!
