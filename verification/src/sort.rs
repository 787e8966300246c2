//! Stable sorting in descending order of a key, as used to rank phrases and
//! instructions.

use vstd::prelude::*;

verus! {

/// Where a stable descending insertion places `x` in `s`: after the leading elements
/// whose key is at least the key of `x`.
pub open spec fn insert_pos<A>(s: Seq<A>, x: A, key: spec_fn(A) -> int) -> nat
    decreases s.len(),
{
    if s.len() > 0 && key(s[0]) >= key(x) {
        1 + insert_pos(s.drop_first(), x, key)
    } else {
        0
    }
}

/// `s` with `x` inserted at `insert_pos`.
pub open spec fn insert_desc<A>(s: Seq<A>, x: A, key: spec_fn(A) -> int) -> Seq<A> {
    let p = insert_pos(s, x, key) as int;
    s.subrange(0, p).push(x) + s.subrange(p, s.len() as int)
}

/// `s` sorted by descending `key`, equal keys kept in their original order (what a
/// stable sort with a descending comparison yields).
pub open spec fn sort_desc<A>(s: Seq<A>, key: spec_fn(A) -> int) -> Seq<A>
    decreases s.len(),
{
    if s.len() == 0 {
        s
    } else {
        insert_desc(sort_desc(s.drop_last(), key), s.last(), key)
    }
}

/// `s` is in descending order of `key`.
pub open spec fn is_desc<A>(s: Seq<A>, key: spec_fn(A) -> int) -> bool {
    forall|i: int, j: int| 0 <= i < j < s.len() ==> key(s[i]) >= key(s[j])
}

pub proof fn lemma_insert_pos_bound<A>(s: Seq<A>, x: A, key: spec_fn(A) -> int)
    ensures
        insert_pos(s, x, key) <= s.len(),
        forall|j: int| 0 <= j < insert_pos(s, x, key) ==> key(#[trigger] s[j]) >= key(x),
        insert_pos(s, x, key) < s.len() ==> key(s[insert_pos(s, x, key) as int]) < key(x),
    decreases s.len(),
{
    if s.len() > 0 && key(s[0]) >= key(x) {
        lemma_insert_pos_bound(s.drop_first(), x, key);
        assert forall|j: int| 0 <= j < insert_pos(s, x, key) implies key(#[trigger] s[j]) >= key(
            x,
        ) by {
            if j > 0 {
                assert(s[j] == s.drop_first()[j - 1]);
            }
        }
        if insert_pos(s, x, key) < s.len() {
            assert(s[insert_pos(s, x, key) as int] == s.drop_first()[insert_pos(
                s.drop_first(),
                x,
                key,
            ) as int]);
        }
    }
}

/// Inserting into a sorted sequence keeps it sorted and adds exactly `x`.
pub proof fn lemma_insert_desc<A>(s: Seq<A>, x: A, key: spec_fn(A) -> int)
    requires
        is_desc(s, key),
    ensures
        is_desc(insert_desc(s, x, key), key),
        insert_desc(s, x, key).to_multiset() == s.to_multiset().insert(x),
        insert_desc(s, x, key).len() == s.len() + 1,
{
    lemma_insert_pos_bound(s, x, key);
    let p = insert_pos(s, x, key) as int;
    let r = insert_desc(s, x, key);
    assert forall|i: int, j: int| 0 <= i < j < r.len() implies key(r[i]) >= key(r[j]) by {
        if i < p && j < p {
            assert(r[i] == s[i] && r[j] == s[j]);
        } else if i < p && j == p {
            assert(r[i] == s[i] && r[j] == x);
        } else if i < p {
            assert(r[i] == s[i] && r[j] == s[j - 1]);
        } else if i == p {
            assert(r[i] == x && r[j] == s[j - 1]);
            assert(key(s[p]) < key(x));
            if j - 1 > p {
                assert(key(s[p]) >= key(s[j - 1]));
            }
        } else {
            assert(r[i] == s[i - 1] && r[j] == s[j - 1]);
        }
    }
    vstd::seq_lib::lemma_multiset_commutative(s.subrange(0, p).push(x), s.subrange(p, s.len() as int));
    vstd::seq_lib::lemma_multiset_commutative(s.subrange(0, p), s.subrange(p, s.len() as int));
    assert(s =~= s.subrange(0, p) + s.subrange(p, s.len() as int));
    s.subrange(0, p).to_multiset_ensures();
}

/// A stable descending sort yields a sorted permutation.
pub proof fn lemma_sort_desc<A>(s: Seq<A>, key: spec_fn(A) -> int)
    ensures
        is_desc(sort_desc(s, key), key),
        sort_desc(s, key).to_multiset() == s.to_multiset(),
        sort_desc(s, key).len() == s.len(),
    decreases s.len(),
{
    if s.len() > 0 {
        lemma_sort_desc(s.drop_last(), key);
        lemma_insert_desc(sort_desc(s.drop_last(), key), s.last(), key);
        s.drop_last().to_multiset_ensures();
        assert(s =~= s.drop_last().push(s.last()));
    } else {
        assert(sort_desc(s, key) =~= s);
    }
}

/// Keeping the first `n` of a stable descending sort keeps the best: what is kept and
/// what is dropped together are `s` again, and nothing dropped outranks anything kept.
pub proof fn lemma_kept_outrank_dropped<A>(s: Seq<A>, key: spec_fn(A) -> int, n: int)
    requires
        0 <= n <= s.len(),
    ensures
        ({
            let sorted = sort_desc(s, key);
            let kept = sorted.subrange(0, n);
            let dropped = sorted.subrange(n, s.len() as int);
            &&& kept.len() == n
            &&& is_desc(kept, key)
            &&& kept.to_multiset().add(dropped.to_multiset()) == s.to_multiset()
            &&& forall|i: int, j: int|
                0 <= i < kept.len() && 0 <= j < dropped.len() ==> key(#[trigger] kept[i]) >= key(
                    #[trigger] dropped[j],
                )
        }),
{
    let sorted = sort_desc(s, key);
    lemma_sort_desc(s, key);
    let kept = sorted.subrange(0, n);
    let dropped = sorted.subrange(n, s.len() as int);
    assert(sorted =~= kept + dropped);
    vstd::seq_lib::lemma_multiset_commutative(kept, dropped);
    assert forall|i: int, j: int| 0 <= i < kept.len() && 0 <= j < dropped.len() implies key(
        #[trigger] kept[i],
    ) >= key(#[trigger] dropped[j]) by {
        assert(kept[i] == sorted[i]);
        assert(dropped[j] == sorted[n + j]);
    }
    assert forall|i: int, j: int| 0 <= i < j < kept.len() implies key(kept[i]) >= key(kept[j]) by {
        assert(kept[i] == sorted[i]);
        assert(kept[j] == sorted[j]);
    }
}

/// The elements whose key is `k`.
pub open spec fn key_is<A>(key: spec_fn(A) -> int, k: int) -> spec_fn(A) -> bool {
    |a: A| key(a) == k
}

proof fn lemma_filter_none<A>(s: Seq<A>, pred: spec_fn(A) -> bool)
    requires
        forall|i: int| 0 <= i < s.len() ==> !pred(#[trigger] s[i]),
    ensures
        s.filter(pred) == Seq::<A>::empty(),
    decreases s.len(),
{
    reveal(Seq::filter);
    if s.len() > 0 {
        lemma_filter_none(s.drop_last(), pred);
        assert(!pred(s[s.len() - 1]));
    }
}

/// The sort is stable: the elements of any one key come out in the order they went in.
pub proof fn lemma_sort_desc_stable<A>(s: Seq<A>, key: spec_fn(A) -> int, k: int)
    ensures
        sort_desc(s, key).filter(key_is(key, k)) == s.filter(key_is(key, k)),
    decreases s.len(),
{
    reveal(Seq::filter);
    let pred = key_is(key, k);
    if s.len() > 0 {
        let t = sort_desc(s.drop_last(), key);
        let x = s.last();
        lemma_sort_desc_stable(s.drop_last(), key, k);
        lemma_sort_desc(s.drop_last(), key);
        lemma_insert_pos_bound(t, x, key);
        let p = insert_pos(t, x, key) as int;
        let front = t.subrange(0, p);
        let back = t.subrange(p, t.len() as int);
        Seq::filter_distributes_over_add(front.push(x), back, pred);
        Seq::filter_distributes_over_add(front, back, pred);
        front.lemma_filter_push(x, pred);
        assert(t =~= front + back);
        assert(sort_desc(s, key) == front.push(x) + back);
        if key(x) == k {
            assert forall|i: int| 0 <= i < back.len() implies !pred(#[trigger] back[i]) by {
                assert(back[i] == t[p + i]);
                assert(key(t[p]) < key(x));
                if i > 0 {
                    assert(key(t[p]) >= key(t[p + i]));
                }
            }
            lemma_filter_none(back, pred);
            assert(front.filter(pred) + back.filter(pred) =~= front.filter(pred));
        }
    } else {
        assert(sort_desc(s, key) =~= s);
    }
}

} // verus!
