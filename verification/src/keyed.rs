//! Finding an entry by its key in a sequence, as the services do when they gather
//! result rows into one entry per group, user or list.

use vstd::prelude::*;

verus! {

/// The index of the first occurrence of `a` in `s`, or -1 where `a` does not occur.
pub open spec fn first_index<A>(s: Seq<A>, a: A) -> int
    decreases s.len(),
{
    if s.len() == 0 {
        -1
    } else if s[0] == a {
        0
    } else {
        let rest = first_index(s.drop_first(), a);
        if rest < 0 {
            -1
        } else {
            rest + 1
        }
    }
}

/// An index at which `a` occurs, with no occurrence before it, is the first index.
pub proof fn lemma_first_index_found<A>(s: Seq<A>, a: A, i: int)
    requires
        0 <= i < s.len(),
        s[i] == a,
        forall|j: int| 0 <= j < i ==> s[j] != a,
    ensures
        first_index(s, a) == i,
    decreases i,
{
    if i > 0 {
        assert(s[0] != a);
        lemma_first_index_found(s.drop_first(), a, i - 1);
    }
}

/// The first index is -1 exactly where `a` does not occur, and otherwise an index at
/// which `a` occurs.
pub proof fn lemma_first_index_bounds<A>(s: Seq<A>, a: A)
    ensures
        first_index(s, a) == -1 <==> !s.contains(a),
        first_index(s, a) != -1 ==> 0 <= first_index(s, a) < s.len() && s[first_index(s, a)] == a,
    decreases s.len(),
{
    if s.len() > 0 {
        lemma_first_index_bounds(s.drop_first(), a);
        if s[0] != a {
            if s.contains(a) {
                let k = choose|k: int| 0 <= k < s.len() && s[k] == a;
                assert(s.drop_first()[k - 1] == a);
            }
            if s.drop_first().contains(a) {
                let k = choose|k: int| 0 <= k < s.drop_first().len() && s.drop_first()[k] == a;
                assert(s[k + 1] == a);
            }
        }
    }
}

/// The sum of a sequence of integers.
pub open spec fn sum(s: Seq<int>) -> int
    decreases s.len(),
{
    if s.len() == 0 {
        0
    } else {
        sum(s.drop_last()) + s.last()
    }
}

pub proof fn lemma_sum_push(s: Seq<int>, x: int)
    ensures
        sum(s.push(x)) == sum(s) + x,
{
    assert(s.push(x).drop_last() =~= s);
}

pub proof fn lemma_sum_update(s: Seq<int>, i: int, x: int)
    requires
        0 <= i < s.len(),
    ensures
        sum(s.update(i, x)) == sum(s) - s[i] + x,
    decreases s.len(),
{
    if i == s.len() - 1 {
        assert(s.update(i, x).drop_last() =~= s.drop_last());
    } else {
        lemma_sum_update(s.drop_last(), i, x);
        assert(s.update(i, x).drop_last() =~= s.drop_last().update(i, x));
    }
}

/// The items of `s` whose key is `k`, in the order in which they stand in `s`.
pub open spec fn with_key<A, K>(s: Seq<A>, key: spec_fn(A) -> K, k: K) -> Seq<A>
    decreases s.len(),
{
    if s.len() == 0 {
        Seq::empty()
    } else {
        let before = with_key(s.drop_last(), key, k);
        if key(s.last()) == k {
            before.push(s.last())
        } else {
            before
        }
    }
}

pub proof fn lemma_with_key_push<A, K>(s: Seq<A>, x: A, key: spec_fn(A) -> K, k: K)
    ensures
        with_key(s.push(x), key, k) == if key(x) == k {
            with_key(s, key, k).push(x)
        } else {
            with_key(s, key, k)
        },
{
    assert(s.push(x).drop_last() =~= s);
}

/// Picking the items of one key from a concatenation picks them from each part.
pub proof fn lemma_with_key_add<A, K>(a: Seq<A>, b: Seq<A>, key: spec_fn(A) -> K, k: K)
    ensures
        with_key(a + b, key, k) == with_key(a, key, k) + with_key(b, key, k),
    decreases b.len(),
{
    if b.len() == 0 {
        assert(a + b =~= a);
        assert(with_key(a, key, k) + with_key(b, key, k) =~= with_key(a, key, k));
    } else {
        lemma_with_key_add(a, b.drop_last(), key, k);
        assert((a + b).drop_last() =~= a + b.drop_last());
        assert((a + b).last() == b.last());
        if key(b.last()) == k {
            assert(with_key(a, key, k) + with_key(b, key, k) =~= (with_key(a, key, k)
                + with_key(b.drop_last(), key, k)).push(b.last()));
        }
    }
}

/// Where no item has key `k`, none is picked.
pub proof fn lemma_with_key_none<A, K>(s: Seq<A>, key: spec_fn(A) -> K, k: K)
    requires
        forall|i: int| 0 <= i < s.len() ==> key(#[trigger] s[i]) != k,
    ensures
        with_key(s, key, k) == Seq::<A>::empty(),
    decreases s.len(),
{
    if s.len() > 0 {
        assert forall|i: int| 0 <= i < s.drop_last().len() implies key(
            #[trigger] s.drop_last()[i],
        ) != k by {
            assert(s.drop_last()[i] == s[i]);
        }
        lemma_with_key_none(s.drop_last(), key, k);
    }
}

/// Inserting an item adds it to the items of its key, at the place that the items of
/// that key before and after it leave.
pub proof fn lemma_with_key_insert<A, K>(s: Seq<A>, p: int, x: A, key: spec_fn(A) -> K, k: K)
    requires
        0 <= p <= s.len(),
    ensures
        with_key(s.insert(p, x), key, k) == with_key(s.take(p), key, k) + (if key(x) == k {
            seq![x]
        } else {
            Seq::<A>::empty()
        }) + with_key(s.skip(p), key, k),
        with_key(s, key, k) == with_key(s.take(p), key, k) + with_key(s.skip(p), key, k),
{
    assert(s =~= s.take(p) + s.skip(p));
    lemma_with_key_add(s.take(p), s.skip(p), key, k);
    let single = seq![x];
    assert(s.insert(p, x) =~= (s.take(p) + single) + s.skip(p));
    lemma_with_key_add(s.take(p) + single, s.skip(p), key, k);
    lemma_with_key_add(s.take(p), single, key, k);
    assert(single =~= Seq::<A>::empty().push(x));
    lemma_with_key_push(Seq::<A>::empty(), x, key, k);
    assert(with_key(Seq::<A>::empty(), key, k) =~= Seq::<A>::empty());
    if key(x) == k {
        assert(with_key(single, key, k) =~= seq![x]);
    } else {
        assert(with_key(single, key, k) =~= Seq::<A>::empty());
    }
}

/// Every item picked for key `k` is an item of `s` with that key, and every item of
/// `s` with that key is picked.
pub proof fn lemma_with_key_members<A, K>(s: Seq<A>, key: spec_fn(A) -> K, k: K)
    ensures
        forall|x: A| #[trigger] with_key(s, key, k).contains(x) ==> s.contains(x) && key(x) == k,
        forall|i: int|
            0 <= i < s.len() && key(s[i]) == k ==> #[trigger] with_key(s, key, k).contains(s[i]),
    decreases s.len(),
{
    if s.len() > 0 {
        let d = s.drop_last();
        lemma_with_key_members(d, key, k);
        let w = with_key(s, key, k);
        let wd = with_key(d, key, k);
        assert forall|x: A| #[trigger] w.contains(x) implies s.contains(x) && key(x) == k by {
            let j = choose|j: int| 0 <= j < w.len() && w[j] == x;
            if key(s.last()) == k && j == wd.len() {
                assert(s[s.len() - 1] == x);
            } else {
                assert(wd[j] == x);
                assert(wd.contains(x));
                let m = choose|m: int| 0 <= m < d.len() && d[m] == x;
                assert(s[m] == x);
            }
        }
        assert forall|i: int| 0 <= i < s.len() && key(s[i]) == k implies #[trigger] w.contains(
            s[i],
        ) by {
            if i == s.len() - 1 {
                assert(w[wd.len() as int] == s[i]);
            } else {
                assert(d[i] == s[i]);
                assert(wd.contains(d[i]));
                let j = choose|j: int| 0 <= j < wd.len() && wd[j] == d[i];
                if key(s.last()) == k {
                    assert(w[j] == wd[j]);
                }
            }
        }
    }
}

/// Two items with the same key are both picked.
pub proof fn lemma_with_key_two<A, K>(s: Seq<A>, key: spec_fn(A) -> K, i: int, j: int)
    requires
        0 <= i < j < s.len(),
        key(s[i]) == key(s[j]),
    ensures
        with_key(s, key, key(s[j])).len() >= 2,
    decreases s.len(),
{
    let k = key(s[j]);
    let d = s.drop_last();
    if j == s.len() - 1 {
        lemma_with_key_members(d, key, k);
        assert(d[i] == s[i]);
        assert(with_key(d, key, k).contains(d[i]));
    } else {
        assert(d[i] == s[i] && d[j] == s[j]);
        lemma_with_key_two(d, key, i, j);
    }
}

/// Where no two items share key `k`, at most one is picked.
pub proof fn lemma_with_key_at_most_one<A, K>(s: Seq<A>, key: spec_fn(A) -> K, k: K)
    requires
        forall|i: int, j: int|
            0 <= i < j < s.len() && key(#[trigger] s[i]) == k ==> key(#[trigger] s[j]) != k,
    ensures
        with_key(s, key, k).len() <= 1,
    decreases s.len(),
{
    if s.len() > 0 {
        let d = s.drop_last();
        assert forall|i: int, j: int|
            0 <= i < j < d.len() && key(#[trigger] d[i]) == k implies key(#[trigger] d[j]) != k by {
            assert(d[i] == s[i] && d[j] == s[j]);
        }
        lemma_with_key_at_most_one(d, key, k);
        if key(s.last()) == k {
            assert forall|i: int| 0 <= i < d.len() implies key(#[trigger] d[i]) != k by {
                assert(d[i] == s[i]);
                assert(s[s.len() - 1] == s.last());
            }
            lemma_with_key_none(d, key, k);
        }
    }
}

} // verus!
