//! Stable sorting of handle sequences by caller-chosen keys.
//!
//! The specification of the sort is the recursive function
//! [`stable_sort_by`]: it inserts each element, left to right, after every
//! already-placed element whose key is at most its own. That definition
//! makes the result unique, so the executable sort is proved to return it
//! exactly; sortedness, permutation and stability are proved of the
//! definition itself as separate lemmas.

use vstd::multiset::Multiset;
use vstd::prelude::*;

use crate::entity::Entity;

verus! {

/// The sequence is ordered by the keys that `kf` assigns: every element's
/// key is at most the key of each later element.
pub open spec fn sorted_by_keys(s: Seq<Entity>, kf: spec_fn(Entity) -> u64) -> bool {
    forall|i: int, j: int|
        #![trigger kf(s[i]), kf(s[j])]
        0 <= i < j < s.len() ==> kf(s[i]) <= kf(s[j])
}

/// Places `e` into `s` directly before the longest suffix of `s` whose
/// elements all have keys strictly greater than the key of `e`.
pub open spec fn place(s: Seq<Entity>, e: Entity, kf: spec_fn(Entity) -> u64) -> Seq<Entity>
    decreases s.len(),
{
    if s.len() == 0 {
        seq![e]
    } else if kf(s.last()) <= kf(e) {
        s.push(e)
    } else {
        place(s.drop_last(), e, kf).push(s.last())
    }
}

/// The stable sort of `s` by the keys that `kf` assigns: the elements of
/// `s` in ascending key order, elements with equal keys keeping their
/// relative order.
pub open spec fn stable_sort_by(s: Seq<Entity>, kf: spec_fn(Entity) -> u64) -> Seq<Entity>
    decreases s.len(),
{
    if s.len() == 0 {
        Seq::<Entity>::empty()
    } else {
        place(stable_sort_by(s.drop_last(), kf), s.last(), kf)
    }
}

/// The elements whose key under `kf` is exactly `v`.
pub open spec fn key_class(kf: spec_fn(Entity) -> u64, v: u64) -> spec_fn(Entity) -> bool {
    |e: Entity| kf(e) == v
}

proof fn lemma_place_len(s: Seq<Entity>, e: Entity, kf: spec_fn(Entity) -> u64)
    ensures
        place(s, e, kf).len() == s.len() + 1,
    decreases s.len(),
{
    if s.len() != 0 && !(kf(s.last()) <= kf(e)) {
        lemma_place_len(s.drop_last(), e, kf);
    }
}

/// Inserting with `place` at position `p` is a sequence insertion, provided
/// everything from `p` on has a strictly greater key and the element just
/// before `p`, if any, does not.
proof fn lemma_place_is_insert(s: Seq<Entity>, e: Entity, kf: spec_fn(Entity) -> u64, p: int)
    requires
        0 <= p <= s.len(),
        forall|t: int| p <= t < s.len() ==> kf(#[trigger] s[t]) > kf(e),
        p > 0 ==> kf(s[p - 1]) <= kf(e),
    ensures
        place(s, e, kf) == s.insert(p, e),
    decreases s.len(),
{
    if s.len() == 0 {
        assert(place(s, e, kf) =~= s.insert(0, e));
    } else if kf(s.last()) <= kf(e) {
        assert(p == s.len()) by {
            if p < s.len() {
                assert(kf(s[s.len() - 1]) > kf(e));
            }
        }
        assert(place(s, e, kf) =~= s.insert(p, e));
    } else {
        assert(p < s.len()) by {
            if p == s.len() {
                assert(kf(s[p - 1]) <= kf(e));
            }
        }
        let dl = s.drop_last();
        lemma_place_is_insert(dl, e, kf, p);
        assert(place(s, e, kf) =~= s.insert(p, e)) by {
            assert(place(s, e, kf) == dl.insert(p, e).push(s.last()));
            dl.insert_ensures(p, e);
            s.insert_ensures(p, e);
        }
    }
}

/// `place` adds exactly one copy of the placed element to the contents.
proof fn lemma_place_multiset(s: Seq<Entity>, e: Entity, kf: spec_fn(Entity) -> u64)
    ensures
        place(s, e, kf).to_multiset() == s.to_multiset().insert(e),
    decreases s.len(),
{
    broadcast use vstd::seq_lib::group_to_multiset_ensures;

    if s.len() == 0 {
        assert(seq![e] =~= Seq::<Entity>::empty().push(e));
        assert(Seq::<Entity>::empty().to_multiset() =~= Multiset::<Entity>::empty());
        assert(place(s, e, kf).to_multiset() =~= s.to_multiset().insert(e));
    } else if kf(s.last()) <= kf(e) {
        assert(place(s, e, kf).to_multiset() =~= s.to_multiset().insert(e));
    } else {
        let dl = s.drop_last();
        lemma_place_multiset(dl, e, kf);
        assert(s =~= dl.push(s.last()));
        assert(place(s, e, kf).to_multiset() =~= dl.to_multiset().insert(e).insert(s.last()));
        assert(s.to_multiset() =~= dl.to_multiset().insert(s.last()));
        assert(place(s, e, kf).to_multiset() =~= s.to_multiset().insert(e));
    }
}

/// `place` keeps a sequence ordered.
proof fn lemma_place_sorted(s: Seq<Entity>, e: Entity, kf: spec_fn(Entity) -> u64)
    requires
        sorted_by_keys(s, kf),
    ensures
        sorted_by_keys(place(s, e, kf), kf),
    decreases s.len(),
{
    broadcast use vstd::seq_lib::group_to_multiset_ensures;

    if s.len() == 0 {
    } else if kf(s.last()) <= kf(e) {
        let r = s.push(e);
        assert forall|i: int, j: int|
            0 <= i < j < r.len() implies kf(#[trigger] r[i]) <= kf(#[trigger] r[j]) by {
            if j < s.len() {
                assert(kf(s[i]) <= kf(s[j]));
            } else {
                if i < s.len() - 1 {
                    assert(kf(s[i]) <= kf(s[s.len() - 1]));
                }
            }
        }
    } else {
        let dl = s.drop_last();
        assert(sorted_by_keys(dl, kf)) by {
            assert forall|i: int, j: int|
                0 <= i < j < dl.len() implies kf(#[trigger] dl[i]) <= kf(#[trigger] dl[j]) by {
                assert(kf(s[i]) <= kf(s[j]));
            }
        }
        lemma_place_sorted(dl, e, kf);
        lemma_place_multiset(dl, e, kf);
        lemma_place_len(dl, e, kf);
        let q = place(dl, e, kf);
        // every element of `q` is an element of `dl` or is `e`, so its key
        // is at most the key of `s.last()`
        assert forall|i: int| 0 <= i < q.len() implies kf(#[trigger] q[i]) <= kf(s.last()) by {
            assert(q.to_multiset().count(q[i]) > 0);
            assert(q.contains(q[i]));
            if q[i] == e {
                assert(kf(e) <= kf(s.last()));
            } else {
                assert(dl.to_multiset().count(q[i]) > 0);
                assert(dl.contains(q[i]));
                let t = choose|t: int| 0 <= t < dl.len() && dl[t] == q[i];
                if t < dl.len() - 1 {
                    assert(kf(dl[t]) <= kf(dl[dl.len() - 1]));
                }
                assert(kf(dl[dl.len() - 1]) == kf(s[s.len() - 2]));
                assert(kf(s[s.len() - 2]) <= kf(s[s.len() - 1]));
            }
        }
        let r = q.push(s.last());
        assert forall|i: int, j: int|
            0 <= i < j < r.len() implies kf(#[trigger] r[i]) <= kf(#[trigger] r[j]) by {
            if j < q.len() {
                assert(kf(q[i]) <= kf(q[j]));
            } else {
                assert(kf(q[i]) <= kf(s.last()));
            }
        }
    }
}

/// The result of [`stable_sort_by`] has the same length as the input.
pub proof fn lemma_stable_sort_len(s: Seq<Entity>, kf: spec_fn(Entity) -> u64)
    ensures
        stable_sort_by(s, kf).len() == s.len(),
    decreases s.len(),
{
    if s.len() != 0 {
        lemma_stable_sort_len(s.drop_last(), kf);
        lemma_place_len(stable_sort_by(s.drop_last(), kf), s.last(), kf);
    }
}

/// The result of [`stable_sort_by`] holds exactly the elements of the
/// input: nothing is dropped, duplicated or invented.
pub proof fn lemma_stable_sort_multiset(s: Seq<Entity>, kf: spec_fn(Entity) -> u64)
    ensures
        stable_sort_by(s, kf).to_multiset() == s.to_multiset(),
    decreases s.len(),
{
    broadcast use vstd::seq_lib::group_to_multiset_ensures;

    if s.len() != 0 {
        let dl = s.drop_last();
        lemma_stable_sort_multiset(dl, kf);
        lemma_place_multiset(stable_sort_by(dl, kf), s.last(), kf);
        assert(s =~= dl.push(s.last()));
        assert(s.to_multiset() =~= dl.to_multiset().insert(s.last()));
        assert(stable_sort_by(s, kf).to_multiset() =~= s.to_multiset());
    }
}

/// The result of [`stable_sort_by`] is ordered by the keys.
pub proof fn lemma_stable_sort_sorted(s: Seq<Entity>, kf: spec_fn(Entity) -> u64)
    ensures
        sorted_by_keys(stable_sort_by(s, kf), kf),
    decreases s.len(),
{
    if s.len() != 0 {
        lemma_stable_sort_sorted(s.drop_last(), kf);
        lemma_place_sorted(stable_sort_by(s.drop_last(), kf), s.last(), kf);
    }
}

proof fn lemma_place_filter(s: Seq<Entity>, e: Entity, kf: spec_fn(Entity) -> u64, v: u64)
    ensures
        place(s, e, kf).filter(key_class(kf, v)) == if kf(e) == v {
            s.filter(key_class(kf, v)).push(e)
        } else {
            s.filter(key_class(kf, v))
        },
    decreases s.len(),
{
    reveal(Seq::filter);
    let p = key_class(kf, v);
    if s.len() == 0 {
        assert(seq![e].drop_last() =~= Seq::<Entity>::empty());
        assert(s.filter(p) == Seq::<Entity>::empty());
    } else if kf(s.last()) <= kf(e) {
        let r = s.push(e);
        assert(r.drop_last() =~= s);
        assert(r.last() == e);
    } else {
        let dl = s.drop_last();
        let q = place(dl, e, kf);
        lemma_place_filter(dl, e, kf, v);
        let r = q.push(s.last());
        assert(r.drop_last() =~= q);
        assert(r.last() == s.last());
        assert(s =~= dl.push(s.last()));
        assert(s.filter(p) == if p(s.last()) {
            dl.filter(p).push(s.last())
        } else {
            dl.filter(p)
        });
        if kf(e) == v {
            // the last element of `s` has a strictly greater key than `e`,
            // so it is not in this key class
            assert(kf(s.last()) != v);
        }
    }
}

/// Stability of [`stable_sort_by`]: for every key value, the elements of
/// that key, read in order, are the same before and after the sort. In
/// particular, elements with equal keys keep their relative order.
pub proof fn lemma_stable_sort_stable(s: Seq<Entity>, kf: spec_fn(Entity) -> u64, v: u64)
    ensures
        stable_sort_by(s, kf).filter(key_class(kf, v)) == s.filter(key_class(kf, v)),
    decreases s.len(),
{
    reveal(Seq::filter);
    let p = key_class(kf, v);
    if s.len() == 0 {
    } else {
        let dl = s.drop_last();
        lemma_stable_sort_stable(dl, kf, v);
        lemma_place_filter(stable_sort_by(dl, kf), s.last(), kf, v);
        assert(s =~= dl.push(s.last()));
        assert(s.filter(p) == if p(s.last()) {
            dl.filter(p).push(s.last())
        } else {
            dl.filter(p)
        });
    }
}

/// Inserts `e`, whose key is `k`, into the keyed, already key-sorted pair of
/// vectors, after every element whose key is at most `k`.
fn insert_sorted(
    ents: &mut Vec<Entity>,
    keys: &mut Vec<u64>,
    e: Entity,
    k: u64,
    Ghost(kf): Ghost<spec_fn(Entity) -> u64>,
)
    requires
        old(keys)@.len() == old(ents)@.len(),
        forall|i: int| 0 <= i < old(ents)@.len() ==> old(keys)@[i] == kf(#[trigger] old(ents)@[i]),
        k == kf(e),
    ensures
        final(ents)@ == place(old(ents)@, e, kf),
        final(keys)@.len() == final(ents)@.len(),
        forall|i: int| 0 <= i < final(ents)@.len() ==> final(keys)@[i] == kf(#[trigger] final(ents)@[i]),
{
    let mut p: usize = ents.len();
    while p > 0 && keys[p - 1] > k
        invariant
            p <= ents@.len(),
            keys@.len() == ents@.len(),
            forall|i: int| 0 <= i < ents@.len() ==> keys@[i] == kf(#[trigger] ents@[i]),
            k == kf(e),
            forall|t: int| p <= t < ents@.len() ==> kf(#[trigger] ents@[t]) > k,
        decreases p,
    {
        p -= 1;
    }
    proof {
        lemma_place_is_insert(ents@, e, kf, p as int);
        ents@.insert_ensures(p as int, e);
        keys@.insert_ensures(p as int, k);
    }
    ents.insert(p, e);
    keys.insert(p, k);
}

/// Stably sorts the handles by the given keys. `keys` gives the key of the
/// handle at each position.
pub(crate) fn stable_sort_pairs(
    ents: &Vec<Entity>,
    keys: &Vec<u64>,
    Ghost(kf): Ghost<spec_fn(Entity) -> u64>,
) -> (r: Vec<Entity>)
    requires
        keys@.len() == ents@.len(),
        forall|i: int| 0 <= i < ents@.len() ==> keys@[i] == kf(#[trigger] ents@[i]),
    ensures
        r@ == stable_sort_by(ents@, kf),
{
    let mut out: Vec<Entity> = Vec::new();
    let mut okeys: Vec<u64> = Vec::new();
    let mut i: usize = 0;
    while i < ents.len()
        invariant
            i <= ents@.len(),
            keys@.len() == ents@.len(),
            forall|j: int| 0 <= j < ents@.len() ==> keys@[j] == kf(#[trigger] ents@[j]),
            out@ == stable_sort_by(ents@.take(i as int), kf),
            okeys@.len() == out@.len(),
            forall|j: int| 0 <= j < out@.len() ==> okeys@[j] == kf(#[trigger] out@[j]),
        decreases ents@.len() - i,
    {
        insert_sorted(&mut out, &mut okeys, ents[i], keys[i], Ghost(kf));
        proof {
            let t = ents@.take(i + 1);
            assert(t.drop_last() =~= ents@.take(i as int));
            assert(t.last() == ents@[i as int]);
        }
        i += 1;
    }
    proof {
        assert(ents@.take(ents@.len() as int) =~= ents@);
    }
    out
}

} // verus!
