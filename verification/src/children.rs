//! The ordered reference container: the child handles owned by one node.

use vstd::prelude::*;

use crate::entity::Entity;
use crate::sorting::{
    sorted_by_keys, stable_sort_by, stable_sort_pairs, lemma_stable_sort_multiset,
    lemma_stable_sort_sorted,
};
use crate::storage::{
    sv_contents, sv_from_slice, sv_from_vec, sv_get, sv_len, sv_new, sv_push, sv_set, sv_to_vec,
    EntityVec,
};

verus! {

/// The closure accepts every handle.
pub open spec fn fn_total<R, F: Fn(Entity) -> R>(f: F) -> bool {
    forall|e: Entity| #[trigger] call_requires(f, (e,))
}

/// The closure is a function of its argument: any two results it can return
/// for the same handle are equal.
pub open spec fn fn_deterministic<R, F: Fn(Entity) -> R>(f: F) -> bool {
    forall|e: Entity, r1: R, r2: R|
        #![trigger call_ensures(f, (e,), r1), call_ensures(f, (e,), r2)]
        call_ensures(f, (e,), r1) && call_ensures(f, (e,), r2) ==> r1 == r2
}

/// The result the closure returns for `e`. Meaningful when the closure is
/// total and deterministic.
pub open spec fn fn_value<R, F: Fn(Entity) -> R>(f: F, e: Entity) -> R {
    choose|r: R| call_ensures(f, (e,), r)
}

/// The closure as a mathematical function over handles.
pub open spec fn fn_spec<R, F: Fn(Entity) -> R>(f: F) -> spec_fn(Entity) -> R {
    |e: Entity| fn_value(f, e)
}

/// The closure has been evaluated on every handle of `s`, so [`fn_value`]
/// is known to be one of its possible results there. Together with the
/// closure's own postcondition this pins `fn_value` down for those handles.
pub open spec fn fn_pinned_on<R, F: Fn(Entity) -> R>(f: F, s: Seq<Entity>) -> bool {
    forall|i: int| 0 <= i < s.len() ==> call_ensures(f, (#[trigger] s[i],), fn_value(f, s[i]))
}

/// The sequence with the entries at `i` and `j` exchanged.
pub open spec fn swap_seq(s: Seq<Entity>, i: int, j: int) -> Seq<Entity> {
    s.update(i, s[j]).update(j, s[i])
}

/// The active list after appending `e`: the appended list if one was
/// present, else a fresh list holding `e` alone.
pub open spec fn pushed_active(a: Option<Seq<Entity>>, e: Entity) -> Option<Seq<Entity>> {
    match a {
        Some(s) => Some(s.push(e)),
        None => Some(seq![e]),
    }
}

/// Contains references to the child entities of one node in the hierarchy.
///
/// The container owns one mandatory ordered list of handles, `all`, and one
/// optional ordered list, `active`, that the owner fills explicitly for
/// cheaper downstream traversal. The active list is not checked to be a
/// subset of `all`; callers are responsible for semantic consistency.
///
/// The default read view ([`Children::iter_active`], [`Children::len`],
/// [`Children::get`]) is the active list when it is present and the full
/// list otherwise. A structural [`Children::swap`] clears the active list,
/// so that no stale derived ordering survives a structural edit;
/// [`Children::map_entities`] rewrites the full list and leaves the active
/// list untouched, while [`Children::visit_entities_mut`] rewrites the
/// default view.
pub struct Children {
    all: EntityVec,
    active: Option<EntityVec>,
}

impl Children {
    /// The full ordered list of child handles.
    pub closed spec fn all_view(&self) -> Seq<Entity> {
        sv_contents(self.all)
    }

    /// The active list, if one is present.
    pub closed spec fn active_view(&self) -> Option<Seq<Entity>> {
        match self.active {
            Some(a) => Some(sv_contents(a)),
            None => None,
        }
    }

    /// The default read view: the active list when present, else the full
    /// list.
    pub open spec fn default_view(&self) -> Seq<Entity> {
        match self.active_view() {
            Some(a) => a,
            None => self.all_view(),
        }
    }

    /// Constructs a container with the given child handles and no active
    /// list. Nothing is validated: duplicates and self-references pass
    /// through unrejected.
    pub fn from_entities(entities: &[Entity]) -> (c: Children)
        ensures
            c.all_view() == entities@,
            c.active_view() is None,
    {
        Children { all: sv_from_slice(entities), active: None }
    }

    /// Swaps the child at `a_index` with the child at `b_index` in the full
    /// list, and clears the active list. Both indices must be in bounds.
    pub fn swap(&mut self, a_index: usize, b_index: usize)
        requires
            a_index < old(self).all_view().len(),
            b_index < old(self).all_view().len(),
        ensures
            final(self).all_view() == swap_seq(
                old(self).all_view(),
                a_index as int,
                b_index as int,
            ),
            final(self).active_view() is None,
    {
        let ea = sv_get(&self.all, a_index);
        let eb = sv_get(&self.all, b_index);
        sv_set(&mut self.all, a_index, eb);
        sv_set(&mut self.all, b_index, ea);
        self.active = None;
    }

    /// Makes the active list present and empty, marking the start of a new
    /// accumulation of active children.
    pub fn set_zero_active(&mut self)
        ensures
            final(self).all_view() == old(self).all_view(),
            final(self).active_view() == Some(Seq::<Entity>::empty()),
    {
        self.active = Some(sv_new());
    }

    /// True exactly when an active list is present and empty.
    pub fn is_zero_active(&self) -> (r: bool)
        ensures
            r == (self.active_view() matches Some(a) && a.len() == 0),
    {
        match &self.active {
            Some(a) => sv_len(a) == 0,
            None => false,
        }
    }

    /// Appends one handle to the active list, creating the list with that
    /// single element if it was absent.
    pub fn add_active(&mut self, entity: Entity)
        ensures
            final(self).all_view() == old(self).all_view(),
            final(self).active_view() == pushed_active(old(self).active_view(), entity),
    {
        let taken = self.active.take();
        match taken {
            Some(mut a) => {
                sv_push(&mut a, entity);
                self.active = Some(a);
            },
            None => {
                let mut a = sv_new();
                sv_push(&mut a, entity);
                self.active = Some(a);
                proof {
                    assert(Seq::<Entity>::empty().push(entity) =~= seq![entity]);
                }
            },
        }
    }

    /// Exchanges the contents of the active list with the caller's buffer,
    /// without copying elements. An absent active list is treated as an
    /// empty one, so the caller always receives the previous active
    /// contents and the active list becomes the buffer's contents.
    pub fn swap_active(&mut self, other: &mut EntityVec)
        ensures
            final(self).all_view() == old(self).all_view(),
            final(self).active_view() == Some(old(other)@),
            final(other)@ == (match old(self).active_view() {
                Some(a) => a,
                None => Seq::<Entity>::empty(),
            }),
    {
        let taken = self.active.take();
        let mut current = match taken {
            Some(a) => a,
            None => sv_new(),
        };
        core::mem::swap(&mut current, other);
        self.active = Some(current);
    }

    /// Replaces the contents of the active list, creating it if absent,
    /// with the given handles in order.
    pub fn set_active(&mut self, entities: &[Entity])
        ensures
            final(self).all_view() == old(self).all_view(),
            final(self).active_view() == Some(entities@),
    {
        self.active = Some(sv_from_slice(entities));
    }

    /// Copies out the default view: the active list when present, else the
    /// full list. A fresh call re-derives the sequence; no state is
    /// consumed.
    pub fn iter_active(&self) -> (r: Vec<Entity>)
        ensures
            r@ == self.default_view(),
    {
        match &self.active {
            Some(a) => sv_to_vec(a),
            None => sv_to_vec(&self.all),
        }
    }

    /// The length of the default view.
    pub fn len(&self) -> (n: usize)
        ensures
            n == self.default_view().len(),
    {
        match &self.active {
            Some(a) => sv_len(a),
            None => sv_len(&self.all),
        }
    }

    /// The handle at `index` in the default view.
    pub fn get(&self, index: usize) -> (e: Entity)
        requires
            index < self.default_view().len(),
        ensures
            e == self.default_view()[index as int],
    {
        match &self.active {
            Some(a) => sv_get(a, index),
            None => sv_get(&self.all, index),
        }
    }

    /// Copies out the full list, regardless of the active list.
    pub fn all_entities(&self) -> (r: Vec<Entity>)
        ensures
            r@ == self.all_view(),
    {
        sv_to_vec(&self.all)
    }

    /// Copies out the active list, if one is present.
    pub fn active_entities(&self) -> (r: Option<Vec<Entity>>)
        ensures
            (match r {
                Some(v) => self.active_view() == Some(v@),
                None => self.active_view() is None,
            }),
    {
        match &self.active {
            Some(a) => Some(sv_to_vec(a)),
            None => None,
        }
    }

    /// Rewrites every handle of the full list in place by applying the
    /// mapper, preserving order and length; the active list, if present, is
    /// left untouched. Used when an external process consolidates or
    /// relocates handles.
    pub fn map_entities<F: Fn(Entity) -> Entity>(&mut self, mapper: F)
        requires
            fn_total(mapper),
            fn_deterministic(mapper),
        ensures
            final(self).all_view() == old(self).all_view().map_values(fn_spec(mapper)),
            final(self).active_view() == old(self).active_view(),
            fn_pinned_on(mapper, old(self).all_view()),
    {
        let ents = sv_to_vec(&self.all);
        let mapped = map_vec(&ents, mapper);
        self.all = sv_from_vec(mapped);
    }

    /// Rewrites every handle of the default view in place by applying the
    /// visitor: the active list when one is present, else the full list.
    /// This is the uniform visiting contract for cross-cutting passes that
    /// rewrite every identifier a node references without knowing which
    /// internal list is authoritative.
    pub fn visit_entities_mut<F: Fn(Entity) -> Entity>(&mut self, visitor: F)
        requires
            fn_total(visitor),
            fn_deterministic(visitor),
        ensures
            (match old(self).active_view() {
                Some(a) => final(self).active_view() == Some(a.map_values(fn_spec(visitor)))
                    && final(self).all_view() == old(self).all_view() && fn_pinned_on(visitor, a),
                None => final(self).all_view() == old(self).all_view().map_values(
                    fn_spec(visitor),
                ) && final(self).active_view() is None && fn_pinned_on(
                    visitor,
                    old(self).all_view(),
                ),
            }),
    {
        let mapped_active = match &self.active {
            Some(a) => {
                let ents = sv_to_vec(a);
                Some(map_vec(&ents, visitor))
            },
            None => {
                let ents = sv_to_vec(&self.all);
                let mapped = map_vec(&ents, visitor);
                self.all = sv_from_vec(mapped);
                None
            },
        };
        match mapped_active {
            Some(v) => {
                self.active = Some(sv_from_vec(v));
            },
            None => {},
        }
    }

    /// Sorts the full list, and independently the active list if one is
    /// present, stably by the keys the closure assigns: ascending key
    /// order, elements with equal keys keeping their relative order.
    pub fn sort_by_key<F: Fn(Entity) -> u64>(&mut self, compare: F)
        requires
            fn_total(compare),
            fn_deterministic(compare),
        ensures
            final(self).all_view() == stable_sort_by(old(self).all_view(), fn_spec(compare)),
            fn_pinned_on(compare, old(self).all_view()),
            (match old(self).active_view() {
                Some(a) => final(self).active_view() == Some(stable_sort_by(a, fn_spec(compare)))
                    && fn_pinned_on(compare, a),
                None => final(self).active_view() is None,
            }),
    {
        let ghost kf = fn_spec(compare);
        let ents = sv_to_vec(&self.all);
        let (keys, compare) = keyed(&ents, compare);
        let sorted = stable_sort_pairs(&ents, &keys, Ghost(kf));
        self.all = sv_from_vec(sorted);
        let sorted_active = match &self.active {
            Some(a) => {
                let ents2 = sv_to_vec(a);
                let (keys2, _) = keyed(&ents2, compare);
                Some(stable_sort_pairs(&ents2, &keys2, Ghost(kf)))
            },
            None => None,
        };
        match sorted_active {
            Some(v) => {
                self.active = Some(sv_from_vec(v));
            },
            None => {},
        }
    }

    /// Sorts both lists stably in ascending order of the keys the closure
    /// assigns, like [`Children::sort_by_key`].
    pub fn sort_by<F: Fn(Entity) -> u64>(&mut self, compare: F)
        requires
            fn_total(compare),
            fn_deterministic(compare),
        ensures
            final(self).all_view() == stable_sort_by(old(self).all_view(), fn_spec(compare)),
            fn_pinned_on(compare, old(self).all_view()),
            (match old(self).active_view() {
                Some(a) => final(self).active_view() == Some(stable_sort_by(a, fn_spec(compare)))
                    && fn_pinned_on(compare, a),
                None => final(self).active_view() is None,
            }),
    {
        self.sort_by_key(compare)
    }

    /// Sorts both lists stably by the keys the closure assigns, evaluating
    /// the key of each element only once per list and caching the results.
    pub fn sort_by_cached_key<F: Fn(Entity) -> u64>(&mut self, compare: F)
        requires
            fn_total(compare),
            fn_deterministic(compare),
        ensures
            final(self).all_view() == stable_sort_by(old(self).all_view(), fn_spec(compare)),
            fn_pinned_on(compare, old(self).all_view()),
            (match old(self).active_view() {
                Some(a) => final(self).active_view() == Some(stable_sort_by(a, fn_spec(compare)))
                    && fn_pinned_on(compare, a),
                None => final(self).active_view() is None,
            }),
    {
        self.sort_by_key(compare)
    }

    /// Sorts the full list, and independently the active list if one is
    /// present, into ascending order of the keys the closure assigns. The
    /// contents of each list are preserved; no order between elements with
    /// equal keys is promised.
    pub fn sort_unstable_by_key<F: Fn(Entity) -> u64>(&mut self, compare: F)
        requires
            fn_total(compare),
            fn_deterministic(compare),
        ensures
            final(self).all_view().to_multiset() == old(self).all_view().to_multiset(),
            sorted_by_keys(final(self).all_view(), fn_spec(compare)),
            fn_pinned_on(compare, old(self).all_view()),
            (match old(self).active_view() {
                Some(a) => final(self).active_view() matches Some(b) && b.to_multiset()
                    == a.to_multiset() && sorted_by_keys(b, fn_spec(compare)) && fn_pinned_on(
                    compare,
                    a,
                ),
                None => final(self).active_view() is None,
            }),
    {
        self.sort_by_key(compare);
        proof {
            lemma_stable_sort_multiset(old(self).all_view(), fn_spec(compare));
            lemma_stable_sort_sorted(old(self).all_view(), fn_spec(compare));
            match old(self).active_view() {
                Some(a) => {
                    lemma_stable_sort_multiset(a, fn_spec(compare));
                    lemma_stable_sort_sorted(a, fn_spec(compare));
                },
                None => {},
            }
        }
    }

    /// Sorts both lists into ascending key order without a stability
    /// promise, like [`Children::sort_unstable_by_key`].
    pub fn sort_unstable_by<F: Fn(Entity) -> u64>(&mut self, compare: F)
        requires
            fn_total(compare),
            fn_deterministic(compare),
        ensures
            final(self).all_view().to_multiset() == old(self).all_view().to_multiset(),
            sorted_by_keys(final(self).all_view(), fn_spec(compare)),
            fn_pinned_on(compare, old(self).all_view()),
            (match old(self).active_view() {
                Some(a) => final(self).active_view() matches Some(b) && b.to_multiset()
                    == a.to_multiset() && sorted_by_keys(b, fn_spec(compare)) && fn_pinned_on(
                    compare,
                    a,
                ),
                None => final(self).active_view() is None,
            }),
    {
        self.sort_unstable_by_key(compare)
    }
}

/// An empty container: empty full list, no active list. This placeholder
/// exists to satisfy instantiate-then-patch construction workflows; it is
/// not a semantically meaningful state on its own, and such a driver must
/// overwrite it with real child handles before the container is observable.
impl Default for Children {
    fn default() -> (c: Children)
        ensures
            c.all_view() == Seq::<Entity>::empty(),
            c.active_view() is None,
    {
        Children { all: sv_new(), active: None }
    }
}

/// Computes the key of each handle in order, and hands the closure back to
/// the caller for further use.
fn keyed<F: Fn(Entity) -> u64>(ents: &Vec<Entity>, compare: F) -> (res: (Vec<u64>, F))
    requires
        fn_total(compare),
        fn_deterministic(compare),
    ensures
        res.1 == compare,
        res.0@.len() == ents@.len(),
        forall|i: int| 0 <= i < ents@.len() ==> res.0@[i] == fn_spec(compare)(#[trigger] ents@[i]),
        fn_pinned_on(compare, ents@),
{
    let mut keys: Vec<u64> = Vec::new();
    let mut i: usize = 0;
    while i < ents.len()
        invariant
            fn_total(compare),
            fn_deterministic(compare),
            i <= ents@.len(),
            keys@.len() == i,
            forall|j: int| 0 <= j < i ==> keys@[j] == fn_spec(compare)(#[trigger] ents@[j]),
            forall|j: int|
                0 <= j < i ==> call_ensures(
                    compare,
                    (#[trigger] ents@[j],),
                    fn_value(compare, ents@[j]),
                ),
        decreases ents@.len() - i,
    {
        let k = compare(ents[i]);
        proof {
            let e = ents@[i as int];
            assert(call_ensures(compare, (e,), k));
            assert(call_ensures(compare, (e,), fn_value(compare, e)));
            assert(fn_spec(compare)(e) == k);
        }
        keys.push(k);
        i += 1;
    }
    (keys, compare)
}

/// Applies the mapper to each handle in order.
fn map_vec<F: Fn(Entity) -> Entity>(ents: &Vec<Entity>, mapper: F) -> (r: Vec<Entity>)
    requires
        fn_total(mapper),
        fn_deterministic(mapper),
    ensures
        r@ == ents@.map_values(fn_spec(mapper)),
        fn_pinned_on(mapper, ents@),
{
    let mut out: Vec<Entity> = Vec::new();
    let mut i: usize = 0;
    while i < ents.len()
        invariant
            fn_total(mapper),
            fn_deterministic(mapper),
            i <= ents@.len(),
            out@ == ents@.take(i as int).map_values(fn_spec(mapper)),
            forall|j: int|
                0 <= j < i ==> call_ensures(
                    mapper,
                    (#[trigger] ents@[j],),
                    fn_value(mapper, ents@[j]),
                ),
        decreases ents@.len() - i,
    {
        let m = mapper(ents[i]);
        proof {
            let e = ents@[i as int];
            assert(call_ensures(mapper, (e,), m));
            assert(call_ensures(mapper, (e,), fn_value(mapper, e)));
            assert(fn_spec(mapper)(e) == m);
        }
        out.push(m);
        proof {
            assert(ents@.take(i + 1).map_values(fn_spec(mapper)) =~= ents@.take(
                i as int,
            ).map_values(fn_spec(mapper)).push(fn_spec(mapper)(ents@[i as int])));
        }
        i += 1;
    }
    proof {
        assert(ents@.take(ents@.len() as int) =~= ents@);
    }
    out
}

} // verus!
