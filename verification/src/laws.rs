//! Container-level laws: properties of the container's model that hold for
//! all inputs, proved once and for all. The sorting laws (sortedness,
//! permutation, stability) live with the sort specification in
//! [`crate::sorting`].

use vstd::prelude::*;

use crate::children::{pushed_active, swap_seq, Children};
use crate::entity::Entity;

verus! {

/// Construction fidelity: a container that holds a given handle sequence as
/// its full list and has no active list presents exactly that sequence as
/// its default view — the state every [`Children::from_entities`] call
/// establishes.
pub proof fn lemma_construction_fidelity(c: &Children, s: Seq<Entity>)
    requires
        c.all_view() == s,
        c.active_view() is None,
    ensures
        c.default_view() == s,
{
}

/// Fallback view equivalence: while the active list is absent, the default
/// view equals the full list.
pub proof fn lemma_default_view_fallback(c: &Children)
    requires
        c.active_view() is None,
    ensures
        c.default_view() == c.all_view(),
{
}

/// Double swap: exchanging two valid positions and then exchanging the same
/// two positions again restores the original order.
pub proof fn lemma_swap_involutive(s: Seq<Entity>, i: int, j: int)
    requires
        0 <= i < s.len(),
        0 <= j < s.len(),
    ensures
        swap_seq(swap_seq(s, i, j), i, j) == s,
{
    assert(swap_seq(swap_seq(s, i, j), i, j) =~= s);
}

/// Remap totality: rewriting a handle sequence elementwise visits every
/// position exactly once — the result has the same length and holds, at
/// each position, the image of the handle that stood there, so no entry is
/// dropped, duplicated or reordered. This is the shape of the full list
/// after [`Children::map_entities`].
pub proof fn lemma_remap_totality(s: Seq<Entity>, mf: spec_fn(Entity) -> Entity)
    ensures
        s.map_values(mf).len() == s.len(),
        forall|i: int| 0 <= i < s.len() ==> s.map_values(mf)[i] == mf(#[trigger] s[i]),
{
}

/// The active list that a run of [`Children::add_active`] calls leaves
/// behind, appending the handles of `s` in order to the active list `a`.
pub open spec fn accumulated(a: Option<Seq<Entity>>, s: Seq<Entity>) -> Option<Seq<Entity>>
    decreases s.len(),
{
    if s.len() == 0 {
        a
    } else {
        accumulated(pushed_active(a, s.first()), s.drop_first())
    }
}

proof fn lemma_accumulate_from(prefix: Seq<Entity>, s: Seq<Entity>)
    ensures
        accumulated(Some(prefix), s) == Some(prefix + s),
    decreases s.len(),
{
    if s.len() == 0 {
        assert(prefix + s =~= prefix);
    } else {
        lemma_accumulate_from(prefix.push(s.first()), s.drop_first());
        assert(prefix.push(s.first()) + s.drop_first() =~= prefix + s);
    }
}

/// Active round trip: starting from the present-and-empty active list that
/// [`Children::set_zero_active`] establishes, appending any handles one by
/// one leaves exactly those handles in the active list, in append order —
/// and therefore in the default view.
pub proof fn lemma_active_accumulation(s: Seq<Entity>)
    ensures
        accumulated(Some(Seq::<Entity>::empty()), s) == Some(s),
{
    lemma_accumulate_from(Seq::<Entity>::empty(), s);
    assert(Seq::<Entity>::empty() + s =~= s);
}

} // verus!
