//! Trusted boundary around the small-vector storage that backs each child
//! list. The handles are kept in a `smallvec::SmallVec`, which stores a
//! handful of elements inline before spilling to the heap; that optimization
//! is opaque here. Each wrapper states, over [`sv_contents`], what the
//! wrapped `SmallVec` method does to the ordered contents.

use vstd::prelude::*;

use crate::entity::Entity;

verus! {

/// The backing storage of one child list: up to eight handles inline, the
/// rest on the heap.
#[verifier::external_body]
pub struct EntityVec {
    inner: smallvec::SmallVec<[Entity; 8]>,
}

/// The ordered sequence of handles that an [`EntityVec`] holds.
pub uninterp spec fn sv_contents(v: EntityVec) -> Seq<Entity>;

impl View for EntityVec {
    type V = Seq<Entity>;

    open spec fn view(&self) -> Seq<Entity> {
        sv_contents(*self)
    }
}

/// Relies on smallvec::SmallVec::new: constructs an empty vector.
#[verifier::external_body]
pub(crate) fn sv_new() -> (v: EntityVec)
    ensures
        sv_contents(v) == Seq::<Entity>::empty(),
{
    EntityVec { inner: smallvec::SmallVec::new() }
}

/// Relies on smallvec::SmallVec::from_slice: copies the elements of the
/// slice, in order, into a new vector.
#[verifier::external_body]
pub(crate) fn sv_from_slice(entities: &[Entity]) -> (v: EntityVec)
    ensures
        sv_contents(v) == entities@,
{
    EntityVec { inner: smallvec::SmallVec::from_slice(entities) }
}

/// Relies on smallvec::SmallVec::from_vec: takes over the elements of the
/// vector, in order.
#[verifier::external_body]
pub(crate) fn sv_from_vec(entities: Vec<Entity>) -> (v: EntityVec)
    ensures
        sv_contents(v) == entities@,
{
    EntityVec { inner: smallvec::SmallVec::from_vec(entities) }
}

/// Relies on smallvec::SmallVec::len: the number of elements the vector
/// holds.
#[verifier::external_body]
pub(crate) fn sv_len(v: &EntityVec) -> (n: usize)
    ensures
        n == sv_contents(*v).len(),
{
    v.inner.len()
}

/// Relies on smallvec::SmallVec's `Deref` to a slice and slice indexing:
/// returns the element at `i`. The bound in `requires` keeps the indexing
/// from panicking.
#[verifier::external_body]
pub(crate) fn sv_get(v: &EntityVec, i: usize) -> (e: Entity)
    requires
        i < sv_contents(*v).len(),
    ensures
        e == sv_contents(*v)[i as int],
{
    v.inner[i]
}

/// Relies on smallvec::SmallVec's `DerefMut` to a slice and slice indexing:
/// overwrites the element at `i`. The bound in `requires` keeps the indexing
/// from panicking.
#[verifier::external_body]
pub(crate) fn sv_set(v: &mut EntityVec, i: usize, e: Entity)
    requires
        i < sv_contents(*old(v)).len(),
    ensures
        sv_contents(*final(v)) == sv_contents(*old(v)).update(i as int, e),
{
    v.inner[i] = e;
}

/// Relies on smallvec::SmallVec::push: appends one element at the end.
#[verifier::external_body]
pub(crate) fn sv_push(v: &mut EntityVec, e: Entity)
    ensures
        sv_contents(*final(v)) == sv_contents(*old(v)).push(e),
{
    v.inner.push(e)
}

/// Copies the handles out of the storage into a plain vector.
pub(crate) fn sv_to_vec(v: &EntityVec) -> (r: Vec<Entity>)
    ensures
        r@ == sv_contents(*v),
{
    let n = sv_len(v);
    let mut r: Vec<Entity> = Vec::new();
    let mut i: usize = 0;
    while i < n
        invariant
            n == sv_contents(*v).len(),
            i <= n,
            r@ == sv_contents(*v).take(i as int),
        decreases n - i,
    {
        let e = sv_get(v, i);
        r.push(e);
        proof {
            assert(sv_contents(*v).take(i + 1 as int) =~= sv_contents(*v).take(i as int).push(e));
        }
        i += 1;
    }
    proof {
        assert(sv_contents(*v).take(n as int) =~= sv_contents(*v));
    }
    r
}

impl EntityVec {
    /// Constructs an empty storage vector, for use as a scratch buffer that
    /// the active list can be swapped with.
    pub fn new() -> (v: EntityVec)
        ensures
            v@ == Seq::<Entity>::empty(),
    {
        sv_new()
    }

    /// Constructs a storage vector holding the given handles in order.
    pub fn from_entities(entities: &[Entity]) -> (v: EntityVec)
        ensures
            v@ == entities@,
    {
        sv_from_slice(entities)
    }

    /// Appends one handle at the end.
    pub fn push(&mut self, entity: Entity)
        ensures
            final(self)@ == old(self)@.push(entity),
    {
        sv_push(self, entity)
    }

    /// The number of handles held.
    pub fn len(&self) -> (n: usize)
        ensures
            n == self@.len(),
    {
        sv_len(self)
    }

    /// Copies the held handles, in order, into a plain vector.
    pub fn entities(&self) -> (r: Vec<Entity>)
        ensures
            r@ == self@,
    {
        sv_to_vec(self)
    }
}

} // verus!
