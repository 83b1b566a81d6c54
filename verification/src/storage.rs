//! Entities and the sparse tables that hold their components.
use vstd::prelude::*;

verus! {

/// An opaque handle for one thing in the world. Handles are never reused, so
/// a handle whose entity is gone simply finds nothing.
#[derive(PartialEq, Eq, Structural, Clone, Copy, Debug, Hash)]
pub struct Entity {
    pub id: usize,
}

/// A sparse table from entities to one kind of component.
pub struct Storage<T> {
    slots: Vec<Option<T>>,
}

impl<T> View for Storage<T> {
    type V = Map<int, T>;

    /// The components held, keyed by entity id.
    closed spec fn view(&self) -> Map<int, T> {
        Map::new(
            |i: int| 0 <= i < self.slots@.len() && self.slots@[i] is Some,
            |i: int| self.slots@[i]->0,
        )
    }
}

impl<T> Storage<T> {
    /// A bound above every id that holds a component. Loops over a table run
    /// below it.
    pub closed spec fn span(&self) -> nat {
        self.slots@.len()
    }

    /// Every key of the view lies below the span.
    pub proof fn lemma_keys_below_span(&self)
        ensures
            forall|i: int| #[trigger] self@.contains_key(i) ==> 0 <= i < self.span(),
            self.span() <= usize::MAX,
    {
        assert(self.slots.len() == self.slots@.len());
    }

/// A table without components.
    pub fn new() -> (s: Self)
        ensures
            s@ == Map::<int, T>::empty(),
            s.span() == 0,
    {
        let s = Storage { slots: Vec::new() };
        assert(s@ =~= Map::<int, T>::empty());
        s
    }

    /// The span as a machine integer.
    pub fn len(&self) -> (n: usize)
        ensures
            n == self.span(),
    {
        self.slots.len()
    }

    /// The component of `e`, if it has one.
    pub fn get(&self, e: Entity) -> (r: Option<&T>)
        ensures
            match r {
                Some(v) => self@.contains_key(e.id as int) && *v == self@[e.id as int],
                None => !self@.contains_key(e.id as int),
            },
    {
        if e.id < self.slots.len() {
            self.slots[e.id].as_ref()
        } else {
            None
        }
    }

/// Whether `e` has a component here.
    pub fn contains(&self, e: Entity) -> (r: bool)
        ensures
            r == self@.contains_key(e.id as int),
    {
        e.id < self.slots.len() && self.slots[e.id].is_some()
    }

    /// Attaches `value` to `e`, handing back what it replaces.
    pub fn insert(&mut self, e: Entity, value: T) -> (replaced: Option<T>)
        requires
            e.id < usize::MAX,
        ensures
            final(self)@ == old(self)@.insert(e.id as int, value),
            final(self).span() == if old(self).span() > e.id {
                old(self).span()
            } else {
                (e.id + 1) as nat
            },
            match replaced {
                Some(v) => old(self)@.contains_key(e.id as int) && v == old(self)@[e.id as int],
                None => !old(self)@.contains_key(e.id as int),
            },
    {
        while self.slots.len() <= e.id
            invariant
                e.id < usize::MAX,
                self@ == old(self)@,
                self.slots@.len() >= old(self).slots@.len(),
                self.slots@.len() == old(self).slots@.len() || self.slots@.len() <= e.id + 1,
            decreases e.id + 1 - self.slots@.len(),
        {
            let ghost before = self@;
            self.slots.push(None);
            assert(self@ =~= before);
        }
        let ghost before = self@;
        let mut slot = Some(value);
        std::mem::swap(&mut self.slots[e.id], &mut slot);
        assert(self@ =~= before.insert(e.id as int, value));
        slot
    }

    /// Detaches the component of `e`, handing it back.
    pub fn remove(&mut self, e: Entity) -> (removed: Option<T>)
        ensures
            final(self)@ == old(self)@.remove(e.id as int),
            final(self).span() == old(self).span(),
            match removed {
                Some(v) => old(self)@.contains_key(e.id as int) && v == old(self)@[e.id as int],
                None => !old(self)@.contains_key(e.id as int),
            },
    {
        if e.id < self.slots.len() {
            let ghost before = self@;
            let mut slot = None;
            std::mem::swap(&mut self.slots[e.id], &mut slot);
            assert(self@ =~= before.remove(e.id as int));
            slot
        } else {
            assert(self@ =~= self@.remove(e.id as int));
            None
        }
    }

    /// Detaches every component.
    pub fn clear(&mut self)
        ensures
            final(self)@ == Map::<int, T>::empty(),
            final(self).span() == 0,
    {
        self.slots.clear();
        assert(self@ =~= Map::<int, T>::empty());
    }

    /// Whether no entity has a component here.
    pub fn is_empty(&self) -> (r: bool)
        ensures
            r == (self@ == Map::<int, T>::empty()),
    {
        let mut i: usize = 0;
        while i < self.slots.len()
            invariant
                i <= self.slots@.len(),
                forall|k: int| 0 <= k < i ==> !self@.contains_key(k),
            decreases self.slots@.len() - i,
        {
            if self.slots[i].is_some() {
                assert(self@.contains_key(i as int));
                return false;
            }
            i += 1;
        }
        assert(self@ =~= Map::<int, T>::empty());
        true
    }

    /// Whether every entity with a component here has an id below `next_id`.
    pub fn is_below(&self, next_id: usize) -> (r: bool)
        ensures
            r == (forall|k: int| #[trigger] self@.contains_key(k) ==> 0 <= k < next_id),
    {
        let mut i: usize = next_id;
        while i < self.slots.len()
            invariant
                next_id <= i,
                forall|k: int| next_id <= k < i ==> !self@.contains_key(k),
            decreases self.slots@.len() - i,
        {
            if self.slots[i].is_some() {
                assert(self@.contains_key(i as int));
                return false;
            }
            i += 1;
        }
        true
    }
}

} // verus!
