use crate::geometry::{cell_set, Coord};
use crate::storage::{Entity, Storage};
use vstd::prelude::*;

verus! {

/// `after` is `before` with the viewshed of `k` marked out of date and
/// nothing else touched.
pub open spec fn marked_stale(before: Map<int, Viewshed>, k: int, after: Map<int, Viewshed>) -> bool {
    &&& after.dom() == before.dom()
    &&& forall|j: int| #[trigger] before.contains_key(j) && j != k ==> after[j] == before[j]
    &&& before.contains_key(k) ==> {
        &&& after[k].visible_tiles == before[k].visible_tiles
        &&& after[k].range == before[k].range
        &&& after[k].is_dirty
    }
}

/// Marks the viewshed of `e`, if it has one, as out of date.
pub fn mark_stale(viewsheds: &mut Storage<Viewshed>, e: Entity)
    ensures
        marked_stale(old(viewsheds)@, e.id as int, final(viewsheds)@),
{
    proof {
        viewsheds.lemma_keys_below_span();
    }
    match viewsheds.remove(e) {
        Some(taken) => {
            let mut vs = taken;
            vs.is_dirty = true;
            viewsheds.insert(e, vs);
            assert(viewsheds@.dom() =~= old(viewsheds)@.dom());
        },
        None => {
            assert(viewsheds@.dom() =~= old(viewsheds)@.dom());
        },
    }
}

/// What an entity sees, how far it sees, and whether that is out of date.
pub struct Viewshed {
    pub visible_tiles: Vec<Coord>,
    pub range: i32,
    /// Set when the entity has moved: the next visibility pass recomputes
    /// `visible_tiles` and clears the flag.
    pub is_dirty: bool,
}

impl Viewshed {
    /// The cells in sight.
    pub open spec fn sees(&self) -> Set<(int, int)> {
        cell_set(self.visible_tiles@)
    }

    /// Sees nothing yet, eight tiles far, and is due for a first computation.
    pub fn new() -> (v: Self)
        ensures
            v.visible_tiles@.len() == 0,
            v.range == 8,
            v.is_dirty,
    {
        Viewshed { visible_tiles: Vec::new(), range: 8, is_dirty: true }
    }

    /// Whether `target` is among the cells in sight.
    pub fn can_see(&self, target: Coord) -> (r: bool)
        ensures
            r == self.sees().contains(target.cell()),
    {
        let mut i: usize = 0;
        while i < self.visible_tiles.len()
            invariant
                i <= self.visible_tiles@.len(),
                forall|j: int| 0 <= j < i ==> self.visible_tiles@[j].cell() != target.cell(),
            decreases self.visible_tiles@.len() - i,
        {
            let c = self.visible_tiles[i];
            if c.x == target.x && c.y == target.y {
                assert(self.visible_tiles@[i as int].cell() == target.cell());
                return true;
            }
            i += 1;
        }
        false
    }
}

} // verus!
