use crate::components::{Position, TileBlocker};
use crate::level::{all_on_map, on_map, Level};
use crate::storage::{Entity, Storage};
use vstd::prelude::*;

verus! {

/// The entities with ids below `bound` that stand on tile `t` of a map
/// `width` wide, in ascending order.
pub open spec fn occupants(t: int, bound: nat, positions: Map<int, Position>, width: int) -> Seq<
    Entity,
>
    decreases bound,
{
    if bound == 0 {
        Seq::empty()
    } else {
        let k = bound - 1;
        let before = occupants(t, k as nat, positions, width);
        if positions.contains_key(k) && positions[k].y * width + positions[k].x == t {
            before.push(Entity { id: k as usize })
        } else {
            before
        }
    }
}

/// The tiles that an entity holds against all others: those on which a tile
/// blocker stands.
pub open spec fn held_tiles(
    positions: Map<int, Position>,
    blockers: Map<int, TileBlocker>,
    width: int,
) -> Set<usize> {
    Set::new(
        |t: usize|
            exists|k: int|
                #![trigger positions.contains_key(k)]
                positions.contains_key(k) && blockers.contains_key(k) && positions[k].y * width
                    + positions[k].x == t,
    )
}

/// What indexing does to the map. Terrain and sight stay. The blocked tiles
/// are the walls and the tiles that tile blockers hold. Each tile lists the
/// entities that stand on it, in ascending order; `bound` is any bound above
/// the ids that have a position.
pub open spec fn charted(
    before: &Level,
    positions: Map<int, Position>,
    bound: nat,
    blockers: Map<int, TileBlocker>,
    after: &Level,
) -> bool {
    &&& after.same_terrain(before)
    &&& after.same_sight(before)
    &&& after.tile_content@.len() == before.tile_content@.len()
    &&& after.blocked() == after.walls().union(
        held_tiles(positions, blockers, after.width as int),
    )
    &&& forall|t: int|
        0 <= t < after.tile_content@.len() ==> #[trigger] after.tile_content@[t]@ == occupants(
            t,
            bound,
            positions,
            after.width as int,
        )
}

/// Past the last position, a higher bound finds no further occupant.
proof fn lemma_occupants_stable(
    t: int,
    low: nat,
    high: nat,
    positions: Map<int, Position>,
    width: int,
)
    requires
        low <= high,
        forall|k: int| low <= k ==> !positions.contains_key(k),
    ensures
        occupants(t, high, positions, width) == occupants(t, low, positions, width),
    decreases high,
{
    if high > low {
        lemma_occupants_stable(t, low, (high - 1) as nat, positions, width);
    }
}

/// The occupants of a tile are the same under every bound above the ids
/// that have a position.
pub proof fn lemma_occupants_bound(
    t: int,
    first: nat,
    second: nat,
    positions: Map<int, Position>,
    width: int,
)
    requires
        forall|k: int| #[trigger] positions.contains_key(k) ==> k < first && k < second,
    ensures
        occupants(t, first, positions, width) == occupants(t, second, positions, width),
{
    let low = if first <= second {
        first
    } else {
        second
    };
    lemma_occupants_stable(t, low, first, positions, width);
    lemma_occupants_stable(t, low, second, positions, width);
}

/// Rebuilds the map's record of who stands where.
pub struct MapIndexingSystem {}

impl MapIndexingSystem {
    /// Decides what `run` presupposes: a well-formed map with every position
    /// on it.
    pub fn can_run(level: &Level, positions: &Storage<Position>) -> (ok: bool)
        ensures
            ok == (level.wf() && on_map(positions@, level)),
    {
        level.is_wf() && all_on_map(positions, level)
    }

    /// Resets the blocked tiles to the walls, adds the tile of every tile
    /// blocker, and rebuilds each tile's occupant list from the positions, in
    /// ascending order of entity. Nothing of an earlier index survives, so
    /// running it again on the same positions gives the same index.
    pub fn run(
        &mut self,
        level: &mut Level,
        positions: &Storage<Position>,
        blockers: &Storage<TileBlocker>,
    )
        requires
            old(level).wf(),
            on_map(positions@, old(level)),
        ensures
            final(level).wf(),
            charted(old(level), positions@, positions.span(), blockers@, final(level)),
    {
        level.block_walls_only();
        level.clear_tiles_content();
        let bound: usize = positions.len();
        let mut i: usize = 0;
        let ghost width = level.width as int;
        proof {
            positions.lemma_keys_below_span();
        }
        while i < bound
            invariant
                bound == positions.span(),
                i <= bound,
                width == level.width,
                level.wf(),
                on_map(positions@, level),
                level.same_terrain(old(level)),
                level.same_sight(old(level)),
                forall|k: int| #[trigger] positions@.contains_key(k) ==> 0 <= k < bound,
                forall|t: usize|
                    level.blocked().contains(t) <==> (level.walls().contains(t) || exists|k: int|
                        #![trigger positions@.contains_key(k)]
                        k < i && positions@.contains_key(k) && blockers@.contains_key(k)
                            && positions@[k].y * width + positions@[k].x == t),
                forall|t: int|
                    0 <= t < level.tile_content@.len() ==> #[trigger] level.tile_content@[t]@
                        == occupants(t, i as nat, positions@, width),
            decreases bound - i,
        {
            let ent = Entity { id: i };
            if let Some(pos) = positions.get(ent) {
                assert(positions@.contains_key(i as int));
                let idx = level.xy_idx(pos.x, pos.y);
                let ghost blocked_before = level.blocked();
                if blockers.contains(ent) {
                    level.block_tile(idx);
                }
                let ghost content_before = level.tile_content@;
                level.tile_content[idx].push(ent);
                assert(level.tile_content@.len() == content_before.len());
                assert forall|t: int| 0 <= t < level.tile_content@.len() implies #[trigger]
                    level.tile_content@[t]@ == occupants(t, (i + 1) as nat, positions@, width) by {
                    if t == idx {
                        assert(level.tile_content@[t]@ == content_before[t]@.push(ent));
                    } else {
                        assert(level.tile_content@[t] == content_before[t]);
                    }
                }
            }
            i += 1;
        }
        assert(level.blocked() =~= level.walls().union(
            held_tiles(positions@, blockers@, level.width as int),
        ));
    }
}

} // verus!
