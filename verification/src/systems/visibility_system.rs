use crate::components::{PlayerChar, Position, Viewshed};
use crate::geometry::{cell_set, Coord};
use crate::level::{field_of_view, fov_cells, Level, SIGHT_LIMIT};
use crate::storage::{Entity, Storage};
use vstd::prelude::*;

verus! {

/// The cells of `cells` that lie on the map.
pub open spec fn on_level(cells: Set<(int, int)>, level: &Level) -> Set<(int, int)> {
    Set::new(|c: (int, int)| cells.contains(c) && level.in_bounds(c.0, c.1))
}

/// What is seen from `pos` with sight `range`: the field of view, clipped to
/// the map.
pub open spec fn seen_from(pos: Position, range: int, level: &Level) -> Set<(int, int)> {
    on_level(
        fov_cells(
            pos.x as int,
            pos.y as int,
            range,
            level.width as int,
            level.height as int,
            level.opacity(),
        ),
        level,
    )
}

/// `k` is due for a new field of view: it has a place, and a viewshed that
/// is out of date.
pub open spec fn refreshes(
    k: int,
    viewsheds: Map<int, Viewshed>,
    positions: Map<int, Position>,
) -> bool {
    &&& viewsheds.contains_key(k)
    &&& positions.contains_key(k)
    &&& viewsheds[k].is_dirty
}

/// `k` is a player whose field of view is computed anew, and so redraws what
/// the map shows.
pub open spec fn redraws(
    k: int,
    viewsheds: Map<int, Viewshed>,
    positions: Map<int, Position>,
    players: Map<int, PlayerChar>,
) -> bool {
    refreshes(k, viewsheds, positions) && players.contains_key(k)
}

/// Whoever is due for a new field of view stands on the map and has a sight
/// range within `SIGHT_LIMIT`.
pub open spec fn can_look(
    viewsheds: Map<int, Viewshed>,
    positions: Map<int, Position>,
    level: &Level,
) -> bool {
    forall|k: int| #[trigger]
        refreshes(k, viewsheds, positions) ==> {
            &&& level.in_bounds(positions[k].x as int, positions[k].y as int)
            &&& -SIGHT_LIMIT <= viewsheds[k].range <= SIGHT_LIMIT
        }
}

/// What a visibility pass does to the map and the viewsheds. Terrain and
/// occupancy stay. Every viewshed that is due holds what is seen from its
/// owner's place, keeps its range, and is up to date; every other is as
/// before. The map keeps as revealed what it had and what the redrawing
/// players see; it shows as visible what the last of them sees, or what it
/// showed before where there is none.
pub open spec fn looked(
    before: &Level,
    viewsheds: Map<int, Viewshed>,
    positions: Map<int, Position>,
    players: Map<int, PlayerChar>,
    after: &Level,
    refreshed: Map<int, Viewshed>,
) -> bool {
    &&& after.same_terrain(before)
    &&& after.same_occupancy(before)
    &&& refreshed.dom() == viewsheds.dom()
    &&& forall|k: int| #[trigger]
        viewsheds.contains_key(k) ==> if refreshes(k, viewsheds, positions) {
            &&& refreshed[k].sees() == seen_from(positions[k], viewsheds[k].range as int, before)
            &&& refreshed[k].range == viewsheds[k].range
            &&& !refreshed[k].is_dirty
        } else {
            refreshed[k] == viewsheds[k]
        }
    &&& forall|i: usize|
        after.revealed().contains(i) <==> (before.revealed().contains(i) || exists|k: int|
            #[trigger] redraws(k, viewsheds, positions, players) && before.indices_of(
                seen_from(positions[k], viewsheds[k].range as int, before),
            ).contains(i))
    &&& (forall|k: int| !#[trigger] redraws(k, viewsheds, positions, players))
        ==> after.visible() == before.visible()
    &&& forall|k: int|
        #[trigger] redraws(k, viewsheds, positions, players) && (forall|j: int|
            k < j ==> !#[trigger] redraws(j, viewsheds, positions, players))
            ==> after.visible() == before.indices_of(
            seen_from(positions[k], viewsheds[k].range as int, before),
        )
}

/// The points of the list that lie on the map, in their order.
pub open spec fn clipped(cells: Seq<Coord>, level: &Level) -> Seq<Coord>
    decreases cells.len(),
{
    if cells.len() == 0 {
        Seq::empty()
    } else {
        let before = clipped(cells.drop_last(), level);
        if level.in_bounds(cells.last().x as int, cells.last().y as int) {
            before.push(cells.last())
        } else {
            before
        }
    }
}

/// Keeps the cells that lie on the map, in their order.
pub fn clip_to_map(cells: Vec<Coord>, level: &Level) -> (kept: Vec<Coord>)
    ensures
        kept@ == clipped(cells@, level),
        cell_set(kept@) == on_level(cell_set(cells@), level),
        forall|j: int|
            0 <= j < kept@.len() ==> level.in_bounds(
                #[trigger] kept@[j].x as int,
                kept@[j].y as int,
            ),
{
    let mut kept: Vec<Coord> = Vec::new();
    let mut n: usize = 0;
    assert(cells@.take(0) =~= Seq::<Coord>::empty());
    while n < cells.len()
        invariant
            n <= cells@.len(),
            kept@ == clipped(cells@.take(n as int), level),
            forall|j: int|
                0 <= j < kept@.len() ==> level.in_bounds(
                    #[trigger] kept@[j].x as int,
                    kept@[j].y as int,
                ),
            forall|c: (int, int)|
                cell_set(kept@).contains(c) <==> (level.in_bounds(c.0, c.1) && exists|j: int|
                    0 <= j < n && #[trigger] cells@[j].cell() == c),
        decreases cells@.len() - n,
    {
        let p = cells[n];
        let ghost kept_before = kept@;
        if p.x >= 0 && p.x < level.width && p.y >= 0 && p.y < level.height {
            kept.push(p);
        }
        assert(cells@.take(n + 1).drop_last() =~= cells@.take(n as int));
        n += 1;
        assert forall|c: (int, int)|
            cell_set(kept@).contains(c) <==> (level.in_bounds(c.0, c.1) && exists|j: int|
                0 <= j < n && #[trigger] cells@[j].cell() == c) by {
            if cell_set(kept@).contains(c) {
                let i = choose|i: int| 0 <= i < kept@.len() && #[trigger] kept@[i].cell() == c;
                if i < kept_before.len() {
                    assert(kept_before[i].cell() == c);
                    assert(cell_set(kept_before).contains(c));
                    let j = choose|j: int| 0 <= j < n - 1 && #[trigger] cells@[j].cell() == c;
                    assert(0 <= j < n);
                } else {
                    assert(cells@[n - 1].cell() == c);
                }
            }
            if level.in_bounds(c.0, c.1) && exists|j: int|
                0 <= j < n && #[trigger] cells@[j].cell() == c {
                let j = choose|j: int| 0 <= j < n && #[trigger] cells@[j].cell() == c;
                if j < n - 1 {
                    assert(cell_set(kept_before).contains(c));
                    let i = choose|i: int|
                        0 <= i < kept_before.len() && #[trigger] kept_before[i].cell() == c;
                    assert(kept@[i].cell() == c);
                } else {
                    assert(kept@[kept@.len() - 1].cell() == c);
                }
            }
        }
    }
    proof {
        assert forall|c: (int, int)|
            cell_set(kept@).contains(c) <==> on_level(cell_set(cells@), level).contains(c) by {
            if cell_set(kept@).contains(c) {
                let j = choose|j: int| 0 <= j < n && #[trigger] cells@[j].cell() == c;
                assert(cell_set(cells@).contains(c));
            }
            if on_level(cell_set(cells@), level).contains(c) {
                let j = choose|j: int| 0 <= j < cells@.len() && #[trigger] cells@[j].cell() == c;
                assert(0 <= j < n);
            }
        }
        assert(cell_set(kept@) =~= on_level(cell_set(cells@), level));
        assert(cells@.take(n as int) =~= cells@);
    }
    kept
}

/// Takes in what the owner of `viewshed` was found to see. The viewshed
/// holds those of the cells that lie on the map, in their order, and is up
/// to date. Where the owner is a player, their tiles replace what the map
/// shows as visible and are added to what it keeps as revealed.
pub fn take_in(level: &mut Level, viewshed: &mut Viewshed, is_player: bool, cells: Vec<Coord>)
    requires
        old(level).wf(),
    ensures
        final(level).wf(),
        final(level).same_terrain(old(level)),
        final(level).same_occupancy(old(level)),
        final(viewshed).visible_tiles@ == clipped(cells@, old(level)),
        final(viewshed).sees() == on_level(cell_set(cells@), old(level)),
        final(viewshed).range == old(viewshed).range,
        !final(viewshed).is_dirty,
        if is_player {
            &&& final(level).visible() == old(level).indices_of(final(viewshed).sees())
            &&& final(level).revealed() == old(level).revealed().union(
                old(level).indices_of(final(viewshed).sees()),
            )
        } else {
            final(level).same_sight(old(level))
        },
{
    // Clear the flag and fill the viewshed with what is seen.
    viewshed.is_dirty = false;
    viewshed.visible_tiles = clip_to_map(cells, level);
    if is_player {
        level.show(&viewshed.visible_tiles);
        assert(level.indices_of(viewshed.sees()) =~= old(level).indices_of(viewshed.sees()));
    }
}

/// Recomputes what each entity sees.
pub struct VisibilitySystem {}

impl VisibilitySystem {
    /// Decides `can_look`.
    pub fn can_run(
        level: &Level,
        viewsheds: &Storage<Viewshed>,
        positions: &Storage<Position>,
    ) -> (ok: bool)
        ensures
            ok == can_look(viewsheds@, positions@, level),
    {
        let bound: usize = viewsheds.len();
        let mut i: usize = 0;
        proof {
            viewsheds.lemma_keys_below_span();
        }
        while i < bound
            invariant
                bound == viewsheds.span(),
                i <= bound,
                forall|k: int|
                    0 <= k < i && #[trigger] refreshes(k, viewsheds@, positions@) ==> {
                        &&& level.in_bounds(positions@[k].x as int, positions@[k].y as int)
                        &&& -SIGHT_LIMIT <= viewsheds@[k].range <= SIGHT_LIMIT
                    },
            decreases bound - i,
        {
            let ent = Entity { id: i };
            if let Some(vs) = viewsheds.get(ent) {
                if let Some(pos) = positions.get(ent) {
                    if vs.is_dirty {
                        assert(refreshes(i as int, viewsheds@, positions@));
                        if !(pos.x >= 0 && pos.x < level.width && pos.y >= 0 && pos.y
                            < level.height && -SIGHT_LIMIT <= vs.range && vs.range
                            <= SIGHT_LIMIT) {
                            return false;
                        }
                    }
                }
            }
            i += 1;
        }
        true
    }

    /// For every entity with a place and an out-of-date viewshed, in
    /// ascending order: computes what it sees and clears the flag. Where the
    /// entity is a player, what it sees replaces what the map shows as
    /// visible and is added to what the map keeps as revealed. A viewshed
    /// that is up to date is left alone.
    pub fn run(
        &mut self,
        level: &mut Level,
        viewsheds: &mut Storage<Viewshed>,
        positions: &Storage<Position>,
        player_chars: &Storage<PlayerChar>,
    )
        requires
            old(level).wf(),
            can_look(old(viewsheds)@, positions@, old(level)),
        ensures
            final(level).wf(),
            looked(
                old(level),
                old(viewsheds)@,
                positions@,
                player_chars@,
                final(level),
                final(viewsheds)@,
            ),
    {
        let bound: usize = viewsheds.len();
        let mut i: usize = 0;
        let ghost latest: Option<int> = None;
        let ghost vs0 = viewsheds@;
        proof {
            viewsheds.lemma_keys_below_span();
        }
        while i < bound
            invariant
                i <= bound,
                vs0 == old(viewsheds)@,
                forall|k: int| #[trigger] vs0.contains_key(k) ==> 0 <= k < bound,
                level.wf(),
                level.same_terrain(old(level)),
                level.same_occupancy(old(level)),
                can_look(vs0, positions@, old(level)),
                viewsheds@.dom() == vs0.dom(),
                forall|k: int| #[trigger]
                    vs0.contains_key(k) ==> if k < i && refreshes(k, vs0, positions@) {
                        &&& viewsheds@[k].sees() == seen_from(
                            positions@[k],
                            vs0[k].range as int,
                            old(level),
                        )
                        &&& viewsheds@[k].range == vs0[k].range
                        &&& !viewsheds@[k].is_dirty
                    } else {
                        viewsheds@[k] == vs0[k]
                    },
                forall|t: usize|
                    level.revealed().contains(t) <==> (old(level).revealed().contains(t)
                        || exists|k: int|
                        k < i && #[trigger] redraws(k, vs0, positions@, player_chars@) && old(
                            level,
                        ).indices_of(
                            seen_from(positions@[k], vs0[k].range as int, old(level)),
                        ).contains(t)),
                match latest {
                    None => {
                        &&& forall|k: int|
                            k < i ==> !#[trigger] redraws(k, vs0, positions@, player_chars@)
                        &&& level.visible() == old(level).visible()
                    },
                    Some(m) => {
                        &&& m < i
                        &&& redraws(m, vs0, positions@, player_chars@)
                        &&& forall|j: int|
                            m < j < i ==> !#[trigger] redraws(j, vs0, positions@, player_chars@)
                        &&& level.visible() == old(level).indices_of(
                            seen_from(positions@[m], vs0[m].range as int, old(level)),
                        )
                    },
                },
            decreases bound - i,
        {
            let ent = Entity { id: i };
            let ghost revealed_at_entry = level.revealed();
            let ghost shown_now: Set<usize> = Set::empty();
            let due: bool = match viewsheds.get(ent) {
                Some(vs) => vs.is_dirty,
                None => false,
            };
            if due {
                if let Some(pos) = positions.get(ent) {
                    assert(refreshes(i as int, vs0, positions@));
                    let ghost table_before = viewsheds@;
                    let ghost revealed_before = level.revealed();
                    if let Some(taken) = viewsheds.remove(ent) {
                        let mut viewshed = taken;
                        let cells = field_of_view(level, pos.x, pos.y, viewshed.range);
                        let is_player = player_chars.contains(ent);
                        let ghost seen = seen_from(*pos, vs0[i as int].range as int, old(level));
                        assert(level.opacity() =~= old(level).opacity());
                        take_in(level, &mut viewshed, is_player, cells);
                        assert(viewshed.sees() =~= seen);
                        proof {
                            if is_player {
                                latest = Some(i as int);
                                assert(level.indices_of(seen) =~= old(level).indices_of(seen));
                                shown_now = old(level).indices_of(seen);
                            }
                        }
                        viewsheds.insert(ent, viewshed);
                        assert(viewsheds@.dom() =~= vs0.dom());
                    }
                }
            }
            proof {
                let here = i as int;
                assert(level.revealed() =~= revealed_at_entry.union(shown_now));
                assert(redraws(here, vs0, positions@, player_chars@) ==> shown_now == old(
                    level,
                ).indices_of(seen_from(positions@[here], vs0[here].range as int, old(level))));
                assert(!redraws(here, vs0, positions@, player_chars@) ==> shown_now
                    == Set::<usize>::empty());
                assert forall|t: usize|
                    level.revealed().contains(t) <==> (old(level).revealed().contains(t)
                        || exists|k: int|
                        k < i + 1 && #[trigger] redraws(k, vs0, positions@, player_chars@) && old(
                            level,
                        ).indices_of(
                            seen_from(positions@[k], vs0[k].range as int, old(level)),
                        ).contains(t)) by {
                    if revealed_at_entry.contains(t) && !old(level).revealed().contains(t) {
                        let k = choose|k: int|
                            k < i && #[trigger] redraws(k, vs0, positions@, player_chars@) && old(
                                level,
                            ).indices_of(
                                seen_from(positions@[k], vs0[k].range as int, old(level)),
                            ).contains(t);
                        assert(k < i + 1);
                    }
                    if shown_now.contains(t) {
                        assert(redraws(here, vs0, positions@, player_chars@));
                    }
                }
            }
            i += 1;
        }
        proof {
            assert forall|k: int|
                #[trigger] redraws(k, vs0, positions@, player_chars@) && (forall|j: int|
                    k < j ==> !#[trigger] redraws(j, vs0, positions@, player_chars@))
                    implies level.visible() == old(level).indices_of(
                seen_from(positions@[k], vs0[k].range as int, old(level)),
            ) by {
                match latest {
                    None => {},
                    Some(m) => {
                        if m < k {
                        } else if k < m {
                            assert(!redraws(m, vs0, positions@, player_chars@));
                        }
                    },
                }
            }
        }
    }
}

} // verus!
