use crate::components::viewshed::{mark_stale, marked_stale};
use crate::components::{GameplayName, MeleeAttackIntent, MonsterChar, Position, Viewshed};
use crate::game_state::GameStatus;
use crate::geometry::{is_within_reach, within_reach, Coord};
use crate::level::{all_on_map, on_map, Level};
use crate::storage::{Entity, Storage};
use vstd::prelude::*;

verus! {

/// An actor is a named monster that has a place and a field of view.
pub open spec fn is_actor(
    id: int,
    viewsheds: Map<int, Viewshed>,
    monsters: Map<int, MonsterChar>,
    names: Map<int, GameplayName>,
    positions: Map<int, Position>,
) -> bool {
    &&& viewsheds.contains_key(id)
    &&& monsters.contains_key(id)
    &&& names.contains_key(id)
    &&& positions.contains_key(id)
}

/// The actor stands next to the player, and so strikes.
pub open spec fn attacks(
    id: int,
    player: (int, int),
    viewsheds: Map<int, Viewshed>,
    monsters: Map<int, MonsterChar>,
    names: Map<int, GameplayName>,
    positions: Map<int, Position>,
) -> bool {
    &&& is_actor(id, viewsheds, monsters, names, positions)
    &&& within_reach(positions[id].cell(), player)
}

/// The actor is out of reach of the player but sees them, and so looks for a
/// way to them.
pub open spec fn seeks(
    id: int,
    player: (int, int),
    viewsheds: Map<int, Viewshed>,
    monsters: Map<int, MonsterChar>,
    names: Map<int, GameplayName>,
    positions: Map<int, Position>,
) -> bool {
    &&& is_actor(id, viewsheds, monsters, names, positions)
    &&& !within_reach(positions[id].cell(), player)
    &&& viewsheds[id].sees().contains(player)
}

/// The intents after the actors with ids in `from..to` have declared theirs:
/// each one that attacks aims at `target`, replacing what it held.
pub open spec fn declared(
    intents: Map<int, MeleeAttackIntent>,
    from: int,
    to: int,
    target: Entity,
    player: (int, int),
    viewsheds: Map<int, Viewshed>,
    monsters: Map<int, MonsterChar>,
    names: Map<int, GameplayName>,
    positions: Map<int, Position>,
) -> Map<int, MeleeAttackIntent> {
    Map::new(
        |k: int|
            intents.contains_key(k) || (from <= k < to && attacks(
                k,
                player,
                viewsheds,
                monsters,
                names,
                positions,
            )),
        |k: int|
            if from <= k < to && attacks(k, player, viewsheds, monsters, names, positions) {
                MeleeAttackIntent { target }
            } else {
                intents[k]
            },
    )
}

/// Whether a search result gives the actor at `from` a next tile: the
/// search succeeded, and its second node is a tile of the map next to where
/// the actor stands.
pub open spec fn leads_on(found: bool, steps: Seq<usize>, level: &Level, from: Position) -> bool {
    &&& found
    &&& steps.len() > 1
    &&& steps[1] < level.tiles@.len()
    &&& within_reach(place_of(steps[1], level.width).cell(), from.cell())
}

/// What a stretch of the monsters' pass does, from the actor `from` up to
/// where it stops. Outside the monsters' turn it does nothing. In it, the
/// pass stops at the first actor from `from` on that seeks the player and
/// asks for that actor's path, or runs past the last actor where none does;
/// the actors it has passed have declared their attacks.
pub open spec fn scanned(
    status: GameStatus,
    from: usize,
    to: usize,
    step: MonsterStep,
    intents: Map<int, MeleeAttackIntent>,
    declared_intents: Map<int, MeleeAttackIntent>,
    level: &Level,
    player_pos: Coord,
    player_ent: Entity,
    viewsheds: Map<int, Viewshed>,
    monsters: Map<int, MonsterChar>,
    names: Map<int, GameplayName>,
    positions: Map<int, Position>,
) -> bool {
    if status != GameStatus::MonsterTurn {
        &&& step == MonsterStep::Finished
        &&& to == from
        &&& declared_intents == intents
    } else {
        &&& from <= to
        &&& forall|j: int|
            from <= j < to ==> !seeks(j, player_pos.cell(), viewsheds, monsters, names, positions)
        &&& declared_intents == declared(
            intents,
            from as int,
            to as int,
            player_ent,
            player_pos.cell(),
            viewsheds,
            monsters,
            names,
            positions,
        )
        &&& match step {
            MonsterStep::NeedPath { actor, start, goal } => {
                &&& actor.id == to
                &&& seeks(to as int, player_pos.cell(), viewsheds, monsters, names, positions)
                &&& start == level.index_of(
                    positions[to as int].x as int,
                    positions[to as int].y as int,
                )
                &&& goal == level.index_of(player_pos.x as int, player_pos.y as int)
            },
            MonsterStep::Finished => {
                &&& forall|j: int|
                    to <= j ==> !is_actor(j, viewsheds, monsters, names, positions)
                &&& forall|j: int|
                    from <= j ==> !seeks(
                        j,
                        player_pos.cell(),
                        viewsheds,
                        monsters,
                        names,
                        positions,
                    )
            },
        }
    }
}

/// The place of tile `idx` on a map `width` wide.
pub open spec fn place_of(idx: usize, width: i32) -> Position {
    Position { x: (idx % (width as usize)) as i32, y: (idx / (width as usize)) as i32 }
}

/// What carrying out a search result does for the actor `from`. Terrain,
/// sight and occupant lists stay. Where the actor does not seek the player,
/// nothing changes and the pass stays where it is. Where it does, the pass
/// moves on by one; and where the result leads on, the actor stands on the
/// second node of the path, a tile of the map next to where it stood, which
/// is blocked now, and its viewshed is out of date.
pub open spec fn stepped(
    from: usize,
    to: usize,
    found: bool,
    steps: Seq<usize>,
    player_pos: Coord,
    level: &Level,
    level_after: &Level,
    viewsheds: Map<int, Viewshed>,
    viewsheds_after: Map<int, Viewshed>,
    monsters: Map<int, MonsterChar>,
    names: Map<int, GameplayName>,
    positions: Map<int, Position>,
    positions_after: Map<int, Position>,
) -> bool {
    &&& level_after.same_terrain(level)
    &&& level_after.same_sight(level)
    &&& level_after.tile_content@ == level.tile_content@
    &&& if seeks(from as int, player_pos.cell(), viewsheds, monsters, names, positions) {
        &&& to == from + 1
        &&& if leads_on(found, steps, level, positions[from as int]) {
            &&& level_after.blocked() == level.blocked().insert(steps[1])
            &&& positions_after == positions.insert(from as int, place_of(steps[1], level.width))
            &&& level.in_bounds(
                place_of(steps[1], level.width).x as int,
                place_of(steps[1], level.width).y as int,
            )
            &&& marked_stale(viewsheds, from as int, viewsheds_after)
        } else {
            &&& level_after.blocked() == level.blocked()
            &&& viewsheds_after == viewsheds
            &&& positions_after == positions
        }
    } else {
        &&& to == from
        &&& level_after.blocked() == level.blocked()
        &&& viewsheds_after == viewsheds
        &&& positions_after == positions
    }
}

/// What the pass needs next.
#[derive(PartialEq, Eq, Structural, Copy, Clone, Debug)]
pub enum MonsterStep {
    /// Every actor has had its turn.
    Finished,
    /// `actor` wants the shortest path from tile `start` to tile `goal`.
    NeedPath { actor: Entity, start: usize, goal: usize },
}

/// The monsters' pass over the world. It walks the actors in ascending id and
/// stops where one needs a shortest path, which the caller searches for and
/// hands to `follow_path`; `run` then takes up the walk again.
pub struct MonsterAISystem {
    /// The id of the first actor that has not had its turn.
    pub next: usize,
}

impl MonsterAISystem {
    /// A pass that has not begun.
    pub fn new() -> (system: Self)
        ensures
            system.next == 0,
    {
        MonsterAISystem { next: 0 }
    }

    /// Decides what `run` presupposes: a well-formed map with every position
    /// and the player's place on it.
    pub fn can_run(level: &Level, player_pos: Coord, positions: &Storage<Position>) -> (ok: bool)
        ensures
            ok == (level.wf() && on_map(positions@, level) && level.in_bounds(
                player_pos.x as int,
                player_pos.y as int,
            )),
    {
        level.is_wf() && all_on_map(positions, level) && level.contains(player_pos.x, player_pos.y)
    }

    /// Lets the actors from `self.next` on take their turn, up to the first
    /// that needs a path. Outside the monsters' turn nothing happens. An
    /// actor within reach of the player declares an attack on `player_ent`
    /// and stays where it is; one that does not see the player idles; one
    /// that sees them from afar asks for a path.
    pub fn run(
        &mut self,
        level: &Level,
        player_pos: Coord,
        player_ent: Entity,
        status: GameStatus,
        viewsheds: &Storage<Viewshed>,
        monsters: &Storage<MonsterChar>,
        names: &Storage<GameplayName>,
        positions: &Storage<Position>,
        attack_intents: &mut Storage<MeleeAttackIntent>,
    ) -> (step: MonsterStep)
        requires
            level.wf(),
            on_map(positions@, level),
            level.in_bounds(player_pos.x as int, player_pos.y as int),
        ensures
            scanned(
                status,
                old(self).next,
                final(self).next,
                step,
                old(attack_intents)@,
                final(attack_intents)@,
                level,
                player_pos,
                player_ent,
                viewsheds@,
                monsters@,
                names@,
                positions@,
            ),
    {
        if status != GameStatus::MonsterTurn {
            return MonsterStep::Finished;
        }
        let first: usize = self.next;
        let bound: usize = viewsheds.len();
        let mut i: usize = first;
        proof {
            viewsheds.lemma_keys_below_span();
            assert(attack_intents@ =~= declared(
                old(attack_intents)@,
                first as int,
                i as int,
                player_ent,
                player_pos.cell(),
                viewsheds@,
                monsters@,
                names@,
                positions@,
            ));
        }
        while i < bound
            invariant
                level.wf(),
                on_map(positions@, level),
                level.in_bounds(player_pos.x as int, player_pos.y as int),
                status == GameStatus::MonsterTurn,
                bound == viewsheds.span(),
                first == old(self).next,
                first <= i,
                forall|j: int|
                    first <= j < i ==> !seeks(
                        j,
                        player_pos.cell(),
                        viewsheds@,
                        monsters@,
                        names@,
                        positions@,
                    ),
                attack_intents@ == declared(
                    old(attack_intents)@,
                    first as int,
                    i as int,
                    player_ent,
                    player_pos.cell(),
                    viewsheds@,
                    monsters@,
                    names@,
                    positions@,
                ),
            decreases bound - i,
        {
            let ent = Entity { id: i };
            let ghost before = attack_intents@;
            if viewsheds.contains(ent) && monsters.contains(ent) && names.contains(ent) {
                if let Some(pos) = positions.get(ent) {
                    assert(positions@.contains_key(i as int));
                    if is_within_reach(pos.coord(), player_pos) {
                        attack_intents.insert(ent, MeleeAttackIntent { target: player_ent });
                    } else if let Some(vs) = viewsheds.get(ent) {
                        if vs.can_see(player_pos) {
                            self.next = i;
                            let start = level.xy_idx(pos.x, pos.y);
                            let goal = level.xy_idx(player_pos.x, player_pos.y);
                            return MonsterStep::NeedPath { actor: ent, start, goal };
                        }
                    }
                }
            }
            i += 1;
            assert(attack_intents@ =~= declared(
                old(attack_intents)@,
                first as int,
                i as int,
                player_ent,
                player_pos.cell(),
                viewsheds@,
                monsters@,
                names@,
                positions@,
            ));
        }
        self.next = i;
        proof {
            viewsheds.lemma_keys_below_span();
        }
        MonsterStep::Finished
    }

    /// Carries out the search result for the actor at `self.next`. Where that
    /// actor seeks the player and the result leads on, it steps onto the
    /// second node of the path, that tile becomes blocked at once, whoever
    /// may stand on it, and its field of view is marked out of date; the
    /// pass then moves on to the next id. Where the search found nothing, or
    /// what it found does not begin with a step to a neighbouring tile, the
    /// actor idles. Where the entity at `self.next` does not seek the player,
    /// nothing changes.
    pub fn follow_path(
        &mut self,
        found: bool,
        steps: &Vec<usize>,
        level: &mut Level,
        player_pos: Coord,
        viewsheds: &mut Storage<Viewshed>,
        monsters: &Storage<MonsterChar>,
        names: &Storage<GameplayName>,
        positions: &mut Storage<Position>,
    )
        requires
            old(level).wf(),
        ensures
            final(level).wf(),
            stepped(
                old(self).next,
                final(self).next,
                found,
                steps@,
                player_pos,
                old(level),
                final(level),
                old(viewsheds)@,
                final(viewsheds)@,
                monsters@,
                names@,
                old(positions)@,
                final(positions)@,
            ),
    {
        let ent = Entity { id: self.next };
        if !(viewsheds.contains(ent) && monsters.contains(ent) && names.contains(ent)) {
            return ;
        }
        let pos = match positions.get(ent) {
            Some(pos) => *pos,
            None => { return ; },
        };
        if is_within_reach(pos.coord(), player_pos) {
            return ;
        }
        let sees_player = match viewsheds.get(ent) {
            Some(vs) => vs.can_see(player_pos),
            None => false,
        };
        if !sees_player {
            return ;
        }
        proof {
            viewsheds.lemma_keys_below_span();
        }
        self.next = self.next + 1;
        if found && steps.len() > 1 && steps[1] < level.tiles.len() {
            let idx: usize = steps[1];
            let width: usize = level.width as usize;
            proof {
                let w = level.width as int;
                let h = level.height as int;
                vstd::arithmetic::div_mod::lemma_fundamental_div_mod(idx as int, w);
                vstd::arithmetic::div_mod::lemma_mod_bound(idx as int, w);
                vstd::arithmetic::div_mod::lemma_div_pos_is_pos(idx as int, w);
                assert((idx as int) / w < h) by (nonlinear_arith)
                    requires
                        0 <= idx < w * h,
                        w > 0,
                        idx as int == w * ((idx as int) / w) + (idx as int) % w,
                        0 <= (idx as int) % w,
                ;
            }
            let x: i32 = (idx % width) as i32;
            let y: i32 = (idx / width) as i32;
            if is_within_reach(Coord { x, y }, pos.coord()) {
                positions.insert(ent, Position { x, y });
                level.block_tile(idx);
                mark_stale(viewsheds, ent);
            }
        }
    }
}

} // verus!
