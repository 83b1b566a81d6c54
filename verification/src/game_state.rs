//! The turn state machine and what runs around the systems.
use crate::components::combat::{damage_view, pending};
use crate::components::viewshed::mark_stale;
use crate::components::{
    CombatStats, GameplayName, IncomingDamage, MeleeAttackIntent, PlayerChar, Position,
};
use crate::geometry::Coord;
use crate::storage::Entity;
use crate::systems::damage_system::{
    hp_after, lemma_damage_reports_bound, suffers, DamageSystem,
};
use crate::systems::map_indexing_system::{lemma_occupants_bound, occupants, MapIndexingSystem};
use crate::systems::melee_combat_system::{
    blow, hits_on, is_attacker, lemma_blow_reports_bound, lemma_hits_on_bound, struck, victim_of,
    MeleeCombatSystem,
};
use crate::systems::monster_ai_system::{MonsterAISystem, MonsterStep};
use crate::systems::visibility_system::VisibilitySystem;
use crate::text::{death_message, death_text, player_death_message, player_death_text};
use crate::turn::{
    ended, fought, has_player, headroom, hurt, indexed, lemma_hits_bounded, moved, resolved,
    saw, settled, thought, walked, worst_blow,
};
use crate::world::{id_set, World};
use vstd::prelude::*;

verus! {

/// Whose move it is.
#[derive(PartialEq, Eq, Structural, Copy, Clone, Debug)]
pub enum GameStatus {
    AwaitingInput,
    PreTurn,
    PlayerTurn,
    MonsterTurn,
}

/// A key that the player may have pressed.
#[derive(PartialEq, Eq, Structural, Copy, Clone, Debug)]
pub enum Key {
    Left,
    Right,
    Up,
    Down,
    A,
    D,
    W,
    S,
    Q,
    E,
    C,
    Z,
    /// Lets the turn pass.
    Space,
    /// Any key that means nothing here.
    Other,
}

/// The step that a key asks for, where it asks for one.
pub open spec fn key_step(key: Key) -> Option<(int, int)> {
    match key {
        Key::Left | Key::A => Some((-1, 0)),
        Key::Right | Key::D => Some((1, 0)),
        Key::Up | Key::W => Some((0, -1)),
        Key::Down | Key::S => Some((0, 1)),
        Key::Q => Some((-1, -1)),
        Key::E => Some((1, -1)),
        Key::C => Some((1, 1)),
        Key::Z => Some((-1, 1)),
        Key::Space | Key::Other => None,
    }
}

/// `k` has stats, a name, and hit points below one.
pub open spec fn is_dead(k: int, stats: Map<int, CombatStats>, names: Map<int, GameplayName>) -> bool {
    stats.contains_key(k) && names.contains_key(k) && stats[k].hp < 1
}

/// `k` is dead and no player, and so is destroyed.
pub open spec fn is_doomed(
    k: int,
    stats: Map<int, CombatStats>,
    names: Map<int, GameplayName>,
    players: Map<int, PlayerChar>,
) -> bool {
    is_dead(k, stats, names) && !players.contains_key(k)
}

/// The ids of the entities that the sweep destroys.
pub open spec fn doomed(
    stats: Map<int, CombatStats>,
    names: Map<int, GameplayName>,
    players: Map<int, PlayerChar>,
) -> Set<int> {
    Set::new(|k: int| is_doomed(k, stats, names, players))
}

/// The reports on the dead with ids below `bound`, in ascending order: one
/// for each, the player included.
pub open spec fn death_reports(
    bound: nat,
    stats: Map<int, CombatStats>,
    names: Map<int, GameplayName>,
    players: Map<int, PlayerChar>,
) -> Seq<Seq<char>>
    decreases bound,
{
    if bound == 0 {
        Seq::empty()
    } else {
        let k = bound - 1;
        let before = death_reports(k as nat, stats, names, players);
        if is_dead(k, stats, names) {
            if players.contains_key(k) {
                before.push(player_death_text())
            } else {
                before.push(death_text(names[k].name@))
            }
        } else {
            before
        }
    }
}

/// Past the last entity with stats, a higher bound finds no further report.
proof fn lemma_death_reports_stable(
    low: nat,
    high: nat,
    stats: Map<int, CombatStats>,
    names: Map<int, GameplayName>,
    players: Map<int, PlayerChar>,
)
    requires
        low <= high,
        forall|k: int| low <= k ==> !stats.contains_key(k),
    ensures
        death_reports(high, stats, names, players) == death_reports(low, stats, names, players),
    decreases high,
{
    if high > low {
        lemma_death_reports_stable(low, (high - 1) as nat, stats, names, players);
    }
}

/// The reports are the same under every bound above the ids that have stats.
pub proof fn lemma_death_reports_bound(
    first: nat,
    second: nat,
    stats: Map<int, CombatStats>,
    names: Map<int, GameplayName>,
    players: Map<int, PlayerChar>,
)
    requires
        forall|k: int| #[trigger] stats.contains_key(k) ==> k < first && k < second,
    ensures
        death_reports(first, stats, names, players) == death_reports(second, stats, names, players),
{
    let low = if first <= second {
        first
    } else {
        second
    };
    lemma_death_reports_stable(low, first, stats, names, players);
    lemma_death_reports_stable(low, second, stats, names, players);
}

/// The mortality sweep. Every entity with stats and a name whose hit points
/// are below one is reported dead, in ascending order. The player stays as it
/// is; every other such entity is destroyed, once the walk is over.
pub fn destroy_dead_entities(ecs: &mut World)
    ensures
        old(ecs).pruned(doomed(old(ecs).stats@, old(ecs).names@, old(ecs).players@), final(ecs)),
        old(ecs).same_setting(final(ecs)),
        final(ecs).log.lines() == old(ecs).log.lines() + death_reports(
            old(ecs).stats.span(),
            old(ecs).stats@,
            old(ecs).names@,
            old(ecs).players@,
        ),
{
    let mut dead: Vec<Entity> = Vec::new();
    let bound: usize = ecs.stats.len();
    let mut i: usize = 0;
    proof {
        ecs.stats.lemma_keys_below_span();
        assert(ecs.log.lines() =~= old(ecs).log.lines() + death_reports(
            0,
            ecs.stats@,
            ecs.names@,
            ecs.players@,
        ));
    }
    while i < bound
        invariant
            i <= bound,
            bound == old(ecs).stats.span(),
            forall|k: int| #[trigger] ecs.stats@.contains_key(k) ==> 0 <= k < bound,
            old(ecs).same_components(ecs),
            old(ecs).same_setting(ecs),
            ecs.next_id == old(ecs).next_id,
            forall|k: int|
                id_set(dead@).contains(k) <==> (k < i && is_doomed(
                    k,
                    ecs.stats@,
                    ecs.names@,
                    ecs.players@,
                )),
            ecs.log.lines() == old(ecs).log.lines() + death_reports(
                i as nat,
                ecs.stats@,
                ecs.names@,
                ecs.players@,
            ),
        decreases bound - i,
    {
        let ent = Entity { id: i };
        let ghost dead_before = dead@;
        let hp_gone: bool = match ecs.stats.get(ent) {
            Some(stats) => stats.hp < 1,
            None => false,
        };
        if hp_gone {
            if let Some(name) = ecs.names.get(ent) {
                if ecs.players.contains(ent) {
                    ecs.log.log(player_death_message());
                } else {
                    dead.push(ent);
                    ecs.log.log(death_message(name.name.as_str()));
                }
            }
        }
        proof {
            assert forall|k: int|
                id_set(dead@).contains(k) <==> (k < i + 1 && is_doomed(
                    k,
                    ecs.stats@,
                    ecs.names@,
                    ecs.players@,
                )) by {
                if id_set(dead@).contains(k) {
                    let j = choose|j: int| 0 <= j < dead@.len() && #[trigger] dead@[j].id == k;
                    if j < dead_before.len() {
                        assert(dead_before[j].id == k);
                        assert(id_set(dead_before).contains(k));
                    }
                }
                if k < i + 1 && is_doomed(k, ecs.stats@, ecs.names@, ecs.players@) {
                    if k < i {
                        assert(id_set(dead_before).contains(k));
                        let j = choose|j: int|
                            0 <= j < dead_before.len() && #[trigger] dead_before[j].id == k;
                        assert(dead@[j].id == k);
                    } else {
                        assert(dead@[dead@.len() - 1].id == k);
                    }
                }
            }
            assert(ecs.log.lines() =~= old(ecs).log.lines() + death_reports(
                (i + 1) as nat,
                ecs.stats@,
                ecs.names@,
                ecs.players@,
            ));
        }
        i += 1;
    }
    assert(id_set(dead@) =~= doomed(ecs.stats@, ecs.names@, ecs.players@));
    ecs.delete_entities(&dead);
}

/// What a requested step comes to.
pub enum PlayerMove {
    /// Nothing happens.
    Nothing,
    /// The player attacks this entity and stays.
    Attack(Entity),
    /// The player steps to this place.
    Step(Position),
}

/// The first of the occupants, from index `from` on, that has stats.
pub open spec fn first_combatant(
    occupants: Seq<Entity>,
    stats: Map<int, CombatStats>,
    from: int,
) -> Option<Entity>
    decreases occupants.len() - from,
{
    if from < 0 || from >= occupants.len() {
        None
    } else if stats.contains_key(occupants[from].id as int) {
        Some(occupants[from])
    } else {
        first_combatant(occupants, stats, from + 1)
    }
}

/// The player's entity can be steered: it is marked as a player and has a
/// place and a viewshed.
pub open spec fn steers(ecs: &World) -> bool {
    &&& ecs.players@.contains_key(ecs.player.id as int)
    &&& ecs.positions@.contains_key(ecs.player.id as int)
    &&& ecs.viewsheds@.contains_key(ecs.player.id as int)
}

/// What a step by `(dx, dy)` comes to. A target off the map is out of reach.
/// On the map, the first occupant of the target tile that has stats is
/// attacked, and the player stays; with no such occupant the player steps
/// there unless the tile is blocked.
pub open spec fn planned_move(ecs: &World, dx: int, dy: int) -> PlayerMove {
    if !steers(ecs) {
        PlayerMove::Nothing
    } else {
        let x = ecs.positions@[ecs.player.id as int].x + dx;
        let y = ecs.positions@[ecs.player.id as int].y + dy;
        if !ecs.level.in_bounds(x, y) {
            PlayerMove::Nothing
        } else {
            let t = ecs.level.index_of(x, y);
            match first_combatant(ecs.level.tile_content@[t]@, ecs.stats@, 0) {
                Some(foe) => PlayerMove::Attack(foe),
                None => if ecs.level.blocked().contains(t as usize) {
                    PlayerMove::Nothing
                } else {
                    PlayerMove::Step(Position { x: x as i32, y: y as i32 })
                },
            }
        }
    }
}

/// Resolves a step that the player asks for: an attack intent or a move,
/// never both. A move marks the player's viewshed out of date and updates
/// the player's recorded place.
pub fn move_player(delta_x: i32, delta_y: i32, ecs: &mut World)
    requires
        old(ecs).wf(),
    ensures
        final(ecs).wf(),
        moved(old(ecs), delta_x as int, delta_y as int, final(ecs)),
{
    let ent = ecs.player;
    if !(ecs.players.contains(ent) && ecs.viewsheds.contains(ent)) {
        return ;
    }
    let pos = match ecs.positions.get(ent) {
        Some(pos) => *pos,
        None => { return ; },
    };
    let x: i64 = pos.x as i64 + delta_x as i64;
    let y: i64 = pos.y as i64 + delta_y as i64;
    if x < 0 || x >= ecs.level.width as i64 || y < 0 || y >= ecs.level.height as i64 {
        return ;
    }
    let target_idx = ecs.level.xy_idx(x as i32, y as i32);
    // Before moving, see whether there is anything to attack.
    let mut n: usize = 0;
    while n < ecs.level.tile_content[target_idx].len()
        invariant
            ecs.wf(),
            *ecs == *old(ecs),
            target_idx < ecs.level.tile_content@.len(),
            n <= ecs.level.tile_content@[target_idx as int]@.len(),
            first_combatant(ecs.level.tile_content@[target_idx as int]@, ecs.stats@, 0)
                == first_combatant(
                ecs.level.tile_content@[target_idx as int]@,
                ecs.stats@,
                n as int,
            ),
            ent == ecs.player,
            steers(ecs),
            pos == ecs.positions@[ent.id as int],
            x == pos.x + delta_x,
            y == pos.y + delta_y,
            ecs.level.in_bounds(x as int, y as int),
            target_idx == ecs.level.index_of(x as int, y as int),
        decreases ecs.level.tile_content@[target_idx as int]@.len() - n,
    {
        let target = ecs.level.tile_content[target_idx][n];
        if ecs.stats.contains(target) {
            ecs.melee_intents.insert(ent, MeleeAttackIntent { target });
            return ;
        }
        n += 1;
    }
    if !ecs.level.is_tile_blocked(target_idx) {
        ecs.positions.insert(ent, Position { x: x as i32, y: y as i32 });
        // The viewshed is out of date now.
        mark_stale(&mut ecs.viewsheds, ent);
        ecs.player_pos = Coord { x: x as i32, y: y as i32 };
    }
}

/// The status that follows `status`. Only while input is awaited does the
/// key matter: a key that asks for a step or lets the turn pass hands the
/// turn to the player, and any other key, or none, leaves the game waiting.
pub open spec fn status_after(status: GameStatus, key: Option<Key>) -> GameStatus {
    match status {
        GameStatus::PreTurn => GameStatus::AwaitingInput,
        GameStatus::AwaitingInput => match key {
            None => GameStatus::AwaitingInput,
            Some(Key::Other) => GameStatus::AwaitingInput,
            Some(_) => GameStatus::PlayerTurn,
        },
        GameStatus::PlayerTurn => GameStatus::MonsterTurn,
        GameStatus::MonsterTurn => GameStatus::AwaitingInput,
    }
}

/// What the input does to the world: a key that asks for a step resolves
/// the player's move; nothing else touches the world.
pub open spec fn input_applied(a: &World, key: Option<Key>, b: &World) -> bool {
    match key {
        Some(k) => match key_step(k) {
            Some(step) => moved(a, step.0, step.1, b),
            None => *b == *a,
        },
        None => *b == *a,
    }
}

/// What a frame does while input is awaited: the input is applied and the
/// status moves on as the key says. No system runs and nobody is swept.
pub open spec fn answered(a: &World, key: Option<Key>, b: &World) -> bool {
    exists|m: World| #[trigger]
        input_applied(a, key, &m) && *b == (World {
            status: status_after(GameStatus::AwaitingInput, key),
            ..m
        })
}

/// The rest of a turn, from the actor `from` of the monsters' pass on, takes
/// `b` to `z`. Either the pass stops at an actor that needs a path, and `z`
/// is the world at that point; or it runs out, and indexing, combat, damage,
/// the change of status and the sweep of the dead follow.
pub open spec fn continued(b: &World, from: usize, step: MonsterStep, z: &World, to: usize) -> bool {
    match step {
        MonsterStep::NeedPath { .. } => thought(b, from, z, to, step),
        MonsterStep::Finished => exists|c: World, d: World|
            #[trigger] thought(b, from, &c, to, step) && #[trigger] resolved(&c, &d) && ended(
                &d,
                status_after(b.status, None),
                z,
            ),
    }
}

/// The game: the world, and how far the monsters' pass of the current turn
/// has come.
pub struct State {
    pub ecs: World,
    pub monster_ai: MonsterAISystem,
    /// Set while a turn is held up at a monster that needs a path.
    pub waiting: bool,
}

impl State {
    /// The world is well formed and at rest, the player is in it, and a turn
    /// is held up only in the monsters' turn.
    pub open spec fn wf(&self) -> bool {
        &&& self.ecs.wf()
        &&& has_player(&self.ecs)
        &&& settled(&self.ecs)
        &&& self.waiting ==> self.ecs.status == GameStatus::MonsterTurn
    }

    /// Decides `wf`.
    pub fn is_wf(&self) -> (ok: bool)
        ensures
            ok == self.wf(),
    {
        if !self.ecs.is_wf() {
            return false;
        }
        if !(self.ecs.players.contains(self.ecs.player) && self.ecs.stats.contains(
            self.ecs.player,
        )) {
            return false;
        }
        if !self.ecs.incoming_damage.is_empty() {
            return false;
        }
        if self.waiting && self.ecs.status != GameStatus::MonsterTurn {
            return false;
        }
        let bound: usize = self.ecs.next_id;
        let mut i: usize = 0;
        while i < bound
            invariant
                i <= bound,
                bound == self.ecs.next_id,
                self.ecs.wf(),
                forall|k: int|
                    0 <= k < i ==> !#[trigger] is_doomed(
                        k,
                        self.ecs.stats@,
                        self.ecs.names@,
                        self.ecs.players@,
                    ),
            decreases bound - i,
        {
            let ent = Entity { id: i };
            if let Some(stats) = self.ecs.stats.get(ent) {
                if stats.hp < 1 && self.ecs.names.contains(ent) && !self.ecs.players.contains(ent) {
                    assert(is_doomed(
                        i as int,
                        self.ecs.stats@,
                        self.ecs.names@,
                        self.ecs.players@,
                    ));
                    return false;
                }
            }
            i += 1;
        }
        true
    }

    /// Decides `headroom` for the world.
    pub fn has_headroom(&self) -> (ok: bool)
        ensures
            ok == headroom(&self.ecs),
    {
        let bound: usize = self.ecs.stats.len();
        let mut i: usize = 0;
        proof {
            self.ecs.stats.lemma_keys_below_span();
        }
        while i < bound
            invariant
                bound == self.ecs.stats.span(),
                i <= bound,
                forall|k: int|
                    0 <= k < i && #[trigger] self.ecs.stats@.contains_key(k)
                        ==> self.ecs.stats@[k].hp - self.ecs.next_id * worst_blow(
                        self.ecs.stats@[k].defense as int,
                    ) >= i32::MIN,
            decreases bound - i,
        {
            if let Some(stats) = self.ecs.stats.get(Entity { id: i }) {
                let worst: i128 = if stats.defense < 0xffff {
                    0xffff - stats.defense as i128
                } else {
                    0
                };
                assert(0 <= self.ecs.next_id * worst <= 0xffff_ffff_ffff_ffff * 0x1_0000_0000)
                    by (nonlinear_arith)
                    requires
                        0 <= self.ecs.next_id <= 0xffff_ffff_ffff_ffff,
                        0 <= worst <= 0x1_0000_0000,
                ;
                let most: i128 = self.ecs.next_id as i128 * worst;
                if (stats.hp as i128) - most < -0x8000_0000 {
                    return false;
                }
            }
            i += 1;
        }
        true
    }

    /// A game on `ecs`, if `ecs` is a world that a game can start from.
    pub fn try_new(ecs: World) -> (made: Option<State>)
        ensures
            match made {
                Some(gs) => gs.wf() && gs.ecs == ecs && !gs.waiting,
                None => !(ecs.wf() && has_player(&ecs) && settled(&ecs)),
            },
    {
        let gs = State { ecs, monster_ai: MonsterAISystem::new(), waiting: false };
        if gs.is_wf() {
            Some(gs)
        } else {
            None
        }
    }

    /// A game on `ecs`, with no turn in progress.
    pub fn new(ecs: World) -> (gs: State)
        requires
            ecs.wf(),
            has_player(&ecs),
            settled(&ecs),
        ensures
            gs.wf(),
            gs.ecs == ecs,
            !gs.waiting,
    {
        State { ecs, monster_ai: MonsterAISystem::new(), waiting: false }
    }

    /// Runs indexing, combat resolution and damage application.
    fn resolve(&mut self)
        requires
            old(self).ecs.wf(),
            has_player(&old(self).ecs),
            old(self).ecs.incoming_damage@ == Map::<int, IncomingDamage>::empty(),
            headroom(&old(self).ecs),
        ensures
            resolved(&old(self).ecs, &final(self).ecs),
            final(self).ecs.wf(),
            has_player(&final(self).ecs),
            final(self).ecs.melee_intents@ == Map::<int, MeleeAttackIntent>::empty(),
            final(self).ecs.incoming_damage@ == Map::<int, IncomingDamage>::empty(),
            final(self).ecs.level.same_sight(&old(self).ecs.level),
            final(self).monster_ai == old(self).monster_ai,
            final(self).waiting == old(self).waiting,
    {
        let ghost a = self.ecs;
        let mut map_indexer = MapIndexingSystem {  };
        map_indexer.run(&mut self.ecs.level, &self.ecs.positions, &self.ecs.blockers);
        let ghost b = self.ecs;
        proof {
            a.positions.lemma_keys_below_span();
            assert forall|t: int| 0 <= t < b.level.tile_content@.len() implies #[trigger]
                b.level.tile_content@[t]@ == occupants(
                t,
                a.next_id as nat,
                a.positions@,
                b.level.width as int,
            ) by {
                lemma_occupants_bound(
                    t,
                    a.positions.span(),
                    a.next_id as nat,
                    a.positions@,
                    b.level.width as int,
                );
            }
        }
        assert(indexed(&a, &b));
        assert(b.wf());

        proof {
            assert forall|k: int| #[trigger]
                is_attacker(k, b.melee_intents@, b.names@, b.stats@) implies {
                &&& b.stats@.contains_key(victim_of(k, b.melee_intents@))
                &&& b.stats@[victim_of(k, b.melee_intents@)].hp > 0 ==> {
                    &&& b.names@.contains_key(victim_of(k, b.melee_intents@))
                    &&& blow(k, b.melee_intents@, b.stats@) <= i32::MAX
                }
            } by {
                assert(b.melee_intents@.contains_key(k));
                assert(b.stats@.contains_key(victim_of(k, b.melee_intents@)));
            }
        }
        let mut melee_combat_system = MeleeCombatSystem {  };
        melee_combat_system.run(
            &mut self.ecs.melee_intents,
            &self.ecs.names,
            &self.ecs.stats,
            &mut self.ecs.incoming_damage,
            &mut self.ecs.log,
        );
        let ghost c = self.ecs;
        proof {
            b.melee_intents.lemma_keys_below_span();
            lemma_blow_reports_bound(
                b.melee_intents.span(),
                b.next_id as nat,
                b.melee_intents@,
                b.names@,
                b.stats@,
            );
            assert forall|v: int|
                hits_on(v, b.melee_intents.span(), b.melee_intents@, b.names@, b.stats@)
                    == #[trigger] hits_on(
                    v,
                    b.next_id as nat,
                    b.melee_intents@,
                    b.names@,
                    b.stats@,
                ) by {
                lemma_hits_on_bound(
                    v,
                    b.melee_intents.span(),
                    b.next_id as nat,
                    b.melee_intents@,
                    b.names@,
                    b.stats@,
                );
            }
            assert(struck(
                damage_view(b.incoming_damage@),
                b.melee_intents.span(),
                b.melee_intents@,
                b.names@,
                b.stats@,
            ) =~= struck(
                damage_view(b.incoming_damage@),
                b.next_id as nat,
                b.melee_intents@,
                b.names@,
                b.stats@,
            ));
        }
        assert(fought(&b, &c));

        proof {
            let dv = damage_view(c.incoming_damage@);
            assert forall|k: int| #[trigger] suffers(k, c.stats@, dv) implies i32::MIN <= hp_after(
                k,
                c.stats@,
                dv,
            ) <= i32::MAX by {
                let hits = hits_on(k, b.next_id as nat, b.melee_intents@, b.names@, b.stats@);
                let worst = worst_blow(b.stats@[k].defense as int);
                assert(b.stats@.contains_key(k));
                lemma_hits_bounded(
                    k,
                    b.next_id as nat,
                    b.next_id as nat,
                    b.melee_intents@,
                    b.names@,
                    b.stats@,
                );
                assert(pending(damage_view(b.incoming_damage@), k) + hits =~= hits);
                assert(dv[k] == hits);
            }
        }
        let mut dmg_system = DamageSystem {  };
        dmg_system.run(
            &mut self.ecs.stats,
            &mut self.ecs.incoming_damage,
            &self.ecs.names,
            &mut self.ecs.log,
        );
        proof {
            c.stats.lemma_keys_below_span();
            lemma_damage_reports_bound(
                c.stats.span(),
                c.next_id as nat,
                c.stats@,
                damage_view(c.incoming_damage@),
                c.names@,
            );
        }
        assert(hurt(&c, &self.ecs));
    }

    /// Takes the monsters' pass up where it stands and, once it has run out,
    /// brings the turn to its end.
    fn advance(&mut self) -> (step: MonsterStep)
        requires
            old(self).ecs.wf(),
            has_player(&old(self).ecs),
            settled(&old(self).ecs),
            headroom(&old(self).ecs),
        ensures
            continued(
                &old(self).ecs,
                old(self).monster_ai.next,
                step,
                &final(self).ecs,
                final(self).monster_ai.next,
            ),
            final(self).wf(),
            final(self).waiting == (step != MonsterStep::Finished),
            final(self).waiting ==> headroom(&final(self).ecs),
            step == MonsterStep::Finished ==> final(self).ecs.melee_intents@ == Map::<
                int,
                MeleeAttackIntent,
            >::empty(),
            final(self).ecs.level.same_sight(&old(self).ecs.level),
    {
        let ghost b = self.ecs;
        let ghost from = self.monster_ai.next;
        let step = self.monster_ai.run(
            &self.ecs.level,
            self.ecs.player_pos,
            self.ecs.player,
            self.ecs.status,
            &self.ecs.viewsheds,
            &self.ecs.monsters,
            &self.ecs.names,
            &self.ecs.positions,
            &mut self.ecs.melee_intents,
        );
        let ghost c = self.ecs;
        assert(thought(&b, from, &c, self.monster_ai.next, step));
        assert(c.wf());
        match step {
            MonsterStep::NeedPath { .. } => {
                self.waiting = true;
            },
            MonsterStep::Finished => {
                self.resolve();
                let ghost d = self.ecs;
                let next = match self.ecs.status {
                    GameStatus::PreTurn => GameStatus::AwaitingInput,
                    GameStatus::AwaitingInput => GameStatus::AwaitingInput,
                    GameStatus::PlayerTurn => GameStatus::MonsterTurn,
                    GameStatus::MonsterTurn => GameStatus::AwaitingInput,
                };
                self.ecs.status = next;
                destroy_dead_entities(&mut self.ecs);
                self.waiting = false;
                proof {
                    d.stats.lemma_keys_below_span();
                    lemma_death_reports_bound(
                        d.stats.span(),
                        d.next_id as nat,
                        d.stats@,
                        d.names@,
                        d.players@,
                    );
                    assert(ended(&d, next, &self.ecs));
                    assert(thought(&b, from, &c, self.monster_ai.next, step) && resolved(&c, &d));
                    lemma_ended_keeps_order(&d, next, &self.ecs);
                }
            },
        }
        step
    }

    /// Runs the systems of a turn in their fixed order: visibility, the
    /// monsters, and then, unless a monster needs a path first, indexing,
    /// combat, damage, the change of status and the sweep of the dead.
    fn run_systems(&mut self) -> (step: MonsterStep)
        requires
            old(self).wf(),
            headroom(&old(self).ecs),
        ensures
            exists|b: World| #[trigger]
                saw(&old(self).ecs, &b) && continued(
                    &b,
                    0,
                    step,
                    &final(self).ecs,
                    final(self).monster_ai.next,
                ),
            final(self).wf(),
            final(self).waiting == (step != MonsterStep::Finished),
            final(self).waiting ==> headroom(&final(self).ecs),
            step == MonsterStep::Finished ==> final(self).ecs.melee_intents@ == Map::<
                int,
                MeleeAttackIntent,
            >::empty(),
            old(self).ecs.level.revealed().subset_of(final(self).ecs.level.revealed()),
    {
        let ghost a = self.ecs;
        let mut vis = VisibilitySystem {  };
        vis.run(
            &mut self.ecs.level,
            &mut self.ecs.viewsheds,
            &self.ecs.positions,
            &self.ecs.players,
        );
        let ghost b = self.ecs;
        assert(saw(&a, &b));
        self.monster_ai = MonsterAISystem::new();
        let step = self.advance();
        step
    }

    /// What `tick` does: `before` becomes `after`, and `step` comes back.
    /// While input is awaited, the input is answered. In every other status
    /// the visibility pass is followed by the rest of the turn, as far as it
    /// gets. The game is held up exactly if a path is asked for, what the
    /// map keeps as revealed only grows, and a turn that has come to its end
    /// leaves no attack intent and no pending damage behind.
    pub open spec fn ticked(before: &State, key: Option<Key>, step: MonsterStep, after: &State) -> bool {
        &&& after.waiting == (step != MonsterStep::Finished)
        &&& before.ecs.level.revealed().subset_of(after.ecs.level.revealed())
        &&& before.ecs.status == GameStatus::AwaitingInput ==> {
            &&& step == MonsterStep::Finished
            &&& answered(&before.ecs, key, &after.ecs)
            &&& after.monster_ai == before.monster_ai
        }
        &&& before.ecs.status != GameStatus::AwaitingInput ==> {
            &&& exists|b: World| #[trigger]
                saw(&before.ecs, &b) && continued(&b, 0, step, &after.ecs, after.monster_ai.next)
            &&& step == MonsterStep::Finished ==> {
                &&& after.ecs.melee_intents@ == Map::<int, MeleeAttackIntent>::empty()
                &&& after.ecs.incoming_damage@ == Map::<int, IncomingDamage>::empty()
            }
        }
    }

    /// What `resume` does: the search result is carried out for the monster
    /// that asked for it, and the rest of the turn follows, as far as it
    /// gets.
    pub open spec fn resumed(
        before: &State,
        found: bool,
        steps: Seq<usize>,
        step: MonsterStep,
        after: &State,
    ) -> bool {
        &&& after.waiting == (step != MonsterStep::Finished)
        &&& before.ecs.level.revealed().subset_of(after.ecs.level.revealed())
        &&& exists|b: World, n: usize| #[trigger]
            walked(&before.ecs, before.monster_ai.next, found, steps, &b, n) && continued(
                &b,
                n,
                step,
                &after.ecs,
                after.monster_ai.next,
            )
        &&& step == MonsterStep::Finished ==> {
            &&& after.ecs.melee_intents@ == Map::<int, MeleeAttackIntent>::empty()
            &&& after.ecs.incoming_damage@ == Map::<int, IncomingDamage>::empty()
        }
    }

    /// One frame of the game. While input is awaited, the key is answered
    /// and nothing else happens. In every other status the key is ignored
    /// and the systems run, the status moves on and the dead are swept,
    /// unless the monsters' pass has stopped at a monster that needs a path:
    /// then the turn is held up, and `resume` takes it further once the path
    /// is there.
    pub fn tick(&mut self, key: Option<Key>) -> (step: MonsterStep)
        requires
            old(self).can_tick(),
        ensures
            final(self).wf(),
            final(self).waiting ==> headroom(&final(self).ecs),
            State::ticked(old(self), key, step, final(self)),
    {
        match self.ecs.status {
            GameStatus::AwaitingInput => {
                let ghost a = self.ecs;
                let next = process_input(self, key);
                let ghost m = self.ecs;
                self.ecs.status = next;
                assert(input_applied(&a, key, &m) && self.ecs == (World { status: next, ..m }));
                MonsterStep::Finished
            },
            _ => self.run_systems(),
        }
    }

    /// Whether `tick` can be called: the game is well formed, no turn is held
    /// up, and where the systems are about to run, hit points have headroom.
    pub open spec fn can_tick(&self) -> bool {
        &&& self.wf()
        &&& !self.waiting
        &&& self.ecs.status != GameStatus::AwaitingInput ==> headroom(&self.ecs)
    }

    /// Whether `resume` can be called: the game is well formed, a turn is
    /// held up, and hit points have headroom.
    pub open spec fn can_resume(&self) -> bool {
        &&& self.wf()
        &&& self.waiting
        &&& headroom(&self.ecs)
    }

    /// `tick`, for callers that cannot vouch for the state of the game: where
    /// `can_tick` fails, nothing happens.
    pub fn try_tick(&mut self, key: Option<Key>) -> (step: Option<MonsterStep>)
        ensures
            match step {
                Some(s) => {
                    &&& old(self).can_tick()
                    &&& final(self).wf()
                    &&& final(self).waiting ==> headroom(&final(self).ecs)
                    &&& State::ticked(old(self), key, s, final(self))
                },
                None => !old(self).can_tick() && *final(self) == *old(self),
            },
    {
        if self.waiting || !self.is_wf() {
            return None;
        }
        if self.ecs.status != GameStatus::AwaitingInput && !self.has_headroom() {
            return None;
        }
        Some(self.tick(key))
    }

    /// `resume`, for callers that cannot vouch for the state of the game:
    /// where `can_resume` fails, nothing happens.
    pub fn try_resume(&mut self, found: bool, steps: &Vec<usize>) -> (step: Option<MonsterStep>)
        ensures
            match step {
                Some(s) => {
                    &&& old(self).can_resume()
                    &&& final(self).wf()
                    &&& final(self).waiting ==> headroom(&final(self).ecs)
                    &&& State::resumed(old(self), found, steps@, s, final(self))
                },
                None => !old(self).can_resume() && *final(self) == *old(self),
            },
    {
        if !self.waiting || !self.is_wf() || !self.has_headroom() {
            return None;
        }
        Some(self.resume(found, steps))
    }

    /// Takes up a turn that is held up: carries out the search result for
    /// the monster that asked for it and goes on from there as `tick` does.
    pub fn resume(&mut self, found: bool, steps: &Vec<usize>) -> (step: MonsterStep)
        requires
            old(self).can_resume(),
        ensures
            final(self).wf(),
            final(self).waiting ==> headroom(&final(self).ecs),
            State::resumed(old(self), found, steps@, step, final(self)),
    {
        let ghost a = self.ecs;
        let ghost from = self.monster_ai.next;
        self.monster_ai.follow_path(
            found,
            steps,
            &mut self.ecs.level,
            self.ecs.player_pos,
            &mut self.ecs.viewsheds,
            &self.ecs.monsters,
            &self.ecs.names,
            &mut self.ecs.positions,
        );
        let ghost b = self.ecs;
        assert(walked(&a, from, found, steps@, &b, self.monster_ai.next));
        assert(b.wf());
        let step = self.advance();
        step
    }
}

/// Answers the key that was pressed while input was awaited, and says what
/// status follows. A key that asks for a step resolves the player's move or
/// attack; the key that lets the turn pass changes nothing; each of them
/// hands the turn to the player. Any other key, or none, is ignored.
pub fn process_input(gs: &mut State, key: Option<Key>) -> (next: GameStatus)
    requires
        old(gs).ecs.wf(),
    ensures
        next == status_after(GameStatus::AwaitingInput, key),
        input_applied(&old(gs).ecs, key, &final(gs).ecs),
        final(gs).ecs.wf(),
        final(gs).monster_ai == old(gs).monster_ai,
        final(gs).waiting == old(gs).waiting,
{
    match key {
        None => { return GameStatus::AwaitingInput; },
        Some(key) => match key {
            Key::Left | Key::A => move_player(-1, 0, &mut gs.ecs),
            Key::Right | Key::D => move_player(1, 0, &mut gs.ecs),
            Key::Up | Key::W => move_player(0, -1, &mut gs.ecs),
            Key::Down | Key::S => move_player(0, 1, &mut gs.ecs),
            Key::Q => move_player(-1, -1, &mut gs.ecs),
            Key::E => move_player(1, -1, &mut gs.ecs),
            Key::C => move_player(1, 1, &mut gs.ecs),
            Key::Z => move_player(-1, 1, &mut gs.ecs),
            Key::Space => {},
            Key::Other => { return GameStatus::AwaitingInput; },
        },
    }
    GameStatus::PlayerTurn
}

/// The sweep of the dead keeps a well-formed world well formed, leaves the
/// player in it, and leaves nobody for a second sweep.
pub proof fn lemma_ended_keeps_order(a: &World, next: GameStatus, b: &World)
    requires
        a.wf(),
        has_player(a),
        ended(a, next, b),
        forall|k: int| #[trigger]
            a.melee_intents@.contains_key(k) ==> !is_doomed(
                a.melee_intents@[k].target.id as int,
                a.stats@,
                a.names@,
                a.players@,
            ),
    ensures
        b.wf(),
        has_player(b),
        forall|k: int| !#[trigger] is_doomed(k, b.stats@, b.names@, b.players@),
        a.incoming_damage@ == Map::<int, IncomingDamage>::empty() ==> settled(b),
        a.melee_intents@ == Map::<int, MeleeAttackIntent>::empty() ==> b.melee_intents@ == Map::<
            int,
            MeleeAttackIntent,
        >::empty(),
{
    if a.incoming_damage@ == Map::<int, IncomingDamage>::empty() {
        assert(b.incoming_damage@ =~= Map::<int, IncomingDamage>::empty());
    }
    if a.melee_intents@ == Map::<int, MeleeAttackIntent>::empty() {
        assert(b.melee_intents@ =~= Map::<int, MeleeAttackIntent>::empty());
    }
    assert forall|k: int| #[trigger] b.melee_intents@.contains_key(k) implies b.stats@.contains_key(
        b.melee_intents@[k].target.id as int,
    ) by {
        assert(a.melee_intents@.contains_key(k));
    }
}

} // verus!
