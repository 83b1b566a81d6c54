//! The world: every component table, the map, and what is known of the
//! player and the turn.
use crate::components::{
    CombatStats, GameplayName, Healer, IncomingDamage, Item, LeftMover, MeleeAttackIntent,
    MonsterChar, PlayerChar, Position, TileBlocker, Viewshed,
};
use crate::game_log::GameLog;
use crate::game_state::GameStatus;
use crate::geometry::Coord;
use crate::level::{on_map, Level, SIGHT_LIMIT};
use crate::storage::{Entity, Storage};
use vstd::prelude::*;

verus! {

/// The lowest defense against which the strongest blow, of power
/// `u16::MAX`, is still an amount that pending damage can hold.
pub const DEFENSE_FLOOR: i32 = -0x7fff_0000;

pub struct World {
    /// The id that the next new entity gets. Ids are handed out in ascending
    /// order and never again.
    pub next_id: usize,
    pub positions: Storage<Position>,
    pub viewsheds: Storage<Viewshed>,
    pub players: Storage<PlayerChar>,
    pub monsters: Storage<MonsterChar>,
    pub names: Storage<GameplayName>,
    pub blockers: Storage<TileBlocker>,
    pub stats: Storage<CombatStats>,
    pub melee_intents: Storage<MeleeAttackIntent>,
    pub incoming_damage: Storage<IncomingDamage>,
    pub left_movers: Storage<LeftMover>,
    pub items: Storage<Item>,
    pub healers: Storage<Healer>,
    pub level: Level,
    /// Where the player stands, for the monsters to look up.
    pub player_pos: Coord,
    /// The entity that the player steers.
    pub player: Entity,
    pub status: GameStatus,
    pub log: GameLog,
}

/// The ids of a list of entities.
pub open spec fn id_set(entities: Seq<Entity>) -> Set<int> {
    Set::new(|k: int| exists|j: int| 0 <= j < entities.len() && #[trigger] entities[j].id == k)
}

/// Every key of the table is an id that has been handed out.
pub open spec fn keys_below<T>(table: Map<int, T>, next_id: int) -> bool {
    forall|k: int| #[trigger] table.contains_key(k) ==> 0 <= k < next_id
}

/// Detaches the components of the listed entities.
pub fn purge<T>(table: &mut Storage<T>, gone: &Vec<Entity>)
    ensures
        final(table)@ == old(table)@.remove_keys(id_set(gone@)),
        final(table).span() == old(table).span(),
{
    let mut n: usize = 0;
    assert(table@ =~= old(table)@.remove_keys(id_set(gone@.take(0))));
    while n < gone.len()
        invariant
            n <= gone@.len(),
            table@ == old(table)@.remove_keys(id_set(gone@.take(n as int))),
            table.span() == old(table).span(),
        decreases gone@.len() - n,
    {
        table.remove(gone[n]);
        proof {
            let before = gone@.take(n as int);
            let after = gone@.take(n + 1);
            assert forall|k: int| id_set(after).contains(k) <==> (id_set(before).contains(k) || k
                == gone@[n as int].id) by {
                if id_set(after).contains(k) {
                    let j = choose|j: int| 0 <= j < after.len() && #[trigger] after[j].id == k;
                    if j < n {
                        assert(before[j].id == k);
                    }
                }
                if id_set(before).contains(k) {
                    let j = choose|j: int| 0 <= j < before.len() && #[trigger] before[j].id == k;
                    assert(after[j].id == k);
                }
                if k == gone@[n as int].id {
                    assert(after[n as int].id == k);
                }
            }
            assert(table@ =~= old(table)@.remove_keys(id_set(after)));
        }
        n += 1;
    }
    assert(gone@.take(n as int) =~= gone@);
}

impl World {
    /// The tables and the map fit together, so that no phase of a turn meets
    /// what it cannot handle. The map is well formed. Every component
    /// belongs to an id that was handed out. Every position and the player's
    /// recorded place lie on the map, where tiles can be looked up. Every
    /// sight range is one that a field of view can be computed for. Whoever
    /// has stats has a name, which reports of blows need, and a defense no
    /// lower than `DEFENSE_FLOOR`, against which every blow is an amount
    /// that pending damage can hold. Every attack intent aims at an entity
    /// with stats.
    pub open spec fn wf(&self) -> bool {
        &&& self.level.wf()
        &&& keys_below(self.positions@, self.next_id as int)
        &&& keys_below(self.viewsheds@, self.next_id as int)
        &&& keys_below(self.players@, self.next_id as int)
        &&& keys_below(self.monsters@, self.next_id as int)
        &&& keys_below(self.names@, self.next_id as int)
        &&& keys_below(self.blockers@, self.next_id as int)
        &&& keys_below(self.stats@, self.next_id as int)
        &&& keys_below(self.melee_intents@, self.next_id as int)
        &&& keys_below(self.incoming_damage@, self.next_id as int)
        &&& keys_below(self.left_movers@, self.next_id as int)
        &&& keys_below(self.items@, self.next_id as int)
        &&& keys_below(self.healers@, self.next_id as int)
        &&& on_map(self.positions@, &self.level)
        &&& self.level.in_bounds(self.player_pos.x as int, self.player_pos.y as int)
        &&& forall|k: int| #[trigger]
            self.viewsheds@.contains_key(k) ==> -SIGHT_LIMIT <= self.viewsheds@[k].range
                <= SIGHT_LIMIT
        &&& forall|k: int| #[trigger]
            self.stats@.contains_key(k) ==> self.names@.contains_key(k) && self.stats@[k].defense
                >= DEFENSE_FLOOR
        &&& forall|k: int| #[trigger]
            self.melee_intents@.contains_key(k) ==> self.stats@.contains_key(
                self.melee_intents@[k].target.id as int,
            )
    }

    /// `other` holds what this world holds but for the entities in `gone`:
    /// their components are detached from every table, and no id has been
    /// handed out since.
    pub open spec fn pruned(&self, gone: Set<int>, other: &World) -> bool {
        &&& other.next_id == self.next_id
        &&& other.positions@ == self.positions@.remove_keys(gone)
        &&& other.viewsheds@ == self.viewsheds@.remove_keys(gone)
        &&& other.players@ == self.players@.remove_keys(gone)
        &&& other.monsters@ == self.monsters@.remove_keys(gone)
        &&& other.names@ == self.names@.remove_keys(gone)
        &&& other.blockers@ == self.blockers@.remove_keys(gone)
        &&& other.stats@ == self.stats@.remove_keys(gone)
        &&& other.melee_intents@ == self.melee_intents@.remove_keys(gone)
        &&& other.incoming_damage@ == self.incoming_damage@.remove_keys(gone)
        &&& other.left_movers@ == self.left_movers@.remove_keys(gone)
        &&& other.items@ == self.items@.remove_keys(gone)
        &&& other.healers@ == self.healers@.remove_keys(gone)
    }

    /// Both worlds hold the same components.
    pub open spec fn same_components(&self, other: &World) -> bool {
        &&& other.positions@ == self.positions@
        &&& other.viewsheds@ == self.viewsheds@
        &&& other.players@ == self.players@
        &&& other.monsters@ == self.monsters@
        &&& other.names@ == self.names@
        &&& other.blockers@ == self.blockers@
        &&& other.stats@ == self.stats@
        &&& other.melee_intents@ == self.melee_intents@
        &&& other.incoming_damage@ == self.incoming_damage@
        &&& other.left_movers@ == self.left_movers@
        &&& other.items@ == self.items@
        &&& other.healers@ == self.healers@
    }

    /// Both worlds have the same map, player and turn.
    pub open spec fn same_setting(&self, other: &World) -> bool {
        &&& other.level == self.level
        &&& other.player_pos == self.player_pos
        &&& other.player == self.player
        &&& other.status == self.status
    }

    /// Decides `wf`.
    pub fn is_wf(&self) -> (ok: bool)
        ensures
            ok == self.wf(),
    {
        if !self.level.is_wf() {
            return false;
        }
        if !(self.positions.is_below(self.next_id) && self.viewsheds.is_below(self.next_id)
            && self.players.is_below(self.next_id) && self.monsters.is_below(self.next_id)
            && self.names.is_below(self.next_id) && self.blockers.is_below(self.next_id)
            && self.stats.is_below(self.next_id) && self.melee_intents.is_below(self.next_id)
            && self.incoming_damage.is_below(self.next_id) && self.left_movers.is_below(
            self.next_id,
        ) && self.items.is_below(self.next_id) && self.healers.is_below(self.next_id)) {
            return false;
        }
        if !self.level.contains(self.player_pos.x, self.player_pos.y) {
            return false;
        }
        let bound: usize = self.next_id;
        let mut i: usize = 0;
        while i < bound
            invariant
                i <= bound,
                bound == self.next_id,
                forall|k: int|
                    0 <= k < i && #[trigger] self.positions@.contains_key(k)
                        ==> self.level.in_bounds(
                        self.positions@[k].x as int,
                        self.positions@[k].y as int,
                    ),
                forall|k: int|
                    0 <= k < i && #[trigger] self.viewsheds@.contains_key(k) ==> -SIGHT_LIMIT
                        <= self.viewsheds@[k].range <= SIGHT_LIMIT,
                forall|k: int|
                    0 <= k < i && #[trigger] self.stats@.contains_key(k)
                        ==> self.names@.contains_key(k) && self.stats@[k].defense >= DEFENSE_FLOOR,
                forall|k: int|
                    0 <= k < i && #[trigger] self.melee_intents@.contains_key(k)
                        ==> self.stats@.contains_key(self.melee_intents@[k].target.id as int),
            decreases bound - i,
        {
            let ent = Entity { id: i };
            if let Some(pos) = self.positions.get(ent) {
                if !self.level.contains(pos.x, pos.y) {
                    return false;
                }
            }
            if let Some(vs) = self.viewsheds.get(ent) {
                if vs.range < -SIGHT_LIMIT || vs.range > SIGHT_LIMIT {
                    return false;
                }
            }
            if let Some(stats) = self.stats.get(ent) {
                if !self.names.contains(ent) || stats.defense < DEFENSE_FLOOR {
                    return false;
                }
            }
            if let Some(intent) = self.melee_intents.get(ent) {
                if !self.stats.contains(intent.target) {
                    return false;
                }
            }
            i += 1;
        }
        true
    }

    /// An empty world on `level`, before the first turn, with the player's
    /// place and entity still to be set.
    pub fn new(level: Level) -> (world: World)
        requires
            level.wf(),
        ensures
            world.wf(),
            world.next_id == 0,
            world.level == level,
            world.status == GameStatus::PreTurn,
            world.player_pos == (Coord { x: 0, y: 0 }),
            world.player == (Entity { id: 0 }),
            world.log.lines() == Seq::<Seq<char>>::empty(),
            world.positions@ == Map::<int, Position>::empty(),
            world.viewsheds@ == Map::<int, Viewshed>::empty(),
            world.players@ == Map::<int, PlayerChar>::empty(),
            world.monsters@ == Map::<int, MonsterChar>::empty(),
            world.names@ == Map::<int, GameplayName>::empty(),
            world.blockers@ == Map::<int, TileBlocker>::empty(),
            world.stats@ == Map::<int, CombatStats>::empty(),
            world.melee_intents@ == Map::<int, MeleeAttackIntent>::empty(),
            world.incoming_damage@ == Map::<int, IncomingDamage>::empty(),
            world.left_movers@ == Map::<int, LeftMover>::empty(),
            world.items@ == Map::<int, Item>::empty(),
            world.healers@ == Map::<int, Healer>::empty(),
    {
        World {
            next_id: 0,
            positions: Storage::new(),
            viewsheds: Storage::new(),
            players: Storage::new(),
            monsters: Storage::new(),
            names: Storage::new(),
            blockers: Storage::new(),
            stats: Storage::new(),
            melee_intents: Storage::new(),
            incoming_damage: Storage::new(),
            left_movers: Storage::new(),
            items: Storage::new(),
            healers: Storage::new(),
            level,
            player_pos: Coord { x: 0, y: 0 },
            player: Entity { id: 0 },
            status: GameStatus::PreTurn,
            log: GameLog::new(),
        }
    }

    /// Hands out a fresh entity, which has no component yet.
    pub fn create_entity(&mut self) -> (e: Entity)
        requires
            old(self).wf(),
            old(self).next_id < usize::MAX,
        ensures
            final(self).wf(),
            e.id == old(self).next_id,
            final(self).next_id == old(self).next_id + 1,
            old(self).same_components(final(self)),
            old(self).same_setting(final(self)),
            final(self).log == old(self).log,
    {
        let e = Entity { id: self.next_id };
        self.next_id = self.next_id + 1;
        e
    }

    /// Destroys the listed entities: all their components are released.
    pub fn delete_entities(&mut self, delete: &Vec<Entity>)
        ensures
            old(self).pruned(id_set(delete@), final(self)),
            old(self).same_setting(final(self)),
            final(self).log == old(self).log,
    {
        purge(&mut self.positions, delete);
        purge(&mut self.viewsheds, delete);
        purge(&mut self.players, delete);
        purge(&mut self.monsters, delete);
        purge(&mut self.names, delete);
        purge(&mut self.blockers, delete);
        purge(&mut self.stats, delete);
        purge(&mut self.melee_intents, delete);
        purge(&mut self.incoming_damage, delete);
        purge(&mut self.left_movers, delete);
        purge(&mut self.items, delete);
        purge(&mut self.healers, delete);
    }
}

} // verus!
