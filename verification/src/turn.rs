//! What each phase of a turn does to the world, stated as relations between
//! the world before and the world after, and what a turn presupposes.
use crate::components::combat::{damage_view, total};
use crate::components::viewshed::marked_stale;
use crate::components::{CombatStats, GameplayName, IncomingDamage, MeleeAttackIntent};
use crate::game_state::{death_reports, doomed, is_doomed, planned_move, GameStatus, PlayerMove};
use crate::geometry::Coord;
use crate::systems::damage_system::{applied, damage_reports};
use crate::systems::map_indexing_system::charted;
use crate::systems::melee_combat_system::{
    blow, blow_reports, hits_on, strikes, struck, victim_of,
};
use crate::systems::monster_ai_system::{scanned, stepped, MonsterStep};
use crate::systems::visibility_system::looked;
use crate::world::World;
use vstd::prelude::*;

verus! {

/// Both worlds have the same entities of each standing kind: the same ids
/// handed out, the same player, and the same marks and names.
pub open spec fn same_cast(a: &World, b: &World) -> bool {
    &&& b.next_id == a.next_id
    &&& b.player == a.player
    &&& b.players@ == a.players@
    &&& b.monsters@ == a.monsters@
    &&& b.names@ == a.names@
    &&& b.blockers@ == a.blockers@
    &&& b.left_movers@ == a.left_movers@
    &&& b.items@ == a.items@
    &&& b.healers@ == a.healers@
}

/// The visibility pass takes `a` to `b`.
pub open spec fn saw(a: &World, b: &World) -> bool {
    &&& same_cast(a, b)
    &&& looked(&a.level, a.viewsheds@, a.positions@, a.players@, &b.level, b.viewsheds@)
    &&& b.positions@ == a.positions@
    &&& b.stats@ == a.stats@
    &&& b.melee_intents@ == a.melee_intents@
    &&& b.incoming_damage@ == a.incoming_damage@
    &&& b.player_pos == a.player_pos
    &&& b.status == a.status
    &&& b.log.lines() == a.log.lines()
}

/// A stretch of the monsters' pass, from the actor `from` to the actor `to`,
/// takes `a` to `b` and ends in `step`.
pub open spec fn thought(a: &World, from: usize, b: &World, to: usize, step: MonsterStep) -> bool {
    &&& same_cast(a, b)
    &&& scanned(
        a.status,
        from,
        to,
        step,
        a.melee_intents@,
        b.melee_intents@,
        &a.level,
        a.player_pos,
        a.player,
        a.viewsheds@,
        a.monsters@,
        a.names@,
        a.positions@,
    )
    &&& b.positions@ == a.positions@
    &&& b.viewsheds@ == a.viewsheds@
    &&& b.stats@ == a.stats@
    &&& b.incoming_damage@ == a.incoming_damage@
    &&& b.level == a.level
    &&& b.player_pos == a.player_pos
    &&& b.status == a.status
    &&& b.log.lines() == a.log.lines()
}

/// Carrying out a search result for the actor `from` takes `a` to `b` and
/// the pass to the actor `to`.
pub open spec fn walked(
    a: &World,
    from: usize,
    found: bool,
    steps: Seq<usize>,
    b: &World,
    to: usize,
) -> bool {
    &&& same_cast(a, b)
    &&& stepped(
        from,
        to,
        found,
        steps,
        a.player_pos,
        &a.level,
        &b.level,
        a.viewsheds@,
        b.viewsheds@,
        a.monsters@,
        a.names@,
        a.positions@,
        b.positions@,
    )
    &&& b.stats@ == a.stats@
    &&& b.melee_intents@ == a.melee_intents@
    &&& b.incoming_damage@ == a.incoming_damage@
    &&& b.player_pos == a.player_pos
    &&& b.status == a.status
    &&& b.log.lines() == a.log.lines()
}

/// Indexing takes `a` to `b`.
pub open spec fn indexed(a: &World, b: &World) -> bool {
    &&& same_cast(a, b)
    &&& charted(&a.level, a.positions@, a.next_id as nat, a.blockers@, &b.level)
    &&& b.positions@ == a.positions@
    &&& b.viewsheds@ == a.viewsheds@
    &&& b.stats@ == a.stats@
    &&& b.melee_intents@ == a.melee_intents@
    &&& b.incoming_damage@ == a.incoming_damage@
    &&& b.player_pos == a.player_pos
    &&& b.status == a.status
    &&& b.log.lines() == a.log.lines()
}

/// Combat resolution takes `a` to `b`.
pub open spec fn fought(a: &World, b: &World) -> bool {
    &&& same_cast(a, b)
    &&& b.melee_intents@ == Map::<int, MeleeAttackIntent>::empty()
    &&& damage_view(b.incoming_damage@) == struck(
        damage_view(a.incoming_damage@),
        a.next_id as nat,
        a.melee_intents@,
        a.names@,
        a.stats@,
    )
    &&& b.log.lines() == a.log.lines() + blow_reports(
        a.next_id as nat,
        a.melee_intents@,
        a.names@,
        a.stats@,
    )
    &&& b.positions@ == a.positions@
    &&& b.viewsheds@ == a.viewsheds@
    &&& b.stats@ == a.stats@
    &&& b.level == a.level
    &&& b.player_pos == a.player_pos
    &&& b.status == a.status
}

/// Damage application takes `a` to `b`.
pub open spec fn hurt(a: &World, b: &World) -> bool {
    &&& same_cast(a, b)
    &&& b.stats@ == applied(a.stats@, damage_view(a.incoming_damage@))
    &&& b.incoming_damage@ == Map::<int, IncomingDamage>::empty()
    &&& b.log.lines() == a.log.lines() + damage_reports(
        a.next_id as nat,
        a.stats@,
        damage_view(a.incoming_damage@),
        a.names@,
    )
    &&& b.positions@ == a.positions@
    &&& b.viewsheds@ == a.viewsheds@
    &&& b.melee_intents@ == a.melee_intents@
    &&& b.level == a.level
    &&& b.player_pos == a.player_pos
    &&& b.status == a.status
}

/// Indexing, combat resolution and damage application, in this order, take
/// `a` to `d`.
pub open spec fn resolved(a: &World, d: &World) -> bool {
    exists|b: World, c: World| #[trigger] indexed(a, &b) && #[trigger] fought(&b, &c) && hurt(&c, d)
}

/// Setting the status to `next` and then sweeping the dead takes `a` to `b`.
pub open spec fn ended(a: &World, next: GameStatus, b: &World) -> bool {
    &&& a.pruned(doomed(a.stats@, a.names@, a.players@), b)
    &&& b.level == a.level
    &&& b.player_pos == a.player_pos
    &&& b.player == a.player
    &&& b.status == next
    &&& b.log.lines() == a.log.lines() + death_reports(
        a.next_id as nat,
        a.stats@,
        a.names@,
        a.players@,
    )
}

/// A step of the player by `(dx, dy)` takes `a` to `b`.
pub open spec fn moved(a: &World, dx: int, dy: int, b: &World) -> bool {
    &&& same_cast(a, b)
    &&& b.log == a.log
    &&& b.level == a.level
    &&& b.status == a.status
    &&& b.stats@ == a.stats@
    &&& b.incoming_damage@ == a.incoming_damage@
    &&& match planned_move(a, dx, dy) {
        PlayerMove::Nothing => {
            &&& b.positions@ == a.positions@
            &&& b.viewsheds@ == a.viewsheds@
            &&& b.melee_intents@ == a.melee_intents@
            &&& b.player_pos == a.player_pos
        },
        PlayerMove::Attack(foe) => {
            &&& b.positions@ == a.positions@
            &&& b.viewsheds@ == a.viewsheds@
            &&& b.melee_intents@ == a.melee_intents@.insert(
                a.player.id as int,
                MeleeAttackIntent { target: foe },
            )
            &&& b.player_pos == a.player_pos
        },
        PlayerMove::Step(place) => {
            &&& b.positions@ == a.positions@.insert(a.player.id as int, place)
            &&& marked_stale(a.viewsheds@, a.player.id as int, b.viewsheds@)
            &&& b.melee_intents@ == a.melee_intents@
            &&& b.player_pos == (Coord { x: place.x, y: place.y })
        },
    }
}

/// The turn is at rest: no damage is pending, and nobody is left for the
/// sweep to destroy.
pub open spec fn settled(w: &World) -> bool {
    &&& w.incoming_damage@ == Map::<int, IncomingDamage>::empty()
    &&& forall|k: int| !#[trigger] is_doomed(k, w.stats@, w.names@, w.players@)
}

/// The player's entity is marked as a player and has stats.
pub open spec fn has_player(w: &World) -> bool {
    &&& w.players@.contains_key(w.player.id as int)
    &&& w.stats@.contains_key(w.player.id as int)
}

/// The most that one blow can take off an entity with this defense.
pub open spec fn worst_blow(defense: int) -> int {
    if defense < 0xffff {
        0xffff - defense
    } else {
        0
    }
}

/// Every entity's hit points can take a worst blow from every entity there
/// is and still be held by its `hp` field. This is what keeps the one
/// subtraction of a turn in range, whoever attacks whom.
pub open spec fn headroom(w: &World) -> bool {
    forall|k: int| #[trigger]
        w.stats@.contains_key(k) ==> w.stats@[k].hp - w.next_id * worst_blow(
            w.stats@[k].defense as int,
        ) >= i32::MIN
}

/// The hits that land on `v` are positive, and together no more than a worst
/// blow from every attacker there can be.
pub proof fn lemma_hits_bounded(
    v: int,
    bound: nat,
    cap: nat,
    intents: Map<int, MeleeAttackIntent>,
    names: Map<int, GameplayName>,
    stats: Map<int, CombatStats>,
)
    requires
        stats.contains_key(v),
        worst_blow(stats[v].defense as int) <= i32::MAX,
        forall|a: int| #[trigger] intents.contains_key(a) ==> 0 <= a < cap,
    ensures
        0 <= total(hits_on(v, bound, intents, names, stats)) <= (if bound <= cap {
            bound
        } else {
            cap
        }) * worst_blow(stats[v].defense as int),
    decreases bound,
{
    let worst = worst_blow(stats[v].defense as int);
    if bound > 0 {
        let a = bound - 1;
        let before = hits_on(v, a as nat, intents, names, stats);
        lemma_hits_bounded(v, a as nat, cap, intents, names, stats);
        let lower = if a <= cap {
            a
        } else {
            cap as int
        };
        let upper = if bound <= cap {
            bound
        } else {
            cap
        };
        if strikes(a, intents, names, stats) && victim_of(a, intents) == v && blow(a, intents, stats)
            > 0 {
            let amount = blow(a, intents, stats);
            assert(amount <= worst);
            assert(a < cap);
            crate::components::combat::lemma_total_push(before, amount as i32);
            assert(lower * worst + worst == (lower + 1) * worst) by (nonlinear_arith);
        } else {
            assert(lower * worst <= upper * worst) by (nonlinear_arith)
                requires
                    lower <= upper,
                    worst >= 0,
            ;
        }
    } else {
        assert(0 * worst == 0) by (nonlinear_arith);
    }
}

} // verus!
