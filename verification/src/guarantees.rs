//! What holds of every turn, proved from the contracts of the phases.
use crate::components::combat::{melee_damage_of, pending, total};
use crate::components::{
    CombatStats, GameplayName, IncomingDamage, MeleeAttackIntent, MonsterChar, PlayerChar,
    Position, TileBlocker, Viewshed,
};
use crate::game_state::{continued, death_reports, input_applied, is_dead, GameStatus, Key};
use crate::geometry::within_reach;
use crate::level::Level;
use crate::systems::damage_system::{applied, can_apply, suffers};
use crate::systems::map_indexing_system::charted;
use crate::systems::melee_combat_system::{blow, hits_on, strikes, struck, victim_of};
use crate::systems::monster_ai_system::{attacks, seeks, MonsterStep};
use crate::text::player_death_text;
use crate::turn::{ended, fought, hurt, indexed, moved, resolved, saw, thought, walked};
use crate::world::World;
use vstd::prelude::*;

verus! {

/// Damage floor: for every power and defense the damage of a blow is their
/// difference where that is positive and zero where it is not.
pub proof fn lemma_damage_floor(power: int, defense: int)
    ensures
        melee_damage_of(power, defense) >= 0,
        melee_damage_of(power, defense) >= power - defense,
        melee_damage_of(power, defense) == 0 || melee_damage_of(power, defense) == power - defense,
{
}

/// A victim on whom only blows of zero fall gets no hit, and so no record of
/// pending damage where it had none.
pub proof fn lemma_harmless_blows_leave_no_record(
    v: int,
    bound: nat,
    damages: Map<int, Seq<i32>>,
    intents: Map<int, MeleeAttackIntent>,
    names: Map<int, GameplayName>,
    stats: Map<int, CombatStats>,
)
    requires
        forall|a: int|
            #[trigger] strikes(a, intents, names, stats) && victim_of(a, intents) == v ==> blow(
                a,
                intents,
                stats,
            ) == 0,
    ensures
        hits_on(v, bound, intents, names, stats) == Seq::<i32>::empty(),
        struck(damages, bound, intents, names, stats).contains_key(v) == damages.contains_key(v),
        pending(struck(damages, bound, intents, names, stats), v) == pending(damages, v),
    decreases bound,
{
    if bound > 0 {
        lemma_harmless_blows_leave_no_record(
            v,
            (bound - 1) as nat,
            damages,
            intents,
            names,
            stats,
        );
    }
    assert(pending(damages, v) + Seq::<i32>::empty() =~= pending(damages, v));
}

/// Accumulation: the total of what was pending and of what was dealt since
/// is the sum of the two totals, so that the one subtraction takes off all
/// of it.
pub proof fn lemma_damage_accumulates(pending_before: Seq<i32>, dealt: Seq<i32>)
    ensures
        total(pending_before + dealt) == total(pending_before) + total(dealt),
    decreases dealt.len(),
{
    if dealt.len() == 0 {
        assert(pending_before + dealt =~= pending_before);
    } else {
        lemma_damage_accumulates(pending_before, dealt.drop_last());
        assert((pending_before + dealt).drop_last() =~= pending_before + dealt.drop_last());
    }
}

/// Accumulation, for two blows: an entity that two blows have fallen on
/// loses their sum, in one step.
pub proof fn lemma_two_blows_are_taken_off_together(
    k: int,
    first: i32,
    second: i32,
    stats: Map<int, CombatStats>,
    damages: Map<int, Seq<i32>>,
)
    requires
        stats.contains_key(k),
        damages.contains_key(k),
        damages[k] == seq![first, second],
        can_apply(stats, damages),
    ensures
        applied(stats, damages)[k].hp == stats[k].hp - (first + second),
{
    assert(suffers(k, stats, damages));
    let none = Seq::<i32>::empty();
    assert(total(none) == 0);
    crate::components::combat::lemma_total_push(none, first);
    crate::components::combat::lemma_total_push(none.push(first), second);
    assert(none.push(first).push(second) =~= seq![first, second]);
}

/// Transient clearing: once the systems have run to their end, no entity
/// holds an attack intent or pending damage, whether or not either came to
/// anything.
pub proof fn lemma_turn_clears_transients(b: &World, from: usize, z: &World, to: usize)
    requires
        continued(b, from, MonsterStep::Finished, z, to),
    ensures
        z.melee_intents@ == Map::<int, MeleeAttackIntent>::empty(),
        z.incoming_damage@ == Map::<int, IncomingDamage>::empty(),
{
    let (c, d) = choose|c: World, d: World|
        #[trigger] thought(b, from, &c, to, MonsterStep::Finished) && #[trigger] resolved(&c, &d)
            && ended(&d, crate::game_state::status_after(b.status, None), z);
    let (e, f) = choose|e: World, f: World|
        #[trigger] indexed(&c, &e) && #[trigger] fought(&e, &f) && hurt(&f, &d);
    assert(z.melee_intents@ =~= Map::<int, MeleeAttackIntent>::empty());
    assert(z.incoming_damage@ =~= Map::<int, IncomingDamage>::empty());
}

/// Visibility monotonicity, for the visibility pass: what the map keeps as
/// revealed only grows.
pub proof fn lemma_looking_keeps_what_was_revealed(a: &World, b: &World)
    requires
        saw(a, b),
    ensures
        a.level.revealed().subset_of(b.level.revealed()),
{
}

/// Visibility monotonicity, for the rest of a turn: nothing after the
/// visibility pass touches what the map keeps as revealed or shows as
/// visible.
pub proof fn lemma_rest_of_turn_keeps_sight(
    b: &World,
    from: usize,
    step: MonsterStep,
    z: &World,
    to: usize,
)
    requires
        continued(b, from, step, z, to),
    ensures
        z.level.revealed() == b.level.revealed(),
        z.level.visible() == b.level.visible(),
{
    match step {
        MonsterStep::NeedPath { .. } => {},
        MonsterStep::Finished => {
            let (c, d) = choose|c: World, d: World|
                #[trigger] thought(b, from, &c, to, step) && #[trigger] resolved(&c, &d) && ended(
                    &d,
                    crate::game_state::status_after(b.status, None),
                    z,
                );
            let (e, f) = choose|e: World, f: World|
                #[trigger] indexed(&c, &e) && #[trigger] fought(&e, &f) && hurt(&f, &d);
        },
    }
}

/// Visibility monotonicity, for input and for a monster's step: neither
/// touches what the map keeps as revealed.
pub proof fn lemma_moves_keep_what_was_revealed(
    a: &World,
    key: Option<Key>,
    b: &World,
    from: usize,
    found: bool,
    steps: Seq<usize>,
    c: &World,
    to: usize,
)
    requires
        input_applied(a, key, b),
        walked(b, from, found, steps, c, to),
    ensures
        b.level.revealed() == a.level.revealed(),
        c.level.revealed() == b.level.revealed(),
{
}

/// Movement exclusivity, for monsters: an actor never both attacks and seeks
/// a path.
pub proof fn lemma_attack_excludes_seeking(
    id: int,
    player: (int, int),
    viewsheds: Map<int, Viewshed>,
    monsters: Map<int, MonsterChar>,
    names: Map<int, GameplayName>,
    positions: Map<int, Position>,
)
    ensures
        !(attacks(id, player, viewsheds, monsters, names, positions) && seeks(
            id,
            player,
            viewsheds,
            monsters,
            names,
            positions,
        )),
{
}

/// Movement exclusivity, for a stretch of the monsters' pass followed by a
/// step: while intents are declared nobody moves, and the one actor that
/// then moves has declared none, nor does its step touch any intent.
pub proof fn lemma_monster_attacks_or_moves(
    a: &World,
    from: usize,
    b: &World,
    to: usize,
    step: MonsterStep,
    found: bool,
    steps: Seq<usize>,
    c: &World,
    after: usize,
)
    requires
        a.status == GameStatus::MonsterTurn,
        thought(a, from, b, to, step),
        walked(b, to, found, steps, c, after),
    ensures
        b.positions@ == a.positions@,
        c.melee_intents@ == b.melee_intents@,
        forall|k: int|
            c.positions@.contains_key(k) && b.positions@.contains_key(k) && c.positions@[k]
                != b.positions@[k] ==> {
                &&& k == to
                &&& !attacks(
                    k,
                    a.player_pos.cell(),
                    a.viewsheds@,
                    a.monsters@,
                    a.names@,
                    a.positions@,
                )
                &&& b.melee_intents@.contains_key(k) == a.melee_intents@.contains_key(k)
                &&& a.melee_intents@.contains_key(k) ==> b.melee_intents@[k] == a.melee_intents@[k]
            },
{
}

/// A monster's step takes it to a tile of the map next to where it stood.
pub proof fn lemma_monster_steps_to_a_neighbour(
    a: &World,
    from: usize,
    found: bool,
    steps: Seq<usize>,
    b: &World,
    to: usize,
    k: int,
)
    requires
        walked(a, from, found, steps, b, to),
        a.positions@.contains_key(k),
    ensures
        b.positions@.contains_key(k),
        b.positions@[k] != a.positions@[k] ==> {
            &&& k == from
            &&& within_reach(b.positions@[k].cell(), a.positions@[k].cell())
            &&& a.level.in_bounds(b.positions@[k].x as int, b.positions@[k].y as int)
            &&& b.viewsheds@[k].is_dirty
        },
{
}

/// The player's step takes it by just what was asked for, onto a tile of the
/// map that is not blocked.
pub proof fn lemma_player_steps_as_asked(a: &World, dx: int, dy: int, b: &World)
    requires
        moved(a, dx, dy, b),
        a.positions@.contains_key(a.player.id as int),
    ensures
        b.positions@.contains_key(a.player.id as int),
        b.positions@[a.player.id as int] != a.positions@[a.player.id as int] ==> {
            &&& b.positions@[a.player.id as int].x == a.positions@[a.player.id as int].x + dx
            &&& b.positions@[a.player.id as int].y == a.positions@[a.player.id as int].y + dy
            &&& a.level.in_bounds(
                b.positions@[a.player.id as int].x as int,
                b.positions@[a.player.id as int].y as int,
            )
            &&& !a.level.blocked().contains(
                a.level.index_of(
                    b.positions@[a.player.id as int].x as int,
                    b.positions@[a.player.id as int].y as int,
                ) as usize,
            )
            &&& b.viewsheds@[a.player.id as int].is_dirty
        },
{
}

/// Movement exclusivity, for the player: a step that records an intent
/// leaves every position alone, and a step that changes a position leaves
/// every intent alone.
pub proof fn lemma_player_attacks_or_moves(a: &World, dx: int, dy: int, b: &World)
    requires
        moved(a, dx, dy, b),
    ensures
        b.melee_intents@ != a.melee_intents@ ==> b.positions@ == a.positions@ && b.player_pos
            == a.player_pos,
        b.positions@ != a.positions@ ==> b.melee_intents@ == a.melee_intents@,
{
}

/// Mortality: the sweep releases every component of each dead entity that
/// is no player, and leaves a dead player in the world as it is.
pub proof fn lemma_sweep_destroys_all_but_players(a: &World, next: GameStatus, b: &World, k: int)
    requires
        ended(a, next, b),
        is_dead(k, a.stats@, a.names@),
    ensures
        !a.players@.contains_key(k) ==> {
            &&& !b.positions@.contains_key(k)
            &&& !b.viewsheds@.contains_key(k)
            &&& !b.monsters@.contains_key(k)
            &&& !b.names@.contains_key(k)
            &&& !b.blockers@.contains_key(k)
            &&& !b.stats@.contains_key(k)
            &&& !b.melee_intents@.contains_key(k)
            &&& !b.incoming_damage@.contains_key(k)
            &&& !b.left_movers@.contains_key(k)
            &&& !b.items@.contains_key(k)
            &&& !b.healers@.contains_key(k)
        },
        a.players@.contains_key(k) ==> {
            &&& b.players@.contains_key(k)
            &&& b.stats@.contains_key(k)
            &&& b.stats@[k] == a.stats@[k]
            &&& b.stats@[k].hp < 1
            &&& b.names@.contains_key(k)
        },
{
}

/// The reports on the dead where the player `k` is the only one: none below
/// its id, and exactly one from there on.
pub proof fn lemma_lone_dead_player_reports(
    k: int,
    bound: nat,
    stats: Map<int, CombatStats>,
    names: Map<int, GameplayName>,
    players: Map<int, PlayerChar>,
)
    requires
        0 <= k,
        is_dead(k, stats, names),
        players.contains_key(k),
        forall|j: int| #[trigger] is_dead(j, stats, names) ==> j == k,
    ensures
        death_reports(bound, stats, names, players) == if k < bound {
            seq![player_death_text()]
        } else {
            Seq::<Seq<char>>::empty()
        },
    decreases bound,
{
    if bound > 0 {
        lemma_lone_dead_player_reports(k, (bound - 1) as nat, stats, names, players);
        if k == bound - 1 {
            assert(Seq::<Seq<char>>::empty().push(player_death_text()) =~= seq![
                player_death_text(),
            ]);
        }
    }
}

/// Mortality, for a dead player: where nobody else is dead, each sweep
/// reports the player's death exactly once and reports nothing else.
pub proof fn lemma_dead_player_is_reported_once(a: &World, next: GameStatus, b: &World)
    requires
        a.wf(),
        ended(a, next, b),
        is_dead(a.player.id as int, a.stats@, a.names@),
        a.players@.contains_key(a.player.id as int),
        forall|j: int| #[trigger] is_dead(j, a.stats@, a.names@) ==> j == a.player.id,
    ensures
        b.log.lines() == a.log.lines().push(player_death_text()),
{
    lemma_lone_dead_player_reports(
        a.player.id as int,
        a.next_id as nat,
        a.stats@,
        a.names@,
        a.players@,
    );
    assert(a.log.lines() + seq![player_death_text()] =~= a.log.lines().push(player_death_text()));
}

/// Indexing is idempotent: a second pass over the same positions and tile
/// blockers gives the same blocked tiles and the same occupant lists.
pub proof fn lemma_indexing_twice_is_indexing_once(
    first: &Level,
    second: &Level,
    third: &Level,
    positions: Map<int, Position>,
    bound: nat,
    blockers: Map<int, TileBlocker>,
)
    requires
        charted(first, positions, bound, blockers, second),
        charted(second, positions, bound, blockers, third),
    ensures
        third.blocked() == second.blocked(),
        third.content() == second.content(),
        third.same_terrain(second),
        third.same_sight(second),
{
    assert(third.walls() =~= second.walls());
    assert(third.content() =~= second.content());
}

} // verus!
