use crate::components::combat::{damage_view, melee_damage, melee_damage_of, pending};
use crate::components::{CombatStats, GameplayName, IncomingDamage, MeleeAttackIntent};
use crate::game_log::GameLog;
use crate::storage::{Entity, Storage};
use crate::text::{hit_message, hit_text, no_effect_message, no_effect_text};
use vstd::prelude::*;

verus! {

/// `a` takes part in the fight: it holds an intent, has a name and stats,
/// and is alive.
pub open spec fn is_attacker(
    a: int,
    intents: Map<int, MeleeAttackIntent>,
    names: Map<int, GameplayName>,
    stats: Map<int, CombatStats>,
) -> bool {
    &&& intents.contains_key(a)
    &&& names.contains_key(a)
    &&& stats.contains_key(a)
    &&& stats[a].hp > 0
}

/// The id of the entity that `a` aims at.
pub open spec fn victim_of(a: int, intents: Map<int, MeleeAttackIntent>) -> int {
    intents[a].target.id as int
}

/// `a` delivers its blow: it takes part and its victim is alive.
pub open spec fn strikes(
    a: int,
    intents: Map<int, MeleeAttackIntent>,
    names: Map<int, GameplayName>,
    stats: Map<int, CombatStats>,
) -> bool {
    &&& is_attacker(a, intents, names, stats)
    &&& stats.contains_key(victim_of(a, intents))
    &&& stats[victim_of(a, intents)].hp > 0
}

/// The damage of the blow of `a`.
pub open spec fn blow(
    a: int,
    intents: Map<int, MeleeAttackIntent>,
    stats: Map<int, CombatStats>,
) -> int {
    melee_damage_of(stats[a].power as int, stats[victim_of(a, intents)].defense as int)
}

/// What the fight presupposes: whoever takes part aims at an entity with
/// stats, and where that victim is alive it has a name and the blow is an
/// amount that the pending damage can hold.
pub open spec fn can_resolve(
    intents: Map<int, MeleeAttackIntent>,
    names: Map<int, GameplayName>,
    stats: Map<int, CombatStats>,
) -> bool {
    forall|a: int| #[trigger]
        is_attacker(a, intents, names, stats) ==> {
            &&& stats.contains_key(victim_of(a, intents))
            &&& stats[victim_of(a, intents)].hp > 0 ==> {
                &&& names.contains_key(victim_of(a, intents))
                &&& blow(a, intents, stats) <= i32::MAX
            }
        }
}

/// The damage that lands on `v` from the attackers with ids below `bound`, in
/// ascending order of attacker. A blow of zero leaves nothing.
pub open spec fn hits_on(
    v: int,
    bound: nat,
    intents: Map<int, MeleeAttackIntent>,
    names: Map<int, GameplayName>,
    stats: Map<int, CombatStats>,
) -> Seq<i32>
    decreases bound,
{
    if bound == 0 {
        Seq::empty()
    } else {
        let a = bound - 1;
        let before = hits_on(v, a as nat, intents, names, stats);
        if strikes(a, intents, names, stats) && victim_of(a, intents) == v && blow(
            a,
            intents,
            stats,
        ) > 0 {
            before.push(blow(a, intents, stats) as i32)
        } else {
            before
        }
    }
}

/// The pending damage after the attackers below `bound` have struck: each
/// victim's hits are appended to what it had, and a record appears only
/// where a hit landed.
pub open spec fn struck(
    damages: Map<int, Seq<i32>>,
    bound: nat,
    intents: Map<int, MeleeAttackIntent>,
    names: Map<int, GameplayName>,
    stats: Map<int, CombatStats>,
) -> Map<int, Seq<i32>> {
    Map::new(
        |v: int| damages.contains_key(v) || hits_on(v, bound, intents, names, stats).len() > 0,
        |v: int| pending(damages, v) + hits_on(v, bound, intents, names, stats),
    )
}

/// What is reported of the blow of `a`.
pub open spec fn blow_report(
    a: int,
    intents: Map<int, MeleeAttackIntent>,
    names: Map<int, GameplayName>,
    stats: Map<int, CombatStats>,
) -> Seq<char> {
    if blow(a, intents, stats) == 0 {
        no_effect_text(names[a].name@, names[victim_of(a, intents)].name@)
    } else {
        hit_text(names[a].name@, names[victim_of(a, intents)].name@, blow(a, intents, stats))
    }
}

/// The reports of the blows of the attackers below `bound`, in ascending
/// order of attacker.
pub open spec fn blow_reports(
    bound: nat,
    intents: Map<int, MeleeAttackIntent>,
    names: Map<int, GameplayName>,
    stats: Map<int, CombatStats>,
) -> Seq<Seq<char>>
    decreases bound,
{
    if bound == 0 {
        Seq::empty()
    } else {
        let a = bound - 1;
        let before = blow_reports(a as nat, intents, names, stats);
        if strikes(a, intents, names, stats) {
            before.push(blow_report(a, intents, names, stats))
        } else {
            before
        }
    }
}

/// Past the last intent, a higher bound finds no further hit.
proof fn lemma_hits_on_stable(
    v: int,
    low: nat,
    high: nat,
    intents: Map<int, MeleeAttackIntent>,
    names: Map<int, GameplayName>,
    stats: Map<int, CombatStats>,
)
    requires
        low <= high,
        forall|a: int| low <= a ==> !intents.contains_key(a),
    ensures
        hits_on(v, high, intents, names, stats) == hits_on(v, low, intents, names, stats),
    decreases high,
{
    if high > low {
        lemma_hits_on_stable(v, low, (high - 1) as nat, intents, names, stats);
    }
}

/// Past the last intent, a higher bound finds no further report.
proof fn lemma_blow_reports_stable(
    low: nat,
    high: nat,
    intents: Map<int, MeleeAttackIntent>,
    names: Map<int, GameplayName>,
    stats: Map<int, CombatStats>,
)
    requires
        low <= high,
        forall|a: int| low <= a ==> !intents.contains_key(a),
    ensures
        blow_reports(high, intents, names, stats) == blow_reports(low, intents, names, stats),
    decreases high,
{
    if high > low {
        lemma_blow_reports_stable(low, (high - 1) as nat, intents, names, stats);
    }
}

/// The hits on `v` are the same under every bound above the ids that hold an intent.
pub proof fn lemma_hits_on_bound(
    v: int,
    first: nat,
    second: nat,
    intents: Map<int, MeleeAttackIntent>,
    names: Map<int, GameplayName>,
    stats: Map<int, CombatStats>,
)
    requires
        forall|k: int| #[trigger] intents.contains_key(k) ==> k < first && k < second,
    ensures
        hits_on(v, first, intents, names, stats) == hits_on(v, second, intents, names, stats),
{
    let low = if first <= second {
        first
    } else {
        second
    };
    lemma_hits_on_stable(v, low, first, intents, names, stats);
    lemma_hits_on_stable(v, low, second, intents, names, stats);
}

/// The reports are the same under every bound above the ids that hold an intent.
pub proof fn lemma_blow_reports_bound(
    first: nat,
    second: nat,
    intents: Map<int, MeleeAttackIntent>,
    names: Map<int, GameplayName>,
    stats: Map<int, CombatStats>,
)
    requires
        forall|k: int| #[trigger] intents.contains_key(k) ==> k < first && k < second,
    ensures
        blow_reports(first, intents, names, stats) == blow_reports(second, intents, names, stats),
{
    let low = if first <= second {
        first
    } else {
        second
    };
    lemma_blow_reports_stable(low, first, intents, names, stats);
    lemma_blow_reports_stable(low, second, intents, names, stats);
}

/// Turns attack intents into pending damage.
pub struct MeleeCombatSystem {}

impl MeleeCombatSystem {
    /// Decides `can_resolve`.
    pub fn can_run(
        melee_attkrs: &Storage<MeleeAttackIntent>,
        gnames: &Storage<GameplayName>,
        cstats: &Storage<CombatStats>,
    ) -> (ok: bool)
        ensures
            ok == can_resolve(melee_attkrs@, gnames@, cstats@),
    {
        let bound: usize = melee_attkrs.len();
        let mut i: usize = 0;
        proof {
            melee_attkrs.lemma_keys_below_span();
        }
        while i < bound
            invariant
                bound == melee_attkrs.span(),
                i <= bound,
                forall|a: int|
                    0 <= a < i && #[trigger] is_attacker(a, melee_attkrs@, gnames@, cstats@) ==> {
                        &&& cstats@.contains_key(victim_of(a, melee_attkrs@))
                        &&& cstats@[victim_of(a, melee_attkrs@)].hp > 0 ==> {
                            &&& gnames@.contains_key(victim_of(a, melee_attkrs@))
                            &&& blow(a, melee_attkrs@, cstats@) <= i32::MAX
                        }
                    },
            decreases bound - i,
        {
            let ent = Entity { id: i };
            if let Some(intent) = melee_attkrs.get(ent) {
                if gnames.contains(ent) {
                    if let Some(attacker_stats) = cstats.get(ent) {
                        if attacker_stats.hp > 0 {
                            assert(is_attacker(i as int, melee_attkrs@, gnames@, cstats@));
                            match cstats.get(intent.target) {
                                None => {
                                    return false;
                                },
                                Some(victim_stats) => {
                                    if victim_stats.hp > 0 {
                                        if !gnames.contains(intent.target) {
                                            return false;
                                        }
                                        let dmg = melee_damage(
                                            attacker_stats.power,
                                            victim_stats.defense,
                                        );
                                        if dmg > 0x7fff_ffff {
                                            return false;
                                        }
                                    }
                                },
                            }
                        }
                    }
                }
            }
            i += 1;
        }
        true
    }

    /// Resolves every attack intent, in ascending order of attacker, and then
    /// drops all intents whether or not they led to a blow. An attacker that
    /// is dead does nothing and a dead victim is left alone. A blow of zero
    /// is reported as having no effect and leaves no pending damage; any
    /// other is appended to the victim's pending damage and reported.
    pub fn run(
        &mut self,
        melee_attkrs: &mut Storage<MeleeAttackIntent>,
        gnames: &Storage<GameplayName>,
        cstats: &Storage<CombatStats>,
        inc_dmg: &mut Storage<IncomingDamage>,
        log: &mut GameLog,
    )
        requires
            can_resolve(old(melee_attkrs)@, gnames@, cstats@),
        ensures
            final(melee_attkrs)@ == Map::<int, MeleeAttackIntent>::empty(),
            damage_view(final(inc_dmg)@) == struck(
                damage_view(old(inc_dmg)@),
                old(melee_attkrs).span(),
                old(melee_attkrs)@,
                gnames@,
                cstats@,
            ),
            final(log).lines() == old(log).lines() + blow_reports(
                old(melee_attkrs).span(),
                old(melee_attkrs)@,
                gnames@,
                cstats@,
            ),
    {
        let bound: usize = melee_attkrs.len();
        let mut i: usize = 0;
        proof {
            melee_attkrs.lemma_keys_below_span();
            cstats.lemma_keys_below_span();
            assert(damage_view(inc_dmg@) =~= struck(
                damage_view(old(inc_dmg)@),
                0,
                melee_attkrs@,
                gnames@,
                cstats@,
            ));
            assert(log.lines() =~= old(log).lines() + blow_reports(
                0,
                melee_attkrs@,
                gnames@,
                cstats@,
            ));
        }
        while i < bound
            invariant
                bound == melee_attkrs.span(),
                i <= bound,
                melee_attkrs@ == old(melee_attkrs)@,
                melee_attkrs.span() == old(melee_attkrs).span(),
                can_resolve(melee_attkrs@, gnames@, cstats@),
                forall|k: int| #[trigger] cstats@.contains_key(k) ==> 0 <= k < cstats.span(),
                cstats.span() <= usize::MAX,
                damage_view(inc_dmg@) == struck(
                    damage_view(old(inc_dmg)@),
                    i as nat,
                    melee_attkrs@,
                    gnames@,
                    cstats@,
                ),
                log.lines() == old(log).lines() + blow_reports(
                    i as nat,
                    melee_attkrs@,
                    gnames@,
                    cstats@,
                ),
            decreases bound - i,
        {
            let ent = Entity { id: i };
            let ghost dv_before = damage_view(inc_dmg@);
            let ghost lines_before = log.lines();
            let mut landed: bool = false;
            if let Some(intent) = melee_attkrs.get(ent) {
                if let Some(attacker_name) = gnames.get(ent) {
                    if let Some(attacker_stats) = cstats.get(ent) {
                        if attacker_stats.hp > 0 {
                            assert(is_attacker(i as int, melee_attkrs@, gnames@, cstats@));
                            let victim_ent = intent.target;
                            if let Some(victim_stats) = cstats.get(victim_ent) {
                                if victim_stats.hp > 0 {
                                    if let Some(victim_name) = gnames.get(victim_ent) {
                                        let dmg = melee_damage(
                                            attacker_stats.power,
                                            victim_stats.defense,
                                        );
                                        if dmg == 0 {
                                            log.log(
                                                no_effect_message(
                                                    attacker_name.name.as_str(),
                                                    victim_name.name.as_str(),
                                                ),
                                            );
                                        } else {
                                            IncomingDamage::new(inc_dmg, victim_ent, dmg as i32);
                                            log.log(
                                                hit_message(
                                                    attacker_name.name.as_str(),
                                                    victim_name.name.as_str(),
                                                    dmg as i128,
                                                ),
                                            );
                                            landed = true;
                                        }
                                    }
                                }
                            }
                        }
                    }
                }
            }
            proof {
                let intents = melee_attkrs@;
                let a = i as int;
                let victim = victim_of(a, intents);
                let next = (i + 1) as nat;
                assert(landed <==> (strikes(a, intents, gnames@, cstats@) && blow(
                    a,
                    intents,
                    cstats@,
                ) > 0));
                assert forall|v: int|
                    hits_on(v, next, intents, gnames@, cstats@) == if landed && v == victim {
                        hits_on(v, i as nat, intents, gnames@, cstats@).push(
                            blow(a, intents, cstats@) as i32,
                        )
                    } else {
                        hits_on(v, i as nat, intents, gnames@, cstats@)
                    } by {}
                if landed {
                    assert(damage_view(inc_dmg@) == dv_before.insert(
                        victim,
                        pending(dv_before, victim).push(blow(a, intents, cstats@) as i32),
                    ));
                    assert forall|v: int|
                        pending(damage_view(old(inc_dmg)@), v) + hits_on(
                            v,
                            next,
                            intents,
                            gnames@,
                            cstats@,
                        ) == if v == victim {
                            pending(dv_before, victim).push(blow(a, intents, cstats@) as i32)
                        } else {
                            pending(damage_view(old(inc_dmg)@), v) + hits_on(
                                v,
                                i as nat,
                                intents,
                                gnames@,
                                cstats@,
                            )
                        } by {
                        if v == victim {
                            assert(pending(damage_view(old(inc_dmg)@), v) + hits_on(
                                v,
                                i as nat,
                                intents,
                                gnames@,
                                cstats@,
                            ).push(blow(a, intents, cstats@) as i32) =~= (pending(
                                damage_view(old(inc_dmg)@),
                                v,
                            ) + hits_on(v, i as nat, intents, gnames@, cstats@)).push(
                                blow(a, intents, cstats@) as i32,
                            ));
                        }
                    }
                }
                assert(damage_view(inc_dmg@) =~= struck(
                    damage_view(old(inc_dmg)@),
                    next,
                    intents,
                    gnames@,
                    cstats@,
                ));
                assert(log.lines() =~= old(log).lines() + blow_reports(
                    next,
                    intents,
                    gnames@,
                    cstats@,
                ));
            }
            i += 1;
        }
        melee_attkrs.clear();
    }
}

} // verus!
