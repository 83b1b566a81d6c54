use crate::components::combat::{damage_view, total};
use crate::components::{CombatStats, GameplayName, IncomingDamage};
use crate::game_log::GameLog;
use crate::storage::{Entity, Storage};
use crate::text::{damage_message, damage_text};
use vstd::prelude::*;

verus! {

/// `k` has both stats and pending damage.
pub open spec fn suffers(k: int, stats: Map<int, CombatStats>, damages: Map<int, Seq<i32>>) -> bool {
    stats.contains_key(k) && damages.contains_key(k)
}

/// The hit points of `k` once its pending damage is taken off. There is no
/// floor: the result may be zero or negative.
pub open spec fn hp_after(k: int, stats: Map<int, CombatStats>, damages: Map<int, Seq<i32>>) -> int {
    stats[k].hp - total(damages[k])
}

/// Every sufferer's new hit points fit its `hp` field.
pub open spec fn can_apply(stats: Map<int, CombatStats>, damages: Map<int, Seq<i32>>) -> bool {
    forall|k: int| #[trigger]
        suffers(k, stats, damages) ==> i32::MIN <= hp_after(k, stats, damages) <= i32::MAX
}

/// The stats after all pending damage has been applied.
pub open spec fn applied(stats: Map<int, CombatStats>, damages: Map<int, Seq<i32>>) -> Map<
    int,
    CombatStats,
> {
    Map::new(
        |k: int| stats.contains_key(k),
        |k: int|
            if damages.contains_key(k) {
                CombatStats {
                    max_hp: stats[k].max_hp,
                    hp: hp_after(k, stats, damages) as i32,
                    defense: stats[k].defense,
                    power: stats[k].power,
                }
            } else {
                stats[k]
            },
    )
}

/// The reports on the named sufferers with ids below `bound`, in ascending
/// order.
pub open spec fn damage_reports(
    bound: nat,
    stats: Map<int, CombatStats>,
    damages: Map<int, Seq<i32>>,
    names: Map<int, GameplayName>,
) -> Seq<Seq<char>>
    decreases bound,
{
    if bound == 0 {
        Seq::empty()
    } else {
        let k = bound - 1;
        let before = damage_reports(k as nat, stats, damages, names);
        if suffers(k, stats, damages) && names.contains_key(k) {
            before.push(
                damage_text(
                    names[k].name@,
                    hp_after(k, stats, damages),
                    stats[k].max_hp as int,
                    total(damages[k]),
                ),
            )
        } else {
            before
        }
    }
}

/// Past the last entity with stats, a higher bound finds no further report.
proof fn lemma_damage_reports_stable(
    low: nat,
    high: nat,
    stats: Map<int, CombatStats>,
    damages: Map<int, Seq<i32>>,
    names: Map<int, GameplayName>,
)
    requires
        low <= high,
        forall|k: int| low <= k ==> !stats.contains_key(k),
    ensures
        damage_reports(high, stats, damages, names) == damage_reports(low, stats, damages, names),
    decreases high,
{
    if high > low {
        lemma_damage_reports_stable(low, (high - 1) as nat, stats, damages, names);
    }
}

/// The reports are the same under every bound above the ids that have stats.
pub proof fn lemma_damage_reports_bound(
    first: nat,
    second: nat,
    stats: Map<int, CombatStats>,
    damages: Map<int, Seq<i32>>,
    names: Map<int, GameplayName>,
)
    requires
        forall|k: int| #[trigger] stats.contains_key(k) ==> k < first && k < second,
    ensures
        damage_reports(first, stats, damages, names) == damage_reports(second, stats, damages, names),
{
    let low = if first <= second {
        first
    } else {
        second
    };
    lemma_damage_reports_stable(low, first, stats, damages, names);
    lemma_damage_reports_stable(low, second, stats, damages, names);
}

/// Applies pending damage to hit points.
pub struct DamageSystem {}

impl DamageSystem {
    /// Decides `can_apply`.
    pub fn can_run(all_stats: &Storage<CombatStats>, damages: &Storage<IncomingDamage>) -> (ok:
        bool)
        ensures
            ok == can_apply(all_stats@, damage_view(damages@)),
    {
        let bound: usize = all_stats.len();
        let mut i: usize = 0;
        proof {
            all_stats.lemma_keys_below_span();
        }
        while i < bound
            invariant
                bound == all_stats.span(),
                i <= bound,
                forall|k: int|
                    0 <= k < i && #[trigger] suffers(k, all_stats@, damage_view(damages@))
                        ==> i32::MIN <= hp_after(k, all_stats@, damage_view(damages@))
                        <= i32::MAX,
            decreases bound - i,
        {
            let ent = Entity { id: i };
            if let Some(stats) = all_stats.get(ent) {
                if let Some(dmg) = damages.get(ent) {
                    assert(suffers(i as int, all_stats@, damage_view(damages@)));
                    let after: i128 = stats.hp as i128 - dmg.sum();
                    if after < -0x8000_0000 || after > 0x7fff_ffff {
                        return false;
                    }
                }
            }
            i += 1;
        }
        true
    }

    /// Takes each entity's pending damage off its hit points in one
    /// subtraction, reports the new state of those that have a name, in
    /// ascending order, and then drops all pending damage.
    pub fn run(
        &mut self,
        all_stats: &mut Storage<CombatStats>,
        damages: &mut Storage<IncomingDamage>,
        gnames: &Storage<GameplayName>,
        log: &mut GameLog,
    )
        requires
            can_apply(old(all_stats)@, damage_view(old(damages)@)),
        ensures
            final(all_stats)@ == applied(old(all_stats)@, damage_view(old(damages)@)),
            final(damages)@ == Map::<int, IncomingDamage>::empty(),
            final(log).lines() == old(log).lines() + damage_reports(
                old(all_stats).span(),
                old(all_stats)@,
                damage_view(old(damages)@),
                gnames@,
            ),
    {
        let bound: usize = all_stats.len();
        let mut i: usize = 0;
        let ghost stats0 = all_stats@;
        let ghost dv = damage_view(damages@);
        proof {
            all_stats.lemma_keys_below_span();
            assert(log.lines() =~= old(log).lines() + damage_reports(0, stats0, dv, gnames@));
        }
        while i < bound
            invariant
                bound == old(all_stats).span(),
                i <= bound,
                stats0 == old(all_stats)@,
                dv == damage_view(damages@),
                damages@ == old(damages)@,
                can_apply(stats0, dv),
                forall|k: int| #[trigger] stats0.contains_key(k) ==> 0 <= k < bound,
                all_stats@.dom() == stats0.dom(),
                forall|k: int|
                    #[trigger] stats0.contains_key(k) ==> all_stats@[k] == if k < i {
                        applied(stats0, dv)[k]
                    } else {
                        stats0[k]
                    },
                log.lines() == old(log).lines() + damage_reports(i as nat, stats0, dv, gnames@),
            decreases bound - i,
        {
            let ent = Entity { id: i };
            let ghost stats_before = all_stats@;
            let current: Option<CombatStats> = match all_stats.get(ent) {
                Some(stats) => Some(*stats),
                None => None,
            };
            if let Some(stats) = current {
                if let Some(dmg) = damages.get(ent) {
                    assert(suffers(i as int, stats0, dv));
                    let dmg_amount: i128 = dmg.sum();
                    let after: i128 = stats.hp as i128 - dmg_amount;
                    let updated = CombatStats {
                        max_hp: stats.max_hp,
                        hp: after as i32,
                        defense: stats.defense,
                        power: stats.power,
                    };
                    all_stats.insert(ent, updated);
                    if let Some(name) = gnames.get(ent) {
                        log.log(
                            damage_message(
                                name.name.as_str(),
                                after,
                                stats.max_hp as i128,
                                dmg_amount,
                            ),
                        );
                    }
                    assert(all_stats@.dom() =~= stats0.dom());
                }
            }
            proof {
                assert(log.lines() =~= old(log).lines() + damage_reports(
                    (i + 1) as nat,
                    stats0,
                    dv,
                    gnames@,
                ));
            }
            i += 1;
        }
        damages.clear();
        assert(all_stats@ =~= applied(stats0, dv));
    }
}

} // verus!
