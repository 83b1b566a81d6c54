use crate::storage::{Entity, Storage};
use vstd::prelude::*;

verus! {

/// How much an entity can take and deal. `hp` may drop to zero or below:
/// death is judged once, after all damage of a turn has been applied.
#[derive(PartialEq, Eq, Structural, Clone, Copy, Debug)]
pub struct CombatStats {
    pub max_hp: u16,
    pub hp: i32,
    pub defense: i32,
    pub power: u16,
}

/// The wish to strike `target` this turn.
#[derive(PartialEq, Eq, Structural, Clone, Copy, Debug)]
pub struct MeleeAttackIntent {
    pub target: Entity,
}

/// Damage received this turn and not yet applied, in the order it was
/// dealt. An amount may be negative, which heals.
#[derive(Debug)]
pub struct IncomingDamage {
    pub amount: Vec<i32>,
}

/// The damage of one blow: the attacker's power less the victim's defense,
/// and never below zero.
pub open spec fn melee_damage_of(power: int, defense: int) -> int {
    if power > defense {
        power - defense
    } else {
        0
    }
}

/// Computes `melee_damage_of`.
pub fn melee_damage(power: u16, defense: i32) -> (damage: i64)
    ensures
        damage == melee_damage_of(power as int, defense as int),
        0 <= damage,
{
    let difference: i64 = power as i64 - defense as i64;
    if difference > 0 {
        difference
    } else {
        0
    }
}

/// The sum of a list of amounts.
pub open spec fn total(amounts: Seq<i32>) -> int
    decreases amounts.len(),
{
    if amounts.len() == 0 {
        0
    } else {
        total(amounts.drop_last()) + amounts.last()
    }
}

/// Adding an amount to a list adds it to the total.
pub proof fn lemma_total_push(amounts: Seq<i32>, amount: i32)
    ensures
        total(amounts.push(amount)) == total(amounts) + amount,
{
    assert(amounts.push(amount).drop_last() =~= amounts);
}

/// The pending amounts in a table, entity by entity.
pub open spec fn damage_view(damages: Map<int, IncomingDamage>) -> Map<int, Seq<i32>> {
    Map::new(|k: int| damages.contains_key(k), |k: int| damages[k].amount@)
}

/// The amounts pending for one entity: none where it has no record.
pub open spec fn pending(damages: Map<int, Seq<i32>>, id: int) -> Seq<i32> {
    if damages.contains_key(id) {
        damages[id]
    } else {
        Seq::empty()
    }
}

impl IncomingDamage {
    /// Records `amount` against `victim`: appended to its pending damage,
    /// which is created if there was none.
    pub fn new(store: &mut Storage<IncomingDamage>, victim: Entity, amount: i32)
        requires
            victim.id < usize::MAX,
        ensures
            damage_view(final(store)@) == damage_view(old(store)@).insert(
                victim.id as int,
                pending(damage_view(old(store)@), victim.id as int).push(amount),
            ),
            final(store).span() == if old(store).span() > victim.id {
                old(store).span()
            } else {
                (victim.id + 1) as nat
            },
    {
        let mut record = match store.remove(victim) {
            Some(record) => record,
            None => IncomingDamage { amount: Vec::new() },
        };
        record.amount.push(amount);
        store.insert(victim, record);
        assert(damage_view(store@) =~= damage_view(old(store)@).insert(
            victim.id as int,
            pending(damage_view(old(store)@), victim.id as int).push(amount),
        ));
    }

    /// The sum of the pending amounts.
    pub fn sum(&self) -> (s: i128)
        ensures
            s == total(self.amount@),
            -0x8000_0000_0000_0000_0000_0000 <= s <= 0x8000_0000_0000_0000_0000_0000,
    {
        let mut s: i128 = 0;
        let mut i: usize = 0;
        while i < self.amount.len()
            invariant
                i <= self.amount@.len(),
                s == total(self.amount@.take(i as int)),
                -(i as int) * 0x8000_0000 <= s <= (i as int) * 0x8000_0000,
            decreases self.amount@.len() - i,
        {
            proof {
                assert(self.amount@.take(i + 1) =~= self.amount@.take(i as int).push(
                    self.amount@[i as int],
                ));
                lemma_total_push(self.amount@.take(i as int), self.amount@[i as int]);
            }
            s = s + self.amount[i] as i128;
            i += 1;
        }
        assert(self.amount@.take(i as int) =~= self.amount@);
        assert(-0x8000_0000_0000_0000_0000_0000 <= s <= 0x8000_0000_0000_0000_0000_0000)
            by (nonlinear_arith)
            requires
                -(i as int) * 0x8000_0000 <= s <= (i as int) * 0x8000_0000,
                0 <= i <= 0xffff_ffff_ffff_ffff,
        ;
        s
    }
}

} // verus!
