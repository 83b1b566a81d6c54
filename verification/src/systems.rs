//! The phases of a turn, each acting on the component tables it is handed.
pub mod damage_system;
pub mod map_indexing_system;
pub mod melee_combat_system;
pub mod monster_ai_system;
pub mod visibility_system;

pub use damage_system::DamageSystem;
pub use map_indexing_system::MapIndexingSystem;
pub use melee_combat_system::MeleeCombatSystem;
pub use monster_ai_system::{MonsterAISystem, MonsterStep};
pub use visibility_system::VisibilitySystem;

use crate::components::{LeftMover, Position};
use crate::storage::{Entity, Storage};
use vstd::prelude::*;

verus! {

/// Where a left mover at `pos` stands after its step: one column to the
/// left, or in column 79 where that would take it off the map.
pub open spec fn shifted_left(pos: Position) -> Position {
    Position {
        x: if pos.x <= 0 {
            79
        } else {
            (pos.x - 1) as i32
        },
        y: pos.y,
    }
}

/// The positions after every left mover has taken its step.
pub open spec fn drifted(lefty: Map<int, LeftMover>, positions: Map<int, Position>) -> Map<
    int,
    Position,
> {
    Map::new(
        |k: int| positions.contains_key(k),
        |k: int|
            if lefty.contains_key(k) {
                shifted_left(positions[k])
            } else {
                positions[k]
            },
    )
}

/// Moves the left movers to the left.
pub struct _LeftMoverSystem {}

impl _LeftMoverSystem {
/// Lets every left mover that has a position take its step.
    pub fn run(&mut self, lefty: &Storage<LeftMover>, pos: &mut Storage<Position>)
        ensures
            final(pos)@ == drifted(lefty@, old(pos)@),
    {
        let bound: usize = pos.len();
        let mut i: usize = 0;
        proof {
            pos.lemma_keys_below_span();
        }
        while i < bound
            invariant
                i <= bound,
                forall|k: int| #[trigger] old(pos)@.contains_key(k) ==> 0 <= k < bound,
                pos@.dom() == old(pos)@.dom(),
                forall|k: int| #[trigger]
                    pos@.contains_key(k) ==> pos@[k] == if k < i {
                        drifted(lefty@, old(pos)@)[k]
                    } else {
                        old(pos)@[k]
                    },
            decreases bound - i,
        {
            let ent = Entity { id: i };
            if lefty.contains(ent) {
                let here: Option<Position> = match pos.get(ent) {
                    Some(p) => Some(*p),
                    None => None,
                };
                if let Some(p) = here {
                    let x: i32 = if p.x <= 0 {
                        79
                    } else {
                        p.x - 1
                    };
                    pos.insert(ent, Position { x, y: p.y });
                    assert(pos@.dom() =~= old(pos)@.dom());
                }
            }
            i += 1;
        }
        assert(pos@ =~= drifted(lefty@, old(pos)@));
    }
}

} // verus!
