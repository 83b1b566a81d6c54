//! Putting the player, the monsters and the potions into the world.
use crate::components::{
    CombatStats, GameplayName, Healer, Item, MonsterChar, PlayerChar, Position, TileBlocker,
    Viewshed,
};
use crate::dice::roll_dice;
use crate::geometry::Rect;
use crate::level::MAP_WIDTH_PIX;
use crate::storage::Entity;
use crate::world::World;
use vstd::prelude::*;
use vstd::string::StringExecFns;

verus! {

/// The most monsters that a room is given, plus one.
pub const MAX_NUM_MONSTERS_PER_ROOM: i32 = 2;

/// The most items that a room is given, plus one.
pub const MAX_NUM_ITEMS_PER_ROOM: i32 = 2;

/// How often a place is drawn again because the one drawn is taken, before
/// the search gives up.
pub const MAX_SPAWN_DRAWS: usize = 64;

/// The player's stats at the start.
pub open spec fn player_stats() -> CombatStats {
    CombatStats { max_hp: 30, hp: 30, defense: 2, power: 5 }
}

/// A monster's stats at the start.
pub open spec fn monster_stats() -> CombatStats {
    CombatStats { max_hp: 16, hp: 16, defense: 1, power: 4 }
}

/// `after` is `before` with a viewshed for the new entity `id` that sees
/// nothing yet, eight tiles far, and is due for its first computation.
pub open spec fn gained_sight(before: Map<int, Viewshed>, id: int, after: Map<int, Viewshed>) -> bool {
    &&& after.dom() == before.dom().insert(id)
    &&& forall|k: int| #[trigger] before.contains_key(k) && k != id ==> after[k] == before[k]
    &&& after[id].visible_tiles@.len() == 0
    &&& after[id].range == 8
    &&& after[id].is_dirty
}

/// `after` is `before` with the name `name` for the new entity `id`.
pub open spec fn gained_name(
    before: Map<int, GameplayName>,
    id: int,
    name: Seq<char>,
    after: Map<int, GameplayName>,
) -> bool {
    &&& after.dom() == before.dom().insert(id)
    &&& forall|k: int| #[trigger] before.contains_key(k) && k != id ==> after[k] == before[k]
    &&& after[id].name@ == name
}

/// `after` is `before` with one more entity `e`, the player at `place`:
/// named "Player", marked as a player, with a fresh viewshed and the
/// player's stats.
pub open spec fn player_spawned(before: &World, place: Position, after: &World, e: Entity) -> bool {
    &&& e.id == before.next_id
    &&& after.next_id == before.next_id + 1
    &&& after.positions@ == before.positions@.insert(e.id as int, place)
    &&& after.players@ == before.players@.insert(e.id as int, PlayerChar {  })
    &&& gained_sight(before.viewsheds@, e.id as int, after.viewsheds@)
    &&& gained_name(before.names@, e.id as int, "Player"@, after.names@)
    &&& after.stats@ == before.stats@.insert(e.id as int, player_stats())
    &&& after.monsters@ == before.monsters@
    &&& after.blockers@ == before.blockers@
    &&& after.melee_intents@ == before.melee_intents@
    &&& after.incoming_damage@ == before.incoming_damage@
    &&& after.left_movers@ == before.left_movers@
    &&& after.items@ == before.items@
    &&& after.healers@ == before.healers@
    &&& before.same_setting(after)
    &&& after.log == before.log
}

/// `after` is `before` with one more entity `e`, a monster called `name` at
/// `place`: it acts in the monsters' turn, holds its tile against others,
/// and has a fresh viewshed and a monster's stats.
pub open spec fn monster_spawned(
    before: &World,
    place: Position,
    name: Seq<char>,
    after: &World,
    e: Entity,
) -> bool {
    &&& e.id == before.next_id
    &&& after.next_id == before.next_id + 1
    &&& after.positions@ == before.positions@.insert(e.id as int, place)
    &&& after.monsters@ == before.monsters@.insert(e.id as int, MonsterChar {  })
    &&& after.blockers@ == before.blockers@.insert(e.id as int, TileBlocker {  })
    &&& gained_sight(before.viewsheds@, e.id as int, after.viewsheds@)
    &&& gained_name(before.names@, e.id as int, name, after.names@)
    &&& after.stats@ == before.stats@.insert(e.id as int, monster_stats())
    &&& after.players@ == before.players@
    &&& after.melee_intents@ == before.melee_intents@
    &&& after.incoming_damage@ == before.incoming_damage@
    &&& after.left_movers@ == before.left_movers@
    &&& after.items@ == before.items@
    &&& after.healers@ == before.healers@
    &&& before.same_setting(after)
    &&& after.log == before.log
}

/// `after` is `before` with one more entity `e`, a health potion at `place`:
/// an item called "Health Potion" that heals eight hit points.
pub open spec fn potion_spawned(before: &World, place: Position, after: &World, e: Entity) -> bool {
    &&& e.id == before.next_id
    &&& after.next_id == before.next_id + 1
    &&& after.positions@ == before.positions@.insert(e.id as int, place)
    &&& gained_name(before.names@, e.id as int, "Health Potion"@, after.names@)
    &&& after.items@ == before.items@.insert(e.id as int, Item {  })
    &&& after.healers@ == before.healers@.insert(e.id as int, Healer { heal_amount: 8 })
    &&& after.viewsheds@ == before.viewsheds@
    &&& after.stats@ == before.stats@
    &&& after.players@ == before.players@
    &&& after.monsters@ == before.monsters@
    &&& after.blockers@ == before.blockers@
    &&& after.melee_intents@ == before.melee_intents@
    &&& after.incoming_damage@ == before.incoming_damage@
    &&& after.left_movers@ == before.left_movers@
    &&& before.same_setting(after)
    &&& after.log == before.log
}

/// Creates the player at `player_pos`.
pub fn spawn_player(ecs: &mut World, player_pos: (i32, i32)) -> (e: Entity)
    requires
        old(ecs).wf(),
        old(ecs).next_id < usize::MAX,
        old(ecs).level.in_bounds(player_pos.0 as int, player_pos.1 as int),
    ensures
        final(ecs).wf(),
        player_spawned(
            old(ecs),
            Position { x: player_pos.0, y: player_pos.1 },
            final(ecs),
            e,
        ),
{
    let e = ecs.create_entity();
    ecs.positions.insert(e, Position { x: player_pos.0, y: player_pos.1 });
    ecs.players.insert(e, PlayerChar {  });
    ecs.viewsheds.insert(e, Viewshed::new());
    ecs.names.insert(e, GameplayName { name: String::from_str("Player") });
    ecs.stats.insert(e, CombatStats { max_hp: 30, hp: 30, defense: 2, power: 5 });
    proof {
        assert(final(ecs).viewsheds@.dom() =~= old(ecs).viewsheds@.dom().insert(e.id as int));
        assert(final(ecs).names@.dom() =~= old(ecs).names@.dom().insert(e.id as int));
    }
    e
}

/// Creates a monster called `name` at `pos`.
pub fn spawn_monster(ecs: &mut World, pos: (i32, i32), name: &str) -> (e: Entity)
    requires
        old(ecs).wf(),
        old(ecs).next_id < usize::MAX,
        old(ecs).level.in_bounds(pos.0 as int, pos.1 as int),
    ensures
        final(ecs).wf(),
        monster_spawned(old(ecs), Position { x: pos.0, y: pos.1 }, name@, final(ecs), e),
{
    let e = ecs.create_entity();
    ecs.positions.insert(e, Position { x: pos.0, y: pos.1 });
    ecs.viewsheds.insert(e, Viewshed::new());
    ecs.monsters.insert(e, MonsterChar {  });
    ecs.names.insert(e, GameplayName { name: String::from_str(name) });
    ecs.blockers.insert(e, TileBlocker {  });
    ecs.stats.insert(e, CombatStats { max_hp: 16, hp: 16, defense: 1, power: 4 });
    proof {
        assert(final(ecs).viewsheds@.dom() =~= old(ecs).viewsheds@.dom().insert(e.id as int));
        assert(final(ecs).names@.dom() =~= old(ecs).names@.dom().insert(e.id as int));
    }
    e
}

fn spawn_orc(ecs: &mut World, pos: (i32, i32)) -> (e: Entity)
    requires
        old(ecs).wf(),
        old(ecs).next_id < usize::MAX,
        old(ecs).level.in_bounds(pos.0 as int, pos.1 as int),
    ensures
        final(ecs).wf(),
        monster_spawned(old(ecs), Position { x: pos.0, y: pos.1 }, "Orc"@, final(ecs), e),
{
    spawn_monster(ecs, pos, "Orc")
}

fn spawn_goblin(ecs: &mut World, pos: (i32, i32)) -> (e: Entity)
    requires
        old(ecs).wf(),
        old(ecs).next_id < usize::MAX,
        old(ecs).level.in_bounds(pos.0 as int, pos.1 as int),
    ensures
        final(ecs).wf(),
        monster_spawned(old(ecs), Position { x: pos.0, y: pos.1 }, "Goblin"@, final(ecs), e),
{
    spawn_monster(ecs, pos, "Goblin")
}

/// The name of the monster that a roll of the die stands for: a one is an
/// orc, and anything else a goblin.
pub open spec fn rolled_name(roll: int) -> Seq<char> {
    if roll == 1 {
        "Orc"@
    } else {
        "Goblin"@
    }
}

/// Creates at `pos` the monster that `roll` stands for.
pub fn spawn_rolled_monster(ecs: &mut World, roll: i32, pos: (i32, i32)) -> (e: Entity)
    requires
        old(ecs).wf(),
        old(ecs).next_id < usize::MAX,
        old(ecs).level.in_bounds(pos.0 as int, pos.1 as int),
    ensures
        final(ecs).wf(),
        monster_spawned(
            old(ecs),
            Position { x: pos.0, y: pos.1 },
            rolled_name(roll as int),
            final(ecs),
            e,
        ),
{
    if roll == 1 {
        spawn_orc(ecs, pos)
    } else {
        spawn_goblin(ecs, pos)
    }
}

/// Creates an orc or a goblin at `pos`, as the die falls.
pub fn spawn_rand_monster(ecs: &mut World, rng: &mut rltk::RandomNumberGenerator, pos: (i32, i32))
    requires
        old(ecs).wf(),
        old(ecs).next_id < usize::MAX,
        old(ecs).level.in_bounds(pos.0 as int, pos.1 as int),
    ensures
        final(ecs).wf(),
        monster_spawned(
            old(ecs),
            Position { x: pos.0, y: pos.1 },
            "Orc"@,
            final(ecs),
            Entity { id: old(ecs).next_id },
        ) || monster_spawned(
            old(ecs),
            Position { x: pos.0, y: pos.1 },
            "Goblin"@,
            final(ecs),
            Entity { id: old(ecs).next_id },
        ),
{
    let roll: i32 = roll_dice(rng, 1, 2);
    spawn_rolled_monster(ecs, roll, pos);
}

/// Creates a health potion at `(x, y)`.
pub fn spawn_health_potion(ecs: &mut World, x: i32, y: i32) -> (e: Entity)
    requires
        old(ecs).wf(),
        old(ecs).next_id < usize::MAX,
        old(ecs).level.in_bounds(x as int, y as int),
    ensures
        final(ecs).wf(),
        potion_spawned(old(ecs), Position { x, y }, final(ecs), e),
{
    let e = ecs.create_entity();
    ecs.positions.insert(e, Position { x, y });
    ecs.names.insert(e, GameplayName { name: String::from_str("Health Potion") });
    ecs.items.insert(e, Item {  });
    ecs.healers.insert(e, Healer { heal_amount: 8 });
    proof {
        assert(final(ecs).names@.dom() =~= old(ecs).names@.dom().insert(e.id as int));
    }
    e
}

/// The place of index `idx` on a map `MAP_WIDTH_PIX` wide.
pub open spec fn spawn_place(idx: usize) -> Position {
    Position { x: (idx % MAP_WIDTH_PIX) as i32, y: (idx / MAP_WIDTH_PIX) as i32 }
}

/// `idx` is the index, on a map `MAP_WIDTH_PIX` wide, of a place inside
/// `room`.
pub open spec fn lies_in(idx: usize, room: &Rect) -> bool {
    room.holds((idx % MAP_WIDTH_PIX) as int, (idx / MAP_WIDTH_PIX) as int)
}

/// A room that places can be drawn in: it is not empty and lies on a map
/// `MAP_WIDTH_PIX` wide.
pub open spec fn can_hold_spawns(room: &Rect) -> bool {
    &&& 0 <= room.x1 < room.x2 < MAP_WIDTH_PIX
    &&& 0 <= room.y1 < room.y2 <= 0x100_0000
}

/// Decides `can_hold_spawns`.
pub fn room_can_hold_spawns(room: &Rect) -> (ok: bool)
    ensures
        ok == can_hold_spawns(room),
{
    0 <= room.x1 && room.x1 < room.x2 && room.x2 < 80 && 0 <= room.y1 && room.y1 < room.y2
        && room.y2 <= 0x100_0000
}

/// Whether `idx` is in the list.
pub fn is_taken(taken: &Vec<usize>, idx: usize) -> (r: bool)
    ensures
        r == taken@.contains(idx),
{
    let mut n: usize = 0;
    while n < taken.len()
        invariant
            n <= taken@.len(),
            forall|j: int| 0 <= j < n ==> taken@[j] != idx,
        decreases taken@.len() - n,
    {
        if taken[n] == idx {
            return true;
        }
        n += 1;
    }
    false
}

/// The index, on a map `MAP_WIDTH_PIX` wide, of the place in `room` that the
/// rolls `roll_x` and `roll_y` name: so many columns and rows off the room's
/// first corner.
pub open spec fn rolled_idx(room: &Rect, roll_x: int, roll_y: int) -> int {
    (room.y1 + roll_y) * MAP_WIDTH_PIX + (room.x1 + roll_x)
}

/// No place inside `room` is in the list.
pub open spec fn free_of(room: &Rect, taken: Seq<usize>) -> bool {
    forall|i: usize| #[trigger] taken.contains(i) ==> !lies_in(i, room)
}

/// Takes the place that two rolls name in `room`, unless it is in `taken`.
pub fn try_place(room: &Rect, roll_x: i32, roll_y: i32, taken: &Vec<usize>) -> (idx: Option<
    usize,
>)
    requires
        can_hold_spawns(room),
        1 <= roll_x <= room.x2 - room.x1,
        1 <= roll_y <= room.y2 - room.y1,
    ensures
        lies_in(rolled_idx(room, roll_x as int, roll_y as int) as usize, room),
        idx == if taken@.contains(rolled_idx(room, roll_x as int, roll_y as int) as usize) {
            None
        } else {
            Some(rolled_idx(room, roll_x as int, roll_y as int) as usize)
        },
{
    let x: i32 = room.x1 + roll_x;
    let y: i32 = room.y1 + roll_y;
    let idx: usize = (y as usize * MAP_WIDTH_PIX) + x as usize;
    proof {
        vstd::arithmetic::div_mod::lemma_fundamental_div_mod_converse(
            idx as int,
            MAP_WIDTH_PIX as int,
            y as int,
            x as int,
        );
    }
    if is_taken(taken, idx) {
        None
    } else {
        Some(idx)
    }
}

/// Draws places inside `room` until one is not in `taken`, and gives up
/// after `MAX_SPAWN_DRAWS` draws. A place that is found lies inside the room
/// and is not taken. None is found only where a place inside the room is
/// taken: with the room free of what is taken, the first draw is kept.
fn draw_new_idx(room: &Rect, rng: &mut rltk::RandomNumberGenerator, taken: &Vec<usize>) -> (idx:
    Option<usize>)
    requires
        can_hold_spawns(room),
    ensures
        match idx {
            Some(i) => lies_in(i, room) && !taken@.contains(i),
            None => !free_of(room, taken@),
        },
{
    let mut draws: usize = 0;
    while draws < MAX_SPAWN_DRAWS
        invariant
            can_hold_spawns(room),
            draws > 0 ==> !free_of(room, taken@),
        decreases MAX_SPAWN_DRAWS - draws,
    {
        draws += 1;
        let roll_x: i32 = roll_dice(rng, 1, room.x2 - room.x1);
        let roll_y: i32 = roll_dice(rng, 1, room.y2 - room.y1);
        match try_place(room, roll_x, roll_y, taken) {
            Some(idx) => {
                return Some(idx);
            },
            None => {
                assert(taken@.contains(rolled_idx(room, roll_x as int, roll_y as int) as usize));
            },
        }
    }
    None
}

/// Finds a place in `room` where no monster is to stand yet. The search
/// draws at most `MAX_SPAWN_DRAWS` places; it can come back empty only
/// where a place inside the room is in `monster_spawn_idx`.
pub fn find_new_monster_idx(
    room: &Rect,
    rng: &mut rltk::RandomNumberGenerator,
    monster_spawn_idx: &Vec<usize>,
) -> (idx: Option<usize>)
    requires
        can_hold_spawns(room),
    ensures
        match idx {
            Some(i) => lies_in(i, room) && !monster_spawn_idx@.contains(i),
            None => !free_of(room, monster_spawn_idx@),
        },
{
    draw_new_idx(room, rng, monster_spawn_idx)
}

/// Finds a place in `room` where no item is to lie yet. The search draws at
/// most `MAX_SPAWN_DRAWS` places; it can come back empty only where a place
/// inside the room is in `item_spawn_idx`.
pub fn find_new_item_idx(
    room: &Rect,
    rng: &mut rltk::RandomNumberGenerator,
    item_spawn_idx: &Vec<usize>,
) -> (idx: Option<usize>)
    requires
        can_hold_spawns(room),
    ensures
        match idx {
            Some(i) => lies_in(i, room) && !item_spawn_idx@.contains(i),
            None => !free_of(room, item_spawn_idx@),
        },
{
    draw_new_idx(room, rng, item_spawn_idx)
}

/// `after` holds what `before` holds and, besides, one entry for each id
/// from `lo` up to, and not including, `hi`.
pub open spec fn grown<T>(before: Map<int, T>, lo: int, hi: int, after: Map<int, T>) -> bool {
    &&& forall|k: int| #[trigger]
        after.contains_key(k) <==> (before.contains_key(k) || lo <= k < hi)
    &&& forall|k: int| #[trigger] before.contains_key(k) && !(lo <= k < hi) ==> after[k] == before[k]
}

/// What has grown up to an id grows past it when that id gets its entry.
proof fn lemma_grown_by_one<T>(
    start: Map<int, T>,
    lo: int,
    id: int,
    before: Map<int, T>,
    after: Map<int, T>,
)
    requires
        lo <= id,
        grown(start, lo, id, before),
        after.dom() == before.dom().insert(id),
        forall|k: int| #[trigger] before.contains_key(k) && k != id ==> after[k] == before[k],
    ensures
        grown(start, lo, id + 1, after),
{
    assert forall|k: int| #[trigger] after.contains_key(k) <==> (start.contains_key(k) || lo <= k
        < id + 1) by {
        assert(after.dom().contains(k) == before.dom().insert(id).contains(k));
        assert(before.contains_key(k) <==> (start.contains_key(k) || lo <= k < id));
    }
    assert forall|k: int| #[trigger] start.contains_key(k) && !(lo <= k < id + 1) implies after[k]
        == start[k] by {
        assert(before.contains_key(k));
    }
}

/// `after` is `before` with the content of a room put into it: first, for
/// each place in `monsters`, in their order, the monster that the roll in
/// `kinds` stands for there; then, for each place in `items`, in their
/// order, a health potion. The new entities take the next ids as they come,
/// and what `before` held is untouched.
pub open spec fn content_placed(
    before: &World,
    monsters: Seq<usize>,
    kinds: Seq<i32>,
    items: Seq<usize>,
    after: &World,
) -> bool {
    let first = before.next_id as int;
    let second = first + monsters.len();
    let end = second + items.len();
    &&& after.next_id == end
    &&& before.same_setting(after)
    &&& after.log == before.log
    &&& after.players@ == before.players@
    &&& after.melee_intents@ == before.melee_intents@
    &&& after.incoming_damage@ == before.incoming_damage@
    &&& after.left_movers@ == before.left_movers@
    &&& grown(before.positions@, first, end, after.positions@)
    &&& grown(before.names@, first, end, after.names@)
    &&& grown(before.monsters@, first, second, after.monsters@)
    &&& grown(before.blockers@, first, second, after.blockers@)
    &&& grown(before.viewsheds@, first, second, after.viewsheds@)
    &&& grown(before.stats@, first, second, after.stats@)
    &&& grown(before.items@, second, end, after.items@)
    &&& grown(before.healers@, second, end, after.healers@)
    &&& forall|j: int|
        0 <= j < monsters.len() ==> {
            &&& after.positions@[first + j] == spawn_place(#[trigger] monsters[j])
            &&& after.names@[first + j].name@ == rolled_name(kinds[j] as int)
            &&& after.stats@[first + j] == monster_stats()
            &&& after.viewsheds@[first + j].visible_tiles@.len() == 0
            &&& after.viewsheds@[first + j].range == 8
            &&& after.viewsheds@[first + j].is_dirty
        }
    &&& forall|j: int|
        0 <= j < items.len() ==> {
            &&& after.positions@[second + j] == spawn_place(#[trigger] items[j])
            &&& after.names@[second + j].name@ == "Health Potion"@
            &&& after.healers@[second + j] == (Healer { heal_amount: 8 })
        }
}

/// Whether every place of the list is a place of the map.
pub open spec fn all_on_level(places: Seq<usize>, ecs: &World) -> bool {
    forall|j: int|
        0 <= j < places.len() ==> ecs.level.in_bounds(
            (#[trigger] places[j] % MAP_WIDTH_PIX) as int,
            (places[j] / MAP_WIDTH_PIX) as int,
        )
}

/// Puts the content of a room into the world, at the places and of the
/// kinds that were drawn for it: the monsters first, then the potions.
pub fn place_room_content(
    ecs: &mut World,
    monster_spawn_idx: &Vec<usize>,
    monster_kinds: &Vec<i32>,
    item_spawn_idx: &Vec<usize>,
)
    requires
        old(ecs).wf(),
        monster_kinds@.len() == monster_spawn_idx@.len(),
        old(ecs).next_id + monster_spawn_idx@.len() + item_spawn_idx@.len() < usize::MAX,
        all_on_level(monster_spawn_idx@, old(ecs)),
        all_on_level(item_spawn_idx@, old(ecs)),
    ensures
        final(ecs).wf(),
        content_placed(
            old(ecs),
            monster_spawn_idx@,
            monster_kinds@,
            item_spawn_idx@,
            final(ecs),
        ),
{
    let ghost none = Seq::<usize>::empty();
    // Actually spawn the monsters
    let mut m: usize = 0;
    assert(monster_spawn_idx@.take(0) =~= none);
    assert(monster_kinds@.take(0) =~= Seq::<i32>::empty());
    while m < monster_spawn_idx.len()
        invariant
            m <= monster_spawn_idx@.len(),
            monster_kinds@.len() == monster_spawn_idx@.len(),
            old(ecs).wf(),
            old(ecs).next_id + monster_spawn_idx@.len() + item_spawn_idx@.len() < usize::MAX,
            all_on_level(monster_spawn_idx@, old(ecs)),
            ecs.wf(),
            none == Seq::<usize>::empty(),
            content_placed(
                old(ecs),
                monster_spawn_idx@.take(m as int),
                monster_kinds@.take(m as int),
                none,
                ecs,
            ),
        decreases monster_spawn_idx@.len() - m,
    {
        let idx: usize = monster_spawn_idx[m];
        let x: usize = idx % MAP_WIDTH_PIX;
        let y: usize = idx / MAP_WIDTH_PIX;
        let ghost before = *ecs;
        let e = spawn_rolled_monster(ecs, monster_kinds[m], (x as i32, y as i32));
        proof {
            let done = monster_spawn_idx@.take(m as int);
            let more = monster_spawn_idx@.take(m + 1);
            let kinds_more = monster_kinds@.take(m + 1);
            let first = old(ecs).next_id as int;
            assert(e.id == first + m);
            assert forall|j: int| 0 <= j < more.len() implies {
                &&& ecs.positions@[first + j] == spawn_place(#[trigger] more[j])
                &&& ecs.names@[first + j].name@ == rolled_name(kinds_more[j] as int)
                &&& ecs.stats@[first + j] == monster_stats()
                &&& ecs.viewsheds@[first + j].visible_tiles@.len() == 0
                &&& ecs.viewsheds@[first + j].range == 8
                &&& ecs.viewsheds@[first + j].is_dirty
            } by {
                if j < m {
                    assert(done[j] == more[j]);
                    assert(before.positions@.contains_key(first + j));
                    assert(before.names@.contains_key(first + j));
                    assert(before.viewsheds@.contains_key(first + j));
                    assert(before.stats@.contains_key(first + j));
                }
            }
            lemma_grown_by_one(
                old(ecs).names@,
                first,
                e.id as int,
                before.names@,
                ecs.names@,
            );
            lemma_grown_by_one(
                old(ecs).viewsheds@,
                first,
                e.id as int,
                before.viewsheds@,
                ecs.viewsheds@,
            );
            assert(grown(old(ecs).positions@, first, first + m + 1, ecs.positions@));
            assert(grown(old(ecs).names@, first, first + m + 1, ecs.names@));
            assert(grown(old(ecs).monsters@, first, first + m + 1, ecs.monsters@));
            assert(grown(old(ecs).blockers@, first, first + m + 1, ecs.blockers@));
            assert(grown(old(ecs).viewsheds@, first, first + m + 1, ecs.viewsheds@));
            assert(grown(old(ecs).stats@, first, first + m + 1, ecs.stats@));
            assert(grown(old(ecs).items@, first + m + 1, first + m + 1, ecs.items@));
            assert(grown(old(ecs).healers@, first + m + 1, first + m + 1, ecs.healers@));
        }
        m += 1;
    }
    assert(monster_spawn_idx@.take(m as int) =~= monster_spawn_idx@);
    assert(monster_kinds@.take(m as int) =~= monster_kinds@);
    // Actually spawn the items (pots)
    let ghost monsters: usize = m;
    let mut m: usize = 0;
    assert(item_spawn_idx@.take(0) =~= none);
    while m < item_spawn_idx.len()
        invariant
            m <= item_spawn_idx@.len(),
            monsters == monster_spawn_idx@.len(),
            monster_kinds@.len() == monster_spawn_idx@.len(),
            old(ecs).wf(),
            old(ecs).next_id + monster_spawn_idx@.len() + item_spawn_idx@.len() < usize::MAX,
            all_on_level(item_spawn_idx@, old(ecs)),
            ecs.wf(),
            content_placed(
                old(ecs),
                monster_spawn_idx@,
                monster_kinds@,
                item_spawn_idx@.take(m as int),
                ecs,
            ),
        decreases item_spawn_idx@.len() - m,
    {
        let idx: usize = item_spawn_idx[m];
        let x: usize = idx % MAP_WIDTH_PIX;
        let y: usize = idx / MAP_WIDTH_PIX;
        let ghost before = *ecs;
        let e = spawn_health_potion(ecs, x as i32, y as i32);
        proof {
            let done = item_spawn_idx@.take(m as int);
            let more = item_spawn_idx@.take(m + 1);
            let first = old(ecs).next_id as int;
            let second = first + monsters;
            assert(e.id == second + m);
            assert forall|j: int| 0 <= j < more.len() implies {
                &&& ecs.positions@[second + j] == spawn_place(#[trigger] more[j])
                &&& ecs.names@[second + j].name@ == "Health Potion"@
                &&& ecs.healers@[second + j] == (Healer { heal_amount: 8 })
            } by {
                if j < m {
                    assert(done[j] == more[j]);
                    assert(before.positions@.contains_key(second + j));
                    assert(before.names@.contains_key(second + j));
                    assert(before.healers@.contains_key(second + j));
                }
            }
            assert forall|j: int| 0 <= j < monster_spawn_idx@.len() implies {
                &&& ecs.positions@[first + j] == spawn_place(#[trigger] monster_spawn_idx@[j])
                &&& ecs.names@[first + j].name@ == rolled_name(monster_kinds@[j] as int)
                &&& ecs.stats@[first + j] == monster_stats()
                &&& ecs.viewsheds@[first + j].visible_tiles@.len() == 0
                &&& ecs.viewsheds@[first + j].range == 8
                &&& ecs.viewsheds@[first + j].is_dirty
            } by {
                assert(before.positions@.contains_key(first + j));
                assert(before.names@.contains_key(first + j));
            }
            lemma_grown_by_one(
                old(ecs).names@,
                first,
                e.id as int,
                before.names@,
                ecs.names@,
            );
            assert(grown(old(ecs).positions@, first, second + m + 1, ecs.positions@));
            assert(grown(old(ecs).names@, first, second + m + 1, ecs.names@));
            assert(grown(old(ecs).items@, second, second + m + 1, ecs.items@));
            assert(grown(old(ecs).healers@, second, second + m + 1, ecs.healers@));
        }
        m += 1;
    }
    assert(item_spawn_idx@.take(m as int) =~= item_spawn_idx@);
}

/// What filling `room` comes to, whatever the dice give: for some places
/// inside the room and some rolls of the kind, `after` is `before` with
/// that content put into it, and there are fewer than
/// `MAX_NUM_MONSTERS_PER_ROOM` monsters and fewer than
/// `MAX_NUM_ITEMS_PER_ROOM` potions, no two of either at one place.
pub open spec fn room_filled(before: &World, room: &Rect, after: &World) -> bool {
    exists|monsters: Seq<usize>, kinds: Seq<i32>, items: Seq<usize>|
        {
            &&& #[trigger] content_placed(before, monsters, kinds, items, after)
            &&& kinds.len() == monsters.len()
            &&& monsters.len() < MAX_NUM_MONSTERS_PER_ROOM
            &&& items.len() < MAX_NUM_ITEMS_PER_ROOM
            &&& monsters.no_duplicates()
            &&& items.no_duplicates()
            &&& forall|j: int|
                0 <= j < monsters.len() ==> lies_in(#[trigger] monsters[j], room) && 1 <= kinds[j]
                    <= 2
            &&& forall|j: int| 0 <= j < items.len() ==> lies_in(#[trigger] items[j], room)
        }
}

/// Fills a room. One die says how many monsters it gets and one how many
/// potions: the roll less three, which comes to one or none of each. For
/// each of them a place is drawn inside the room where none of its kind is
/// yet, and for each monster its kind. Then the monsters and the potions
/// are put into the world.
pub fn spawn_room_content(ecs: &mut World, rng: &mut rltk::RandomNumberGenerator, room: &Rect)
    requires
        old(ecs).wf(),
        old(ecs).next_id < usize::MAX - 2,
        can_hold_spawns(room),
        room.x2 < old(ecs).level.width,
        room.y2 < old(ecs).level.height,
    ensures
        final(ecs).wf(),
        final(ecs).next_id <= old(ecs).next_id + 2,
        room_filled(old(ecs), room, final(ecs)),
{
    let mut monster_spawn_idx: Vec<usize> = Vec::new();
    let mut monster_kinds: Vec<i32> = Vec::new();
    let mut item_spawn_idx: Vec<usize> = Vec::new();

    let num_monsters: i32 = roll_dice(rng, 1, MAX_NUM_MONSTERS_PER_ROOM + 2) - 3;
    let num_items: i32 = roll_dice(rng, 1, MAX_NUM_ITEMS_PER_ROOM + 2) - 3;

    let mut n: i32 = 0;
    while n < num_monsters
        invariant
            can_hold_spawns(room),
            num_monsters < MAX_NUM_MONSTERS_PER_ROOM,
            0 <= n < MAX_NUM_MONSTERS_PER_ROOM,
            monster_spawn_idx@.len() <= n,
            monster_spawn_idx@.no_duplicates(),
            forall|j: int|
                0 <= j < monster_spawn_idx@.len() ==> lies_in(#[trigger] monster_spawn_idx@[j], room),
        decreases num_monsters - n,
    {
        if let Some(new_idx) = find_new_monster_idx(room, rng, &monster_spawn_idx) {
            monster_spawn_idx.push(new_idx);
        }
        n += 1;
    }

    let mut n: i32 = 0;
    while n < num_items
        invariant
            can_hold_spawns(room),
            num_items < MAX_NUM_ITEMS_PER_ROOM,
            0 <= n < MAX_NUM_ITEMS_PER_ROOM,
            item_spawn_idx@.len() <= n,
            item_spawn_idx@.no_duplicates(),
            forall|j: int|
                0 <= j < item_spawn_idx@.len() ==> lies_in(#[trigger] item_spawn_idx@[j], room),
        decreases num_items - n,
    {
        if let Some(new_idx) = find_new_item_idx(room, rng, &item_spawn_idx) {
            item_spawn_idx.push(new_idx);
        }
        n += 1;
    }

    // Each monster is an orc or a goblin, as the die falls.
    while monster_kinds.len() < monster_spawn_idx.len()
        invariant
            monster_kinds@.len() <= monster_spawn_idx@.len(),
            forall|j: int| 0 <= j < monster_kinds@.len() ==> 1 <= #[trigger] monster_kinds@[j] <= 2,
        decreases monster_spawn_idx@.len() - monster_kinds@.len(),
    {
        let roll: i32 = roll_dice(rng, 1, 2);
        monster_kinds.push(roll);
    }

    proof {
        assert forall|j: int| 0 <= j < monster_spawn_idx@.len() implies ecs.level.in_bounds(
            (#[trigger] monster_spawn_idx@[j] % MAP_WIDTH_PIX) as int,
            (monster_spawn_idx@[j] / MAP_WIDTH_PIX) as int,
        ) by {
            assert(lies_in(monster_spawn_idx@[j], room));
        }
        assert forall|j: int| 0 <= j < item_spawn_idx@.len() implies ecs.level.in_bounds(
            (#[trigger] item_spawn_idx@[j] % MAP_WIDTH_PIX) as int,
            (item_spawn_idx@[j] / MAP_WIDTH_PIX) as int,
        ) by {
            assert(lies_in(item_spawn_idx@[j], room));
        }
    }
    place_room_content(ecs, &monster_spawn_idx, &monster_kinds, &item_spawn_idx);
    proof {
        assert(content_placed(
            old(ecs),
            monster_spawn_idx@,
            monster_kinds@,
            item_spawn_idx@,
            ecs,
        ));
    }
}

} // verus!
