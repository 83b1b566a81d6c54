use roguelike::components::{
    CombatStats, GameplayName, IncomingDamage, MeleeAttackIntent, MonsterChar, PlayerChar,
    Position, TileBlocker, Viewshed,
};
use roguelike::game_log::GameLog;
use roguelike::game_state::GameStatus;
use roguelike::geometry::Coord;
use roguelike::level::{Level, TileType};
use roguelike::storage::{Entity, Storage};
use roguelike::systems::visibility_system::{clip_to_map, take_in};
use roguelike::systems::{
    DamageSystem, MapIndexingSystem, MeleeCombatSystem, MonsterAISystem, MonsterStep,
    VisibilitySystem,
};

fn open_room(width: i32, height: i32) -> Level {
    let mut level = Level::solid(width, height);
    for y in 1..height - 1 {
        for x in 1..width - 1 {
            let idx = level.xy_idx(x, y);
            level.tiles[idx] = TileType::Floor;
        }
    }
    level
}

fn named(names: &mut Storage<GameplayName>, id: usize, name: &str) {
    names.insert(Entity { id }, GameplayName { name: name.to_string() });
}

fn stats(hp: i32, defense: i32, power: u16) -> CombatStats {
    CombatStats { max_hp: 30, hp, defense, power }
}

struct Fight {
    intents: Storage<MeleeAttackIntent>,
    names: Storage<GameplayName>,
    stats: Storage<CombatStats>,
    damage: Storage<IncomingDamage>,
    log: GameLog,
}

fn fight() -> Fight {
    Fight {
        intents: Storage::new(),
        names: Storage::new(),
        stats: Storage::new(),
        damage: Storage::new(),
        log: GameLog::new(),
    }
}

fn run_combat(f: &mut Fight) {
    assert!(MeleeCombatSystem::can_run(&f.intents, &f.names, &f.stats));
    let mut sys = MeleeCombatSystem {};
    sys.run(&mut f.intents, &f.names, &f.stats, &mut f.damage, &mut f.log);
}

fn run_damage(f: &mut Fight) {
    assert!(DamageSystem::can_run(&f.stats, &f.damage));
    let mut sys = DamageSystem {};
    sys.run(&mut f.stats, &mut f.damage, &f.names, &mut f.log);
}

#[test]
fn blow_of_three_is_recorded_and_reported() {
    let mut f = fight();
    named(&mut f.names, 0, "Hero");
    named(&mut f.names, 1, "Rat");
    f.stats.insert(Entity { id: 0 }, stats(30, 0, 5));
    f.stats.insert(Entity { id: 1 }, stats(10, 2, 1));
    f.intents.insert(Entity { id: 0 }, MeleeAttackIntent { target: Entity { id: 1 } });
    run_combat(&mut f);
    assert_eq!(f.damage.get(Entity { id: 1 }).unwrap().amount, vec![3]);
    assert!(f.damage.get(Entity { id: 0 }).is_none());
    assert_eq!(f.log.entries, vec!["Hero hits Rat for 3 dmg".to_string()]);
    assert!(!f.intents.contains(Entity { id: 0 }));
}

#[test]
fn blow_of_zero_has_no_effect_and_leaves_no_record() {
    let mut f = fight();
    named(&mut f.names, 0, "Rat");
    named(&mut f.names, 1, "Knight");
    f.stats.insert(Entity { id: 0 }, stats(10, 0, 4));
    f.stats.insert(Entity { id: 1 }, stats(30, 10, 5));
    f.intents.insert(Entity { id: 0 }, MeleeAttackIntent { target: Entity { id: 1 } });
    run_combat(&mut f);
    assert!(f.damage.get(Entity { id: 1 }).is_none());
    assert_eq!(f.log.entries, vec!["Rat is unable to hurt Knight".to_string()]);
    assert!(!f.intents.contains(Entity { id: 0 }));
}

#[test]
fn two_attackers_accumulate_before_one_subtraction() {
    let mut f = fight();
    named(&mut f.names, 0, "Victim");
    named(&mut f.names, 1, "First");
    named(&mut f.names, 2, "Second");
    f.stats.insert(Entity { id: 0 }, stats(20, 1, 0));
    f.stats.insert(Entity { id: 1 }, stats(10, 0, 4));
    f.stats.insert(Entity { id: 2 }, stats(10, 0, 5));
    f.intents.insert(Entity { id: 2 }, MeleeAttackIntent { target: Entity { id: 0 } });
    f.intents.insert(Entity { id: 1 }, MeleeAttackIntent { target: Entity { id: 0 } });
    run_combat(&mut f);
    assert_eq!(f.damage.get(Entity { id: 0 }).unwrap().amount, vec![3, 4]);
    run_damage(&mut f);
    assert_eq!(f.stats.get(Entity { id: 0 }).unwrap().hp, 13);
    assert_eq!(f.stats.get(Entity { id: 0 }).unwrap().max_hp, 30);
    assert_eq!(f.stats.get(Entity { id: 1 }).unwrap().hp, 10);
    assert!(f.damage.get(Entity { id: 0 }).is_none());
    assert_eq!(
        f.log.entries,
        vec![
            "First hits Victim for 3 dmg".to_string(),
            "Second hits Victim for 4 dmg".to_string(),
            "Victim (13/30) received 7 dmg".to_string(),
        ]
    );
}

#[test]
fn dead_attacker_and_dead_victim_are_skipped_but_intents_go() {
    let mut f = fight();
    named(&mut f.names, 0, "Ghost");
    named(&mut f.names, 1, "Corpse");
    named(&mut f.names, 2, "Living");
    f.stats.insert(Entity { id: 0 }, stats(0, 0, 9));
    f.stats.insert(Entity { id: 1 }, stats(-2, 0, 9));
    f.stats.insert(Entity { id: 2 }, stats(5, 0, 9));
    f.intents.insert(Entity { id: 0 }, MeleeAttackIntent { target: Entity { id: 2 } });
    f.intents.insert(Entity { id: 2 }, MeleeAttackIntent { target: Entity { id: 1 } });
    // an intent without stats behind it is inert as well
    f.intents.insert(Entity { id: 7 }, MeleeAttackIntent { target: Entity { id: 2 } });
    run_combat(&mut f);
    assert!(f.damage.get(Entity { id: 2 }).is_none());
    assert!(f.damage.get(Entity { id: 1 }).is_none());
    assert!(f.log.entries.is_empty());
    for id in [0usize, 2, 7] {
        assert!(!f.intents.contains(Entity { id }));
    }
}

#[test]
fn combat_refuses_a_target_without_stats() {
    let mut f = fight();
    named(&mut f.names, 0, "Hero");
    f.stats.insert(Entity { id: 0 }, stats(30, 0, 5));
    f.intents.insert(Entity { id: 0 }, MeleeAttackIntent { target: Entity { id: 4 } });
    assert!(!MeleeCombatSystem::can_run(&f.intents, &f.names, &f.stats));
    // a living victim needs a name
    f.stats.insert(Entity { id: 4 }, stats(3, 0, 5));
    assert!(!MeleeCombatSystem::can_run(&f.intents, &f.names, &f.stats));
    named(&mut f.names, 4, "Rat");
    assert!(MeleeCombatSystem::can_run(&f.intents, &f.names, &f.stats));
    // a blow that pending damage cannot hold
    f.stats.insert(Entity { id: 4 }, stats(3, i32::MIN, 5));
    assert!(!MeleeCombatSystem::can_run(&f.intents, &f.names, &f.stats));
}

#[test]
fn damage_may_heal_and_may_go_below_zero() {
    let mut f = fight();
    named(&mut f.names, 0, "Hurt");
    f.stats.insert(Entity { id: 0 }, stats(5, 0, 0));
    f.stats.insert(Entity { id: 1 }, stats(5, 0, 0));
    f.stats.insert(Entity { id: 2 }, stats(5, 0, 0));
    IncomingDamage::new(&mut f.damage, Entity { id: 0 }, 9);
    IncomingDamage::new(&mut f.damage, Entity { id: 1 }, -4);
    IncomingDamage::new(&mut f.damage, Entity { id: 3 }, 2);
    run_damage(&mut f);
    assert_eq!(f.stats.get(Entity { id: 0 }).unwrap().hp, -4);
    assert_eq!(f.stats.get(Entity { id: 1 }).unwrap().hp, 9);
    assert_eq!(f.stats.get(Entity { id: 2 }).unwrap().hp, 5);
    // only the named one is reported
    assert_eq!(f.log.entries, vec!["Hurt (-4/30) received 9 dmg".to_string()]);
    for id in 0..4usize {
        assert!(f.damage.get(Entity { id }).is_none());
    }
}

#[test]
fn damage_refuses_what_hp_cannot_hold() {
    let mut f = fight();
    f.stats.insert(Entity { id: 0 }, stats(i32::MIN + 1, 0, 0));
    IncomingDamage::new(&mut f.damage, Entity { id: 0 }, 1);
    assert!(DamageSystem::can_run(&f.stats, &f.damage));
    IncomingDamage::new(&mut f.damage, Entity { id: 0 }, 1);
    assert!(!DamageSystem::can_run(&f.stats, &f.damage));
}

#[test]
fn index_lists_occupants_in_ascending_order() {
    let mut level = open_room(6, 6);
    let mut positions: Storage<Position> = Storage::new();
    let mut blockers: Storage<TileBlocker> = Storage::new();
    positions.insert(Entity { id: 4 }, Position { x: 2, y: 2 });
    positions.insert(Entity { id: 1 }, Position { x: 2, y: 2 });
    positions.insert(Entity { id: 2 }, Position { x: 3, y: 4 });
    blockers.insert(Entity { id: 2 }, TileBlocker {});
    blockers.insert(Entity { id: 9 }, TileBlocker {});
    let stale = level.xy_idx(4, 4);
    level.block_tile(stale);
    level.tile_content[stale].push(Entity { id: 77 });
    assert!(MapIndexingSystem::can_run(&level, &positions));
    let mut sys = MapIndexingSystem {};
    sys.run(&mut level, &positions, &blockers);
    let a = level.xy_idx(2, 2);
    let b = level.xy_idx(3, 4);
    assert_eq!(level.tile_content[a], vec![Entity { id: 1 }, Entity { id: 4 }]);
    assert_eq!(level.tile_content[b], vec![Entity { id: 2 }]);
    assert!(level.tile_content[stale].is_empty());
    assert!(level.is_tile_blocked(b));
    assert!(!level.is_tile_blocked(a));
    assert!(!level.is_tile_blocked(stale));
    assert!(level.is_tile_blocked(0));
    // a second run on the same positions gives the same index
    let blocked: Vec<bool> = (0..36).map(|i| level.is_tile_blocked(i)).collect();
    let content = level.tile_content.clone();
    sys.run(&mut level, &positions, &blockers);
    let again: Vec<bool> = (0..36).map(|i| level.is_tile_blocked(i)).collect();
    assert_eq!(blocked, again);
    assert_eq!(content, level.tile_content);
}

struct Eyes {
    level: Level,
    viewsheds: Storage<Viewshed>,
    positions: Storage<Position>,
    players: Storage<PlayerChar>,
}

fn look(e: &mut Eyes) {
    assert!(VisibilitySystem::can_run(&e.level, &e.viewsheds, &e.positions));
    let mut sys = VisibilitySystem {};
    sys.run(&mut e.level, &mut e.viewsheds, &e.positions, &e.players);
}

fn walled_room() -> Eyes {
    let mut level = open_room(9, 9);
    for x in 1..8 {
        let idx = level.xy_idx(x, 4);
        level.tiles[idx] = TileType::Wall;
    }
    Eyes { level, viewsheds: Storage::new(), positions: Storage::new(), players: Storage::new() }
}

#[test]
fn player_sight_is_clipped_by_walls_and_recorded_on_the_map() {
    let mut e = walled_room();
    let p = Entity { id: 0 };
    e.positions.insert(p, Position { x: 4, y: 2 });
    e.viewsheds.insert(p, Viewshed::new());
    e.players.insert(p, PlayerChar {});
    look(&mut e);
    let vs = e.viewsheds.get(p).unwrap();
    assert!(!vs.is_dirty);
    assert_eq!(vs.range, 8);
    assert!(vs.can_see(Coord::new(4, 2)));
    assert!(vs.can_see(Coord::new(1, 1)));
    assert!(vs.can_see(Coord::new(4, 4)));
    assert!(!vs.can_see(Coord::new(4, 6)));
    assert!(vs.visible_tiles.iter().all(|c| c.x >= 0 && c.x < 9 && c.y >= 0 && c.y < 9));
    for c in vs.visible_tiles.clone() {
        let idx = e.level.xy_idx(c.x, c.y);
        assert!(e.level.is_tile_visible(idx));
        assert!(e.level.is_tile_revealed(idx));
    }
    let far = e.level.xy_idx(4, 6);
    assert!(!e.level.is_tile_visible(far));
    assert!(!e.level.is_tile_revealed(far));
}

#[test]
fn revealed_grows_and_visible_is_replaced() {
    let mut e = walled_room();
    let p = Entity { id: 0 };
    e.positions.insert(p, Position { x: 4, y: 2 });
    e.viewsheds.insert(p, Viewshed::new());
    e.players.insert(p, PlayerChar {});
    look(&mut e);
    let n = e.level.tiles.len();
    let revealed_one: Vec<bool> = (0..n).map(|i| e.level.is_tile_revealed(i)).collect();
    let visible_one: Vec<bool> = (0..n).map(|i| e.level.is_tile_visible(i)).collect();
    // a pass with nothing out of date changes nothing
    look(&mut e);
    let visible_same: Vec<bool> = (0..n).map(|i| e.level.is_tile_visible(i)).collect();
    assert_eq!(visible_one, visible_same);
    // the player goes to the other side of the wall
    e.positions.insert(p, Position { x: 4, y: 6 });
    let mut vs = e.viewsheds.remove(p).unwrap();
    vs.is_dirty = true;
    e.viewsheds.insert(p, vs);
    look(&mut e);
    let seen: Vec<Coord> = e.viewsheds.get(p).unwrap().visible_tiles.clone();
    for i in 0..n {
        if revealed_one[i] {
            assert!(e.level.is_tile_revealed(i));
        }
        let now = seen.iter().any(|c| e.level.xy_idx(c.x, c.y) == i);
        assert_eq!(e.level.is_tile_visible(i), now);
    }
    let old_side = e.level.xy_idx(4, 2);
    assert!(e.level.is_tile_revealed(old_side));
    assert!(!e.level.is_tile_visible(old_side));
}

#[test]
fn monster_sight_leaves_the_map_alone() {
    let mut e = walled_room();
    let m = Entity { id: 3 };
    e.positions.insert(m, Position { x: 2, y: 2 });
    e.viewsheds.insert(m, Viewshed::new());
    look(&mut e);
    assert!(!e.viewsheds.get(m).unwrap().is_dirty);
    assert!(e.viewsheds.get(m).unwrap().can_see(Coord::new(3, 3)));
    assert!((0..81).all(|i| !e.level.is_tile_revealed(i) && !e.level.is_tile_visible(i)));
}

#[test]
fn visibility_refuses_viewers_off_the_map() {
    let mut e = walled_room();
    let m = Entity { id: 0 };
    e.positions.insert(m, Position { x: 9, y: 2 });
    e.viewsheds.insert(m, Viewshed::new());
    assert!(!VisibilitySystem::can_run(&e.level, &e.viewsheds, &e.positions));
    e.positions.insert(m, Position { x: 2, y: 2 });
    assert!(VisibilitySystem::can_run(&e.level, &e.viewsheds, &e.positions));
    let mut vs = e.viewsheds.remove(m).unwrap();
    vs.range = 23171;
    e.viewsheds.insert(m, vs);
    assert!(!VisibilitySystem::can_run(&e.level, &e.viewsheds, &e.positions));
}

struct Pack {
    level: Level,
    viewsheds: Storage<Viewshed>,
    monsters: Storage<MonsterChar>,
    names: Storage<GameplayName>,
    positions: Storage<Position>,
    intents: Storage<MeleeAttackIntent>,
}

fn pack() -> Pack {
    Pack {
        level: open_room(12, 12),
        viewsheds: Storage::new(),
        monsters: Storage::new(),
        names: Storage::new(),
        positions: Storage::new(),
        intents: Storage::new(),
    }
}

fn add_monster(p: &mut Pack, id: usize, x: i32, y: i32, sees: Vec<Coord>) {
    let e = Entity { id };
    p.positions.insert(e, Position { x, y });
    p.monsters.insert(e, MonsterChar {});
    named(&mut p.names, id, "Orc");
    p.viewsheds.insert(e, Viewshed { visible_tiles: sees, range: 8, is_dirty: false });
}

fn scan(p: &mut Pack, ai: &mut MonsterAISystem, status: GameStatus) -> MonsterStep {
    assert!(MonsterAISystem::can_run(&p.level, Coord::new(5, 5), &p.positions));
    ai.run(
        &p.level,
        Coord::new(5, 5),
        Entity { id: 0 },
        status,
        &p.viewsheds,
        &p.monsters,
        &p.names,
        &p.positions,
        &mut p.intents,
    )
}

#[test]
fn monsters_do_nothing_outside_their_turn() {
    let mut p = pack();
    add_monster(&mut p, 1, 6, 5, vec![Coord::new(5, 5)]);
    for status in [GameStatus::PreTurn, GameStatus::AwaitingInput, GameStatus::PlayerTurn] {
        let mut ai = MonsterAISystem::new();
        assert_eq!(scan(&mut p, &mut ai, status), MonsterStep::Finished);
        assert!(!p.intents.contains(Entity { id: 1 }));
        assert_eq!(ai.next, 0);
    }
}

#[test]
fn adjacent_monsters_attack_and_unseeing_ones_idle() {
    let mut p = pack();
    add_monster(&mut p, 1, 6, 5, vec![]);
    add_monster(&mut p, 2, 4, 4, vec![Coord::new(5, 5)]);
    add_monster(&mut p, 3, 9, 9, vec![Coord::new(9, 8)]);
    // at distance two: not adjacent
    add_monster(&mut p, 4, 7, 5, vec![]);
    let mut ai = MonsterAISystem::new();
    assert_eq!(scan(&mut p, &mut ai, GameStatus::MonsterTurn), MonsterStep::Finished);
    assert_eq!(p.intents.get(Entity { id: 1 }).unwrap().target, Entity { id: 0 });
    assert_eq!(p.intents.get(Entity { id: 2 }).unwrap().target, Entity { id: 0 });
    assert!(!p.intents.contains(Entity { id: 3 }));
    assert!(!p.intents.contains(Entity { id: 4 }));
    assert_eq!(*p.positions.get(Entity { id: 1 }).unwrap(), Position { x: 6, y: 5 });
    assert!(ai.next >= 5);
}

#[test]
fn seeing_monster_asks_for_a_path_and_follows_it() {
    let mut p = pack();
    add_monster(&mut p, 1, 6, 5, vec![]);
    add_monster(&mut p, 2, 8, 5, vec![Coord::new(5, 5)]);
    add_monster(&mut p, 3, 5, 6, vec![]);
    let mut ai = MonsterAISystem::new();
    let step = scan(&mut p, &mut ai, GameStatus::MonsterTurn);
    let start = p.level.xy_idx(8, 5);
    let goal = p.level.xy_idx(5, 5);
    assert_eq!(step, MonsterStep::NeedPath { actor: Entity { id: 2 }, start, goal });
    assert_eq!(ai.next, 2);
    assert!(p.intents.contains(Entity { id: 1 }));
    assert!(!p.intents.contains(Entity { id: 3 }));
    let next_tile = p.level.xy_idx(7, 5);
    let steps = vec![start, next_tile, p.level.xy_idx(6, 5), goal];
    ai.follow_path(
        true,
        &steps,
        &mut p.level,
        Coord::new(5, 5),
        &mut p.viewsheds,
        &p.monsters,
        &p.names,
        &mut p.positions,
    );
    assert_eq!(ai.next, 3);
    assert_eq!(*p.positions.get(Entity { id: 2 }).unwrap(), Position { x: 7, y: 5 });
    assert!(p.level.is_tile_blocked(next_tile));
    assert!(p.viewsheds.get(Entity { id: 2 }).unwrap().is_dirty);
    assert_eq!(p.viewsheds.get(Entity { id: 2 }).unwrap().visible_tiles, vec![Coord::new(5, 5)]);
    // the one that moved declared no attack
    assert!(!p.intents.contains(Entity { id: 2 }));
    assert_eq!(scan(&mut p, &mut ai, GameStatus::MonsterTurn), MonsterStep::Finished);
    assert!(p.intents.contains(Entity { id: 3 }));
}

#[test]
fn a_path_that_leads_nowhere_leaves_the_monster_idle() {
    // tile 67 is (7, 5), next to the monster; tile 66 is (6, 5), two away
    for (found, steps) in [
        (false, vec![68usize, 67, 66]),
        (true, vec![]),
        (true, vec![68]),
        (true, vec![68, 144]),
        (true, vec![68, 66]),
        (true, vec![68, 13]),
    ] {
        let mut p = pack();
        add_monster(&mut p, 0, 8, 5, vec![Coord::new(5, 5)]);
        let mut ai = MonsterAISystem::new();
        let step = scan(&mut p, &mut ai, GameStatus::MonsterTurn);
        assert!(step != MonsterStep::Finished);
        ai.follow_path(
            found,
            &steps,
            &mut p.level,
            Coord::new(5, 5),
            &mut p.viewsheds,
            &p.monsters,
            &p.names,
            &mut p.positions,
        );
        assert_eq!(ai.next, 1);
        assert_eq!(*p.positions.get(Entity { id: 0 }).unwrap(), Position { x: 8, y: 5 });
        assert!(!p.viewsheds.get(Entity { id: 0 }).unwrap().is_dirty);
        assert!((0..144).all(|i| !p.level.is_tile_blocked(i)));
    }
}

#[test]
fn a_path_for_an_actor_that_does_not_seek_changes_nothing() {
    let mut p = pack();
    add_monster(&mut p, 0, 6, 5, vec![Coord::new(5, 5)]);
    let mut ai = MonsterAISystem::new();
    let steps = vec![p.level.xy_idx(6, 5), p.level.xy_idx(7, 5)];
    ai.follow_path(
        true,
        &steps,
        &mut p.level,
        Coord::new(5, 5),
        &mut p.viewsheds,
        &p.monsters,
        &p.names,
        &mut p.positions,
    );
    assert_eq!(ai.next, 0);
    assert_eq!(*p.positions.get(Entity { id: 0 }).unwrap(), Position { x: 6, y: 5 });
}

#[test]
fn indexing_and_monsters_refuse_places_off_the_map() {
    let level = open_room(6, 6);
    let mut positions: Storage<Position> = Storage::new();
    positions.insert(Entity { id: 0 }, Position { x: 5, y: 5 });
    assert!(MapIndexingSystem::can_run(&level, &positions));
    assert!(MonsterAISystem::can_run(&level, Coord::new(0, 0), &positions));
    assert!(!MonsterAISystem::can_run(&level, Coord::new(6, 0), &positions));
    positions.insert(Entity { id: 3 }, Position { x: 2, y: -1 });
    assert!(!MapIndexingSystem::can_run(&level, &positions));
    assert!(!MonsterAISystem::can_run(&level, Coord::new(0, 0), &positions));
    let mut broken = open_room(6, 6);
    broken.tile_content.pop();
    assert!(!MapIndexingSystem::can_run(&broken, &Storage::new()));
}

#[test]
fn sight_is_taken_in_as_given() {
    let cells = vec![
        Coord::new(2, 2),
        Coord::new(-1, 2),
        Coord::new(3, 2),
        Coord::new(2, 6),
        Coord::new(2, 2),
        Coord::new(5, 5),
    ];
    let level = open_room(6, 6);
    assert_eq!(
        clip_to_map(cells.clone(), &level),
        vec![Coord::new(2, 2), Coord::new(3, 2), Coord::new(2, 2), Coord::new(5, 5)]
    );

    // a monster's sight leaves the map alone
    let mut level = open_room(6, 6);
    level.reveal_tile(0);
    let mut vs = Viewshed { visible_tiles: vec![Coord::new(4, 4)], range: 3, is_dirty: true };
    take_in(&mut level, &mut vs, false, cells.clone());
    assert_eq!(
        vs.visible_tiles,
        vec![Coord::new(2, 2), Coord::new(3, 2), Coord::new(2, 2), Coord::new(5, 5)]
    );
    assert!(!vs.is_dirty);
    assert_eq!(vs.range, 3);
    for i in 0..36 {
        assert_eq!(level.is_tile_visible(i), i == 0);
        assert_eq!(level.is_tile_revealed(i), i == 0);
    }

    // a player's sight replaces what is visible and adds to what is revealed
    let mut vs = Viewshed { visible_tiles: vec![], range: 8, is_dirty: true };
    take_in(&mut level, &mut vs, true, cells);
    let seen = [14usize, 15, 35];
    for i in 0..36 {
        assert_eq!(level.is_tile_visible(i), seen.contains(&i));
        assert_eq!(level.is_tile_revealed(i), i == 0 || seen.contains(&i));
    }
}
