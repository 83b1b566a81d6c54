use roguelike::components::{CombatStats, GameplayName, MeleeAttackIntent, Position};
use roguelike::game_state::{
    destroy_dead_entities, move_player, process_input, GameStatus, Key, State,
};
use roguelike::geometry::Coord;
use roguelike::level::{Level, TileType};
use roguelike::spawner::{spawn_monster, spawn_player};
use roguelike::storage::Entity;
use roguelike::systems::{MapIndexingSystem, MonsterStep};
use roguelike::world::World;

fn open_room(width: i32, height: i32) -> Level {
    let mut level = Level::solid(width, height);
    for y in 1..height - 1 {
        for x in 1..width - 1 {
            let idx = level.xy_idx(x, y);
            level.tiles[idx] = TileType::Floor;
        }
    }
    level
}

fn world_with_player(x: i32, y: i32) -> World {
    let mut world = World::new(open_room(12, 12));
    let player = spawn_player(&mut world, (x, y));
    world.player = player;
    world.player_pos = Coord::new(x, y);
    world
}

fn index(world: &mut World) {
    let mut sys = MapIndexingSystem {};
    sys.run(&mut world.level, &world.positions, &world.blockers);
}

fn hp(world: &World, e: Entity) -> i32 {
    world.stats.get(e).unwrap().hp
}

fn tick(gs: &mut State, key: Option<Key>) -> MonsterStep {
    assert!(!gs.waiting);
    assert!(gs.has_headroom());
    gs.tick(key)
}

struct PathMap<'a>(&'a Level);

impl rltk::BaseMap for PathMap<'_> {
    fn is_opaque(&self, idx: usize) -> bool {
        self.0.blocks_sight(idx)
    }

    fn get_available_exits(&self, idx: usize) -> rltk::SmallVec<[(usize, f32); 10]> {
        let mut exits = rltk::SmallVec::new();
        if idx < self.0.tiles.len() {
            for (to, cost) in self.0.get_available_exits(idx) {
                exits.push((to, cost as f32 / 100.0));
            }
        }
        exits
    }

    fn get_pathing_distance(&self, idx1: usize, idx2: usize) -> f32 {
        let w = self.0.width as usize;
        let p1 = rltk::Point::new(idx1 % w, idx1 / w);
        let p2 = rltk::Point::new(idx2 % w, idx2 / w);
        rltk::DistanceAlg::Pythagoras.distance2d(p1, p2)
    }
}

/// Runs a tick to its end, searching the paths that the monsters ask for.
fn full_tick(gs: &mut State, key: Option<Key>) {
    let mut step = tick(gs, key);
    loop {
        match step {
            MonsterStep::Finished => break,
            MonsterStep::NeedPath { start, goal, .. } => {
                assert!(gs.waiting);
                let path = rltk::a_star_search(start, goal, &PathMap(&gs.ecs.level));
                step = gs.resume(path.success, &path.steps);
            }
        }
    }
    assert!(!gs.waiting);
}

#[test]
fn spawned_player_and_monster_carry_what_they_should() {
    let mut world = world_with_player(5, 5);
    let player = world.player;
    let monster = spawn_monster(&mut world, (6, 5), "Orc");
    assert_eq!(player, Entity { id: 0 });
    assert_eq!(monster, Entity { id: 1 });
    assert_eq!(world.next_id, 2);
    assert_eq!(
        *world.stats.get(player).unwrap(),
        CombatStats { max_hp: 30, hp: 30, defense: 2, power: 5 }
    );
    assert_eq!(
        *world.stats.get(monster).unwrap(),
        CombatStats { max_hp: 16, hp: 16, defense: 1, power: 4 }
    );
    assert_eq!(world.names.get(player).unwrap().name, "Player");
    assert_eq!(world.names.get(monster).unwrap().name, "Orc");
    assert!(world.players.contains(player) && !world.players.contains(monster));
    assert!(world.monsters.contains(monster) && !world.monsters.contains(player));
    assert!(world.blockers.contains(monster) && !world.blockers.contains(player));
    assert_eq!(*world.positions.get(monster).unwrap(), Position { x: 6, y: 5 });
    let vs = world.viewsheds.get(monster).unwrap();
    assert!(vs.is_dirty && vs.range == 8 && vs.visible_tiles.is_empty());
}

#[test]
fn player_steps_onto_a_free_tile() {
    let mut world = world_with_player(5, 5);
    index(&mut world);
    let mut vs = world.viewsheds.remove(world.player).unwrap();
    vs.is_dirty = false;
    world.viewsheds.insert(world.player, vs);
    move_player(1, -1, &mut world);
    assert_eq!(*world.positions.get(world.player).unwrap(), Position { x: 6, y: 4 });
    assert_eq!(world.player_pos, Coord::new(6, 4));
    assert!(world.viewsheds.get(world.player).unwrap().is_dirty);
    assert!(!world.melee_intents.contains(world.player));
}

#[test]
fn player_attacks_instead_of_moving() {
    let mut world = world_with_player(5, 5);
    let monster = spawn_monster(&mut world, (6, 5), "Orc");
    index(&mut world);
    let mut vs = world.viewsheds.remove(world.player).unwrap();
    vs.is_dirty = false;
    world.viewsheds.insert(world.player, vs);
    move_player(1, 0, &mut world);
    assert_eq!(
        *world.melee_intents.get(world.player).unwrap(),
        MeleeAttackIntent { target: monster }
    );
    assert_eq!(*world.positions.get(world.player).unwrap(), Position { x: 5, y: 5 });
    assert_eq!(world.player_pos, Coord::new(5, 5));
    assert!(!world.viewsheds.get(world.player).unwrap().is_dirty);
}

#[test]
fn player_attacks_the_first_occupant_with_stats() {
    let mut world = world_with_player(5, 5);
    // an occupant without stats comes first in the list and is passed over
    let thing = world.create_entity();
    world.positions.insert(thing, Position { x: 5, y: 6 });
    let first = spawn_monster(&mut world, (5, 6), "Orc");
    let _second = spawn_monster(&mut world, (5, 6), "Goblin");
    index(&mut world);
    move_player(0, 1, &mut world);
    assert_eq!(world.melee_intents.get(world.player).unwrap().target, first);
}

#[test]
fn player_is_stopped_by_walls_and_the_edge() {
    let mut world = world_with_player(1, 1);
    index(&mut world);
    let mut vs = world.viewsheds.remove(world.player).unwrap();
    vs.is_dirty = false;
    world.viewsheds.insert(world.player, vs);
    move_player(-1, 0, &mut world);
    move_player(0, -1, &mut world);
    move_player(-5, -5, &mut world);
    move_player(i32::MAX, i32::MAX, &mut world);
    move_player(i32::MIN, 0, &mut world);
    assert_eq!(*world.positions.get(world.player).unwrap(), Position { x: 1, y: 1 });
    assert!(!world.viewsheds.get(world.player).unwrap().is_dirty);
    assert!(!world.melee_intents.contains(world.player));
}

#[test]
fn sweep_destroys_dead_monsters_and_keeps_the_player() {
    let mut world = world_with_player(5, 5);
    let orc = spawn_monster(&mut world, (6, 5), "Orc");
    let goblin = spawn_monster(&mut world, (7, 5), "Goblin");
    let nameless = spawn_monster(&mut world, (8, 5), "Rat");
    world.names.remove(nameless);
    for (e, hp) in [(world.player, 0), (orc, -3), (goblin, 1), (nameless, 0)] {
        let mut s = *world.stats.get(e).unwrap();
        s.hp = hp;
        world.stats.insert(e, s);
    }
    destroy_dead_entities(&mut world);
    assert_eq!(
        world.log.entries,
        vec!["You are dead. Not a big surprise!".to_string(), "Orc dies.".to_string()]
    );
    assert!(world.stats.contains(world.player));
    assert_eq!(hp(&world, world.player), 0);
    assert!(world.positions.contains(world.player));
    for gone in [orc] {
        assert!(!world.stats.contains(gone));
        assert!(!world.positions.contains(gone));
        assert!(!world.names.contains(gone));
        assert!(!world.viewsheds.contains(gone));
        assert!(!world.monsters.contains(gone));
        assert!(!world.blockers.contains(gone));
    }
    assert!(world.stats.contains(goblin) && world.positions.contains(goblin));
    assert!(world.stats.contains(nameless) && world.positions.contains(nameless));
    // the dead player is reported once per sweep
    destroy_dead_entities(&mut world);
    assert_eq!(world.log.entries.len(), 3);
    assert_eq!(world.log.entries[2], "You are dead. Not a big surprise!");
}

#[test]
fn input_maps_keys_to_steps() {
    let steps = [
        (Key::Left, (-1, 0)),
        (Key::A, (-1, 0)),
        (Key::Right, (1, 0)),
        (Key::D, (1, 0)),
        (Key::Up, (0, -1)),
        (Key::W, (0, -1)),
        (Key::Down, (0, 1)),
        (Key::S, (0, 1)),
        (Key::Q, (-1, -1)),
        (Key::E, (1, -1)),
        (Key::C, (1, 1)),
        (Key::Z, (-1, 1)),
    ];
    for (key, (dx, dy)) in steps {
        let mut world = world_with_player(5, 5);
        index(&mut world);
        let mut gs = State::new(world);
        assert_eq!(process_input(&mut gs, Some(key)), GameStatus::PlayerTurn);
        assert_eq!(
            *gs.ecs.positions.get(gs.ecs.player).unwrap(),
            Position { x: 5 + dx, y: 5 + dy }
        );
    }
    for (key, next) in [
        (Some(Key::Space), GameStatus::PlayerTurn),
        (Some(Key::Other), GameStatus::AwaitingInput),
        (None, GameStatus::AwaitingInput),
    ] {
        let mut world = world_with_player(5, 5);
        index(&mut world);
        let mut gs = State::new(world);
        assert_eq!(process_input(&mut gs, key), next);
        assert_eq!(*gs.ecs.positions.get(gs.ecs.player).unwrap(), Position { x: 5, y: 5 });
    }
}

#[test]
fn status_goes_round_in_the_fixed_order() {
    let world = world_with_player(5, 5);
    let mut gs = State::new(world);
    assert!(gs.ecs.status == GameStatus::PreTurn);
    full_tick(&mut gs, None);
    assert!(gs.ecs.status == GameStatus::AwaitingInput);
    // the first pass has settled what the player sees
    assert!(!gs.ecs.viewsheds.get(gs.ecs.player).unwrap().is_dirty);
    let here = gs.ecs.level.xy_idx(5, 5);
    assert!(gs.ecs.level.is_tile_visible(here));
    full_tick(&mut gs, None);
    assert!(gs.ecs.status == GameStatus::AwaitingInput);
    full_tick(&mut gs, Some(Key::Other));
    assert!(gs.ecs.status == GameStatus::AwaitingInput);
    full_tick(&mut gs, Some(Key::Space));
    assert!(gs.ecs.status == GameStatus::PlayerTurn);
    full_tick(&mut gs, Some(Key::Left));
    assert!(gs.ecs.status == GameStatus::MonsterTurn);
    // the key meant nothing outside of the wait for input
    assert_eq!(*gs.ecs.positions.get(gs.ecs.player).unwrap(), Position { x: 5, y: 5 });
    full_tick(&mut gs, None);
    assert!(gs.ecs.status == GameStatus::AwaitingInput);
    full_tick(&mut gs, Some(Key::Left));
    assert!(gs.ecs.status == GameStatus::PlayerTurn);
    assert_eq!(*gs.ecs.positions.get(gs.ecs.player).unwrap(), Position { x: 4, y: 5 });
}

fn no_transients(gs: &State) {
    for id in 0..gs.ecs.next_id {
        assert!(!gs.ecs.melee_intents.contains(Entity { id }));
        assert!(!gs.ecs.incoming_damage.contains(Entity { id }));
    }
}

fn cycle(gs: &mut State, key: Key) {
    assert!(gs.ecs.status == GameStatus::AwaitingInput);
    full_tick(gs, Some(key));
    assert!(gs.ecs.status == GameStatus::PlayerTurn);
    full_tick(gs, None);
    no_transients(gs);
    assert!(gs.ecs.status == GameStatus::MonsterTurn);
    full_tick(gs, None);
    no_transients(gs);
    assert!(gs.ecs.status == GameStatus::AwaitingInput);
}

#[test]
fn duel_of_player_and_adjacent_monster() {
    let mut world = world_with_player(5, 5);
    let player = world.player;
    let monster = spawn_monster(&mut world, (6, 5), "Goblin");
    let mut gs = State::new(world);
    full_tick(&mut gs, None);
    no_transients(&gs);

    cycle(&mut gs, Key::Right);
    assert_eq!(hp(&gs.ecs, monster), 12);
    assert_eq!(gs.ecs.stats.get(monster).unwrap().max_hp, 16);
    assert_eq!(hp(&gs.ecs, player), 28);
    assert_eq!(gs.ecs.stats.get(player).unwrap().max_hp, 30);
    assert_eq!(
        gs.ecs.log.entries,
        vec![
            "Player hits Goblin for 4 dmg".to_string(),
            "Goblin (12/16) received 4 dmg".to_string(),
            "Goblin hits Player for 2 dmg".to_string(),
            "Player (28/30) received 2 dmg".to_string(),
        ]
    );
    // neither of them moved
    assert_eq!(*gs.ecs.positions.get(player).unwrap(), Position { x: 5, y: 5 });
    assert_eq!(*gs.ecs.positions.get(monster).unwrap(), Position { x: 6, y: 5 });

    cycle(&mut gs, Key::Right);
    assert_eq!((hp(&gs.ecs, monster), hp(&gs.ecs, player)), (8, 26));
    cycle(&mut gs, Key::Right);
    assert_eq!((hp(&gs.ecs, monster), hp(&gs.ecs, player)), (4, 24));

    // the fourth blow brings the monster to zero: it is reported and destroyed
    cycle(&mut gs, Key::Right);
    assert!(!gs.ecs.stats.contains(monster));
    assert!(!gs.ecs.positions.contains(monster));
    assert!(!gs.ecs.names.contains(monster));
    assert_eq!(hp(&gs.ecs, player), 24);
    let deaths = gs.ecs.log.entries.iter().filter(|e| *e == "Goblin dies.").count();
    assert_eq!(deaths, 1);
    let n = gs.ecs.log.entries.len();
    assert_eq!(gs.ecs.log.entries[n - 3], "Player hits Goblin for 4 dmg");
    assert_eq!(gs.ecs.log.entries[n - 2], "Goblin (0/16) received 4 dmg");
    assert_eq!(gs.ecs.log.entries[n - 1], "Goblin dies.");

    // nothing is left to attack: the same key is a step now
    for round in 0..3 {
        full_tick(&mut gs, Some(Key::Right));
        assert!(!gs.ecs.melee_intents.contains(player));
        assert_eq!(*gs.ecs.positions.get(player).unwrap(), Position { x: 6 + round, y: 5 });
        full_tick(&mut gs, None);
        full_tick(&mut gs, None);
        assert_eq!(hp(&gs.ecs, player), 24);
        assert_eq!(gs.ecs.log.entries.len(), n);
    }
}

#[test]
fn monster_walks_up_to_the_player_and_strikes() {
    let mut world = world_with_player(2, 2);
    let player = world.player;
    let monster = spawn_monster(&mut world, (6, 2), "Orc");
    let mut gs = State::new(world);
    full_tick(&mut gs, None);
    assert!(gs.ecs.status == GameStatus::AwaitingInput);
    // three turns of waiting bring the monster next to the player
    for x in [5, 4, 3] {
        full_tick(&mut gs, Some(Key::Space));
        full_tick(&mut gs, None);
        assert!(gs.ecs.status == GameStatus::MonsterTurn);
        let step = tick(&mut gs, None);
        let start = gs.ecs.level.xy_idx(x + 1, 2);
        let goal = gs.ecs.level.xy_idx(2, 2);
        assert_eq!(step, MonsterStep::NeedPath { actor: monster, start, goal });
        assert!(gs.waiting);
        assert!(gs.ecs.status == GameStatus::MonsterTurn);
        let path = rltk::a_star_search(start, goal, &PathMap(&gs.ecs.level));
        assert!(path.success);
        assert_eq!(gs.resume(path.success, &path.steps), MonsterStep::Finished);
        assert!(!gs.waiting);
        assert!(gs.ecs.status == GameStatus::AwaitingInput);
        assert_eq!(*gs.ecs.positions.get(monster).unwrap(), Position { x, y: 2 });
        assert!(!gs.ecs.melee_intents.contains(monster));
        assert_eq!(hp(&gs.ecs, player), 30);
        // the index of this turn has the monster on its new tile
        let tile = gs.ecs.level.xy_idx(x, 2);
        assert_eq!(gs.ecs.level.tile_content[tile], vec![monster]);
        assert!(gs.ecs.level.is_tile_blocked(tile));
    }
    full_tick(&mut gs, Some(Key::Space));
    full_tick(&mut gs, None);
    assert_eq!(tick(&mut gs, None), MonsterStep::Finished);
    assert_eq!(*gs.ecs.positions.get(monster).unwrap(), Position { x: 3, y: 2 });
    assert_eq!(hp(&gs.ecs, player), 28);
}

#[test]
fn headroom_is_told_from_hit_points_and_defense() {
    let mut world = world_with_player(5, 5);
    let player = world.player;
    let mut s = *world.stats.get(player).unwrap();
    s.hp = i32::MIN + 65533;
    s.defense = 2;
    world.stats.insert(player, s);
    let mut gs = State::new(world);
    assert!(gs.has_headroom());
    let mut s = *gs.ecs.stats.get(player).unwrap();
    s.hp = i32::MIN + 65532;
    gs.ecs.stats.insert(player, s);
    assert!(!gs.has_headroom());
    s.defense = 70000;
    gs.ecs.stats.insert(player, s);
    assert!(gs.has_headroom());
    let _ = GameplayName { name: String::new() };
}

#[test]
fn dead_player_is_reported_once_per_turn_and_not_while_waiting() {
    let mut world = world_with_player(5, 5);
    let player = world.player;
    let mut s = *world.stats.get(player).unwrap();
    s.hp = 0;
    world.stats.insert(player, s);
    let mut gs = State::new(world);
    let death = "You are dead. Not a big surprise!".to_string();
    full_tick(&mut gs, None);
    assert_eq!(gs.ecs.log.entries, vec![death.clone()]);
    assert!(gs.ecs.status == GameStatus::AwaitingInput);
    for key in [None, Some(Key::Other), None] {
        full_tick(&mut gs, key);
        assert_eq!(gs.ecs.log.entries.len(), 1);
    }
    full_tick(&mut gs, Some(Key::Space));
    assert_eq!(gs.ecs.log.entries.len(), 1);
    full_tick(&mut gs, None);
    assert_eq!(gs.ecs.log.entries, vec![death.clone(), death.clone()]);
    full_tick(&mut gs, None);
    assert_eq!(gs.ecs.log.entries, vec![death.clone(), death.clone(), death.clone()]);
    assert!(gs.ecs.stats.contains(player));
    assert_eq!(hp(&gs.ecs, player), 0);
    assert!(gs.ecs.positions.contains(player));
}

#[test]
fn held_up_turn_keeps_its_intents_until_it_ends() {
    let mut world = world_with_player(2, 2);
    let near = spawn_monster(&mut world, (3, 3), "Goblin");
    let far = spawn_monster(&mut world, (6, 2), "Orc");
    let mut gs = State::new(world);
    full_tick(&mut gs, None);
    full_tick(&mut gs, Some(Key::Space));
    full_tick(&mut gs, None);
    let step = tick(&mut gs, None);
    assert!(matches!(step, MonsterStep::NeedPath { actor, .. } if actor == far));
    // the monster next to the player has declared its attack, and the other
    // one is still where it was
    assert_eq!(gs.ecs.melee_intents.get(near).unwrap().target, gs.ecs.player);
    assert!(!gs.ecs.melee_intents.contains(far));
    assert_eq!(*gs.ecs.positions.get(far).unwrap(), Position { x: 6, y: 2 });
    assert_eq!(hp(&gs.ecs, gs.ecs.player), 30);
    assert!(gs.is_wf() && gs.has_headroom());
    // no way is found: the monster idles and the turn comes to its end
    assert_eq!(gs.resume(false, &vec![]), MonsterStep::Finished);
    assert_eq!(*gs.ecs.positions.get(far).unwrap(), Position { x: 6, y: 2 });
    assert_eq!(hp(&gs.ecs, gs.ecs.player), 28);
    no_transients(&gs);
    assert!(gs.ecs.status == GameStatus::AwaitingInput);
    assert!(gs.is_wf());
}

#[test]
fn checked_entry_points_refuse_what_they_cannot_handle() {
    // no player with stats: no game
    let world = World::new(open_room(6, 6));
    assert!(State::try_new(world).is_none());
    let mut gs = State::try_new(world_with_player(3, 3)).unwrap();
    assert!(!gs.waiting);
    // nothing is held up, so there is nothing to resume
    assert_eq!(gs.try_resume(true, &vec![1, 2]), None);
    assert!(gs.ecs.status == GameStatus::PreTurn);
    assert_eq!(gs.try_tick(None), Some(MonsterStep::Finished));
    assert!(gs.ecs.status == GameStatus::AwaitingInput);
    // without headroom the systems do not run, but input is still answered
    let player = gs.ecs.player;
    let mut s = *gs.ecs.stats.get(player).unwrap();
    s.hp = i32::MIN + 10;
    gs.ecs.stats.insert(player, s);
    assert_eq!(gs.try_tick(Some(Key::Space)), Some(MonsterStep::Finished));
    assert!(gs.ecs.status == GameStatus::PlayerTurn);
    assert_eq!(gs.try_tick(None), None);
    assert!(gs.ecs.status == GameStatus::PlayerTurn);
    s.hp = 5;
    gs.ecs.stats.insert(player, s);
    assert_eq!(gs.try_tick(None), Some(MonsterStep::Finished));
    assert!(gs.ecs.status == GameStatus::MonsterTurn);
    // a world out of order is refused
    gs.ecs.positions.insert(player, Position { x: 40, y: 3 });
    assert_eq!(gs.try_tick(None), None);
    assert!(gs.ecs.status == GameStatus::MonsterTurn);
}

#[test]
fn held_up_game_takes_no_tick() {
    let mut world = world_with_player(2, 2);
    spawn_monster(&mut world, (6, 2), "Orc");
    let mut gs = State::try_new(world).unwrap();
    full_tick(&mut gs, None);
    full_tick(&mut gs, Some(Key::Space));
    full_tick(&mut gs, None);
    let step = gs.try_tick(None).unwrap();
    assert!(step != MonsterStep::Finished);
    assert!(gs.waiting);
    assert_eq!(gs.try_tick(None), None);
    assert!(gs.waiting);
    let start = gs.ecs.level.xy_idx(6, 2);
    let goal = gs.ecs.level.xy_idx(2, 2);
    let path = rltk::a_star_search(start, goal, &PathMap(&gs.ecs.level));
    assert_eq!(gs.try_resume(path.success, &path.steps), Some(MonsterStep::Finished));
    assert!(!gs.waiting);
}
