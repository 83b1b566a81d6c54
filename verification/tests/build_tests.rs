use roguelike::components::{CombatStats, LeftMover, MeleeAttackIntent, Position};
use roguelike::game_state::{GameStatus, State};
use roguelike::geometry::{Coord, Rect};
use roguelike::level::{
    dig_corridor, Level, TileType, MAP_HEIGHT_PIX, MAP_PIXELCOUNT, MAP_WIDTH_PIX, NUM_MAX_ROOMS,
};
use roguelike::spawner::{
    find_new_item_idx, find_new_monster_idx, is_taken, place_room_content, room_can_hold_spawns,
    spawn_health_potion, spawn_monster, spawn_player, spawn_rand_monster, spawn_rolled_monster,
    spawn_room_content, try_place,
};
use roguelike::storage::{Entity, Storage};
use roguelike::systems::_LeftMoverSystem;
use roguelike::world::World;

fn open_room(width: i32, height: i32) -> Level {
    let mut level = Level::solid(width, height);
    for y in 1..height - 1 {
        for x in 1..width - 1 {
            let idx = level.xy_idx(x, y);
            level.tiles[idx] = TileType::Floor;
        }
    }
    level
}

fn floor(level: &Level, x: i32, y: i32) -> bool {
    level.tiles[level.xy_idx(x, y)] == TileType::Floor
}

#[test]
fn rect_corners_overlap_and_center() {
    let r = Rect::new(2, 3, 6, 8);
    assert_eq!(r, Rect { x1: 2, y1: 3, x2: 8, y2: 11 });
    assert_eq!(r.get_center(), (5, 7));
    assert!(r.intersects(&Rect::new(8, 11, 2, 2)));
    assert!(r.intersects(&Rect::new(0, 0, 2, 3)));
    assert!(!r.intersects(&Rect::new(9, 3, 2, 2)));
    assert!(!r.intersects(&Rect::new(2, 12, 2, 2)));
    assert!(r.intersects(&r));
    assert_eq!(Rect { x1: -3, y1: -4, x2: 0, y2: -1 }.get_center(), (-1, -2));
    assert_eq!(Rect { x1: i32::MAX, y1: i32::MIN, x2: i32::MAX, y2: i32::MIN }.get_center(), (
        i32::MAX,
        i32::MIN
    ));
}

#[test]
fn rooms_and_tunnels_are_dug_where_asked() {
    let mut level = Level::solid(10, 8);
    level.apply_room(&Rect::new(1, 1, 3, 2));
    for y in 0..8 {
        for x in 0..10 {
            assert_eq!(floor(&level, x, y), 2 <= x && x <= 4 && 2 <= y && y <= 3);
        }
    }
    let mut level = Level::solid(10, 8);
    level.apply_horiz_tunnel(7, 2, 5);
    level.apply_vert_tunnel(1, 6, 8);
    for y in 0..8 {
        for x in 0..10 {
            let dug = (y == 5 && 2 <= x && x <= 7) || (x == 8 && 1 <= y && y <= 6);
            assert_eq!(floor(&level, x, y), dug);
        }
    }
    // the very first tile is spared
    let mut level = Level::solid(10, 8);
    level.apply_horiz_tunnel(0, 3, 0);
    level.apply_vert_tunnel(2, 0, 0);
    assert!(!floor(&level, 0, 0));
    assert!(floor(&level, 1, 0) && floor(&level, 3, 0) && floor(&level, 0, 1) && floor(&level, 0, 2));
}

#[test]
fn generated_map_keeps_its_promises() {
    for _ in 0..20 {
        let level = Level::new();
        assert!(level.is_wf());
        assert_eq!(level.width as usize, MAP_WIDTH_PIX);
        assert_eq!(level.height as usize, MAP_HEIGHT_PIX);
        assert_eq!(level.tiles.len(), MAP_PIXELCOUNT);
        assert_eq!(MAP_PIXELCOUNT, 3440);
        assert!(!level.rooms.is_empty());
        assert!(level.rooms.len() <= NUM_MAX_ROOMS);
        assert!(level.tile_content.iter().all(|c| c.is_empty()));
        for i in 0..MAP_PIXELCOUNT {
            assert!(!level.is_tile_blocked(i));
            assert!(!level.is_tile_revealed(i));
            assert!(!level.is_tile_visible(i));
        }
        for (i, room) in level.rooms.iter().enumerate() {
            assert!(0 <= room.x1 && room.x2 <= 78 && 0 <= room.y1 && room.y2 <= 41);
            assert!(6 <= room.x2 - room.x1 && room.x2 - room.x1 < 10);
            assert!(6 <= room.y2 - room.y1 && room.y2 - room.y1 < 10);
            for other in level.rooms.iter().skip(i + 1) {
                assert!(!room.intersects(other));
            }
            for y in room.y1 + 1..=room.y2 {
                for x in room.x1 + 1..=room.x2 {
                    assert!(floor(&level, x, y));
                }
            }
            if i > 0 {
                let (px, py) = level.rooms[i - 1].get_center();
                let (nx, ny) = room.get_center();
                let row = |y: i32| (px.min(nx)..=px.max(nx)).all(|x| floor(&level, x, y));
                let col = |x: i32| (py.min(ny)..=py.max(ny)).all(|y| floor(&level, x, y));
                assert!((row(py) && col(nx)) || (col(px) && row(ny)));
            }
        }
        for y in 0..43 {
            for x in 0..80 {
                if x == 0 || x == 79 || y == 0 || y == 42 {
                    assert!(!floor(&level, x, y));
                }
            }
        }
    }
}

#[test]
fn potion_is_an_item_that_heals_eight() {
    let mut world = World::new(open_room(10, 10));
    let potion = spawn_health_potion(&mut world, 3, 4);
    assert_eq!(potion, Entity { id: 0 });
    assert_eq!(*world.positions.get(potion).unwrap(), Position { x: 3, y: 4 });
    assert_eq!(world.names.get(potion).unwrap().name, "Health Potion");
    assert!(world.items.contains(potion));
    assert_eq!(world.healers.get(potion).unwrap().heal_amount, 8);
    assert!(!world.stats.contains(potion));
    assert!(!world.viewsheds.contains(potion));
    assert!(world.is_wf());
}

#[test]
fn random_monster_is_an_orc_or_a_goblin() {
    let mut seen_orc = false;
    let mut seen_goblin = false;
    for seed in 0..40 {
        let mut rng = rltk::RandomNumberGenerator::seeded(seed);
        let mut world = World::new(open_room(10, 10));
        spawn_rand_monster(&mut world, &mut rng, (2, 3));
        let e = Entity { id: 0 };
        assert_eq!(world.next_id, 1);
        let name = world.names.get(e).unwrap().name.clone();
        assert!(name == "Orc" || name == "Goblin");
        seen_orc |= name == "Orc";
        seen_goblin |= name == "Goblin";
        assert_eq!(
            *world.stats.get(e).unwrap(),
            CombatStats { max_hp: 16, hp: 16, defense: 1, power: 4 }
        );
        assert!(world.monsters.contains(e) && world.blockers.contains(e));
        assert_eq!(*world.positions.get(e).unwrap(), Position { x: 2, y: 3 });
    }
    assert!(seen_orc && seen_goblin);
}

#[test]
fn room_content_lands_inside_the_room() {
    let room = Rect::new(10, 5, 7, 6);
    let mut most = 0;
    for seed in 0..60 {
        let mut rng = rltk::RandomNumberGenerator::seeded(seed);
        let mut world = World::new(Level::new());
        let player = spawn_player(&mut world, (40, 20));
        spawn_room_content(&mut world, &mut rng, &room);
        assert!(world.next_id >= 1 && world.next_id <= 3);
        most = most.max(world.next_id - 1);
        assert_eq!(*world.positions.get(player).unwrap(), Position { x: 40, y: 20 });
        for id in 1..world.next_id {
            let e = Entity { id };
            let p = *world.positions.get(e).unwrap();
            assert!(room.x1 < p.x && p.x <= room.x2 && room.y1 < p.y && p.y <= room.y2);
            let name = world.names.get(e).unwrap().name.clone();
            if world.monsters.contains(e) {
                assert!(name == "Orc" || name == "Goblin");
                assert!(world.stats.contains(e) && world.viewsheds.contains(e));
            } else {
                assert_eq!(name, "Health Potion");
                assert!(world.items.contains(e) && world.healers.contains(e));
            }
        }
        assert!(world.is_wf());
    }
    assert_eq!(most, 2);
}

#[test]
fn new_places_avoid_what_is_taken() {
    let room = Rect { x1: 3, y1: 3, x2: 5, y2: 4 };
    let mut rng = rltk::RandomNumberGenerator::seeded(7);
    let mut taken: Vec<usize> = Vec::new();
    for _ in 0..2 {
        let idx = find_new_monster_idx(&room, &mut rng, &taken).unwrap();
        assert!(!is_taken(&taken, idx));
        let (x, y) = (idx % 80, idx / 80);
        assert!((x == 4 || x == 5) && y == 4);
        taken.push(idx);
        assert!(is_taken(&taken, idx));
    }
    // both places of the room are taken now
    assert_eq!(find_new_monster_idx(&room, &mut rng, &taken), None);
    assert_eq!(find_new_item_idx(&room, &mut rng, &taken), None);
    assert!(find_new_item_idx(&room, &mut rng, &vec![]).is_some());
}

#[test]
fn left_movers_drift_and_wrap() {
    let mut lefty: Storage<LeftMover> = Storage::new();
    let mut pos: Storage<Position> = Storage::new();
    pos.insert(Entity { id: 0 }, Position { x: 5, y: 1 });
    pos.insert(Entity { id: 1 }, Position { x: 0, y: 2 });
    pos.insert(Entity { id: 2 }, Position { x: 5, y: 3 });
    pos.insert(Entity { id: 3 }, Position { x: 1, y: 4 });
    lefty.insert(Entity { id: 0 }, LeftMover {});
    lefty.insert(Entity { id: 1 }, LeftMover {});
    lefty.insert(Entity { id: 3 }, LeftMover {});
    lefty.insert(Entity { id: 9 }, LeftMover {});
    let mut sys = _LeftMoverSystem {};
    sys.run(&lefty, &mut pos);
    assert_eq!(*pos.get(Entity { id: 0 }).unwrap(), Position { x: 4, y: 1 });
    assert_eq!(*pos.get(Entity { id: 1 }).unwrap(), Position { x: 79, y: 2 });
    assert_eq!(*pos.get(Entity { id: 2 }).unwrap(), Position { x: 5, y: 3 });
    assert_eq!(*pos.get(Entity { id: 3 }).unwrap(), Position { x: 0, y: 4 });
    assert!(!pos.contains(Entity { id: 9 }));
}

#[test]
fn storage_tells_emptiness_and_bounds() {
    let mut s: Storage<u8> = Storage::new();
    assert!(s.is_empty());
    assert!(s.is_below(0));
    s.insert(Entity { id: 4 }, 1);
    assert!(!s.is_empty());
    assert!(s.is_below(5));
    assert!(!s.is_below(4));
    s.remove(Entity { id: 4 });
    assert!(s.is_empty());
    assert!(s.is_below(0));
}

fn ready_world() -> World {
    let mut world = World::new(open_room(10, 10));
    let player = spawn_player(&mut world, (5, 5));
    world.player = player;
    world.player_pos = Coord::new(5, 5);
    spawn_monster(&mut world, (6, 5), "Orc");
    world
}

#[test]
fn level_and_world_checks_find_each_flaw() {
    assert!(ready_world().is_wf());
    assert!(ready_world().level.contains(9, 9));
    assert!(!ready_world().level.contains(10, 0));
    assert!(!ready_world().level.contains(0, -1));

    let mut w = ready_world();
    w.level.tiles.pop();
    assert!(!w.level.is_wf());
    assert!(!w.is_wf());

    let mut w = ready_world();
    w.level.width = 0;
    assert!(!w.is_wf());

    let mut w = ready_world();
    w.positions.insert(Entity { id: 1 }, Position { x: 10, y: 5 });
    assert!(!w.is_wf());

    let mut w = ready_world();
    w.player_pos = Coord::new(-1, 5);
    assert!(!w.is_wf());

    let mut w = ready_world();
    w.positions.insert(Entity { id: 2 }, Position { x: 1, y: 1 });
    assert!(!w.is_wf());
    w.next_id = 3;
    assert!(w.is_wf());

    let mut w = ready_world();
    let mut vs = w.viewsheds.remove(Entity { id: 1 }).unwrap();
    vs.range = -23171;
    w.viewsheds.insert(Entity { id: 1 }, vs);
    assert!(!w.is_wf());

    let mut w = ready_world();
    w.names.remove(Entity { id: 1 });
    assert!(!w.is_wf());

    let mut w = ready_world();
    let mut s = *w.stats.get(Entity { id: 1 }).unwrap();
    s.defense = -0x7fff_0001;
    w.stats.insert(Entity { id: 1 }, s);
    assert!(!w.is_wf());
    s.defense = -0x7fff_0000;
    w.stats.insert(Entity { id: 1 }, s);
    assert!(w.is_wf());

    let mut w = ready_world();
    w.next_id = 5;
    w.melee_intents.insert(Entity { id: 0 }, MeleeAttackIntent { target: Entity { id: 4 } });
    assert!(!w.is_wf());
    w.melee_intents.insert(Entity { id: 0 }, MeleeAttackIntent { target: Entity { id: 1 } });
    assert!(w.is_wf());
}

#[test]
fn state_check_asks_for_a_settled_world_with_its_player() {
    let gs = State::new(ready_world());
    assert!(gs.is_wf());
    assert!(gs.ecs.status == GameStatus::PreTurn);

    let mut gs = State::new(ready_world());
    gs.ecs.player = Entity { id: 1 };
    assert!(!gs.is_wf());

    let mut gs = State::new(ready_world());
    gs.ecs.stats.remove(Entity { id: 0 });
    assert!(!gs.is_wf());

    let mut gs = State::new(ready_world());
    roguelike::components::IncomingDamage::new(&mut gs.ecs.incoming_damage, Entity { id: 1 }, 1);
    assert!(!gs.is_wf());

    let mut gs = State::new(ready_world());
    let mut s = *gs.ecs.stats.get(Entity { id: 1 }).unwrap();
    s.hp = 0;
    gs.ecs.stats.insert(Entity { id: 1 }, s);
    assert!(!gs.is_wf());
    // a dead player does not stand in the way
    let mut gs = State::new(ready_world());
    let mut s = *gs.ecs.stats.get(Entity { id: 0 }).unwrap();
    s.hp = -4;
    gs.ecs.stats.insert(Entity { id: 0 }, s);
    assert!(gs.is_wf());

    let mut gs = State::new(ready_world());
    gs.waiting = true;
    assert!(!gs.is_wf());
    gs.ecs.status = GameStatus::MonsterTurn;
    assert!(gs.is_wf());
}

#[test]
fn rooms_that_cannot_hold_spawns_are_told() {
    assert!(room_can_hold_spawns(&Rect::new(0, 0, 1, 1)));
    assert!(room_can_hold_spawns(&Rect::new(10, 5, 69, 6)));
    assert!(!room_can_hold_spawns(&Rect::new(10, 5, 70, 6)));
    assert!(!room_can_hold_spawns(&Rect::new(10, 5, 0, 6)));
    assert!(!room_can_hold_spawns(&Rect::new(-1, 5, 4, 6)));
    assert!(!room_can_hold_spawns(&Rect::new(3, 5, 4, 0)));
}

#[test]
fn generated_maps_differ_in_what_is_drawn() {
    let mut widths = std::collections::BTreeSet::new();
    let mut heights = std::collections::BTreeSet::new();
    let mut lefts = std::collections::BTreeSet::new();
    let mut tops = std::collections::BTreeSet::new();
    let mut row_first = 0;
    let mut column_first = 0;
    for _ in 0..20 {
        let level = Level::new();
        for (i, room) in level.rooms.iter().enumerate() {
            widths.insert(room.x2 - room.x1);
            heights.insert(room.y2 - room.y1);
            lefts.insert(room.x1);
            tops.insert(room.y1);
            if i > 0 {
                let (px, py) = level.rooms[i - 1].get_center();
                let (nx, ny) = room.get_center();
                // the corner of the bend tells which way the corridor went
                if px != nx && py != ny {
                    let near = floor(&level, nx, py);
                    let far = floor(&level, px, ny);
                    if near && !far {
                        row_first += 1;
                    }
                    if far && !near {
                        column_first += 1;
                    }
                }
            }
        }
    }
    assert!(widths.len() > 1 && heights.len() > 1);
    assert!(widths.iter().all(|w| 6 <= *w && *w <= 9));
    assert!(lefts.len() > 3 && tops.len() > 3);
    assert!(row_first > 0 && column_first > 0);
}

#[test]
fn corridor_bends_as_told() {
    let mut level = Level::solid(10, 8);
    dig_corridor(&mut level, (2, 1), (6, 5), true);
    for y in 0..8 {
        for x in 0..10 {
            let on = (y == 1 && 2 <= x && x <= 6) || (x == 6 && 1 <= y && y <= 5);
            assert_eq!(floor(&level, x, y), on);
        }
    }
    let mut level = Level::solid(10, 8);
    dig_corridor(&mut level, (2, 1), (6, 5), false);
    for y in 0..8 {
        for x in 0..10 {
            let on = (x == 2 && 1 <= y && y <= 5) || (y == 5 && 2 <= x && x <= 6);
            assert_eq!(floor(&level, x, y), on);
        }
    }
    // backwards, and through the first tile, which stays wall
    let mut level = Level::solid(10, 8);
    dig_corridor(&mut level, (3, 2), (0, 0), true);
    for y in 0..8 {
        for x in 0..10 {
            let on = (y == 2 && x <= 3) || (x == 0 && y <= 2 && y > 0);
            assert_eq!(floor(&level, x, y), on);
        }
    }
}

#[test]
fn rolls_name_a_place_in_the_room() {
    let room = Rect { x1: 3, y1: 5, x2: 9, y2: 8 };
    assert_eq!(try_place(&room, 1, 1, &vec![]), Some(6 * 80 + 4));
    assert_eq!(try_place(&room, 6, 3, &vec![]), Some(8 * 80 + 9));
    assert_eq!(try_place(&room, 2, 2, &vec![7 * 80 + 4, 12]), Some(7 * 80 + 5));
    assert_eq!(try_place(&room, 2, 2, &vec![12, 7 * 80 + 5]), None);
}

#[test]
fn with_nothing_taken_a_place_is_always_found() {
    let room = Rect { x1: 3, y1: 3, x2: 4, y2: 4 };
    for seed in 0..50 {
        let mut rng = rltk::RandomNumberGenerator::seeded(seed);
        // what is taken lies outside the room
        let taken = vec![0usize, 4 * 80 + 5, 3 * 80 + 4, 5 * 80 + 4];
        assert_eq!(find_new_monster_idx(&room, &mut rng, &taken), Some(4 * 80 + 4));
        assert_eq!(find_new_item_idx(&room, &mut rng, &vec![]), Some(4 * 80 + 4));
    }
}

#[test]
fn the_roll_of_one_is_an_orc() {
    for (roll, name) in [(1, "Orc"), (2, "Goblin"), (0, "Goblin"), (-7, "Goblin"), (3, "Goblin")] {
        let mut world = World::new(open_room(10, 10));
        let e = spawn_rolled_monster(&mut world, roll, (4, 6));
        assert_eq!(e, Entity { id: 0 });
        assert_eq!(world.names.get(e).unwrap().name, name);
        assert_eq!(*world.positions.get(e).unwrap(), Position { x: 4, y: 6 });
        assert!(world.monsters.contains(e) && world.blockers.contains(e));
    }
}

#[test]
fn drawn_content_is_placed_in_order() {
    let mut world = World::new(Level::new());
    let player = spawn_player(&mut world, (40, 20));
    let monsters = vec![5 * 80 + 7, 6 * 80 + 9];
    let kinds = vec![2, 1];
    let items = vec![8 * 80 + 3];
    place_room_content(&mut world, &monsters, &kinds, &items);
    assert_eq!(world.next_id, 4);
    assert_eq!(*world.positions.get(player).unwrap(), Position { x: 40, y: 20 });
    assert_eq!(world.names.get(player).unwrap().name, "Player");
    let expect = [(1usize, 7, 5, "Goblin"), (2, 9, 6, "Orc")];
    for (id, x, y, name) in expect {
        let e = Entity { id };
        assert_eq!(*world.positions.get(e).unwrap(), Position { x, y });
        assert_eq!(world.names.get(e).unwrap().name, name);
        assert!(world.monsters.contains(e) && world.blockers.contains(e));
        assert_eq!(
            *world.stats.get(e).unwrap(),
            CombatStats { max_hp: 16, hp: 16, defense: 1, power: 4 }
        );
        let vs = world.viewsheds.get(e).unwrap();
        assert!(vs.is_dirty && vs.range == 8 && vs.visible_tiles.is_empty());
        assert!(!world.items.contains(e) && !world.healers.contains(e));
    }
    let potion = Entity { id: 3 };
    assert_eq!(*world.positions.get(potion).unwrap(), Position { x: 3, y: 8 });
    assert_eq!(world.names.get(potion).unwrap().name, "Health Potion");
    assert!(world.items.contains(potion));
    assert_eq!(world.healers.get(potion).unwrap().heal_amount, 8);
    assert!(!world.monsters.contains(potion) && !world.stats.contains(potion));
    assert!(!world.viewsheds.contains(potion) && !world.blockers.contains(potion));
    assert!(world.is_wf());
    // nothing drawn, nothing placed
    place_room_content(&mut world, &vec![], &vec![], &vec![]);
    assert_eq!(world.next_id, 4);
}
