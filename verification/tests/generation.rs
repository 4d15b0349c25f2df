//! Generation, visibility, pathfinding and controller behavior.
use roguelike::components::{EquipmentSlot, Equipped, InBackpack, Point, Position, Viewshed};
use roguelike::fov::field_of_view;
use roguelike::gamelog::GameLog;
use roguelike::gui::{
    main_menu, ranged_target, show_inventory, ItemMenuResult, MainMenuResult, MainMenuSelection,
};
use roguelike::map::{GameMap, TileType};
use roguelike::map_builders::MapBuilder;
use roguelike::map_builders::simple_map::SimpleMapBuilder;
use roguelike::pathfinding::{a_star_search, check_path};
use roguelike::player::InputEvent;
use roguelike::rng::Rng;
use roguelike::spawner;
use roguelike::visibility_system::visibility;
use roguelike::weighted_table::{SpawnKind, WeightedTable};
use roguelike::world::World;
use roguelike::{RunState, State};

fn open_map() -> GameMap {
    let mut map = GameMap::new(1);
    let mut y = 1;
    while y < 39 {
        let mut x = 1;
        while x < 79 {
            map.set_tile(x, y, TileType::Floor);
            x += 1;
        }
        y += 1;
    }
    map
}

#[test]
fn generated_dungeon_shape() {
    // Up to ten rooms, none overlapping, the start at the first room's
    // center, and exactly one staircase at the last room's center.
    let mut rng = Rng::new(0xD1CE);
    let mut b = SimpleMapBuilder::new(1);
    b.rooms_and_corridors(&mut rng, 10, 4, 8);

    let rooms = &b.map.rooms;
    assert!(1 <= rooms.len() && rooms.len() <= 10);
    for i in 0..rooms.len() {
        for j in 0..rooms.len() {
            if i != j {
                assert!(!rooms[i].intersect(&rooms[j]));
            }
        }
    }
    let start = rooms[0].center();
    assert_eq!(b.starting_position, Position { x: start.0, y: start.1 });

    let last = rooms[rooms.len() - 1].center();
    let stairs_idx = b.map.xy_idx(last.0, last.1);
    let mut stairs = 0;
    for (i, t) in b.map.tiles.iter().enumerate() {
        if *t == TileType::StairsDown {
            stairs += 1;
            assert_eq!(i, stairs_idx);
        }
    }
    assert_eq!(stairs, 1);
}

#[test]
fn rooms_are_connected_by_search() {
    // Every room center can actually be routed to from the first one
    // once the blocked bitmap mirrors the walls.
    let mut rng = Rng::new(7);
    let mut b = SimpleMapBuilder::new(1);
    b.rooms_and_corridors(&mut rng, 10, 4, 8);
    b.map.set_blocked();

    let start_c = b.map.rooms[0].center();
    let start = b.map.xy_idx(start_c.0, start_c.1);
    for i in 1..b.map.rooms.len() {
        let c = b.map.rooms[i].center();
        let goal = b.map.xy_idx(c.0, c.1);
        let path = a_star_search(&b.map, start, goal).expect("rooms must be connected");
        assert!(check_path(&b.map, &path, start, goal));
    }
}

#[test]
fn field_of_view_respects_range_and_walls() {
    let mut map = open_map();
    // A wall column between viewer and a hidden tile.
    map.set_tile(12, 10, TileType::Wall);
    map.set_tile(12, 9, TileType::Wall);
    map.set_tile(12, 11, TileType::Wall);

    let tiles = field_of_view(&map, Point { x: 10, y: 10 }, 8);
    assert!(tiles.iter().any(|t| t.x == 10 && t.y == 10));
    assert!(tiles.iter().any(|t| t.x == 11 && t.y == 10));
    // Behind the wall on the same row: not visible.
    assert!(!tiles.iter().any(|t| t.x == 14 && t.y == 10));
    for t in tiles.iter() {
        let dx = (t.x - 10) as i64;
        let dy = (t.y - 10) as i64;
        assert!(dx * dx + dy * dy <= 64);
        assert!(t.x >= 0 && t.x < map.width && t.y >= 0 && t.y < map.height);
    }
}

#[test]
fn visibility_clears_dirty_and_marks_map() {
    let mut world = World::new();
    let mut map = open_map();
    let player = spawner::player(&mut world, (10, 10));

    visibility(&mut world, &mut map, player);
    let vs = world.slots[player.idx].viewshed.as_ref().unwrap();
    assert!(!vs.dirty);
    assert!(vs.visible_tiles.len() > 0);
    let idx = map.xy_idx(10, 10);
    assert!(map.visible_tiles[idx]);
    assert!(map.revealed_tiles[idx]);

    // A clean viewshed is left alone: repaint the map and run again.
    let before: Vec<Point> = world.slots[player.idx]
        .viewshed
        .as_ref()
        .unwrap()
        .visible_tiles
        .clone();
    visibility(&mut world, &mut map, player);
    let after = &world.slots[player.idx].viewshed.as_ref().unwrap().visible_tiles;
    assert_eq!(before.len(), after.len());
    assert!(map.revealed_tiles[idx]);
}

#[test]
fn pathfinding_route_is_checked() {
    let mut map = open_map();
    map.set_blocked();
    let start = map.xy_idx(2, 2);
    let goal = map.xy_idx(20, 14);
    let path = a_star_search(&map, start, goal).expect("open floor must route");
    assert_eq!(path[0], start);
    assert_eq!(*path.last().unwrap(), goal);
    assert!(check_path(&map, &path, start, goal));
}

#[test]
fn rng_stays_in_range() {
    let mut rng = Rng::new(42);
    for _ in 0..200 {
        let v = rng.range(-2, 9);
        assert!(-2 <= v && v < 9);
    }
}

#[test]
fn weighted_table_draws_positive_entries() {
    let mut rng = Rng::new(3);
    let t = WeightedTable::new()
        .add(SpawnKind::Goblin, 10)
        .add(SpawnKind::Orc, 0)
        .add(SpawnKind::HealthPotion, 5);
    for _ in 0..50 {
        let k = t.roll(&mut rng).unwrap();
        assert!(k == SpawnKind::Goblin || k == SpawnKind::HealthPotion);
    }
    let empty = WeightedTable::new().add(SpawnKind::Orc, 0);
    assert!(empty.roll(&mut rng).is_none());
}

#[test]
fn map_index_round_trip() {
    let map = GameMap::new(3);
    assert_eq!(map.depth, 3);
    let idx = map.xy_idx(17, 23);
    assert_eq!(map.idx_xy(idx), (17, 23));
    assert_eq!(map.dimensions(), (80, 40));
    assert!(map.is_opaque(idx));
    assert_eq!(map.transform_mouse_pos((30, 31)), (30, 20));
    assert!(map.mouse_in_bounds((30, 20)));
    assert!(!map.mouse_in_bounds((-1, 20)));
}

#[test]
fn controller_walks_the_main_states() {
    // Main menu confirm starts a run; the pipeline then alternates
    // player and monster turns around awaiting input.
    let mut gs = State::new(0xBEEF);
    assert!(matches!(gs.run_state, RunState::MainMenu { .. }));

    assert!(gs.tick(Some(InputEvent::Confirm)));
    assert_eq!(gs.run_state, RunState::PreRun);
    assert!(gs.tick(None));
    assert_eq!(gs.run_state, RunState::AwaitingInput);
    assert!(gs.tick(None));
    assert_eq!(gs.run_state, RunState::AwaitingInput);

    assert!(gs.tick(Some(InputEvent::SkipTurn)));
    assert_eq!(gs.run_state, RunState::PlayerTurn);
    assert!(gs.tick(None));
    assert_eq!(gs.run_state, RunState::MonsterTurn);
    assert!(gs.tick(None));
    assert_eq!(gs.run_state, RunState::AwaitingInput);

    assert!(gs.tick(Some(InputEvent::OpenInventory)));
    assert_eq!(gs.run_state, RunState::ShowInventory);
    assert!(gs.tick(Some(InputEvent::Escape)));
    assert_eq!(gs.run_state, RunState::AwaitingInput);

    // An explicit exit from the main menu stops the loop.
    assert!(gs.tick(Some(InputEvent::Escape)));
    assert!(matches!(gs.run_state, RunState::SaveGame));
    assert!(gs.tick(None));
    assert!(matches!(gs.run_state, RunState::MainMenu { .. }));
    let keep = gs.tick(Some(InputEvent::Escape));
    assert!(!keep);
}

#[test]
fn descending_builds_a_deeper_level() {
    let mut gs = State::new(0xA11CE);
    gs.run_state = RunState::NextLevel;
    assert!(gs.tick(None));
    assert_eq!(gs.map.depth, 2);
    assert_eq!(gs.run_state, RunState::PreRun);
    assert!(gs.world.is_valid(gs.player));
}

#[test]
fn monster_ai_attacks_adjacent_player() {
    let mut world = World::new();
    let mut map = open_map();
    map.set_blocked();
    let player = spawner::player(&mut world, (10, 10));
    let goblin = spawner::goblin(&mut world, 11, 10).unwrap();
    let run_state = RunState::MonsterTurn;
    roguelike::monster_ai_system::monster_ai(
        &mut world,
        &mut map,
        &run_state,
        player,
        Position { x: 10, y: 10 },
    );
    let wa = world.slots[goblin.idx].wants_to_attack.unwrap();
    assert_eq!(wa.target, player);
}

#[test]
fn confused_monster_counts_down_and_skips() {
    let mut world = World::new();
    let mut map = open_map();
    map.set_blocked();
    let player = spawner::player(&mut world, (10, 10));
    let goblin = spawner::goblin(&mut world, 11, 10).unwrap();
    world.slots[goblin.idx].confusion = Some(roguelike::components::Confusion { turns: 2 });
    let run_state = RunState::MonsterTurn;
    roguelike::monster_ai_system::monster_ai(
        &mut world,
        &mut map,
        &run_state,
        player,
        Position { x: 10, y: 10 },
    );
    assert_eq!(world.slots[goblin.idx].confusion.unwrap().turns, 1);
    assert!(world.slots[goblin.idx].wants_to_attack.is_none());
    roguelike::monster_ai_system::monster_ai(
        &mut world,
        &mut map,
        &run_state,
        player,
        Position { x: 10, y: 10 },
    );
    assert!(world.slots[goblin.idx].confusion.is_none());
}

#[test]
fn viewshed_stays_within_bounds_claim() {
    // The recomputed viewshed never names a tile outside the map.
    let mut world = World::new();
    let mut map = open_map();
    let player = spawner::player(&mut world, (1, 1));
    world.slots[player.idx].viewshed = Some(Viewshed {
        visible_tiles: Vec::new(),
        range: 20,
        dirty: true,
    });
    visibility(&mut world, &mut map, player);
    for t in world.slots[player.idx]
        .viewshed
        .as_ref()
        .unwrap()
        .visible_tiles
        .iter()
    {
        assert!(t.x >= 0 && t.x < map.width && t.y >= 0 && t.y < map.height);
    }
}

#[test]
fn main_menu_wraps_and_selects() {
    let up = main_menu(MainMenuSelection::NewGame, Some(InputEvent::MenuUp));
    assert_eq!(up, MainMenuResult::NoSelection { selected: MainMenuSelection::Exit });
    let down = main_menu(MainMenuSelection::Exit, Some(InputEvent::MenuDown));
    assert_eq!(down, MainMenuResult::NoSelection { selected: MainMenuSelection::NewGame });
    let sel = main_menu(MainMenuSelection::LoadGame, Some(InputEvent::Confirm));
    assert_eq!(sel, MainMenuResult::Selection { selected: MainMenuSelection::LoadGame });
}

#[test]
fn inventory_selection_orders_backpack_before_equipment() {
    let mut world = World::new();
    let player = spawner::player(&mut world, (1, 1));
    let carried = spawner::health_potion(&mut world, 1, 1).unwrap();
    world.slots[carried.idx].position = None;
    world.slots[carried.idx].in_backpack = Some(InBackpack { owner: player });
    let worn = spawner::dagger(&mut world, 1, 1).unwrap();
    world.slots[worn.idx].position = None;
    world.slots[worn.idx].equipped = Some(Equipped {
        owner: player,
        slot: EquipmentSlot::RightHand,
    });

    let (r0, picked0) = show_inventory(&mut world, player, Some(InputEvent::Select(0)));
    assert_eq!(r0, ItemMenuResult::Selected);
    assert_eq!(picked0, Some(carried));
    let (r1, picked1) = show_inventory(&mut world, player, Some(InputEvent::Select(1)));
    assert_eq!(r1, ItemMenuResult::Selected);
    assert_eq!(picked1, Some(worn));
    let (r2, picked2) = show_inventory(&mut world, player, Some(InputEvent::Select(2)));
    assert_eq!(r2, ItemMenuResult::NoResponse);
    assert_eq!(picked2, None);
}

#[test]
fn moving_into_a_monster_attacks_it() {
    // A full pass through the controller: walking into an adjacent
    // monster resolves as melee, not as movement.
    let mut gs = State::new(0xFACE);
    gs.run_state = RunState::AwaitingInput;
    // Rebuild a controlled scene on the generated level.
    let ppos = gs.player_pos;
    let mx = ppos.x + 1;
    let my = ppos.y;
    let monster = spawner::goblin(&mut gs.world, mx, my).unwrap();
    // Make sure the occupancy index sees the monster.
    roguelike::map_indexing_system::map_indexing(&gs.world, &mut gs.map);

    assert!(gs.tick(Some(InputEvent::MoveRight)));
    // The player did not walk onto the blocked tile.
    let p = gs.world.slots[gs.player.idx].position.unwrap();
    assert_eq!((p.x, p.y), (ppos.x, ppos.y));
    assert_eq!(gs.run_state, RunState::PlayerTurn);
    // The player turn resolves the melee: power 5 against defense 1.
    assert!(gs.tick(None));
    let hp = gs.world.slots[monster.idx].combat_stats.unwrap().hp;
    assert_eq!(hp, 8 - 4);
}

#[test]
fn failed_descend_spends_the_turn() {
    // Off the stairs the descend key logs the failure and consumes the
    // turn, as a spent action.
    let mut gs = State::new(0x5EED);
    gs.run_state = RunState::AwaitingInput;
    // Stand the player somewhere that is not the staircase.
    let c = gs.map.rooms[0].center();
    let idx = gs.map.xy_idx(c.0, c.1);
    if gs.map.tiles[idx] == TileType::StairsDown {
        gs.map.set_tile(c.0, c.1, TileType::Floor);
    }
    let before_depth = gs.map.depth;
    assert!(gs.tick(Some(InputEvent::Descend)));
    assert_eq!(gs.run_state, RunState::PlayerTurn);
    assert_eq!(gs.map.depth, before_depth);
    assert_eq!(
        gs.log.messages.last(),
        Some(&roguelike::gamelog::LogEntry::NoStairsHere)
    );
}

#[test]
fn targeting_accepts_visible_points_in_range() {
    let mut world = World::new();
    let mut map = open_map();
    let player = spawner::player(&mut world, (10, 10));
    visibility(&mut world, &mut map, player);

    let ppos = Point { x: 10, y: 10 };
    // A visible tile within range is selected.
    let (res, picked) = ranged_target(
        &mut world,
        player,
        ppos,
        6,
        Some(InputEvent::Target(Point { x: 13, y: 10 })),
    );
    assert_eq!(res, ItemMenuResult::Selected);
    assert_eq!(picked, Some(Point { x: 13, y: 10 }));
    // Out of range: refused.
    let (res2, picked2) = ranged_target(
        &mut world,
        player,
        ppos,
        2,
        Some(InputEvent::Target(Point { x: 19, y: 10 })),
    );
    assert_eq!(res2, ItemMenuResult::Cancel);
    assert_eq!(picked2, None);
    // The truncated distance rules: distance 6.08 truncates to 6.
    let (res3, _) = ranged_target(
        &mut world,
        player,
        ppos,
        6,
        Some(InputEvent::Target(Point { x: 16, y: 11 })),
    );
    assert_eq!(res3, ItemMenuResult::Selected);
}

#[test]
fn pathfinding_reports_walled_off_goals() {
    // Seal a corridor of wall across the map: no route can cross it.
    let mut map = open_map();
    let mut y = 0;
    while y < 40 {
        map.set_tile(40, y, TileType::Wall);
        y += 1;
    }
    map.set_blocked();
    let start = map.xy_idx(2, 2);
    let goal = map.xy_idx(60, 14);
    assert!(a_star_search(&map, start, goal).is_none());
}

#[test]
fn lone_monster_chases_a_seen_player() {
    // Open floor, player in sight, out of melee reach: the monster must
    // take a step, and an adjacent one at that.
    let mut world = World::new();
    let mut map = open_map();
    let player = spawner::player(&mut world, (10, 10));
    let goblin = spawner::goblin(&mut world, 15, 10).unwrap();
    visibility(&mut world, &mut map, player);
    map.set_blocked();
    let run_state = RunState::MonsterTurn;
    roguelike::monster_ai_system::monster_ai(
        &mut world,
        &mut map,
        &run_state,
        player,
        Position { x: 10, y: 10 },
    );
    let moved = world.slots[goblin.idx].position.unwrap();
    assert!((moved.x, moved.y) != (15, 10));
    assert!((moved.x - 15).abs() <= 1 && (moved.y - 10).abs() <= 1);
    assert!(world.slots[goblin.idx].wants_to_attack.is_none());
}
