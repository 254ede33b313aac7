use anthill::gameplay::entity_logic::Entity;
use anthill::gameplay::game::GameState;
use anthill::world::coordinate_system::Point;
use anthill::world::level::Level;
use anthill::world::worldspace::Room;

#[test]
fn test_spawn_npc() {
    let mut game = GameState::for_tests();
    let mut level: Level = Level::new();
    level.world.carve_room(&Room::new(Point { x: 35, y: 5 }, 30, 15));

    let npc = game.create_npc("goblin".into(), Point::new(50, 7)).unwrap();
    let npc_id = npc.id();

    let _ = level.spawn_npc(npc);

    game.levels.insert(0, level);

    // The list holds the npc.
    assert_eq!(game.current_level().npcs.len(), 1);
    assert_eq!(game.current_level().npcs[0].id(), npc_id);

    // The index points at it.
    assert_eq!(game.current_level().npc_index.get(&npc_id), Some(&0));
}

#[test]
fn test_get_entity_by_id() {
    let mut game = GameState::for_tests();
    let mut level: Level = Level::new();
    level.world.carve_room(&Room::new(Point { x: 35, y: 5 }, 30, 15));

    let npc = game.create_npc("orc".into(), Point { x: 50, y: 7 }).unwrap();
    let npc_id = npc.id();

    let _ = level.spawn_npc(npc);

    game.levels.insert(0, level);

    match game.current_level().get_npc(npc_id) {
        Some(npc) => assert_eq!(npc.name(), "Orc"),
        _ => panic!("Expected NPC"),
    }
}

#[test]
fn test_get_entity_by_id_item() {
    let mut game = GameState::for_tests();
    let mut level: Level = Level::new();
    level.world.carve_room(&Room::new(Point { x: 35, y: 5 }, 30, 15));

    let item_def_id: String = "armor_leather".to_string();
    let item_id = game.register_item(&item_def_id).unwrap();
    let item_sprite = game.create_item_sprite(item_id, Point::new(50, 7)).unwrap();
    let item_sprite_id = item_sprite.id();

    let _ = level.spawn_item_sprite(item_sprite);

    game.levels.insert(0, level);

    match game.current_level().get_item_sprite(item_sprite_id) {
        Some(item) => assert_eq!(item.name(), "Leather Armor"),
        _ => panic!("Expected Item"),
    }
}

#[test]
fn test_despawn_npc_updates_indices() {
    let mut game = GameState::for_tests();
    let mut level: Level = Level::new();
    level.world.carve_room(&Room::new(Point { x: 35, y: 5 }, 30, 15));

    let npc1 = game.create_npc("goblin".into(), Point::new(50, 7)).unwrap();
    let npc1_id = npc1.id();
    let _ = level.spawn_npc(npc1);

    let npc2 = game.create_npc("orc".into(), Point::new(51, 7)).unwrap();
    let npc2_id = npc2.id();
    let _ = level.spawn_npc(npc2);

    game.levels.insert(0, level);

    // Remove the first npc.
    game.current_level_mut().despawn(npc1_id);

    // Only one npc remains.
    assert_eq!(game.current_level().npcs.len(), 1);

    // The remaining npc is now at index 0.
    assert_eq!(game.current_level().npc_index.get(&npc2_id), Some(&0));
}

#[test]
fn test_get_entity_by_id_missing() {
    let mut game = GameState::for_tests();
    let level: Level = Level::new();

    game.levels.insert(0, level);

    let missing = 9999;

    assert!(game.current_level().get_npc(missing).is_none());
    assert!(game.current_level().get_item_sprite(missing).is_none());
}

#[test]
fn test_multiple_spawns_indices() {
    let mut game = GameState::for_tests();
    let mut level: Level = Level::new();
    level.world.carve_room(&Room::new(Point { x: 35, y: 5 }, 30, 15));

    let npc1 = game.create_npc("goblin".into(), Point::new(50, 7)).unwrap();
    let npc1_id = npc1.id();
    let _ = level.spawn_npc(npc1);

    let npc2 = game.create_npc("orc".into(), Point::new(51, 7)).unwrap();
    let npc2_id = npc2.id();
    let _ = level.spawn_npc(npc2);

    game.levels.insert(0, level);

    assert_eq!(game.current_level().npc_index.get(&npc1_id), Some(&0));
    assert_eq!(game.current_level().npc_index.get(&npc2_id), Some(&1));
}

#[test]
fn test_get_entity_at() {
    let mut game = GameState::for_tests();
    let mut level: Level = Level::new();
    level.world.carve_room(&Room::new(Point { x: 35, y: 5 }, 30, 15));

    let pos = Point { x: 50, y: 7 };

    let npc = game.create_npc("orc".into(), Point { x: 50, y: 7 }).unwrap();
    let npc_id = npc.id();
    let _ = level.spawn_npc(npc);

    game.levels.insert(0, level);

    assert_eq!(game.current_level().get_npc_at(pos), Some(npc_id));
}

#[test]
fn test_despawn_removes_from_position() {
    let mut game = GameState::for_tests();
    let mut level: Level = Level::new();
    level.world.carve_room(&Room::new(Point { x: 35, y: 5 }, 30, 15));

    let pos = Point::new(50, 7);

    let npc = game.create_npc("goblin".into(), pos).unwrap();
    let npc_id = npc.id();
    let _ = level.spawn_npc(npc);
    game.levels.insert(0, level);

    assert_eq!(game.current_level().get_npc_at(pos), Some(npc_id));

    game.current_level_mut().despawn(npc_id);

    assert_eq!(game.current_level().get_npc_at(pos), None);
}
