use anthill::gameplay::cursor::{CursorMode, CursorState};
use anthill::util::command_handler::GameCommand;
use anthill::gameplay::game::{GameRules, GameState, LevelSource};
use anthill::gameplay::player_actions::PlayerInput;
use anthill::util::errors_results::{FailReason, GameError, GameOutcome, IoError};
use anthill::util::text_log::LogData;
use anthill::world::coordinate_system::{Direction, Point};
use anthill::world::world_data::{RoomData, SpawnData, SpawnKind, TileData, TileTypeData, WorldData};

/// One room (floor from (11, 4) to (21, 10)), stairs down at (20, 8), a
/// goblin at (18, 6) and a healing potion at (13, 5); the entry is (12, 5).
fn level_data() -> WorldData {
    WorldData {
        width: 100,
        height: 25,
        tiles: vec![TileData { x: 20, y: 8, tile_type: TileTypeData::StairsDown }],
        rooms: vec![RoomData { x: 10, y: 3, width: 12, height: 8 }],
        corridors: vec![],
        entry: Point::new(12, 5),
        exit: Point::new(20, 8),
        spawns: vec![
            SpawnData { kind: SpawnKind::Npc { def_id: "goblin".to_string() }, x: 18, y: 6 },
            SpawnData { kind: SpawnKind::Item { def_id: "potion_healing_small".to_string() }, x: 13, y: 5 },
        ],
    }
}

struct FixedSource;

impl LevelSource for FixedSource {
    fn load_static(&self, _level_nr: usize) -> Result<WorldData, IoError> {
        Ok(level_data())
    }

    fn generate(&self, _seed: u64) -> WorldData {
        level_data()
    }
}

fn new_game() -> GameState {
    GameState::with_seed(73, &FixedSource).unwrap()
}

#[test]
fn new_game_starts_at_the_entry_of_the_first_level() {
    let game = new_game();
    assert_eq!(game.level_nr, 0);
    assert_eq!(game.round_nr, 0);
    assert_eq!(game.levels.len(), 1);
    assert_eq!(game.player.character.base.pos, Point::new(12, 5));
    assert_eq!(game.current_level().npcs.len(), 1);
    assert_eq!(game.current_level().item_sprites.len(), 1);
    assert_eq!(game.player.character.base.id, 0);
}

#[test]
fn new_game_with_seed_from_the_system_starts_too() {
    let game = GameState::new(&FixedSource).unwrap();
    assert_eq!(game.player.character.base.pos, Point::new(12, 5));
}

#[test]
fn waiting_passes_one_round() {
    let mut game = new_game();
    game.resolve_player_action(PlayerInput::Wait, &FixedSource).unwrap();
    assert_eq!(game.round_nr, 1);
    game.resolve_player_action(PlayerInput::Wait, &FixedSource).unwrap();
    assert_eq!(game.round_nr, 2);
}

#[test]
fn walking_onto_floor_moves_and_walls_stop() {
    let mut game = new_game();
    game.resolve_player_action(PlayerInput::Direction(Direction::Up), &FixedSource).unwrap();
    assert_eq!(game.player.character.base.pos, Point::new(12, 4));
    assert_eq!(game.round_nr, 1);
    // (12, 3) is the room's wall: nothing moves, no round passes.
    game.resolve_player_action(PlayerInput::Direction(Direction::Up), &FixedSource).unwrap();
    assert_eq!(game.player.character.base.pos, Point::new(12, 4));
    assert_eq!(game.round_nr, 1);
}

#[test]
fn no_clip_walks_through_walls() {
    let mut game = new_game();
    game.game_rules.toggle(GameRules::no_clip());
    game.resolve_player_action(PlayerInput::Direction(Direction::Up), &FixedSource).unwrap();
    game.resolve_player_action(PlayerInput::Direction(Direction::Up), &FixedSource).unwrap();
    assert_eq!(game.player.character.base.pos, Point::new(12, 3));
    assert_eq!(game.round_nr, 2);
}

#[test]
fn bumping_into_an_item_picks_it_up() {
    let mut game = new_game();
    game.resolve_player_action(PlayerInput::Direction(Direction::Right), &FixedSource).unwrap();
    assert_eq!(game.player.character.inventory.len(), 1);
    assert_eq!(game.current_level().item_sprites.len(), 0);
    assert_eq!(game.player.character.base.pos, Point::new(12, 5));
    assert_eq!(game.round_nr, 1);
}

#[test]
fn drinking_a_healing_potion_heals() {
    let mut game = new_game();
    game.resolve_player_action(PlayerInput::Direction(Direction::Right), &FixedSource).unwrap();
    let potion = game.player.character.inventory[0];
    game.player.character.stats.base.hp_current = 1;
    game.resolve_player_action(PlayerInput::UseItem(potion), &FixedSource).unwrap();
    assert_eq!(game.player.character.inventory.len(), 0);
    assert_eq!(game.player.character.stats.base.hp_current, 20);
}

#[test]
fn stairs_down_lead_to_the_next_level() {
    let mut game = new_game();
    game.player.character.base.pos = Point::new(19, 8);
    game.resolve_player_action(PlayerInput::Direction(Direction::Right), &FixedSource).unwrap();
    assert_eq!(game.level_nr, 1);
    assert_eq!(game.levels.len(), 2);
    assert_eq!(game.player.character.base.pos, Point::new(12, 5));
}

#[test]
fn out_of_world_input_changes_nothing() {
    let mut game = new_game();
    game.player.character.base.pos = Point::new(99, 24);
    game.resolve_player_action(PlayerInput::Direction(Direction::Right), &FixedSource).unwrap();
    assert_eq!(game.player.character.base.pos, Point::new(99, 24));
    assert_eq!(game.round_nr, 0);
}

#[test]
fn looking_tells_what_is_there() {
    let mut game = new_game();
    let before = game.log.messages.len();
    game.look_at_point(Point::new(18, 6));
    assert_eq!(game.log.messages.len(), before + 1);
    assert!(matches!(&game.log.messages[before], LogData::LookAt { name } if name == "Goblin"));
    game.look_at_point(Point::new(12, 4));
    assert!(matches!(&game.log.messages[before + 1], LogData::LookAt { name } if name == "Floor"));
}

#[test]
fn the_cursor_stays_in_the_world() {
    let mut game = new_game();
    assert!(matches!(game.move_cursor(Direction::Up), Err(GameError::Engine(_))));
    game.cursor = Some(CursorState { kind: CursorMode::Look, point: Point::new(99, 24) });
    let r = game.move_cursor(Direction::Right);
    assert!(matches!(r, Ok(GameOutcome::Fail(FailReason::PointOutOfBounds(p))) if p == Point::new(100, 24)));
    let r = game.move_cursor(Direction::Left);
    assert!(matches!(r, Ok(GameOutcome::Success)));
    assert_eq!(game.cursor.unwrap().point, Point::new(98, 24));
}

#[test]
fn looking_with_the_cursor_at_an_unseen_tile_fails() {
    let mut game = new_game();
    game.cursor = Some(CursorState { kind: CursorMode::Look, point: Point::new(90, 20) });
    let r = game.resolve_cursor_action(&FixedSource);
    assert!(matches!(r, Ok(GameOutcome::Fail(FailReason::TileNotVisible(_)))));
    assert!(matches!(game.log.messages.last(), Some(LogData::TileNotVisible)));
}

#[test]
fn the_lore_is_told_at_the_start() {
    let game = new_game();
    assert!(game.log.messages.iter().any(|m| matches!(m, LogData::Lore(_))));
}

#[test]
fn a_level_left_behind_is_kept() {
    let mut game = new_game();
    game.resolve_player_action(PlayerInput::Direction(Direction::Right), &FixedSource).unwrap();
    let goblin = game.current_level().npcs[0].base.id;
    game.goto_level_next(&FixedSource).unwrap();
    assert_eq!(game.level_nr, 1);
    assert_eq!(game.current_level().item_sprites.len(), 1);
    game.goto_level_previous(&FixedSource).unwrap();
    assert_eq!(game.level_nr, 0);
    assert_eq!(game.levels.len(), 2);
    assert_eq!(game.current_level().item_sprites.len(), 0);
    assert_eq!(game.current_level().npcs[0].base.id, goblin);
    assert_eq!(game.player.character.base.pos, Point::new(20, 8));
}

#[test]
fn bumping_into_a_closed_door_opens_it() {
    let mut game = new_game();
    game.current_level_mut().world.set_tile_type(Point::new(12, 4), anthill::world::tiles::TileType::Door(anthill::world::tiles::DoorType::Closed));
    game.resolve_player_action(PlayerInput::Direction(Direction::Up), &FixedSource).unwrap();
    assert_eq!(
        game.current_world().get_tile(Point::new(12, 4)).tile_type,
        anthill::world::tiles::TileType::Door(anthill::world::tiles::DoorType::Open)
    );
    assert_eq!(game.player.character.base.pos, Point::new(12, 5));
    assert_eq!(game.round_nr, 1);
}

#[test]
fn the_tiles_next_to_the_player_are_seen() {
    let game = new_game();
    let world = game.current_world();
    for p in [Point::new(12, 4), Point::new(13, 5), Point::new(12, 6), Point::new(11, 5)] {
        assert!(world.get_tile(p).visible);
    }
    assert!(!world.get_tile(Point::new(60, 20)).visible);
}

#[test]
fn a_wall_next_to_the_player_hides_the_line_behind_it() {
    let mut game = new_game();
    assert!(game.current_world().get_tile(Point::new(14, 5)).visible);
    game.current_level_mut().world.set_tile_type(Point::new(13, 5), anthill::world::tiles::TileType::Wall);
    game.compute_fov();
    assert!(game.current_world().get_tile(Point::new(13, 5)).visible);
    for x in 14..22 {
        assert!(!game.current_world().get_tile(Point::new(x, 5)).visible);
    }
    assert!(game.current_world().get_tile(Point::new(14, 6)).visible);
}

#[test]
fn a_wall_further_along_a_line_hides_what_is_behind_it() {
    let mut game = new_game();
    assert!(game.current_world().get_tile(Point::new(17, 5)).visible);
    game.current_level_mut().world.set_tile_type(Point::new(16, 5), anthill::world::tiles::TileType::Wall);
    game.compute_fov();
    assert!(game.current_world().get_tile(Point::new(16, 5)).visible);
    for x in 17..22 {
        assert!(!game.current_world().get_tile(Point::new(x, 5)).visible);
    }
}

fn log_lines(game: &GameState, from: usize) -> Vec<String> {
    game.log.messages[from..]
        .iter()
        .map(|m| match m {
            LogData::Plain(t) => t.clone(),
            other => format!("{:?}", other),
        })
        .collect()
}

#[test]
fn commands_report_in_the_log() {
    let mut game = new_game();
    let start = game.log.messages.len();
    assert!(!game.execute_command(GameCommand::Help));
    let help = log_lines(&game, start);
    assert_eq!(help.len(), 13);
    assert_eq!(help[0], "quit         - Quit the game");
    assert_eq!(help[5], "playerinfo   - Print player info to log");

    let start = game.log.messages.len();
    game.execute_command(GameCommand::Teleport(Point::new(500, 3)));
    assert_eq!(log_lines(&game, start), vec!["Position x:500 y:3 is out of bounds".to_string()]);
    let start = game.log.messages.len();
    game.execute_command(GameCommand::Teleport(Point::new(10, 3)));
    assert_eq!(log_lines(&game, start), vec!["Position x:10 y:3 cannot be occupied by player".to_string()]);
    game.execute_command(GameCommand::Teleport(Point::new(15, 7)));
    assert_eq!(game.player.character.base.pos, Point::new(15, 7));

    let start = game.log.messages.len();
    game.execute_command(GameCommand::Give { item_def: "nothing".to_string(), amount: 2 });
    assert_eq!(log_lines(&game, start), vec!["No item with this def_id exists.".to_string()]);
    game.execute_command(GameCommand::Give { item_def: "food_apple".to_string(), amount: 2 });
    assert_eq!(game.player.character.inventory.len(), 2);
    // one debug entry per registered item, then the report
    assert_eq!(game.log.messages.len(), start + 4);
    assert!(matches!(&game.log.messages[start + 1], LogData::DebugInfo(_)));
    assert!(matches!(game.log.messages.last(), Some(LogData::Plain(t)) if t == "Added food_apple (x2) to player's inventory"));

    let start = game.log.messages.len();
    game.execute_command(GameCommand::PlayerInfo);
    let info = log_lines(&game, start);
    assert_eq!(info.len(), 5);
    assert_eq!(info[2], "-  Position: x:15 y:7");

    let start = game.log.messages.len();
    game.execute_command(GameCommand::RngTest);
    let rng = log_lines(&game, start);
    assert_eq!(rng.len(), 2);
    assert!(rng[0].starts_with("Rolling 1d6: "));

    let start = game.log.messages.len();
    game.execute_command(GameCommand::Legend);
    let legend = log_lines(&game, start);
    assert_eq!(legend[0], "@ - Player Character (you)");
    assert_eq!(legend[3], "/ - Rusty Sword");
    assert_eq!(legend.len(), 3 + 28 + 12);

    assert!(!game.game_rules.contains(GameRules::no_clip()));
    game.execute_command(GameCommand::NoClip);
    assert!(game.game_rules.contains(GameRules::no_clip()));
    assert!(game.execute_command(GameCommand::Quit));
}

#[test]
fn the_next_step_toward_a_neighbour_is_onto_it() {
    let game = new_game();
    // (12, 5) and (13, 5) are floor of the room.
    assert_eq!(game.next_step_toward(Point::new(12, 5), Point::new(13, 5)), Some(Direction::Right));
    assert_eq!(game.next_step_toward(Point::new(13, 5), Point::new(12, 5)), Some(Direction::Left));
    assert_eq!(game.next_step_toward(Point::new(12, 5), Point::new(12, 5)), None);
    // (12, 3) is wall: no path leads onto it.
    assert_eq!(game.next_step_toward(Point::new(12, 4), Point::new(12, 3)), None);
}

#[test]
fn going_to_a_level_whose_entrance_lies_outside_fails() {
    let mut game = new_game();
    game.goto_level_next(&FixedSource).unwrap();
    game.levels[0].exit = Point::new(500, 5);
    let r = game.goto_level_previous(&FixedSource);
    assert!(matches!(r, Err(GameError::Data(anthill::util::errors_results::DataError::InvalidWorldFormat(0)))));
    assert_eq!(game.player.character.base.pos, Point::new(12, 5));
    game.levels[0].entry = Point::new(12, 500);
    let r = game.goto_level(0, anthill::world::level::LevelEntrance::Entry, &FixedSource);
    assert!(matches!(r, Err(GameError::Data(anthill::util::errors_results::DataError::InvalidWorldFormat(0)))));
}

struct BrokenSource;

impl LevelSource for BrokenSource {
    fn load_static(&self, _level_nr: usize) -> Result<WorldData, IoError> {
        Err(IoError::MapReadFailed("unreadable".to_string()))
    }

    fn generate(&self, _seed: u64) -> WorldData {
        level_data()
    }
}

#[test]
fn a_missing_static_level_is_not_found_and_a_read_failure_is_io() {
    let mut game = new_game();
    let r = game.load_static_level(999, &BrokenSource);
    assert!(matches!(r, Err(GameError::Data(anthill::util::errors_results::DataError::StaticWorldNotFound(999)))));
    let r = game.load_static_level(0, &BrokenSource);
    assert!(matches!(r, Err(GameError::Io(IoError::MapReadFailed(_)))));
    let r = game.load_static_level(0, &FixedSource);
    assert!(r.is_ok());
}

#[test]
fn the_straight_lines_are_seen_up_to_the_walls() {
    let mut game = new_game();
    game.compute_fov();
    for x in 13..21 {
        assert!(game.current_world().get_tile(Point::new(x, 5)).visible);
    }
    for y in 6..10 {
        assert!(game.current_world().get_tile(Point::new(12, y)).visible);
    }
    assert!(game.current_world().get_tile(Point::new(11, 5)).visible);
    assert!(game.current_world().get_tile(Point::new(12, 4)).visible);
}
