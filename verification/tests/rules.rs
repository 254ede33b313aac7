use anthill::gameplay::combat::{attack_outcome, AttackDegree};
use anthill::gameplay::crafting::CraftingRecipe;
use anthill::gameplay::game::{GameRules, GameState};
use anthill::gameplay::player::PlayerCharacter;
use anthill::util::errors_results::{DataError, EngineError, FailReason, GameError, GameOutcome, IoError};
use anthill::world::coordinate_system::Point;
use anthill::data::item_defs::get_item_def;
use anthill::gameplay::combat::stats_text;
use anthill::util::strings::signed_decimal;
use anthill::util::text_log::{LogData, Tone};
use anthill::world::tiles::TileType;
use anthill::world::worldspace::{wall_glyph, wall_mask, World};

#[test]
fn attack_outcomes() {
    assert_eq!(attack_outcome(10, 50, 5, 5, 20, 1), AttackDegree::Miss);
    assert_eq!(attack_outcome(30, 3, 5, 5, 20, 1), AttackDegree::CriticalHit(9));
    assert_eq!(attack_outcome(30, 50, 5, 5, 20, 1), AttackDegree::Hit(4));
    assert_eq!(attack_outcome(30, 50, 1, 5, 20, 4), AttackDegree::Hit(0));
}

#[test]
fn toggling_twice_restores_the_rules() {
    let mut rules = GameRules::empty();
    rules.toggle(GameRules::no_clip());
    assert!(rules.contains(GameRules::no_clip()));
    assert!(!rules.contains(GameRules::god_mode()));
    rules.toggle(GameRules::no_clip());
    assert!(!rules.contains(GameRules::no_clip()));
}

#[test]
fn experience_levels_up_at_one_hundred() {
    let mut c = PlayerCharacter::new(1);
    assert!(!c.gain_experience(99));
    assert_eq!(c.stats.level, 1);
    assert!(c.gain_experience(1));
    assert_eq!(c.stats.level, 2);
    assert_eq!(c.stats.experience, 0);
    assert_eq!(c.stats.abilities.strength, 2);
}

#[test]
fn damage_and_healing_stay_within_bounds() {
    let mut c = PlayerCharacter::new(1);
    c.take_damage(5);
    assert_eq!(c.stats.base.hp_current, 15);
    c.heal(100);
    assert_eq!(c.stats.base.hp_current, 20);
    c.take_damage(100);
    assert_eq!(c.stats.base.hp_current, 0);
}

#[test]
fn inventory_holds_twenty_six_items() {
    let mut game = GameState::for_tests();
    for k in 0..26u32 {
        assert!(matches!(game.add_item_to_inv(k), Ok(GameOutcome::Success)));
    }
    assert!(matches!(game.add_item_to_inv(99), Ok(GameOutcome::Fail(FailReason::InventoryFull))));
    assert_eq!(game.player.character.inventory.len(), 26);
}

#[test]
fn crafting_takes_inputs_and_gives_output() {
    let mut game = GameState::for_tests();
    let _ = game.add_item_to_inv(1);
    let _ = game.add_item_to_inv(2);
    let _ = game.add_item_to_inv(3);
    let recipe = CraftingRecipe { input: vec![1, 3], output: 9 };
    assert!(game.craft(&recipe));
    assert_eq!(game.player.character.inventory, vec![2, 9]);
    let missing = CraftingRecipe { input: vec![2, 7], output: 10 };
    assert!(!game.craft(&missing));
    assert_eq!(game.player.character.inventory, vec![2, 9]);
}

#[test]
fn failures_told_to_the_player() {
    assert!(matches!(FailReason::InventoryFull.notify_user(), Some(LogData::InventoryFull)));
    assert!(matches!(FailReason::NoInteraction.notify_user(), Some(LogData::NoInteraction)));
    assert!(FailReason::OutOfRange.notify_user().is_none());
}

#[test]
fn errors_describe_themselves() {
    let e = GameError::Data(DataError::StaticWorldNotFound(12));
    assert_eq!(e.describe(), "Data Error: No static world definied for id 12");
    let e = GameError::Engine(EngineError::SpawningError(Point::new(3, 40)));
    assert_eq!(
        e.describe(),
        "Engine Error: Could not spawn entity, because point (x: 3, y: 40) is not available"
    );
    let e = GameError::Engine(EngineError::NpcNotFound(0));
    assert_eq!(e.describe(), "Engine Error: Npc of id 0 does not exist");
    let e = GameError::Io(IoError::MapParseFailed("bad".to_string()));
    assert_eq!(e.describe(), "Io Error: Couldn't parse map file: bad");
}

#[test]
fn log_entries_show_their_pieces() {
    let hit = LogData::NpcAttackHit { npc_name: "Rat".to_string(), damage: 12 };
    let pieces: Vec<(String, Tone)> = hit.spans().into_iter().map(|p| (p.text, p.tone)).collect();
    assert_eq!(
        pieces,
        vec![
            ("Rat".to_string(), Tone::Npc),
            (" attacks ".to_string(), Tone::Plain),
            ("you".to_string(), Tone::You),
            (" and deals ".to_string(), Tone::Plain),
            ("12".to_string(), Tone::Number),
            (" damage.".to_string(), Tone::Plain),
        ]
    );
    assert_eq!(hit.file_line(), "         Rat attacks you and deals 12 damage.");
    assert_eq!(LogData::DebugWarn("careful".to_string()).file_line(), "[ WARN ] careful");
    assert_eq!(LogData::LevelUp { new_level: 3 }.file_line(), "         You reached level 3.");
}

#[test]
fn equipment_shows_its_statistics() {
    let mut game = GameState::for_tests();
    assert_eq!(game.format_weapon(), "None");
    assert_eq!(game.format_armor(), "None");
    let sword = game.register_item(&"weapon_short_sword".to_string()).unwrap();
    let leather = game.register_item(&"armor_leather".to_string()).unwrap();
    assert!(matches!(game.add_item_to_inv(sword), Ok(GameOutcome::Success)));
    assert!(matches!(game.add_item_to_inv(leather), Ok(GameOutcome::Success)));
    assert!(matches!(game.use_weapon(sword), Ok(GameOutcome::Success)));
    assert!(matches!(game.use_armor(leather), Ok(GameOutcome::Success)));
    assert_eq!(game.format_weapon(), "Short Sword <1dD10+1 DMG, 10% CRIT>");
    assert_eq!(game.format_armor(), "Leather Armor <2 MIT>");
    let honey = get_item_def("food_honey").unwrap();
    assert_eq!(stats_text(&honey.kind), " <4 NUT>");
}

#[test]
fn walls_join_their_neighbours() {
    let mut world = World::new();
    for x in 2..5 {
        world.set_tile_type(Point::new(x, 3), TileType::Wall);
    }
    world.set_tile_type(Point::new(3, 2), TileType::Wall);
    assert_eq!(wall_mask(&world, Point::new(3, 3)), 1 + 4 + 8);
    assert_eq!(wall_glyph(wall_mask(&world, Point::new(3, 3))), '┴');
    assert_eq!(wall_glyph(wall_mask(&world, Point::new(2, 3))), '─');
    assert_eq!(wall_glyph(wall_mask(&world, Point::new(3, 2))), '│');
    assert_eq!(wall_mask(&world, Point::new(0, 0)), 0);
    assert_eq!(signed_decimal(-42), "-42");
}

#[test]
fn adding_then_removing_restores_the_inventory() {
    let mut game = GameState::for_tests();
    for id in [7, 8, 9] {
        assert!(matches!(game.add_item_to_inv(id), Ok(GameOutcome::Success)));
    }
    assert!(matches!(game.add_item_to_inv(4), Ok(GameOutcome::Success)));
    assert!(matches!(game.remove_item_from_inv(4), Ok(GameOutcome::Success)));
    assert_eq!(game.player.character.inventory, vec![7, 8, 9]);
    assert!(matches!(game.remove_item_from_inv(7), Ok(GameOutcome::Success)));
    assert_eq!(game.player.character.inventory, vec![9, 8]);
}
