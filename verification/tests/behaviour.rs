use anthill::data::item_defs::get_item_def;
use anthill::data::npc_defs::get_npc_def;
use anthill::gameplay::cursor::CursorMode;
use anthill::gameplay::game::GameState;
use anthill::gameplay::game_items::{GameItemKindDef, WeaponItem};
use anthill::gameplay::player_actions::PlayerInput;
use anthill::proc_gen::corridors::MapEdge;
use anthill::proc_gen::mst::{mst_kruskal, UnionFind};
use anthill::util::command_handler::GameCommand;
use anthill::util::errors_results::{FailReason, GameOutcome};
use anthill::util::input_handler::{
    modal_key_step, world_key_action, InventoryAction, ModalEffect, ModalKey, ModalState, WorldKeyAction,
};
use anthill::util::rng::{DieSize, Roll};
use anthill::world::coordinate_system::{Direction, Point};
use anthill::world::level::Level;
use anthill::world::worldspace::World;
use rand::rngs::StdRng;
use rand::SeedableRng;

#[test]
fn a_roll_sums_all_its_dice() {
    let mut rng = StdRng::seed_from_u64(73);
    let roll = Roll::new(3, DieSize::D6).add_modifier(2);
    for _ in 0..200 {
        let r = roll.roll(&mut rng);
        assert!((5..=20).contains(&r));
    }
    let fixed = Roll::new(0, DieSize::D10).add_modifier(5);
    assert_eq!(fixed.roll(&mut rng), 5);
}

#[test]
fn the_funny_frog_is_a_lower_case_f() {
    let frog = get_npc_def("funny_frog").unwrap();
    assert_eq!(frog.name, "Funny Frog");
    assert_eq!(frog.glyph, 'f');
}

#[test]
fn the_rusty_sword_and_the_shortbow_do_fixed_damage() {
    match get_item_def("weapon_sword_rusty").unwrap().kind {
        GameItemKindDef::Weapon { damage, crit_chance, .. } => {
            assert_eq!(damage.dice_amount(), 0);
            assert_eq!(damage.modifier(), 5);
            assert_eq!(crit_chance, 5);
        },
        _ => panic!("the rusty sword is a weapon"),
    }
    match get_item_def("weapon_bow_short").unwrap().kind {
        GameItemKindDef::Weapon { damage, range, .. } => {
            assert_eq!(damage.dice_amount(), 0);
            assert_eq!(damage.modifier(), 3);
            assert!(range.is_some());
        },
        _ => panic!("the shortbow is a weapon"),
    }
}

#[test]
fn points_within_a_radius_of_one_are_the_cross() {
    let w = World::new();
    let mut points = w.get_points_in_radius(Point::new(5, 5), 1);
    points.sort_by_key(|p| (p.x, p.y));
    assert_eq!(points, vec![Point::new(4, 5), Point::new(5, 4), Point::new(5, 5), Point::new(5, 6), Point::new(6, 5)]);
}

#[test]
fn unequipping_into_a_full_inventory_keeps_the_item() {
    let mut game = GameState::for_tests();
    game.player.character.weapon = Some(WeaponItem(900));
    game.player.character.inventory = (0..26).collect();
    let r = game.unequip_weapon().unwrap();
    assert!(matches!(r, GameOutcome::Fail(FailReason::InventoryFull)));
    assert_eq!(game.player.character.weapon, Some(WeaponItem(900)));
    assert_eq!(game.player.character.inventory.len(), 26);
}

#[test]
fn out_of_bounds_is_not_available() {
    let level = Level::new();
    assert!(!level.is_available(Point::new(500, 5)));
    assert!(!level.is_available(Point::new(5, 500)));
}

#[test]
fn giving_many_items_fills_the_inventory_with_fresh_ones() {
    let mut game = GameState::for_tests();
    let before: Vec<u32> = game.items.keys().copied().collect();
    game.execute_command(GameCommand::Give { item_def: "food_cake".to_string(), amount: u32::MAX });
    let inv = game.player.character.inventory.clone();
    assert_eq!(inv.len(), 26);
    for (k, id) in inv.iter().enumerate() {
        assert!(!before.contains(id));
        assert_eq!(game.items.get(id).unwrap().def_id, "food_cake");
        for other in &inv[k + 1..] {
            assert!(id < other);
        }
    }
    assert_eq!(game.items.len(), before.len() + 26);
}

#[test]
fn maxequip_gives_the_defined_items() {
    let mut game = GameState::for_tests();
    game.execute_command(GameCommand::MaxEquip);
    let defs: Vec<String> =
        game.player.character.inventory.iter().map(|id| game.items.get(id).unwrap().def_id.clone()).collect();
    let expected: Vec<String> = ["weapon_warhammer", "food_meat", "food_meat", "food_meat", "food_meat", "food_meat",
        "potion_healing_small", "potion_healing_small"]
        .iter()
        .map(|s| s.to_string())
        .collect();
    assert_eq!(defs, expected);
}

#[test]
fn merging_keeps_the_root_of_the_larger_set() {
    let mut uf = UnionFind::new(3);
    assert_eq!(uf.merge(0, 1), 0);
    assert_eq!(uf.merge(2, 1), 0);
    assert_eq!(uf.find_set(2), 0);
    assert_eq!(uf.find_set(1), 0);
}

#[test]
fn kruskal_on_disconnected_rooms_says_so() {
    let edges = vec![MapEdge { source: 0, destination: 1, weight: 5 }];
    assert_eq!(mst_kruskal(edges, 3), Err("Not all rooms connected"));
    let edges = vec![
        MapEdge { source: 0, destination: 1, weight: 5 },
        MapEdge { source: 1, destination: 2, weight: 3 },
        MapEdge { source: 0, destination: 2, weight: 1 },
    ];
    let (w, tree) = mst_kruskal(edges, 3).unwrap();
    assert_eq!(w, 4);
    assert_eq!(tree, vec![MapEdge { source: 0, destination: 2, weight: 1 }, MapEdge { source: 1, destination: 2, weight: 3 }]);
}

#[test]
fn world_keys() {
    assert_eq!(world_key_action('w'), WorldKeyAction::Act(PlayerInput::Direction(Direction::Up)));
    assert_eq!(world_key_action('.'), WorldKeyAction::Act(PlayerInput::Wait));
    assert_eq!(world_key_action('A'), WorldKeyAction::Act(PlayerInput::UnequipArmor));
    assert_eq!(world_key_action('D'), WorldKeyAction::OpenInventory(InventoryAction::Drop));
    assert_eq!(world_key_action('r'), WorldKeyAction::StartCursor(CursorMode::RangedAttack));
    assert_eq!(world_key_action('z'), WorldKeyAction::Nothing);
}

#[test]
fn command_line_keys() {
    let (next, effect) = modal_key_step(ModalState::CommandInput("hel".to_string()), ModalKey::Char('p'));
    assert!(matches!(next, Some(ModalState::CommandInput(ref b)) if b == "help"));
    assert!(matches!(effect, ModalEffect::Nothing));
    let (next, _) = modal_key_step(ModalState::CommandInput("help".to_string()), ModalKey::Backspace);
    assert!(matches!(next, Some(ModalState::CommandInput(ref b)) if b == "hel"));
    let (next, effect) = modal_key_step(ModalState::CommandInput("help".to_string()), ModalKey::Enter);
    assert!(next.is_none());
    assert!(matches!(effect, ModalEffect::RunCommand(ref c) if c == "help"));
    let (next, effect) = modal_key_step(ModalState::ConfirmUseItem(4), ModalKey::Char('x'));
    assert!(matches!(next, Some(ModalState::ConfirmUseItem(4))));
    assert!(matches!(effect, ModalEffect::Nothing));
    let (next, effect) = modal_key_step(ModalState::ConfirmDropItem(4), ModalKey::Enter);
    assert!(next.is_none());
    assert!(matches!(effect, ModalEffect::DropItem(4)));
    let (_, effect) = modal_key_step(ModalState::ConfirmQuit, ModalKey::Char('q'));
    assert!(matches!(effect, ModalEffect::Quit));
}
