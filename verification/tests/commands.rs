use anthill::util::command_handler::GameCommand;
use anthill::util::strings::{decimal, join, parse_unsigned, split_whitespace};

#[test]
fn give_with_amount() {
    match GameCommand::try_from("give potion_healing_small 3".to_string()) {
        Ok(GameCommand::Give { item_def, amount }) => {
            assert_eq!(item_def, "potion_healing_small");
            assert_eq!(amount, 3);
        },
        _ => panic!("expected give"),
    }
}

#[test]
fn give_amount_defaults_to_one() {
    match GameCommand::try_from("give food_apple lots".to_string()) {
        Ok(GameCommand::Give { amount, .. }) => assert_eq!(amount, 1),
        _ => panic!("expected give"),
    }
    match GameCommand::try_from("give food_apple".to_string()) {
        Ok(GameCommand::Give { amount, .. }) => assert_eq!(amount, 1),
        _ => panic!("expected give"),
    }
}

#[test]
fn commands_are_read_in_lowercase() {
    assert!(matches!(GameCommand::try_from("  QUIT ".to_string()), Ok(GameCommand::Quit)));
    assert!(matches!(GameCommand::try_from("Exit".to_string()), Ok(GameCommand::Quit)));
    assert!(matches!(GameCommand::try_from("pi".to_string()), Ok(GameCommand::PlayerInfo)));
}

#[test]
fn teleport_reads_coordinates() {
    match GameCommand::try_from("teleport 12 +7".to_string()) {
        Ok(GameCommand::Teleport(p)) => {
            assert_eq!(p.x, 12);
            assert_eq!(p.y, 7);
        },
        _ => panic!("expected teleport"),
    }
}

#[test]
fn command_errors() {
    let message = |input: &str| match GameCommand::try_from(input.to_string()) {
        Err(e) => e,
        Ok(_) => panic!("expected an error"),
    };
    assert_eq!(message(""), "No command given");
    assert_eq!(message("   "), "No command given");
    assert_eq!(message("give"), "Missing item name");
    assert_eq!(message("teleport"), "Missing coordinates");
    assert_eq!(message("teleport x 1"), "Invalid format for coordinates");
    assert_eq!(message("teleport 1"), "Missing y-coordinate");
    assert_eq!(message("teleport 1 -2"), "Invalid format for y-coordinate");
    assert_eq!(message("Dance now"), "Unknown Command dance");
}

#[test]
fn every_listed_command_without_arguments_parses_back() {
    let all = GameCommand::all();
    assert_eq!(all.len(), 13);
    for command in all {
        let name = command.name();
        if name == "give" || name == "teleport" {
            continue;
        }
        let parsed = GameCommand::try_from(name.to_string()).unwrap();
        assert_eq!(parsed.name(), name);
    }
}

#[test]
fn descriptions() {
    assert_eq!(GameCommand::Help.description(), "List available commands");
    assert_eq!(GameCommand::GodMode.name(), "godmode");
}

#[test]
fn words_of_a_line() {
    let words = split_whitespace(" give\tfood_apple  2\n");
    assert_eq!(words, vec!["give".to_string(), "food_apple".to_string(), "2".to_string()]);
    assert!(split_whitespace("  ").is_empty());
}

#[test]
fn unsigned_numbers() {
    assert_eq!(parse_unsigned("42", 100), Some(42));
    assert_eq!(parse_unsigned("+42", 100), Some(42));
    assert_eq!(parse_unsigned("101", 100), None);
    assert_eq!(parse_unsigned("", 100), None);
    assert_eq!(parse_unsigned("+", 100), None);
    assert_eq!(parse_unsigned("4x", 100), None);
    assert_eq!(parse_unsigned("4294967295", 4294967295), Some(4294967295));
    assert_eq!(parse_unsigned("4294967296", 4294967295), None);
}

#[test]
fn decimal_and_join() {
    assert_eq!(decimal(0), "0");
    assert_eq!(decimal(1907), "1907");
    assert_eq!(join("a", "bc"), "abc");
}
