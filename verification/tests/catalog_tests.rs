use game_rs::catalog::{all_tags, game_ids, game_matches_tags, list_games, Games};
use game_rs::game::{Environment, Game, GameError};
use game_rs::order::{insert_distinct, text_less};
use game_rs::text::{
    format_padded, format_signed, format_unsigned, parse_unsigned, split_text,
};

fn game(id: &str, tags: &[&str], installed: bool) -> Game {
    Game {
        id: id.to_string(),
        name: format!("Game {}", id),
        dir: None,
        command: vec![id.to_string()],
        env: Environment::new(),
        tags: tags.iter().map(|t| t.to_string()).collect(),
        installed,
    }
}

fn shelf() -> Games {
    Games {
        games: vec![
            game("quake", &["fps", "classic"], true),
            game("doom", &["fps"], true),
            game("hexen", &["fantasy", "classic"], false),
            game("civ", &["strategy"], true),
        ],
    }
}

#[test]
fn game_without_tags_is_selected_by_its_id() {
    let x = game("x", &[], true);
    assert!(game_matches_tags(&x, &["x".to_string()]));
    assert!(!game_matches_tags(&x, &["y".to_string()]));
    assert!(!game_matches_tags(&x, &[]));
}

#[test]
fn negated_query_selects_through_the_id_as_well() {
    let x = game("x", &["a"], true);
    assert!(game_matches_tags(&x, &["!a".to_string()]));
    assert!(!game_matches_tags(&x, &["!a,!x".to_string()]));
    assert!(game_matches_tags(&x, &["b".to_string(), "a".to_string()]));
}

#[test]
fn listing_is_in_ascending_order_of_the_ids() {
    let games = shelf();
    let none: Vec<String> = Vec::new();
    assert_eq!(
        list_games(&games, &none),
        vec!["civ - Game civ", "doom - Game doom", "quake - Game quake"]
    );
    assert_eq!(
        list_games(&games, &["classic".to_string(), "strategy".to_string()]),
        vec!["civ - Game civ", "quake - Game quake"]
    );
    assert_eq!(
        list_games(&games, &["fps,!classic".to_string()]),
        vec!["doom - Game doom"]
    );
    assert_eq!(game_ids(&games), vec!["civ", "doom", "hexen", "quake"]);
}

#[test]
fn of_two_games_with_one_id_the_later_is_listed_once() {
    let games = Games {
        games: vec![game("doom", &["old"], true), game("doom", &["new"], true)],
    };
    assert!(games.find("doom").unwrap().has_tag("new"));
    let none: Vec<String> = Vec::new();
    assert_eq!(list_games(&games, &none), vec!["doom - Game doom"]);
    assert_eq!(list_games(&games, &["old".to_string()]).len(), 0);
    assert_eq!(games.eligible(&none), vec![1]);
    assert!(games.random(&["old".to_string()]).is_none());
    assert!(games.random(&["new".to_string()]).unwrap().has_tag("new"));
}

#[test]
fn tags_are_listed_once_in_ascending_order() {
    assert_eq!(
        all_tags(&shelf()),
        vec!["classic", "fantasy", "fps", "strategy"]
    );
    assert_eq!(all_tags(&Games { games: Vec::new() }).len(), 0);
}

#[test]
fn eligible_games_are_installed_and_selected() {
    let games = shelf();
    let none: Vec<String> = Vec::new();
    assert_eq!(games.eligible(&none), vec![0, 1, 3]);
    assert_eq!(games.eligible(&["classic".to_string()]), vec![0]);
    assert_eq!(games.eligible(&["fantasy".to_string()]).len(), 0);
}

#[test]
fn random_game_is_one_of_the_eligible() {
    let games = shelf();
    let args = vec!["fps".to_string()];
    for _ in 0..50 {
        let drawn = games.random(&args).expect("a game");
        assert!(drawn.id == "quake" || drawn.id == "doom");
    }
    assert_eq!(games.random(&["strategy".to_string()]).unwrap().id, "civ");
    assert!(games.random(&["fantasy".to_string()]).is_none());
    assert!(Games { games: Vec::new() }.random(&[]).is_none());
}

#[test]
fn game_to_play_is_the_one_named_first() {
    let games = shelf();
    let args = vec!["doom".to_string(), "quake".to_string()];
    assert_eq!(games.game_to_play(&args).ok().unwrap().id, "doom");
    let none: Vec<String> = Vec::new();
    match games.game_to_play(&none) {
        Err(GameError::NoGameId) => (),
        _ => panic!("a request without an id"),
    }
    let unknown = vec!["tetris".to_string()];
    match games.game_to_play(&unknown) {
        Err(GameError::NoSuchGame(id)) => assert_eq!(id, "tetris"),
        _ => panic!("a request for an unknown game"),
    }
}

#[test]
fn exit_code_one_is_the_only_failure() {
    match Game::exit_outcome(Some(1), "\"doom\"".to_string()) {
        Err(GameError::CommandReturnedFailure(text)) => assert_eq!(text, "\"doom\""),
        _ => panic!("a command that returned 1"),
    }
    assert!(Game::exit_outcome(Some(0), String::new()).is_ok());
    assert!(Game::exit_outcome(Some(2), String::new()).is_ok());
    assert!(Game::exit_outcome(Some(-1), String::new()).is_ok());
    assert!(Game::exit_outcome(None, String::new()).is_ok());
    assert!(game("doom", &[], true).check_installed().is_ok());
}

#[test]
fn environment_keeps_the_latest_value_of_a_name() {
    let mut env = Environment::new();
    assert!(env.get("A").is_none());
    env.insert("A".to_string(), "1".to_string());
    env.insert("B".to_string(), "2".to_string());
    env.insert("A".to_string(), "3".to_string());
    assert_eq!(env.get("A").unwrap(), "3");
    assert_eq!(env.get("B").unwrap(), "2");
    assert!(env.get("").is_none());
    let entries = env.entries();
    assert_eq!(entries.len(), 2);
    assert_eq!(entries[0].name, "A");
    assert_eq!(entries[0].value, "3");
    assert_eq!(entries[1].name, "B");
    assert_eq!(entries[1].value, "2");
}

#[test]
fn texts_are_ordered_character_by_character() {
    assert!(text_less("", "a"));
    assert!(!text_less("", ""));
    assert!(!text_less("a", ""));
    assert!(text_less("a", "b"));
    assert!(text_less("a", "ab"));
    assert!(!text_less("ab", "a"));
    assert!(text_less("Z", "a"));
    assert!(text_less("abc", "abd"));
    assert!(!text_less("abc", "abc"));
    assert!(text_less("z", "é"));
    let mut sorted: Vec<String> = Vec::new();
    for word in ["pear", "apple", "fig", "apple", "", "figs"] {
        insert_distinct(&mut sorted, word);
    }
    assert_eq!(sorted, vec!["", "apple", "fig", "figs", "pear"]);
}

#[test]
fn text_is_split_at_every_separator() {
    assert_eq!(split_text("", ','), vec![""]);
    assert_eq!(split_text("a", ','), vec!["a"]);
    assert_eq!(split_text("a,b", ','), vec!["a", "b"]);
    assert_eq!(split_text(",a,,b,", ','), vec!["", "a", "", "b", ""]);
    assert_eq!(split_text("é,ü", ','), vec!["é", "ü"]);
}

#[test]
fn numbers_are_written_and_read_in_decimal() {
    assert_eq!(format_unsigned(0), "0");
    assert_eq!(format_unsigned(10), "10");
    assert_eq!(format_unsigned(18446744073709551615), "18446744073709551615");
    assert_eq!(format_signed(0), "0");
    assert_eq!(format_signed(-1), "-1");
    assert_eq!(format_signed(9223372036854775807), "9223372036854775807");
    assert_eq!(format_padded(7, 2), "07");
    assert_eq!(format_padded(7, 0), "7");
    assert_eq!(format_padded(123, 2), "123");
    assert_eq!(format_padded(0, 4), "0000");
    assert_eq!(parse_unsigned("0", 0), Some(0));
    assert_eq!(parse_unsigned("007", 9), Some(7));
    assert_eq!(parse_unsigned("4294967295", 4294967295), Some(4294967295));
    assert_eq!(parse_unsigned("4294967296", 4294967295), None);
    assert_eq!(parse_unsigned("99999999999999999999999", 4294967295), None);
    assert_eq!(parse_unsigned("256", 255), None);
    assert_eq!(parse_unsigned("", 255), None);
    assert_eq!(parse_unsigned("+1", 255), None);
    assert_eq!(parse_unsigned("-1", 255), None);
    assert_eq!(parse_unsigned("1 ", 255), None);
    assert_eq!(parse_unsigned("٣", 255), None);
}
