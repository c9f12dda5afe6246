use game_rs::catalog::{game_matches_tags, list_games, parse_config};
use game_rs::game::{Environment, Game, GameError};
use game_rs::parse_error::ParseError;

#[test]
fn test_game_exists() {
    let config = "[games]\n[games.morrowind]\nname = \"Morrowind\"\ncmd = \"openmw\"";
    let games = parse_config(config).expect("Bad config");
    assert!(games.find("morrowind").is_some());
}

#[test]
fn test_format_game() {
    let config = "[games]\n[games.morrowind]\nname = \"Morrowind\"\ncmd = \"openmw\"";
    let games = parse_config(config).expect("Bad config");
    if let Some(game) = games.find("morrowind") {
        let s = game.format();
        assert_eq!(s, "morrowind - Morrowind");
    } else {
        panic!("Game not found");
    }
}

#[test]
fn test_parse_game() {
    let config = "[games]\n[games.morrowind]\nname = \"Morrowind\"\ncmd = \"openmw\"";
    let games = parse_config(config).expect("Bad config");
    if let Some(game) = games.find("morrowind") {
        assert_eq!(game.command, vec!["openmw"]);
    } else {
        panic!("Game not found");
    }
}

#[test]
fn test_parse_game_with_directory() {
    let config = "[games]\n[games.quake]\nname = \"Quake\"\ndir = \"/home/test/Games/quake\"\ncmd=\"vkquake\"";
    let games = parse_config(config).expect("Bad config");
    if let Some(game) = games.find("quake") {
        assert_eq!(game.dir.as_ref().unwrap(), "/home/test/Games/quake");
    } else {
        panic!("Game not found");
    }
}

#[test]
fn test_game_with_directory_prefix() {
    let config = "
        [directories]
        games_dir=\"/home/test/Games\"

        [games]
        
        [games.quake]
        name = \"Quake\"
        dir_prefix=\"games_dir\"
        dir = \"quake\"
        cmd=\"vkquake\"
        ";
    let games = parse_config(config).expect("Bad config");
    if let Some(game) = games.find("quake") {
        assert_eq!(game.dir.as_ref().unwrap(), "/home/test/Games/quake");
    } else {
        panic!("Game not found");
    }
}

#[test]
fn test_scummvm_game() {
    let config = "[games]\n[games.atlantis]\nname = \"Indiana Jones and the Fate of Atlantis\"\nscummvm_id = \"atlantis\"";
    let games = parse_config(config).expect("Bad config");
    let game = games.find("atlantis").unwrap();
    assert_eq!(game.command, vec!["scummvm", "atlantis"]);
}

#[test]
fn test_wine_game() {
    let config = "[games]\n[games.bg3]\nname = \"Baldur's Gate 3\"\ndir=\"Baldur's Gate 3\"\nwine_exe = \"bg3.exe\"";
    let games = parse_config(config).expect("Bad config");
    let game = games.find("bg3").unwrap();
    assert_eq!(game.command, vec!["mangohud", "wine", "bg3.exe"]);
}

#[test]
fn test_dosbox_game() {
    let config =
        "[games]\n[games.sc2k]\nname = \"SimCity 2000\"\ndosbox_config = \"sc2k.conf\"";
    let games = parse_config(config).expect("Bad config");
    let game = games.find("sc2k").unwrap();
    assert_eq!(game.command, vec!["dosbox", "-conf", "sc2k.conf"]);
}

#[test]
fn test_wine_game_without_mangohud() {
    let config = "
        [games]
        [games.bg3]
        name = \"Baldur's Gate 3\"
        dir=\"Baldur's Gate 3\"
        wine_exe = \"bg3.exe\"
        use_mangohud = false
        ";
    let games = parse_config(config).expect("Bad config");
    let game = games.find("bg3").unwrap();
    assert_eq!(game.command, vec!["wine", "bg3.exe"]);
}

#[test]
fn test_game_started_by_shell_script() {
    let config = "
        [games]
        [games.test]
        name = \"Test Game\"
        dir=\"Test Game\"
        cmd = \"sh start.sh\"";
    let games = parse_config(config).expect("Bad config");
    let game = games.find("test").unwrap();
    assert_eq!(game.command, vec!["sh", "start.sh"]);
}

#[test]
fn test_game_started_by_shell_script_with_spaces() {
    let config = "
        [games]
        [games.test]
        name = \"Test Game\"
        dir=\"Test Game\"
        cmd = \"sh 'start the game.sh'\"";
    let games = parse_config(config).expect("Bad config");
    let game = games.find("test").unwrap();
    assert_eq!(game.command, vec!["sh", "start the game.sh"]);
}

#[test]
fn test_tags() {
    let config = "
        [games]
        [games.doom]
        name = \"Doom\"
        dir=\"Doom\"
        cmd = \"dsda-doom -iwad DOOM.WAD\"
        tags = [\"classic\", \"fps\"]";
    let games = parse_config(config).expect("Bad config");
    let game = games.find("doom").unwrap();
    assert_eq!(game.tags, vec!["classic", "fps"]);
}

#[test]
fn test_wine_game_with_arguments() {
    let config = "
        [games]
        [games.test]
        name = \"Test Game\"
        dir=\"Test Game\"
        use_mangohud = false
        wine_exe = \"'Test Game.exe' -opt1 param1 -opt2\"";
    let games = parse_config(config).expect("Bad config");
    let game = games.find("test").unwrap();
    assert_eq!(
        game.command,
        vec!["wine", "Test Game.exe", "-opt1", "param1", "-opt2"]
    );
}

#[test]
fn test_wine_game_with_mangohud_fps_limit() {
    let config = "
        [games]
        [games.test]
        name = \"Test Game\"
        dir=\"Test Game\"
        fps_limit = 60
        wine_exe = \"TestGame.exe\"";
    let games = parse_config(config).expect("Bad config");
    let game = games.find("test").unwrap();
    match game.env.get("MANGOHUD_CONFIG") {
        Some(s) => assert_eq!(s, "fps_limit=60"),
        None => panic!("No mangohud FPS limit set"),
    }
}

#[test]
fn test_gamescope_height_width_settings() {
    let config = "
        [settings]
        width = 1920
        height = 1080
        use_gamescope = true
        
        [games]
        [games.morrowind]
        name = \"Morrowind\"
        cmd = \"openmw\"
        use_mangohud = true";
    let games = parse_config(config).expect("Bad config");
    if let Some(game) = games.find("morrowind") {
        assert_eq!(
            game.command,
            vec![
                "gamescope",
                "-W",
                "1920",
                "-H",
                "1080",
                "-f",
                "--force-grab-cursor",
                "--mangoapp",
                "--",
                "openmw"
            ]
        );
    } else {
        panic!("Game not found");
    }
}

#[test]
fn test_gamescope_default_height_and_width_settings() {
    let config = "
        [settings]
        use_gamescope = true
        
        [games]
        [games.morrowind]
        name = \"Morrowind\"
        cmd = \"openmw\"
        use_mangohud = true";
    let games = parse_config(config).expect("Bad config");
    if let Some(game) = games.find("morrowind") {
        assert_eq!(
            game.command,
            vec![
                "gamescope",
                "-W",
                "1280",
                "-H",
                "720",
                "-f",
                "--force-grab-cursor",
                "--mangoapp",
                "--",
                "openmw"
            ]
        );
    } else {
        panic!("Game not found");
    }
}

#[test]
fn test_gamescope_frame_rate_limit() {
    let config = "
        [settings]
        width = 1920
        height = 1080
        use_gamescope = true
        
        [games]
        [games.test]
        name = \"Test Game\"
        cmd = \"sh start.sh\"
        fps_limit = 60
        use_mangohud = true";
    let games = parse_config(config).expect("Bad config");
    if let Some(game) = games.find("test") {
        assert_eq!(
            game.command,
            vec![
                "gamescope",
                "-W",
                "1920",
                "-H",
                "1080",
                "-f",
                "--force-grab-cursor",
                "-r",
                "60",
                "--mangoapp",
                "--",
                "sh",
                "start.sh"
            ]
        );
    } else {
        panic!("Game not found");
    }
}

#[test]
fn test_nonexistent_directory_prefix_results_in_error() {
    let config = "
        [games]
        [games.test]
        name = \"Test Game\"
        dir_prefix = \"bad_dir\"
        cmd = \"sh start.sh\"";
    match parse_config(config) {
        Err(ParseError::NoSuchDirectoryPrefix(i, p)) => {
            assert_eq!(i, "test");
            assert_eq!(p, "bad_dir");
        }
        _ => panic!("Parse should fail with nonexistent directory prefix"),
    }
}

#[test]
fn test_toml_error() {
    // NOTE: Error is that game ID is duplicated
    let config = "
        [games]
        [games.test]
        name = \"Test Game\"
        dir_prefix = \"bad_dir\"
        cmd = \"sh start.sh\"

        [games.test]
        name = \"Test Game\"
        dir_prefix = \"bad_dir\"
        cmd = \"sh start.sh\"";

    let expected_message = "TOML parse error at line 8, column 16\n  |\n8 |         [games.test]\n  |                ^^^^\nduplicate key\n";
    match parse_config(config) {
        Err(ParseError::TomlError(m)) => assert_eq!(m, expected_message),
        _ => panic!("TOML parse should fail"),
    }
}

#[test]
fn test_dir_from_directories_config() {
    let config = "
        [directories]
        test_game_dir = \"/home/test/test_game\"

        [games]
        
        [games.testgame]
        name = \"Test Game\"
        dir = \"test_game_dir\"
        cmd=\"./test_game\"
        ";

    let games = parse_config(config).expect("Bad config");
    if let Some(game) = games.find("testgame") {
        if let Some(dir) = &game.dir {
            assert_eq!(dir, "/home/test/test_game");
        } else {
            panic!("No directory");
        }
    } else {
        panic!("Game not found");
    }
}

#[test]
fn test_unrecognized_option_produces_error() {
    let config = "
        [games]
        [games.testgame]
        name = \"Test Game\"
        dir = \"test_game_dir\"
        cmd=\"./test_game\"
        use_manohud = true # note the spelling error";
    match parse_config(config) {
        Err(ParseError::UnrecognizedOption(s)) => {
            assert_eq!(s, "use_manohud")
        }
        _ => panic!("This config should produce an error"),
    }
}

#[test]
fn test_do_not_use_vk() {
    let config = "
        [games]
        [games.testgame]
        name = \"Test Game\"
        dir = \"test_game_dir\"
        wine_exe=\"Test.exe\"
        use_vk = false";

    let games = parse_config(config).expect("Bad config");
    if let Some(game) = games.find("testgame") {
        assert_eq!(game.command, vec!["mangohud", "wine", "Test.exe"]);
        match game.env.get("WINEDLLOVERRIDES") {
            Some(s) => assert_eq!(s, "*d3d9,*d3d10,*d3d10_1,*d3d10core,*d3d11,*dxgi=b"),
            None => panic!("No mangohud FPS limit set"),
        }
    } else {
        panic!("Game not found");
    }
}

#[test]
fn test_any_tags_match() {
    let game = Game {
        id: "test_game".to_string(),
        name: "Test Game".to_string(),
        dir: None,
        command: vec!["test_game".to_string()],
        env: Environment::new(),
        tags: vec!["tag1".to_string(), "tag2".to_string(), "tag3".to_string()],
        installed: true,
    };
    let tags = ["tag2".to_string(), "tag4".to_string()];
    assert!(game_matches_tags(&game, &tags));
}

#[test]
fn test_all_tags_match() {
    let game = Game {
        id: "test_game".to_string(),
        name: "Test Game".to_string(),
        dir: None,
        command: vec!["test_game".to_string()],
        env: Environment::new(),
        tags: vec!["tag1".to_string(), "tag2".to_string()],
        installed: true,
    };
    let tags_matching = ["tag1,tag2".to_string()];
    assert!(game_matches_tags(&game, &tags_matching));
    let tags_not_matching = ["tag1,tag3".to_string()];
    assert!(!game_matches_tags(&game, &tags_not_matching));
}

#[test]
fn test_installed_flag_prevents_game_being_played() {
    let config = "
        [games]
        [games.testgame]
        name = \"Test Game\"
        dir = \"test_game_dir\"
        wine_exe=\"Test.exe\"
        installed = false";

    let games = parse_config(config).expect("Bad config");
    if let Some(game) = games.find("testgame") {
        match game.check_installed() {
            Err(GameError::NotInstalled) => (),
            _ => {
                panic!("Game should not be runnable");
            }
        }
    } else {
        panic!("Game not found");
    }
}

#[test]
fn test_list_does_not_show_games_that_are_not_installed() {
    let config = "
        [games]
        [games.testgame]
        name = \"Test Game\"
        dir = \"test_game_dir\"
        wine_exe=\"Test.exe\"
        installed = false

        [games.testgame2]
        name = \"Test Game 2\"
        dir = \"test_game_dir\"
        wine_exe = \"TestGame2.exe\"";

    let games = parse_config(config).expect("Bad config");
    let game_list = list_games(&games, &[String::new(); 0]);
    assert_eq!(game_list.len(), 1);
    assert_eq!(&game_list[0], "testgame2 - Test Game 2");
}

#[test]
fn test_game_whose_title_matches_the_tag_is_included_in_matches() {
    let game = Game {
        id: "test_game".to_string(),
        name: "Test Game".to_string(),
        dir: None,
        command: vec!["test_game".to_string()],
        env: Environment::new(),
        tags: vec!["tag1".to_string(), "tag2".to_string()],
        installed: true,
    };
    let tags = vec!["test_game".to_string()];
    assert!(game_matches_tags(&game, &tags));
}
