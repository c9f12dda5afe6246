use game_rs::catalog::{compile_document, parse_config, read_settings, read_size};
use game_rs::game::Environment;
use game_rs::game_builder::{join_directories, GameBuilder};
use game_rs::parse_error::ParseError;
use game_rs::value::{ConfigEntry, ConfigTable, ConfigValue, Settings};

fn words(list: &[&str]) -> Vec<String> {
    list.iter().map(|s| s.to_string()).collect()
}

fn plain_settings() -> Settings {
    Settings {
        width: 0,
        height: 0,
        use_gamescope: false,
    }
}

fn compositor_settings() -> Settings {
    Settings {
        width: 800,
        height: 600,
        use_gamescope: true,
    }
}

fn text_entry(key: &str, value: &str) -> ConfigEntry {
    ConfigEntry {
        key: key.to_string(),
        value: ConfigValue::Text(value.to_string()),
    }
}

#[test]
fn overlay_defaults_to_on_for_the_compatibility_layer() {
    let directories = ConfigTable::new();
    let settings = plain_settings();
    let game = GameBuilder::new("g".to_string(), &directories, &settings)
        .name("G".to_string())
        .command(words(&["wine", "g.exe"]))
        .build()
        .expect("a game");
    assert_eq!(game.command, vec!["mangohud", "wine", "g.exe"]);
}

#[test]
fn overlay_defaults_to_off_for_other_commands() {
    let directories = ConfigTable::new();
    let settings = plain_settings();
    let game = GameBuilder::new("g".to_string(), &directories, &settings)
        .name("G".to_string())
        .command(words(&["winecfg", "wine"]))
        .build()
        .expect("a game");
    assert_eq!(game.command, vec!["winecfg", "wine"]);
    assert!(game.env.get("MANGOHUD_CONFIG").is_none());
}

#[test]
fn explicit_overlay_choice_beats_the_default() {
    let directories = ConfigTable::new();
    let settings = plain_settings();
    let game = GameBuilder::new("g".to_string(), &directories, &settings)
        .name("G".to_string())
        .command(words(&["openmw"]))
        .mangohud(true)
        .build()
        .expect("a game");
    assert_eq!(game.command, vec!["mangohud", "openmw"]);
}

#[test]
fn frame_rate_limit_reaches_the_overlay_through_the_environment() {
    let directories = ConfigTable::new();
    let settings = plain_settings();
    let game = GameBuilder::new("g".to_string(), &directories, &settings)
        .name("G".to_string())
        .command(words(&["openmw"]))
        .mangohud(true)
        .fps_limit(144)
        .build()
        .expect("a game");
    assert_eq!(game.env.get("MANGOHUD_CONFIG").unwrap(), "fps_limit=144");
}

#[test]
fn negative_frame_rate_limit_is_written_with_its_sign() {
    let directories = ConfigTable::new();
    let settings = compositor_settings();
    let game = GameBuilder::new("g".to_string(), &directories, &settings)
        .name("G".to_string())
        .command(words(&["openmw"]))
        .mangohud(true)
        .fps_limit(i64::MIN)
        .build()
        .expect("a game");
    assert_eq!(
        game.env.get("MANGOHUD_CONFIG").unwrap(),
        "fps_limit=-9223372036854775808"
    );
    assert_eq!(game.command[7], "-r");
    assert_eq!(game.command[8], "-9223372036854775808");
}

#[test]
fn frame_rate_limit_without_overlay_sets_no_variable() {
    let directories = ConfigTable::new();
    let settings = plain_settings();
    let game = GameBuilder::new("g".to_string(), &directories, &settings)
        .name("G".to_string())
        .command(words(&["wine", "g.exe"]))
        .mangohud(false)
        .fps_limit(60)
        .build()
        .expect("a game");
    assert!(game.env.get("MANGOHUD_CONFIG").is_none());
    assert_eq!(game.command, vec!["wine", "g.exe"]);
}

#[test]
fn both_variables_are_set_together() {
    let directories = ConfigTable::new();
    let settings = plain_settings();
    let mut env = Environment::new();
    env.insert("A".to_string(), "1".to_string());
    env.insert("MANGOHUD_CONFIG".to_string(), "old".to_string());
    let game = GameBuilder::new("g".to_string(), &directories, &settings)
        .name("G".to_string())
        .command(words(&["wine", "g.exe"]))
        .env(env)
        .fps_limit(30)
        .use_vk(false)
        .build()
        .expect("a game");
    assert_eq!(game.env.get("A").unwrap(), "1");
    assert_eq!(game.env.get("MANGOHUD_CONFIG").unwrap(), "fps_limit=30");
    assert_eq!(
        game.env.get("WINEDLLOVERRIDES").unwrap(),
        "*d3d9,*d3d10,*d3d10_1,*d3d10core,*d3d11,*dxgi=b"
    );
}

#[test]
fn compositor_puts_rate_before_overlay_flag_and_separator_before_command() {
    let directories = ConfigTable::new();
    let settings = compositor_settings();
    let game = GameBuilder::new("g".to_string(), &directories, &settings)
        .name("G".to_string())
        .command(words(&["wine", "g.exe", "--", "-x"]))
        .fps_limit(75)
        .build()
        .expect("a game");
    assert_eq!(
        game.command,
        vec![
            "gamescope",
            "-W",
            "800",
            "-H",
            "600",
            "-f",
            "--force-grab-cursor",
            "-r",
            "75",
            "--mangoapp",
            "--",
            "wine",
            "g.exe",
            "--",
            "-x"
        ]
    );
    assert_eq!(game.env.get("MANGOHUD_CONFIG").unwrap(), "fps_limit=75");
}

#[test]
fn compositor_without_overlay_or_rate_wraps_the_bare_command() {
    let directories = ConfigTable::new();
    let settings = compositor_settings();
    let game = GameBuilder::new("g".to_string(), &directories, &settings)
        .name("G".to_string())
        .command(words(&["openmw"]))
        .build()
        .expect("a game");
    assert_eq!(
        game.command,
        vec![
            "gamescope",
            "-W",
            "800",
            "-H",
            "600",
            "-f",
            "--force-grab-cursor",
            "--",
            "openmw"
        ]
    );
}

#[test]
fn per_game_compositor_flag_does_not_wrap_the_command() {
    let directories = ConfigTable::new();
    let settings = plain_settings();
    let game = GameBuilder::new("g".to_string(), &directories, &settings)
        .name("G".to_string())
        .command(words(&["openmw"]))
        .use_gamescope()
        .build()
        .expect("a game");
    assert_eq!(game.command, vec!["openmw"]);
}

#[test]
fn missing_name_comes_before_missing_command() {
    let directories = ConfigTable::new();
    let settings = plain_settings();
    match GameBuilder::new("g".to_string(), &directories, &settings).build() {
        Err(ParseError::MissingName(id)) => assert_eq!(id, "g"),
        _ => panic!("a game without a name"),
    }
    match GameBuilder::new("g".to_string(), &directories, &settings)
        .name("G".to_string())
        .dir_prefix("nowhere".to_string())
        .build()
    {
        Err(ParseError::MissingCommand(id)) => assert_eq!(id, "g"),
        _ => panic!("a game without a command"),
    }
}

#[test]
fn undefined_alias_fails_even_with_an_empty_directory() {
    let directories = ConfigTable {
        entries: vec![
            text_entry("games", "/srv/games"),
            ConfigEntry {
                key: "number".to_string(),
                value: ConfigValue::Integer(3),
            },
        ],
    };
    let settings = plain_settings();
    match GameBuilder::new("g".to_string(), &directories, &settings)
        .name("G".to_string())
        .command(words(&["openmw"]))
        .dir_prefix("elsewhere".to_string())
        .build()
    {
        Err(ParseError::NoSuchDirectoryPrefix(id, alias)) => {
            assert_eq!(id, "g");
            assert_eq!(alias, "elsewhere");
        }
        _ => panic!("an alias that is not defined"),
    }
    match GameBuilder::new("g".to_string(), &directories, &settings)
        .name("G".to_string())
        .command(words(&["openmw"]))
        .dir_prefix("number".to_string())
        .dir("sub".to_string())
        .build()
    {
        Err(ParseError::NoSuchDirectoryPrefix(id, alias)) => {
            assert_eq!(id, "g");
            assert_eq!(alias, "number");
        }
        _ => panic!("an alias that is no text"),
    }
}

#[test]
fn alias_with_empty_directory_keeps_a_trailing_slash() {
    let directories = ConfigTable {
        entries: vec![text_entry("games", "/srv/games")],
    };
    let settings = plain_settings();
    let game = GameBuilder::new("g".to_string(), &directories, &settings)
        .name("G".to_string())
        .command(words(&["openmw"]))
        .dir_prefix("games".to_string())
        .build()
        .expect("a game");
    assert_eq!(game.dir.as_ref().unwrap(), "/srv/games/");
}

#[test]
fn no_directory_at_all_leaves_the_working_directory_unset() {
    let directories = ConfigTable::new();
    let settings = plain_settings();
    let game = GameBuilder::new("g".to_string(), &directories, &settings)
        .name("G".to_string())
        .command(words(&["openmw"]))
        .not_installed()
        .tags(words(&["rpg"]))
        .build()
        .expect("a game");
    assert!(game.dir.is_none());
    assert!(!game.installed);
    assert!(!game.is_installed());
    assert_eq!(game.tags, vec!["rpg"]);
    assert!(game.has_tag("rpg"));
    assert!(!game.has_tag("rp"));
    assert_eq!(game.id, "g");
    assert_eq!(game.name, "G");
}

#[test]
fn directories_join_with_one_slash() {
    assert_eq!(join_directories("", ""), "");
    assert_eq!(join_directories("", "quake"), "quake");
    assert_eq!(join_directories("/srv", "quake"), "/srv/quake");
    assert_eq!(join_directories("/srv/", "quake"), "/srv/quake");
    assert_eq!(join_directories("/srv", "/opt/quake"), "/opt/quake");
    assert_eq!(join_directories("/srv", ""), "/srv/");
    assert_eq!(join_directories("/", ""), "/");
}

#[test]
fn is_wine_looks_at_the_first_token_only() {
    let directories = ConfigTable::new();
    let settings = plain_settings();
    let builder = GameBuilder::new("g".to_string(), &directories, &settings);
    assert!(!builder.is_wine());
    let builder = builder.command(words(&["wine"]));
    assert!(builder.is_wine());
    let builder = builder.command(words(&["env", "wine"]));
    assert!(!builder.is_wine());
}

#[test]
fn document_without_games_table_fails() {
    match parse_config("[settings]\nwidth = 1") {
        Err(ParseError::MissingGameTable) => (),
        _ => panic!("a document without games"),
    }
    match parse_config("games = 3") {
        Err(ParseError::MissingGameTable) => (),
        _ => panic!("games that are no table"),
    }
    match compile_document(&ConfigTable::new()) {
        Err(ParseError::MissingGameTable) => (),
        _ => panic!("an empty document"),
    }
}

#[test]
fn game_that_is_no_table_fails() {
    match parse_config("[games]\ndoom = \"doom\"") {
        Err(ParseError::GameNotTable) => (),
        _ => panic!("a game that is no table"),
    }
}

#[test]
fn game_without_name_or_command_fails() {
    match parse_config("[games]\n[games.doom]\ncmd = \"doom\"") {
        Err(ParseError::MissingName(id)) => assert_eq!(id, "doom"),
        _ => panic!("a game without a name"),
    }
    match parse_config("[games]\n[games.doom]\nname = \"Doom\"") {
        Err(ParseError::MissingCommand(id)) => assert_eq!(id, "doom"),
        _ => panic!("a game without a command"),
    }
}

#[test]
fn unfinished_quotation_sets_no_command() {
    match parse_config("[games]\n[games.doom]\nname = \"Doom\"\ncmd = \"doom 'unfinished\"") {
        Err(ParseError::MissingCommand(id)) => assert_eq!(id, "doom"),
        _ => panic!("a command line that cannot be read"),
    }
}

#[test]
fn values_of_the_wrong_kind_count_as_absent() {
    let config = "
        [settings]
        width = \"wide\"
        use_gamescope = 1

        [games]
        [games.doom]
        name = \"Doom\"
        cmd = \"doom\"
        dir = 5
        dir_prefix = true
        env = \"none\"
        fps_limit = \"fast\"
        installed = \"no\"
        tags = \"fps\"
        use_gamescope = \"yes\"
        use_mangohud = 1
        use_vk = 0
        dosbox_config = 1
        scummvm_id = 2
        wine_exe = 3
        ";
    let games = parse_config(config).expect("Bad config");
    let game = games.find("doom").expect("Game not found");
    assert_eq!(game.command, vec!["doom"]);
    assert!(game.dir.is_none());
    assert!(game.installed);
    assert!(game.tags.is_empty());
    assert!(game.env.get("WINEDLLOVERRIDES").is_none());
    assert!(game.env.get("MANGOHUD_CONFIG").is_none());
}

#[test]
fn items_that_are_no_texts_are_left_out_of_tags_and_environment() {
    let config = "
        [games]
        [games.doom]
        name = \"Doom\"
        cmd = \"doom\"
        tags = [\"fps\", 3, \"classic\", true]
        [games.doom.env]
        A = \"1\"
        B = 2
        C = \"3\"
        ";
    let games = parse_config(config).expect("Bad config");
    let game = games.find("doom").expect("Game not found");
    assert_eq!(game.tags, vec!["fps", "classic"]);
    assert_eq!(game.env.get("A").unwrap(), "1");
    assert!(game.env.get("B").is_none());
    assert_eq!(game.env.get("C").unwrap(), "3");
}

#[test]
fn of_several_commands_the_last_key_of_the_table_counts() {
    let config = "
        [games]
        [games.doom]
        name = \"Doom\"
        wine_exe = \"doom.exe\"
        cmd = \"doom\"
        scummvm_id = \"doom\"
        dosbox_config = \"doom.conf\"
        use_mangohud = false
        ";
    let games = parse_config(config).expect("Bad config");
    let game = games.find("doom").expect("Game not found");
    assert_eq!(game.command, vec!["wine", "doom.exe"]);
}

#[test]
fn first_unknown_key_is_the_one_reported() {
    let config = "
        [games]
        [games.doom]
        zzz = 1
        name = \"Doom\"
        aaa = 2
        cmd = \"doom\"
        ";
    match parse_config(config) {
        Err(ParseError::UnrecognizedOption(key)) => assert_eq!(key, "aaa"),
        _ => panic!("a table with unknown keys"),
    }
}

#[test]
fn unknown_key_beats_every_error_of_the_game() {
    match parse_config("[games]\n[games.doom]\ndir_prefix = \"nowhere\"\nbogus = 1") {
        Err(ParseError::UnrecognizedOption(key)) => assert_eq!(key, "bogus"),
        _ => panic!("a table with an unknown key"),
    }
}

#[test]
fn settings_sizes_beyond_32_bits_count_as_absent() {
    let config = "
        [settings]
        width = 4294967296
        height = -1
        use_gamescope = true

        [games]
        [games.doom]
        name = \"Doom\"
        cmd = \"doom\"
        ";
    let games = parse_config(config).expect("Bad config");
    let game = games.find("doom").expect("Game not found");
    assert_eq!(game.command[2], "1280");
    assert_eq!(game.command[4], "720");
    assert_eq!(read_size(0, 7), 0);
    assert_eq!(read_size(4294967295, 7), 4294967295);
    assert_eq!(read_size(4294967296, 7), 7);
    assert_eq!(read_size(-1, 7), 7);
    assert_eq!(read_size(i64::MIN, 7), 7);
}

#[test]
fn settings_table_without_compositor_leaves_commands_bare() {
    let config = "
        [settings]
        width = 640

        [games]
        [games.doom]
        name = \"Doom\"
        cmd = \"doom\"
        ";
    let games = parse_config(config).expect("Bad config");
    assert_eq!(games.find("doom").unwrap().command, vec!["doom"]);
}

#[test]
fn compiled_document_matches_compiled_text() {
    let root = ConfigTable {
        entries: vec![ConfigEntry {
            key: "games".to_string(),
            value: ConfigValue::Table(ConfigTable {
                entries: vec![ConfigEntry {
                    key: "doom".to_string(),
                    value: ConfigValue::Table(ConfigTable {
                        entries: vec![text_entry("name", "Doom"), text_entry("dir", "/opt/doom")],
                    }),
                }],
            }),
        }],
    };
    match compile_document(&root) {
        Err(ParseError::MissingCommand(id)) => assert_eq!(id, "doom"),
        _ => panic!("a game without a command"),
    }
    assert_eq!(root.get_str("games"), "");
    assert!(root.get("games").is_some());
    assert!(root.get("game").is_none());
}

#[test]
fn table_lookup_reads_texts_only() {
    let table = ConfigTable {
        entries: vec![
            text_entry("a", "1"),
            ConfigEntry {
                key: "b".to_string(),
                value: ConfigValue::Boolean(true),
            },
            text_entry("a", "2"),
        ],
    };
    assert_eq!(table.get_str("a"), "2");
    assert_eq!(table.get_str("b"), "");
    assert_eq!(table.get_str("c"), "");
}

#[test]
fn compositor_is_switched_on_under_either_key() {
    let config = "
        [settings]
        use_compositor = true

        [games]
        [games.doom]
        name = \"Doom\"
        cmd = \"doom\"
        ";
    let games = parse_config(config).expect("Bad config");
    assert_eq!(
        games.find("doom").unwrap().command,
        vec![
            "gamescope",
            "-W",
            "1280",
            "-H",
            "720",
            "-f",
            "--force-grab-cursor",
            "--",
            "doom"
        ]
    );
    let both = ConfigTable {
        entries: vec![ConfigEntry {
            key: "settings".to_string(),
            value: ConfigValue::Table(ConfigTable {
                entries: vec![
                    ConfigEntry {
                        key: "use_compositor".to_string(),
                        value: ConfigValue::Boolean(true),
                    },
                    ConfigEntry {
                        key: "use_gamescope".to_string(),
                        value: ConfigValue::Boolean(false),
                    },
                ],
            }),
        }],
    };
    assert_eq!(
        read_settings(&both),
        Settings {
            width: 1280,
            height: 720,
            use_gamescope: false
        }
    );
}

#[test]
fn document_without_settings_has_the_default_size() {
    assert_eq!(
        read_settings(&ConfigTable::new()),
        Settings {
            width: 1280,
            height: 720,
            use_gamescope: false
        }
    );
}
