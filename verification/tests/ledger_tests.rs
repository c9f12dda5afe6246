use game_rs::catalog::Games;
use game_rs::game::{Environment, Game, GameError};
use game_rs::ledger::{
    find_game_stats, parse_ledger, parse_ledger_in_local_offset, record_session, render_ledger,
    update_ledger, update_ledger_in_offset, LedgerError,
};
use game_rs::report::{records_to_report, total_play_time};
use game_rs::stats::GameStats;
use game_rs::timestamp::Timestamp;

fn moment(day: u8, hour: u8) -> Timestamp {
    Timestamp::new(2025, 11, day, hour, 7, 0, 3600).expect("a moment")
}

fn plain_game(id: &str, tags: &[&str], installed: bool) -> Game {
    Game {
        id: id.to_string(),
        name: id.to_uppercase(),
        dir: None,
        command: vec![id.to_string()],
        env: Environment::new(),
        tags: tags.iter().map(|t| t.to_string()).collect(),
        installed,
    }
}

#[test]
fn session_of_unknown_game_appends_one_line() {
    let before = "doom\t5400\t2025-11-03 19:07:00\n";
    let after = update_ledger_in_offset(before, "quake", 61, moment(4, 20), 3600).expect("a ledger");
    assert_eq!(
        after,
        "doom\t5400\t2025-11-03 19:07:00\nquake\t61\t2025-11-04 20:07:00\n"
    );
}

#[test]
fn session_of_known_game_adds_its_seconds_and_keeps_other_lines() {
    let before = "doom\t5400\t2025-11-03 19:07:00\nquake\t61\t2025-11-04 20:07:00\nhexen\t1\t2024-02-29 00:07:00\n";
    let after = update_ledger_in_offset(before, "quake", 39, moment(5, 21), 3600).expect("a ledger");
    assert_eq!(
        after,
        "doom\t5400\t2025-11-03 19:07:00\nquake\t100\t2025-11-05 21:07:00\nhexen\t1\t2024-02-29 00:07:00\n"
    );
}

#[test]
fn first_session_starts_the_ledger() {
    let after = update_ledger_in_offset("", "doom", 0, moment(3, 19), 0).expect("a ledger");
    assert_eq!(after, "doom\t0\t2025-11-03 19:07:00\n");
}

#[test]
fn blank_lines_are_passed_over() {
    let records = parse_ledger("\n\ndoom\t1\t2025-11-03 19:07:00\n\nquake\t2\t2025-11-04 19:07:00", 0)
        .expect("a ledger");
    assert_eq!(records.len(), 2);
    assert_eq!(records[0].id(), "doom");
    assert_eq!(records[1].id(), "quake");
    assert_eq!(records[1].play_time_seconds(), 2);
    assert_eq!(
        render_ledger(&records),
        "doom\t1\t2025-11-03 19:07:00\nquake\t2\t2025-11-04 19:07:00\n"
    );
    assert_eq!(parse_ledger("", 0).expect("an empty ledger").len(), 0);
    assert_eq!(render_ledger(&Vec::new()), "");
}

#[test]
fn malformed_line_spoils_the_ledger() {
    assert!(parse_ledger("doom\t1\t2025-11-03 19:07:00\nquake", 0).is_none());
    assert_eq!(
        update_ledger_in_offset("quake\tmany\t2025-11-03 19:07:00\n", "doom", 1, moment(3, 19), 0),
        Err(LedgerError::MalformedLine)
    );
}

#[test]
fn play_time_that_would_not_fit_fails_loudly() {
    let before = "doom\t4294967295\t2025-11-03 19:07:00\n";
    assert_eq!(
        update_ledger_in_offset(before, "doom", 1, moment(3, 19), 0),
        Err(LedgerError::PlayTimeOverflow)
    );
    let after = update_ledger_in_offset(before, "doom", 0, moment(3, 19), 0).expect("a ledger");
    assert_eq!(after, "doom\t4294967295\t2025-11-03 19:07:00\n");
    let records = parse_ledger(before, 0).expect("a ledger");
    match record_session(records, "doom", 7, moment(3, 19)) {
        Err(LedgerError::PlayTimeOverflow) => (),
        _ => panic!("a play time beyond 32 bits"),
    }
}

#[test]
fn every_record_of_the_game_is_credited() {
    let records = vec![
        GameStats::new("doom".to_string(), 1, moment(1, 1)),
        GameStats::new("quake".to_string(), 2, moment(2, 2)),
        GameStats::new("doom".to_string(), 3, moment(3, 3)),
    ];
    let after = record_session(records, "doom", 10, moment(9, 9)).expect("records");
    assert_eq!(after.len(), 3);
    assert_eq!(after[0].play_time_seconds(), 11);
    assert_eq!(after[0].last_played_time(), moment(9, 9));
    assert_eq!(after[1].play_time_seconds(), 2);
    assert_eq!(after[1].last_played_time(), moment(2, 2));
    assert_eq!(after[2].play_time_seconds(), 13);
    assert_eq!(find_game_stats(&after, "doom"), Some(0));
    assert_eq!(find_game_stats(&after, "quake"), Some(1));
    assert_eq!(find_game_stats(&after, "hexen"), None);
}

#[test]
fn ledger_in_local_offset_is_brought_up_to_date() {
    let after = update_ledger("doom\t5\t2025-11-03 19:07:00\n", "doom", 5, moment(4, 4))
        .expect("a ledger");
    assert_eq!(after, "doom\t10\t2025-11-04 04:07:00\n");
}

#[test]
fn report_takes_the_first_record_of_each_game_named() {
    let games = Games {
        games: vec![
            plain_game("doom", &[], true),
            plain_game("quake", &[], true),
            plain_game("hexen", &[], true),
        ],
    };
    let records = vec![
        GameStats::new("quake".to_string(), 100, moment(1, 1)),
        GameStats::new("doom".to_string(), 20, moment(2, 2)),
        GameStats::new("quake".to_string(), 3, moment(3, 3)),
    ];
    let args = vec!["doom".to_string(), "hexen".to_string(), "quake".to_string()];
    let places = records_to_report(&games, &records, &args).ok().expect("places");
    assert_eq!(places, vec![1, 0]);
    assert_eq!(total_play_time(&records, &places), 120);
    assert_eq!(total_play_time(&records, &Vec::new()), 0);
}

#[test]
fn report_needs_games_of_the_catalog() {
    let games = Games {
        games: vec![plain_game("doom", &[], true)],
    };
    let records: Vec<GameStats> = Vec::new();
    let none: Vec<String> = Vec::new();
    match records_to_report(&games, &records, &none) {
        Err(GameError::NoGameId) => (),
        _ => panic!("a report of no game"),
    }
    let args = vec!["doom".to_string(), "quake".to_string()];
    match records_to_report(&games, &records, &args) {
        Err(GameError::NoSuchGame(id)) => assert_eq!(id, "quake"),
        _ => panic!("a report of an unknown game"),
    }
}

#[test]
fn carriage_returns_at_line_ends_are_dropped() {
    let records = parse_ledger(
        "doom\t1\t2025-11-03 19:07:00\r\n\r\nquake\t2\t2025-11-04 19:07:00\r\n",
        0,
    )
    .expect("a ledger");
    assert_eq!(records.len(), 2);
    assert_eq!(records[0].format_last_played_time(), "2025-11-03 19:07:00");
    assert_eq!(
        render_ledger(&records),
        "doom\t1\t2025-11-03 19:07:00\nquake\t2\t2025-11-04 19:07:00\n"
    );
}

#[test]
fn first_session_needs_no_offset() {
    assert_eq!(
        update_ledger("", "doom", 61, moment(4, 20)),
        Ok("doom\t61\t2025-11-04 20:07:00\n".to_string())
    );
    assert_eq!(
        update_ledger("\n\r\n\n", "doom", 0, moment(4, 20)),
        Ok("doom\t0\t2025-11-04 20:07:00\n".to_string())
    );
}

#[test]
fn written_text_is_the_same_in_every_offset() {
    let before = "doom\t5400\t2025-11-03 19:07:00\nquake\t61\t2025-11-04 20:07:00\n";
    let here = update_ledger_in_offset(before, "quake", 39, moment(5, 21), 0);
    let there = update_ledger_in_offset(before, "quake", 39, moment(5, 21), -36000);
    assert_eq!(here, there);
    assert_eq!(update_ledger(before, "quake", 39, moment(5, 21)), here);
    assert_eq!(
        update_ledger_in_offset("quake", "quake", 1, moment(5, 21), 0),
        update_ledger_in_offset("quake", "quake", 1, moment(5, 21), 3600)
    );
}

#[test]
fn records_are_read_in_the_local_offset() {
    assert_eq!(parse_ledger_in_local_offset("").ok().expect("no records").len(), 0);
    assert_eq!(parse_ledger_in_local_offset("\n\n").ok().expect("no records").len(), 0);
    let records = parse_ledger_in_local_offset("doom\t5\t2025-11-03 19:07:00\n")
        .ok()
        .expect("a record");
    assert_eq!(records.len(), 1);
    assert_eq!(records[0].id(), "doom");
    assert_eq!(records[0].play_time_seconds(), 5);
    match parse_ledger_in_local_offset("doom\t5") {
        Err(LedgerError::MalformedLine) => (),
        _ => panic!("a line that is no record"),
    }
}
