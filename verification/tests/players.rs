use std::io::Cursor;
use std::sync::{Arc, Mutex};

use learn_rust_with_tests::command_line::v1 as command_line;
use learn_rust_with_tests::http_server::{v2 as server_v2, v3 as server_v3, v4 as server_v4};
use learn_rust_with_tests::io_sorting::v1::{is_blank, FileSystemPlayerStore, Player};
use learn_rust_with_tests::json::{v1 as json_v1, v2 as json_v2};

fn league_from(json: &str) -> Vec<Player> {
    if is_blank(json) {
        return Vec::new();
    }
    let value: serde_json::Value = serde_json::from_str(json).unwrap();
    value
        .as_array()
        .unwrap()
        .iter()
        .map(|player| Player {
            name: player["name"].as_str().unwrap().to_string(),
            wins: player["wins"].as_i64().unwrap() as i32,
        })
        .collect()
}

fn store_from(json: &str) -> FileSystemPlayerStore<Cursor<Vec<u8>>> {
    let database = Cursor::new(json.as_bytes().to_vec());
    FileSystemPlayerStore::new(database, league_from(json))
}

fn player(name: &str, wins: i32) -> Player {
    Player {
        name: name.to_string(),
        wins,
    }
}

#[test]
fn reads_a_league_sorted_by_wins() {
    let store = store_from(r#"[{"name": "Cleo", "wins": 10}, {"name": "Chris", "wins": 33}]"#);

    let got = store.league();

    assert_eq!(got, vec![player("Chris", 33), player("Cleo", 10)]);
}

#[test]
fn reads_a_players_score() {
    let store = store_from(r#"[{"name": "Cleo", "wins": 10}, {"name": "Chris", "wins": 33}]"#);

    assert_eq!(store.score("Chris"), Some(33));
    assert_eq!(store.score("Nobody"), None);
}

#[test]
fn records_a_win_for_an_existing_player() {
    let mut store = store_from(r#"[{"name": "Cleo", "wins": 10}, {"name": "Chris", "wins": 33}]"#);

    store.record_win("Chris");

    assert_eq!(store.score("Chris"), Some(34));
}

#[test]
fn records_a_win_for_a_new_player() {
    let mut store = store_from(r#"[{"name": "Cleo", "wins": 10}]"#);

    store.record_win("Pepper");

    assert_eq!(store.score("Pepper"), Some(1));
}

#[test]
fn starts_from_an_empty_file() {
    let mut store = store_from("");

    store.record_win("Pepper");

    assert_eq!(store.score("Pepper"), Some(1));
}

#[test]
fn a_league_keeps_equal_scores_in_their_order() {
    let store = store_from(
        r#"[{"name": "A", "wins": 1}, {"name": "B", "wins": 5}, {"name": "C", "wins": 1}, {"name": "D", "wins": 5}]"#,
    );

    assert_eq!(
        store.league(),
        vec![player("B", 5), player("D", 5), player("A", 1), player("C", 1)]
    );
    assert_eq!(store.players()[0], player("A", 1));
}

#[test]
fn only_white_space_is_blank() {
    assert!(is_blank(""));
    assert!(is_blank(" \n\t "));
    assert!(!is_blank(" [] "));
}

#[test]
fn in_memory_store_builds_a_sorted_league() {
    let mut store = json_v2::InMemoryPlayerStore::default();
    store.record_win("Chris");
    store.record_win("Cleo");
    store.record_win("Cleo");

    assert_eq!(store.league(), vec![player("Cleo", 2), player("Chris", 1)]);
}

#[test]
fn in_memory_store_counts_wins() {
    let mut store = server_v4::InMemoryPlayerStore::default();
    assert_eq!(store.score("Pepper"), None);
    store.record_win("Pepper");
    store.record_win("Pepper");
    store.record_win("Pepper");
    assert_eq!(store.score("Pepper"), Some(3));
}

#[test]
fn lib_returns_peppers_score() {
    assert_eq!(server_v2::score_for_player("Pepper"), "20");
    assert_eq!(server_v3::score_reply(Some(20)), (200, "20".to_string()));
}

#[test]
fn lib_returns_floyds_score() {
    assert_eq!(server_v2::score_for_player("Floyd"), "10");
    assert_eq!(server_v3::score_reply(Some(10)), (200, "10".to_string()));
}

#[test]
fn lib_returns_404_on_missing_players() {
    assert_eq!(server_v2::score_for_player("Apollo"), "");
    assert_eq!(server_v3::score_reply(None), (404, String::new()));
    assert_eq!(server_v4::score_reply(None), (404, String::new()));
}

#[test]
fn negative_scores_keep_their_sign() {
    assert_eq!(server_v4::score_reply(Some(-7)), (200, "-7".to_string()));
    assert_eq!(
        server_v4::score_reply(Some(i32::MIN)),
        (200, "-2147483648".to_string())
    );
    assert_eq!(server_v4::WIN_ACCEPTED, 202);
}

#[test]
fn the_fixed_league_table_has_chris() {
    assert_eq!(json_v1::league_table(), vec![player("Chris", 20)]);
}

#[derive(Default)]
struct StubPlayerStore {
    win_calls: Mutex<Vec<String>>,
}

impl command_line::PlayerStore for StubPlayerStore {
    fn score(&self, _name: &str) -> Option<i32> {
        None
    }

    fn record_win(&self, name: &str) {
        self.win_calls.lock().unwrap().push(name.to_string());
    }

    fn league(&self) -> Vec<Player> {
        Vec::new()
    }
}

fn assert_player_win(store: &StubPlayerStore, winner: &str) {
    let calls = store.win_calls.lock().unwrap();
    assert_eq!(calls.len(), 1, "expected exactly one win call");
    assert_eq!(calls[0], winner);
}

#[test]
fn records_chris_win_from_user_input() {
    let store = Arc::new(StubPlayerStore::default());
    let input = "Chris wins\n".as_bytes();

    let mut cli = command_line::Cli::new(store.clone(), input);
    cli.play_poker();

    assert_player_win(&store, "Chris");
}

#[test]
fn records_cleo_win_from_user_input() {
    let store = Arc::new(StubPlayerStore::default());
    let input = "Cleo wins\n".as_bytes();

    let mut cli = command_line::Cli::new(store.clone(), input);
    cli.play_poker();

    assert_player_win(&store, "Cleo");
}

#[test]
fn a_line_that_names_no_winner_records_nothing() {
    let store = Arc::new(StubPlayerStore::default());
    let mut cli = command_line::Cli::new(store.clone(), "Chris lost\n".as_bytes());
    cli.play_poker();
    let mut cli = command_line::Cli::new(store.clone(), "".as_bytes());
    cli.play_poker();
    assert!(store.win_calls.lock().unwrap().is_empty());

    assert_eq!(command_line::winner("  Pepper wins  \r\n"), Some("Pepper"));
    assert_eq!(command_line::winner(" wins"), None);
    assert_eq!(command_line::winner("wins"), None);
}
