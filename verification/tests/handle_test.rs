use s2d2::handle::{next_dial, DialStep};
use s2d2::context::{ClientHandler, RealtimeHandler};
use s2d2::handle::{
    control_plane_handle, db_handle, db_handle_checked, neighbor_direction_from_reply, parse_directions,
    replication_handle, replication_handle_checked, ControlAction,
};
use s2d2::metadata::Direction;
use s2d2::store::Store;
use serde_json::Value;

fn reply(store: &mut Store, msg: &str) -> String {
    db_handle_checked(store, msg).expect("request is complete")
}

#[test]
fn set_then_get_round_trips_json() {
    let mut store = Store::new();
    assert_eq!(reply(&mut store, "SET k {\"a\": 1}"), "OK");
    assert_eq!(reply(&mut store, "GET k"), "OK {\"a\":1}");
    assert_eq!(store.get("k"), Some(serde_json::from_str::<Value>("{\"a\":1}").unwrap()));
}

#[test]
fn value_that_is_not_json_is_kept_as_a_string() {
    let mut store = Store::new();
    assert_eq!(reply(&mut store, "set k hello world"), "OK");
    assert_eq!(store.get("k"), Some(Value::String("hello world".to_string())));
    assert_eq!(reply(&mut store, "get k"), "OK \"hello world\"");
}

#[test]
fn get_of_missing_key_and_delete() {
    let mut store = Store::new();
    assert_eq!(reply(&mut store, "GET nothing"), "ERR not_found");
    assert_eq!(reply(&mut store, "SET k 5"), "OK");
    assert_eq!(reply(&mut store, "DEL k"), "OK");
    assert_eq!(reply(&mut store, "GET k"), "ERR not_found");
}

#[test]
fn ping_and_unknown_commands() {
    let mut store = Store::new();
    assert_eq!(reply(&mut store, "PING"), "PONG");
    assert_eq!(reply(&mut store, "ping"), "PONG");
    assert_eq!(reply(&mut store, "FETCH x"), "ERR unknown_command");
    assert_eq!(reply(&mut store, ""), "ERR unknown_command");
}

#[test]
fn incomplete_requests_get_no_answer() {
    let mut store = Store::new();
    assert_eq!(db_handle_checked(&mut store, "SET k"), None);
    assert_eq!(db_handle_checked(&mut store, "GET"), None);
    assert_eq!(db_handle_checked(&mut store, "DEL"), None);
    assert_eq!(store.get("k"), None);
}

#[test]
fn db_handle_serves_a_complete_request() {
    let mut store = Store::new();
    assert_eq!(db_handle(&mut store, "SET n 42"), "OK");
    assert_eq!(db_handle(&mut store, "GET n"), "OK 42");
}

#[test]
fn handlers_serve_data_requests() {
    let mut store = Store::new();
    assert_eq!(RealtimeHandler.handle("SET a 1", &mut store), Some("OK".to_string()));
    assert_eq!(ClientHandler.handle("GET a", &mut store), Some("OK 1".to_string()));
    assert_eq!(ClientHandler.handle("SET a", &mut store), None);
}

#[test]
fn replication_command_word_never_matches_after_upper_casing() {
    let mut store = Store::new();
    assert_eq!(replication_handle(&mut store, "Replicate k 5"), "ERR unknown_command");
    assert_eq!(replication_handle_checked(&mut store, "REPLICATE k"), Some("ERR unknown_command".to_string()));
    assert_eq!(store.get("k"), None);
}

#[test]
fn parse_directions_reads_the_directions_piece() {
    assert_eq!(parse_directions(&["DIRECTIONS=north,East"]), Ok(vec![Direction::North, Direction::East]));
    assert_eq!(parse_directions(&["x", "DIRECTIONS=west"]), Ok(vec![Direction::West]));
    assert_eq!(parse_directions(&[]), Err("missing DIRECTIONS parameter".to_string()));
    assert_eq!(parse_directions(&["directions=north"]), Err("missing DIRECTIONS parameter".to_string()));
    assert_eq!(parse_directions(&["DIRECTIONS="]), Err("DIRECTIONS cannot be empty".to_string()));
    assert_eq!(parse_directions(&["DIRECTIONS=north,up"]), Err("invalid direction: up".to_string()));
    assert_eq!(parse_directions(&["DIRECTIONS=north,"]), Err("invalid direction: ".to_string()));
}

fn reply_of(action: ControlAction) -> Option<String> {
    match action {
        ControlAction::Reply(s) => Some(s),
        _ => None,
    }
}

#[test]
fn control_plane_decisions() {
    let mut store = Store::new();
    store.set("k".to_string(), Value::from(1));
    assert_eq!(reply_of(control_plane_handle("PING", &mut store)), Some("PONG".to_string()));
    assert_eq!(reply_of(control_plane_handle("hello", &mut store)), Some("ERR unknown_command".to_string()));
    // The metadata command is compared after upper-casing, so it never matches.
    assert_eq!(reply_of(control_plane_handle("Metadata", &mut store)), Some("ERR unknown_command".to_string()));
    assert_eq!(
        reply_of(control_plane_handle("CONNECT", &mut store)),
        Some("ERR missing DIRECTIONS parameter".to_string())
    );
    assert_eq!(
        reply_of(control_plane_handle("connect DIRECTIONS=up", &mut store)),
        Some("ERR invalid direction: up".to_string())
    );
    match control_plane_handle("CONNECT DIRECTIONS=south,west", &mut store) {
        ControlAction::Connect(ds) => assert_eq!(ds, vec![Direction::South, Direction::West]),
        _ => panic!("expected a connect action"),
    }
    assert_eq!(store.get("k"), Some(Value::from(1)));
}

#[test]
fn shutdown_empties_the_store() {
    let mut store = Store::new();
    store.set("k".to_string(), Value::from(1));
    assert!(matches!(control_plane_handle("shutdown", &mut store), ControlAction::Shutdown));
    assert_eq!(store.get("k"), None);
}

#[test]
fn neighbour_answer_names_the_opposite_side() {
    assert_eq!(neighbor_direction_from_reply("NORTH"), Ok(Direction::South));
    assert_eq!(neighbor_direction_from_reply("EAST"), Ok(Direction::West));
    assert_eq!(neighbor_direction_from_reply("west"), Err("invalid direction".to_string()));
}

#[test]
fn dialling_goes_side_by_side_and_stops_at_a_failure() {
    let sides = vec![Direction::North, Direction::West];
    assert!(matches!(next_dial(&sides, 0, None), DialStep::Dial(Direction::North)));
    assert!(matches!(next_dial(&sides, 1, Some(Ok(()))), DialStep::Dial(Direction::West)));
    match next_dial(&sides, 2, Some(Ok(()))) {
        DialStep::Reply(t) => assert_eq!(t, "OK connection_started"),
        _ => panic!("expected the answer"),
    }
    match next_dial(&sides, 1, Some(Err("timed out".to_string()))) {
        DialStep::Reply(t) => assert_eq!(t, "ERR connection_failed: timed out"),
        _ => panic!("expected the answer"),
    }
}
