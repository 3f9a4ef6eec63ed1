use rocs::command::{Command, ResponseKind, WireCommand};
use rocs::repl::{parse_repl, parse_u64};
use rocs::router::{admin_step, ping_response, route_cmd, user_step, AdminAction, Route, UserAction};

fn toks(line: &str) -> Vec<String> {
    line.split_whitespace().map(|s| s.to_string()).collect()
}

#[test]
fn parse_u64_accepts_decimal_digits() {
    assert_eq!(parse_u64("0"), Some(0));
    assert_eq!(parse_u64("5"), Some(5));
    assert_eq!(parse_u64("18446744073709551615"), Some(u64::MAX));
}

#[test]
fn parse_u64_rejects_junk_and_overflow() {
    assert_eq!(parse_u64(""), None);
    assert_eq!(parse_u64("12a"), None);
    assert_eq!(parse_u64("-3"), None);
    assert_eq!(parse_u64("18446744073709551616"), None);
}

#[test]
fn repl_lines_become_wire_commands() {
    let uid = "u1";
    assert!(matches!(
        parse_repl(&toks("STORE key 5"), uid),
        Some(WireCommand::Store { user_id, key, value: 5 }) if user_id == "u1" && key == "key"
    ));
    assert!(matches!(
        parse_repl(&toks("FETCH key"), uid),
        Some(WireCommand::Get { user_id, key }) if user_id == "u1" && key == "key"
    ));
    assert!(matches!(
        parse_repl(&toks("UPDATE key 7"), uid),
        Some(WireCommand::Update { key, value: 7, .. }) if key == "key"
    ));
    assert!(matches!(
        parse_repl(&toks("DELETE key"), uid),
        Some(WireCommand::Del { key, .. }) if key == "key"
    ));
    assert!(matches!(
        parse_repl(&toks("GET BETWEEN a b"), uid),
        Some(WireCommand::Range { start, end, .. }) if start == "a" && end == "b"
    ));
    assert!(matches!(parse_repl(&toks("LIST"), uid), Some(WireCommand::List { .. })));
    assert!(matches!(parse_repl(&toks("PING"), uid), Some(WireCommand::Ping { .. })));
    assert!(matches!(parse_repl(&toks("EXIT"), uid), Some(WireCommand::Exit { .. })));
    assert!(matches!(
        parse_repl(&toks("HI"), uid),
        Some(WireCommand::Hi { user_id: Some(u) }) if u == "u1"
    ));
}

#[test]
fn repl_keywords_ignore_ascii_case_but_keys_do_not() {
    assert!(matches!(
        parse_repl(&toks("store Key 5"), "u"),
        Some(WireCommand::Store { key, .. }) if key == "Key"
    ));
    assert!(matches!(
        parse_repl(&toks("get between A z"), "u"),
        Some(WireCommand::Range { start, end, .. }) if start == "A" && end == "z"
    ));
}

#[test]
fn repl_rejects_malformed_lines() {
    assert_eq!(parse_repl(&toks("STORE key notanumber"), "u"), None);
    assert_eq!(parse_repl(&toks("STORE key"), "u"), None);
    assert_eq!(parse_repl(&toks("FETCH"), "u"), None);
    assert_eq!(parse_repl(&toks("GET BETWEEN a"), "u"), None);
    assert_eq!(parse_repl(&toks("NONSENSE"), "u"), None);
}

#[test]
fn wire_commands_map_to_internal_with_response_shape() {
    let (cmd, kind) = WireCommand::Hi { user_id: None }.into_internal();
    assert!(matches!(cmd, Command::Hi { user_id: None }));
    assert_eq!(kind, ResponseKind::UserId);
    let (cmd, kind) = WireCommand::Store {
        user_id: "u".to_string(),
        key: "k".to_string(),
        value: 3,
    }
        .into_internal();
    assert!(matches!(cmd, Command::Store { value: 3, .. }));
    assert_eq!(kind, ResponseKind::Unit);
    let (cmd, kind) = WireCommand::Get { user_id: "u".to_string(), key: "k".to_string() }
        .into_internal();
    assert!(matches!(cmd, Command::Get { .. }));
    assert_eq!(kind, ResponseKind::OptValue);
    let (_, kind) = WireCommand::List { user_id: "u".to_string() }.into_internal();
    assert_eq!(kind, ResponseKind::KvList);
    let (_, kind) = WireCommand::Ping { user_id: "u".to_string() }.into_internal();
    assert_eq!(kind, ResponseKind::Liveness);
    let (_, kind) = WireCommand::Exit { user_id: "u".to_string() }.into_internal();
    assert_eq!(kind, ResponseKind::Unit);
}

#[test]
fn routing_sends_user_commands_to_their_session() {
    let cmd = Command::Store { user_id: "alice".to_string(), key: "k".to_string(), value: 1 };
    assert!(matches!(route_cmd(&cmd), Route::ToUser(u) if u == "alice"));
    assert!(matches!(route_cmd(&Command::Hi { user_id: None }), Route::ToStore));
    assert!(matches!(route_cmd(&Command::Shutdown), Route::Unrouted));
}

#[test]
fn user_session_decisions() {
    let store = Command::Store { user_id: "u".to_string(), key: "k".to_string(), value: 1 };
    assert_eq!(user_step(&store), UserAction::Forward);
    let get = Command::Get { user_id: "u".to_string(), key: "k".to_string() };
    assert_eq!(user_step(&get), UserAction::Forward);
    assert_eq!(user_step(&Command::Ping { user_id: "u".to_string() }), UserAction::AnswerPing);
    assert_eq!(user_step(&Command::Exit { user_id: "u".to_string() }), UserAction::AnswerExit);
    assert_eq!(user_step(&Command::Shutdown), UserAction::Skip);
    assert_eq!(ping_response(), "Server Running!".to_string());
}

#[test]
fn admin_channel_decisions() {
    assert_eq!(admin_step(&Command::Shutdown), AdminAction::AckShutdown);
    assert_eq!(admin_step(&Command::Crash), AdminAction::AckCrash);
    assert_eq!(admin_step(&Command::ClearWal), AdminAction::AckClearWal);
    assert_eq!(admin_step(&Command::Snapshot), AdminAction::AckSnapshot);
    assert_eq!(admin_step(&Command::Ping { user_id: "u".to_string() }), AdminAction::Ignore);
}

#[test]
fn node_starts_empty() {
    let n = rocs::btree::Node::new(true);
    assert!(n.keys.is_empty() && n.values.is_empty() && n.children.is_empty());
    assert!(n.is_leaf);
    let inner = rocs::btree::Node::new(false);
    assert!(!inner.is_leaf);
}
