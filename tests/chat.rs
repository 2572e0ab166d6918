use massager_max::credentials::{login, record_accepts, record_line, register};
use massager_max::handler::{log_line, AuthKind, Connection, Outcome};
use massager_max::protocol::{parse_command, Command};
use massager_max::registry::{Delivery, Registry};
use massager_max::text::{split_at_first_space, trim};

fn texts_for(ds: &[Delivery], sink: u64) -> Vec<String> {
    ds.iter().filter(|d| d.sink == sink).map(|d| d.text.clone()).collect()
}

fn authenticate(conn: &mut Connection, reg: &mut Registry, store: &mut Vec<String>, line: &str) -> Delivery {
    let out = conn.handle_line(reg, line);
    let req = out.request.expect("a credential request");
    let accepted = match req.kind {
        AuthKind::Register => match register(&req.user, &req.pass) {
            Some(record) => {
                store.push(record);
                true
            }
            None => false,
        },
        AuthKind::Login => login(store, &req.user, &req.pass),
    };
    conn.complete_auth(reg, req.kind, &req.user, accepted)
}

#[test]
fn trim_removes_unicode_white_space() {
    assert_eq!(trim("  \t hello world \r\n"), "hello world");
    assert_eq!(trim("\u{3000}x\u{a0}"), "x");
    assert_eq!(trim(" \n\t "), "");
    assert_eq!(trim(""), "");
}

#[test]
fn split_at_first_space_keeps_the_rest_whole() {
    assert_eq!(split_at_first_space("a b c"), ("a", Some("b c")));
    assert_eq!(split_at_first_space("abc"), ("abc", None));
    assert_eq!(split_at_first_space("a "), ("a", Some("")));
}

#[test]
fn parse_recognised_commands() {
    match parse_command("/register alice secret\n") {
        Command::Register { user, pass } => {
            assert_eq!(user, "alice");
            assert_eq!(pass, "secret");
        }
        _ => panic!("expected a registration"),
    }
    match parse_command("/login bob two words") {
        Command::Login { user, pass } => {
            assert_eq!(user, "bob");
            assert_eq!(pass, "two words");
        }
        _ => panic!("expected a login"),
    }
    match parse_command("/msg hello there") {
        Command::Msg { text } => assert_eq!(text, "hello there"),
        _ => panic!("expected a message"),
    }
    match parse_command("/whisper bob hi you") {
        Command::Whisper { target, text } => {
            assert_eq!(target, "bob");
            assert_eq!(text, "hi you");
        }
        _ => panic!("expected a whisper"),
    }
    assert!(matches!(parse_command("/exit"), Command::Exit));
    assert!(matches!(parse_command("/exit now"), Command::Exit));
}

#[test]
fn parse_edge_lines() {
    assert!(matches!(parse_command("   \r\n"), Command::Empty));
    assert!(matches!(parse_command("/register alice"), Command::Malformed));
    assert!(matches!(parse_command("/login alice"), Command::Malformed));
    assert!(matches!(parse_command("/whisper bob"), Command::Malformed));
    match parse_command("/msg") {
        Command::Chat { line } => assert_eq!(line, "/msg"),
        _ => panic!("a bare command is plain chat"),
    }
    match parse_command("  hello all \n") {
        Command::Chat { line } => assert_eq!(line, "hello all"),
        _ => panic!("expected chat"),
    }
    match parse_command("/Register a b") {
        Command::Chat { line } => assert_eq!(line, "/Register a b"),
        _ => panic!("commands are case-sensitive"),
    }
}

#[test]
fn registry_insert_replace_remove() {
    let mut reg = Registry::new();
    assert_eq!(reg.lookup("alice"), None);
    reg.insert("alice", 1);
    reg.insert("bob", 2);
    assert_eq!(reg.len(), 2);
    assert_eq!(reg.lookup("alice"), Some(1));
    reg.insert("alice", 7);
    assert_eq!(reg.len(), 2);
    assert_eq!(reg.lookup("alice"), Some(7));
    reg.remove("alice");
    assert_eq!(reg.lookup("alice"), None);
    assert_eq!(reg.len(), 1);
    reg.remove("carol");
    assert_eq!(reg.len(), 1);
}

#[test]
fn broadcast_reaches_every_other_session() {
    let mut reg = Registry::new();
    reg.insert("a", 1);
    reg.insert("b", 2);
    reg.insert("c", 3);
    reg.insert("d", 4);
    let ds = reg.broadcast("b", "hey");
    assert_eq!(ds.len(), 3);
    let mut sinks: Vec<u64> = ds.iter().map(|d| d.sink).collect();
    sinks.sort();
    assert_eq!(sinks, vec![1, 3, 4]);
    assert!(ds.iter().all(|d| d.text == "[b]: hey\n"));
    assert!(Registry::new().broadcast("b", "hey").is_empty());
}

#[test]
fn replaced_session_stops_receiving() {
    let mut reg = Registry::new();
    reg.insert("alice", 1);
    reg.insert("bob", 2);
    reg.insert("alice", 3);
    let ds = reg.broadcast("bob", "x");
    assert_eq!(ds.len(), 1);
    assert_eq!(ds[0].sink, 3);
    let ws = reg.whisper("bob", "alice", "y");
    assert!(ws.iter().all(|d| d.sink != 1));
    assert_eq!(ws[0].sink, 3);
}

#[test]
fn whisper_to_present_and_absent_targets() {
    let mut reg = Registry::new();
    reg.insert("alice", 1);
    reg.insert("bob", 2);
    reg.insert("carol", 3);
    let ds = reg.whisper("alice", "bob", "hi");
    assert_eq!(ds.len(), 2);
    assert_eq!((ds[0].sink, ds[0].text.as_str()), (2, "[WHISPER from alice]: hi\n"));
    assert_eq!((ds[1].sink, ds[1].text.as_str()), (1, "[WHISPER to bob]: hi\n"));
    let ds = reg.whisper("alice", "dave", "hey");
    assert_eq!(ds.len(), 2);
    assert_eq!((ds[0].sink, ds[0].text.as_str()), (1, "User dave not found\n"));
    assert_eq!((ds[1].sink, ds[1].text.as_str()), (1, "[WHISPER to dave]: hey\n"));
    let ds = reg.whisper("zed", "dave", "hey");
    assert!(ds.is_empty());
}

#[test]
fn disconnect_makes_whisper_target_missing() {
    let mut reg = Registry::new();
    let mut store = Vec::new();
    let mut a = Connection::new(1);
    let mut b = Connection::new(2);
    authenticate(&mut a, &mut reg, &mut store, "/register alice pw");
    authenticate(&mut b, &mut reg, &mut store, "/register bob pw2");
    b.disconnect(&mut reg);
    assert_eq!(reg.lookup("bob"), None);
    let out = a.handle_line(&reg, "/whisper bob hi");
    assert_eq!(texts_for(&out.deliveries, 1), vec!["User bob not found\n", "[WHISPER to bob]: hi\n"]);
    assert!(texts_for(&out.deliveries, 2).is_empty());
    let idle = Connection::new(9);
    idle.disconnect(&mut reg);
    assert_eq!(reg.len(), 1);
}

#[test]
fn record_line_is_a_json_object() {
    assert_eq!(record_line("alice", "h"), "{\"username\":\"alice\",\"password\":\"h\"}");
    assert_eq!(record_line("a\"b", "x\\y"), "{\"username\":\"a\\\"b\",\"password\":\"x\\\\y\"}");
}

#[test]
fn registered_users_can_log_in() {
    let mut store = Vec::new();
    let users = [("alice", "secret"), ("bob", "hunter2"), ("carol", "p w d")];
    for (u, p) in users.iter() {
        let record = register(u, p).expect("hashing works");
        assert!(record.starts_with(&format!("{{\"username\":\"{}\",\"password\":\"$2", u)));
        store.push(record);
    }
    for (u, p) in users.iter() {
        assert!(login(&store, u, p));
    }
}

#[test]
fn wrong_password_and_unknown_user_fail() {
    let store = vec![register("alice", "secret").unwrap()];
    assert!(!login(&store, "alice", "Secret"));
    assert!(!login(&store, "dave", "secret"));
    assert!(!login(&Vec::new(), "alice", "secret"));
}

#[test]
fn unreadable_records_are_skipped() {
    let good = register("alice", "secret").unwrap();
    let store = vec![
        "not json".to_string(),
        "{\"username\":\"alice\"}".to_string(),
        "{\"username\":\"alice\",\"password\":\"garbage\"}".to_string(),
        good.clone(),
    ];
    assert!(login(&store, "alice", "secret"));
    assert!(!record_accepts("{\"username\":\"alice\",\"password\":\"garbage\"}", "alice", "secret"));
    assert!(record_accepts(&good, "alice", "secret"));
    assert!(!record_accepts(&good, "alicia", "secret"));
}

#[test]
fn unauthenticated_connection_is_told_to_log_in() {
    let mut reg = Registry::new();
    reg.insert("bob", 2);
    let c = Connection::new(5);
    let out: Outcome = c.handle_line(&reg, "/msg hi");
    assert_eq!(texts_for(&out.deliveries, 5), vec!["Please log in first\n"]);
    assert_eq!(out.deliveries.len(), 1);
    assert!(out.log_entry.is_none());
    let out = c.handle_line(&reg, "/whisper bob hi");
    assert_eq!(texts_for(&out.deliveries, 5), vec!["Please log in first\n"]);
    let out = c.handle_line(&reg, "hello");
    assert_eq!(texts_for(&out.deliveries, 5), vec!["Please log in or register\n"]);
    let out = c.handle_line(&reg, "/register x");
    assert!(out.deliveries.is_empty() && out.request.is_none() && !out.close);
    let out = c.handle_line(&reg, "");
    assert!(out.deliveries.is_empty() && !out.close);
}

#[test]
fn exit_says_goodbye_and_closes() {
    let c = Connection::new(4);
    let out = c.handle_line(&Registry::new(), "/exit");
    assert!(out.close);
    assert_eq!(texts_for(&out.deliveries, 4), vec!["Goodbye!\n"]);
}

#[test]
fn auth_replies() {
    let mut reg = Registry::new();
    let mut c = Connection::new(3);
    let d = c.complete_auth(&mut reg, AuthKind::Login, "bob", false);
    assert_eq!((d.sink, d.text.as_str()), (3, "Login error\n"));
    assert!(!c.is_authenticated());
    assert_eq!(reg.len(), 0);
    let d = c.complete_auth(&mut reg, AuthKind::Register, "bob", false);
    assert_eq!(d.text, "Registration error\n");
    let d = c.complete_auth(&mut reg, AuthKind::Login, "bob", true);
    assert_eq!(d.text, "Login successful\n");
    assert_eq!(c.username(), "bob");
    assert_eq!(reg.lookup("bob"), Some(3));
}

#[test]
fn log_line_format() {
    assert_eq!(log_line("alice", "hello"), "alice: hello\n");
}

#[test]
fn chat_scenario_alice_and_bob() {
    let mut reg = Registry::new();
    let mut store = Vec::new();
    let mut alice = Connection::new(1);
    let mut bob = Connection::new(2);
    let d = authenticate(&mut alice, &mut reg, &mut store, "/register alice secret");
    assert_eq!((d.sink, d.text.as_str()), (1, "Registration successful\n"));
    let d = authenticate(&mut bob, &mut reg, &mut store, "/register bob hunter2");
    assert_eq!((d.sink, d.text.as_str()), (2, "Registration successful\n"));

    let out = alice.handle_line(&reg, "/msg hello");
    assert_eq!(texts_for(&out.deliveries, 2), vec!["[alice]: hello\n"]);
    assert!(texts_for(&out.deliveries, 1).is_empty());
    assert_eq!(out.log_entry.as_deref(), Some("alice: hello\n"));

    let out = alice.handle_line(&reg, "/whisper bob hi");
    assert_eq!(texts_for(&out.deliveries, 2), vec!["[WHISPER from alice]: hi\n"]);
    assert_eq!(texts_for(&out.deliveries, 1), vec!["[WHISPER to bob]: hi\n"]);

    let out = alice.handle_line(&reg, "/whisper carol hey");
    assert_eq!(texts_for(&out.deliveries, 1), vec!["User carol not found\n", "[WHISPER to carol]: hey\n"]);
    assert!(texts_for(&out.deliveries, 2).is_empty());

    let mut again = Connection::new(3);
    let d = authenticate(&mut again, &mut reg, &mut store, "/login bob hunter2");
    assert_eq!(d.text, "Login successful\n");
    let d = authenticate(&mut again, &mut reg, &mut store, "/login bob wrong");
    assert_eq!(d.text, "Login error\n");
}

#[test]
fn empty_username_is_malformed() {
    assert!(matches!(parse_command("/register  p"), Command::Malformed));
    assert!(matches!(parse_command("/login  p"), Command::Malformed));
    let reg = Registry::new();
    let out = Connection::new(1).handle_line(&reg, "/register  secret");
    assert!(out.request.is_none() && out.deliveries.is_empty());
}

#[test]
fn record_line_escapes_control_characters() {
    assert_eq!(record_line("a\tb", "\u{1}"), "{\"username\":\"a\\tb\",\"password\":\"\\u0001\"}");
    assert_eq!(record_line("\u{8}\u{c}\n\r\u{1f}", "é"), "{\"username\":\"\\b\\f\\n\\r\\u001f\",\"password\":\"é\"}");
}
