use rs_miniredis::command::{answer_read, apply_command, interpret_line};
use rs_miniredis::parse::{parse_ttl, parse_u64, parse_value, render_value, split_pieces, tokenize};
use rs_miniredis::state::{State, StoreError};
use rs_miniredis::value::Value;
use rs_miniredis::KeyStore;

fn run(s: &mut State, line: &str, now: u64) -> String {
    interpret_line(s, line, now)
}

#[test]
fn scenario_set_and_get_scalar() {
    let mut s = State::new();
    assert_eq!(run(&mut s, "SET foo bar", 0), "OK\r\n");
    assert_eq!(run(&mut s, "GET foo", 0), "bar, type: String\r\n");
}

#[test]
fn scenario_list_expires() {
    let mut s = State::new();
    assert_eq!(run(&mut s, "SET nums 1,2,3 5", 0), "OK\r\n");
    assert_eq!(run(&mut s, "GET nums", 0), "1,2,3, type: VecStr\r\n");
    assert_eq!(run(&mut s, "GET nums", 7000), "Nil\r\n");
}

#[test]
fn scenario_hash_type() {
    let mut s = State::new();
    assert_eq!(run(&mut s, "SET h a:1,b:2", 0), "OK\r\n");
    assert_eq!(run(&mut s, "TYPE h", 0), "Hash\r\n");
    assert_eq!(run(&mut s, "GET h", 0), "a:1,b:2, type: Hash\r\n");
}

#[test]
fn scenario_rename_missing() {
    let mut s = State::new();
    assert_eq!(run(&mut s, "RENAME missing dest", 0), "Error: Key does not exist\r\n");
    assert_eq!(run(&mut s, "EXISTS dest", 0), "NO\r\n");
}

#[test]
fn scenario_ping() {
    let mut s = State::new();
    assert_eq!(run(&mut s, "PING", 0), "PONG\r\n");
}

#[test]
fn scenario_clearall() {
    let mut s = State::new();
    assert_eq!(run(&mut s, "SET foo bar", 0), "OK\r\n");
    assert_eq!(run(&mut s, "CLEARALL", 0), "OK\r\n");
    assert_eq!(run(&mut s, "EXISTS foo", 0), "NO\r\n");
}

#[test]
fn set_then_get_before_expiry() {
    let mut s = State::new();
    assert_eq!(run(&mut s, "SET k v 2", 1000), "OK\r\n");
    assert_eq!(run(&mut s, "GET k", 2999), "v, type: String\r\n");
    assert_eq!(run(&mut s, "GET k", 3000), "Nil\r\n");
}

#[test]
fn expired_key_is_swept() {
    let mut s = State::new();
    assert_eq!(run(&mut s, "SET k v 1", 0), "OK\r\n");
    assert_eq!(run(&mut s, "SET other w 100", 0), "OK\r\n");
    s.purge_expired(2500);
    assert!(!s.contains("k", 0));
    assert!(s.contains("other", 2500));
    assert_eq!(run(&mut s, "GET k", 2500), "Nil\r\n");
    assert_eq!(run(&mut s, "EXISTS k", 2500), "NO\r\n");
}

#[test]
fn sweep_keeps_live_entries() {
    let mut s = State::new();
    s.set("a".to_string(), Value::String("1".to_string()), 1, 0);
    s.set("b".to_string(), Value::String("2".to_string()), 3, 0);
    s.set("c".to_string(), Value::String("3".to_string()), 2, 0);
    s.purge_expired(2000);
    assert!(!s.contains("a", 0));
    assert!(s.contains("b", 2000));
    assert!(!s.contains("c", 0));
}

#[test]
fn set_overwrites_previous_value() {
    let mut s = State::new();
    assert_eq!(run(&mut s, "SET k v1 60", 0), "OK\r\n");
    assert_eq!(run(&mut s, "SET k v2 60", 0), "OK\r\n");
    assert_eq!(run(&mut s, "GET k", 0), "v2, type: String\r\n");
}

#[test]
fn rename_moves_value() {
    let mut s = State::new();
    assert_eq!(run(&mut s, "SET old x,y", 0), "OK\r\n");
    assert_eq!(run(&mut s, "RENAME old new", 0), "OK\r\n");
    assert_eq!(run(&mut s, "EXISTS old", 0), "NO\r\n");
    assert_eq!(run(&mut s, "GET new", 0), "x,y, type: VecStr\r\n");
}

#[test]
fn rename_gives_default_ttl() {
    let mut s = State::new();
    assert_eq!(run(&mut s, "SET old x 1", 0), "OK\r\n");
    assert_eq!(run(&mut s, "RENAME old new", 500), "OK\r\n");
    assert_eq!(run(&mut s, "GET new", 60499), "x, type: String\r\n");
    assert_eq!(run(&mut s, "GET new", 60500), "Nil\r\n");
}

#[test]
fn rename_of_expired_key_fails() {
    let mut s = State::new();
    assert_eq!(run(&mut s, "SET old x 1", 0), "OK\r\n");
    assert_eq!(run(&mut s, "SET dest y", 0), "OK\r\n");
    assert_eq!(run(&mut s, "RENAME old dest", 1000), "Error: Key does not exist\r\n");
    assert_eq!(run(&mut s, "GET dest", 1000), "y, type: String\r\n");
}

#[test]
fn rename_onto_itself_removes_key() {
    let mut s = State::new();
    assert_eq!(run(&mut s, "SET k v", 0), "OK\r\n");
    assert_eq!(run(&mut s, "RENAME k k", 0), "OK\r\n");
    assert_eq!(run(&mut s, "EXISTS k", 0), "NO\r\n");
}

#[test]
fn unknown_and_empty_commands() {
    let mut s = State::new();
    assert_eq!(run(&mut s, "FLY away", 0), "Unknown command\r\n");
    assert_eq!(run(&mut s, "", 0), "Error: Empty command\r\n");
    assert_eq!(run(&mut s, "  \t ", 0), "Error: Empty command\r\n");
    assert_eq!(run(&mut s, "PING", 0), "PONG\r\n");
}

#[test]
fn verbs_are_case_insensitive() {
    let mut s = State::new();
    assert_eq!(run(&mut s, "set Key Val", 0), "OK\r\n");
    assert_eq!(run(&mut s, "gEt Key", 0), "Val, type: String\r\n");
    assert_eq!(run(&mut s, "get key", 0), "Nil\r\n");
}

#[test]
fn short_commands_are_rejected() {
    let mut s = State::new();
    assert_eq!(run(&mut s, "SET k", 0), "Error: SET command requires at least 2 arguments\r\n");
    assert_eq!(run(&mut s, "EXISTS k", 0), "NO\r\n");
    assert_eq!(run(&mut s, "get", 0), "Error: GET command requires at least 1 arguments\r\n");
    assert_eq!(run(&mut s, "UPDATE k", 0), "Error: UPDATE command requires at least 2 arguments\r\n");
    assert_eq!(run(&mut s, "RENAME a", 0), "Error: RENAME command requires at least 2 arguments\r\n");
    assert_eq!(run(&mut s, "DELETE", 0), "Error: DELETE command requires at least 1 arguments\r\n");
    assert_eq!(run(&mut s, "TYPE", 0), "Error: TYPE command requires at least 1 arguments\r\n");
}

#[test]
fn update_needs_live_key() {
    let mut s = State::new();
    assert_eq!(run(&mut s, "UPDATE k v", 0), "Error: Key does not exist\r\n");
    assert_eq!(run(&mut s, "EXISTS k", 0), "NO\r\n");
    assert_eq!(run(&mut s, "SET k v", 0), "OK\r\n");
    assert_eq!(run(&mut s, "UPDATE k a,b 3", 0), "OK\r\n");
    assert_eq!(run(&mut s, "GET k", 0), "a,b, type: VecStr\r\n");
    assert_eq!(run(&mut s, "GET k", 3000), "Nil\r\n");
}

#[test]
fn delete_and_del() {
    let mut s = State::new();
    assert_eq!(run(&mut s, "SET a 1", 0), "OK\r\n");
    assert_eq!(run(&mut s, "SET b 2", 0), "OK\r\n");
    assert_eq!(run(&mut s, "DEL a", 0), "OK\r\n");
    assert_eq!(run(&mut s, "DELETE b", 0), "OK\r\n");
    assert_eq!(run(&mut s, "DEL nothing", 0), "OK\r\n");
    assert_eq!(run(&mut s, "EXISTS a", 0), "NO\r\n");
    assert_eq!(run(&mut s, "EXISTS b", 0), "NO\r\n");
}

#[test]
fn type_reports_each_kind() {
    let mut s = State::new();
    run(&mut s, "SET a x", 0);
    run(&mut s, "SET b x,y", 0);
    assert_eq!(run(&mut s, "TYPE a", 0), "String\r\n");
    assert_eq!(run(&mut s, "TYPE b", 0), "VecStr\r\n");
    assert_eq!(run(&mut s, "TYPE c", 0), "Nil\r\n");
}

#[test]
fn ttl_defaults_when_unparseable() {
    let mut s = State::new();
    assert_eq!(run(&mut s, "SET k v soon", 0), "OK\r\n");
    assert_eq!(run(&mut s, "GET k", 59999), "v, type: String\r\n");
    assert_eq!(run(&mut s, "GET k", 60000), "Nil\r\n");
}

#[test]
fn ttl_numerals() {
    assert_eq!(parse_u64("42"), Some(42));
    assert_eq!(parse_u64("+7"), Some(7));
    assert_eq!(parse_u64("18446744073709551615"), Some(u64::MAX));
    assert_eq!(parse_u64("18446744073709551616"), None);
    assert_eq!(parse_u64("-1"), None);
    assert_eq!(parse_u64("+"), None);
    assert_eq!(parse_u64(""), None);
    assert_eq!(parse_u64("1x"), None);
    assert_eq!(parse_ttl("abc"), 60);
    assert_eq!(parse_ttl("0"), 0);
}

#[test]
fn zero_ttl_expires_at_once() {
    let mut s = State::new();
    assert_eq!(run(&mut s, "SET k v 0", 10), "OK\r\n");
    assert_eq!(run(&mut s, "GET k", 10), "Nil\r\n");
}

#[test]
fn largest_ttl_does_not_overflow() {
    let mut s = State::new();
    assert_eq!(run(&mut s, "SET k v 18446744073709551615", u64::MAX), "OK\r\n");
    assert_eq!(run(&mut s, "GET k", u64::MAX), "v, type: String\r\n");
}

#[test]
fn hash_parsing_rules() {
    let mut s = State::new();
    assert_eq!(run(&mut s, "SET h a:1,bad,b:x:y,a:2", 0), "OK\r\n");
    assert_eq!(run(&mut s, "GET h", 0), "a:2,b:x:y, type: Hash\r\n");
}

#[test]
fn value_classification() {
    let mut s = State::new();
    s.set("k".to_string(), parse_value("a:b"), 10, 0);
    assert_eq!(run(&mut s, "GET k", 0), "a:b, type: String\r\n");
    s.set("k".to_string(), parse_value(",,"), 10, 0);
    assert_eq!(run(&mut s, "GET k", 0), ",,, type: VecStr\r\n");
    match parse_value("x,y") {
        Value::VecStr(v) => assert_eq!(v, vec!["x".to_string(), "y".to_string()]),
        _ => panic!("expected a list"),
    }
}

#[test]
fn render_of_each_kind() {
    assert_eq!(render_value(&Value::String("s".to_string())), "s, type: String");
    assert_eq!(render_value(&Value::VecStr(vec!["1".to_string(), "2".to_string()])), "1,2, type: VecStr");
    assert_eq!(
        render_value(&Value::Hash(vec![("k".to_string(), "v".to_string())])),
        "k:v, type: Hash"
    );
}

#[test]
fn tokenizing() {
    assert_eq!(tokenize("  SET\tk  v \r"), vec!["SET".to_string(), "k".to_string(), "v".to_string()]);
    assert!(tokenize("").is_empty());
    assert_eq!(tokenize("a\u{3000}b"), vec!["a".to_string(), "b".to_string()]);
    assert_eq!(split_pieces("a,,b", ','), vec!["a".to_string(), String::new(), "b".to_string()]);
    assert_eq!(split_pieces("", ','), vec![String::new()]);
}

#[test]
fn store_operations() {
    let mut s = KeyStore::default();
    s.set("a".to_string(), Value::String("1".to_string()), 5, 100);
    match s.get("a", 5099) {
        Some(Value::String(v)) => assert_eq!(v, "1"),
        _ => panic!("expected a value"),
    }
    assert!(s.get("a", 5100).is_none());
    assert_eq!(s.rename("a", "b", 200), Ok(()));
    assert!(s.get("a", 200).is_none());
    assert_eq!(s.rename("a", "b", 200), Err(StoreError::KeyNotFound));
    s.delete("b");
    assert!(!s.contains("b", 200));
    s.set("c".to_string(), Value::String("3".to_string()), 5, 0);
    s.clear();
    assert!(!s.contains("c", 0));
}

#[test]
fn apply_takes_verb_as_given() {
    let mut s = State::new();
    let args = vec!["k".to_string(), "v".to_string()];
    assert_eq!(apply_command(&mut s, "set", &args, 0), "Unknown command\r\n");
    assert_eq!(apply_command(&mut s, "SET", &args, 0), "OK\r\n");
    assert_eq!(apply_command(&mut s, "EXISTS", &vec!["k".to_string()], 0), "YES\r\n");
}

#[test]
fn reads_answer_without_writing() {
    let mut s = State::new();
    run(&mut s, "SET k v", 0);
    assert_eq!(answer_read(&s, "get k", 0), Some("v, type: String\r\n".to_string()));
    assert_eq!(answer_read(&s, "EXISTS k", 0), Some("YES\r\n".to_string()));
    assert_eq!(answer_read(&s, "TYPE k", 0), Some("String\r\n".to_string()));
    assert_eq!(answer_read(&s, "ping", 0), Some("PONG\r\n".to_string()));
    assert_eq!(answer_read(&s, "GET", 0), Some("Error: GET command requires at least 1 arguments\r\n".to_string()));
    assert_eq!(answer_read(&s, "SET k w", 0), None);
    assert_eq!(answer_read(&s, "CLEARALL", 0), None);
    assert_eq!(answer_read(&s, "", 0), None);
    assert_eq!(answer_read(&s, "NOPE", 0), None);
}

#[test]
fn hash_keys_stay_unique() {
    match parse_value("a:1,a:2,b:3,b:4,a:5") {
        Value::Hash(ps) => assert_eq!(
            ps,
            vec![("a".to_string(), "5".to_string()), ("b".to_string(), "4".to_string())]
        ),
        _ => panic!("expected pairs"),
    }
}
