use kvmesh::json::{parse_document, parse_pairs, pairs_text, JsonDocument, JsonMember};
use kvmesh::keyed::KeyedMap;
use kvmesh::message::Command;
use kvmesh::store::{handle_command, ServerState};

fn put(state: &mut ServerState, key: &str, value: &str) -> String {
    let content = format!("{{\"key\": \"{}\", \"value\": \"{}\"}}", key, value);
    handle_command(&Command::Put, state, &content)
}

#[test]
fn put_then_get_gives_the_value_back() {
    let mut state = ServerState::new();
    assert_eq!(put(&mut state, "colour", "red"), "Stored key colour with value red");
    assert_eq!(handle_command(&Command::Get, &mut state, "colour"), "Value for key colour: red");
    assert_eq!(handle_command(&Command::Exists, &mut state, "colour"), "Key colour exists: true");
    assert_eq!(handle_command(&Command::Get, &mut state, "size"), "Key size not found");
    assert_eq!(put(&mut state, "colour", "blue"), "Stored key colour with value blue");
    assert_eq!(handle_command(&Command::Get, &mut state, "colour"), "Value for key colour: blue");
    assert_eq!(state.data().len(), 1);
}

#[test]
fn delete_then_get_finds_nothing() {
    let mut state = ServerState::new();
    put(&mut state, "a", "1");
    put(&mut state, "b", "2");
    assert_eq!(handle_command(&Command::Delete, &mut state, "a"), "Deleted key a");
    assert_eq!(handle_command(&Command::Get, &mut state, "a"), "Key a not found");
    assert_eq!(handle_command(&Command::Exists, &mut state, "a"), "Key a exists: false");
    assert_eq!(handle_command(&Command::Delete, &mut state, "a"), "Key a not found");
    assert_eq!(handle_command(&Command::Get, &mut state, "b"), "Value for key b: 2");
}

#[test]
fn list_is_sorted_by_bytes() {
    let mut state = ServerState::new();
    assert_eq!(handle_command(&Command::List, &mut state, "ignored"), "No key-value pairs stored");
    put(&mut state, "b", "2");
    put(&mut state, "a", "1");
    put(&mut state, "Z", "26");
    put(&mut state, "ä", "umlaut");
    put(&mut state, "a b", "0");
    let expected = "Stored key-value pairs:\nZ: 26\na b: 0\na: 1\nb: 2\nä: umlaut";
    assert_eq!(handle_command(&Command::List, &mut state, ""), expected);
    assert_eq!(state.data().len(), 5);
}

#[test]
fn list_shows_equal_lines_twice() {
    let mut state = ServerState::new();
    put(&mut state, "a", "b: c");
    put(&mut state, "a: b", "c");
    let expected = "Stored key-value pairs:\na: b: c\na: b: c";
    assert_eq!(handle_command(&Command::List, &mut state, ""), expected);
}

#[test]
fn refused_puts_store_nothing() {
    let refusal = "Invalid JSON format. Expected {\"key\": \"...\", \"value\": \"...\"}";
    let mut state = ServerState::new();
    for content in [
        "{}",
        "[1, 2]",
        "\"key\"",
        "{\"key\": \"a\"}",
        "{\"value\": \"a\"}",
        "{\"key\": \"a\", \"value\": 1}",
        "{\"key\": null, \"value\": \"a\"}",
    ] {
        assert_eq!(handle_command(&Command::Put, &mut state, content), refusal);
    }
    assert_eq!(state.data().len(), 0);
}

#[test]
fn put_of_no_json_tells_the_parser_error() {
    let mut state = ServerState::new();
    assert_eq!(
        handle_command(&Command::Put, &mut state, ""),
        "Failed to parse JSON content: EOF while parsing a value at line 1 column 0"
    );
    let error = serde_json::from_str::<serde_json::Value>("{\"key\" 1}").unwrap_err();
    assert_eq!(
        handle_command(&Command::Put, &mut state, "{\"key\" 1}"),
        format!("Failed to parse JSON content: {}", error)
    );
    assert_eq!(state.data().len(), 0);
}

#[test]
fn last_of_repeated_members_counts() {
    let mut state = ServerState::new();
    let content = "{\"key\": \"a\", \"key\": \"b\", \"value\": \"x\", \"more\": [1]}";
    assert_eq!(handle_command(&Command::Put, &mut state, content), "Stored key b with value x");
    assert_eq!(handle_command(&Command::Exists, &mut state, "a"), "Key a exists: false");
}

#[test]
fn put_takes_what_was_read() {
    let mut state = ServerState::new();
    assert_eq!(state.put(Err("bad".to_string())), "Failed to parse JSON content: bad");
    let members = vec![
        ("key".to_string(), JsonMember { text: Some("k".to_string()) }),
        ("value".to_string(), JsonMember { text: Some("v".to_string()) }),
    ];
    let document = JsonDocument { members: Some(KeyedMap::from_entries(members)) };
    assert_eq!(state.put(Ok(document)), "Stored key k with value v");
    assert_eq!(handle_command(&Command::Get, &mut state, "k"), "Value for key k: v");
}

#[test]
fn document_gives_string_members_only() {
    let document = parse_document("{\"a\": \"x\\n\\u00e4\", \"b\": 1}").unwrap();
    assert_eq!(document.string_member("a").unwrap(), "x\nä");
    assert!(document.string_member("b").is_none());
    assert!(document.string_member("c").is_none());
    assert!(parse_document("3").unwrap().members.is_none());
    assert!(parse_document("{").is_err());
}

#[test]
fn pairs_survive_writing_and_reading() {
    let mut pairs: KeyedMap<String> = KeyedMap::new();
    pairs.insert("quote\"".to_string(), "back\\slash\n".to_string());
    pairs.insert("ä".to_string(), "".to_string());
    let text = pairs_text(&pairs);
    assert_eq!(text, "{\"quote\\\"\":\"back\\\\slash\\n\",\"ä\":\"\"}");
    let read = parse_pairs(&text).unwrap();
    assert_eq!(read.len(), 2);
    assert_eq!(read.get("quote\"").unwrap(), "back\\slash\n");
    assert_eq!(read.get("ä").unwrap(), "");
    assert!(parse_pairs("{\"a\": 1}").is_err());
    assert!(parse_pairs("[]").is_err());
}

#[test]
fn keyed_map_keeps_each_key_once() {
    let mut map: KeyedMap<String> = KeyedMap::new();
    assert_eq!(map.insert("a".to_string(), "1".to_string()), None);
    assert_eq!(map.insert("a".to_string(), "2".to_string()), Some("1".to_string()));
    assert_eq!(map.insert("b".to_string(), "3".to_string()), None);
    assert_eq!(map.len(), 2);
    assert_eq!(map.entries().len(), 2);
    assert!(map.contains_key("b"));
    assert_eq!(map.remove("a"), Some("2".to_string()));
    assert_eq!(map.remove("a"), None);
    assert_eq!(map.get("a"), None);
    assert_eq!(map.get("b"), Some(&"3".to_string()));
}

#[test]
fn repeated_commands_agree_but_for_delete() {
    let mut state = ServerState::new();
    let first = put(&mut state, "a", "1");
    assert_eq!(put(&mut state, "a", "1"), first);
    for command in [Command::Get, Command::Exists, Command::List] {
        let first = handle_command(&command, &mut state, "a");
        assert_eq!(handle_command(&command, &mut state, "a"), first);
        assert_eq!(state.data().len(), 1);
    }
    assert_eq!(handle_command(&Command::Delete, &mut state, "a"), "Deleted key a");
    assert_eq!(handle_command(&Command::Delete, &mut state, "a"), "Key a not found");
    assert_eq!(state.data().len(), 0);
}
