use kvmesh::client::{build_message, client_request, ClientError};
use kvmesh::clock::WallTime;
use kvmesh::config::parse_args;
use kvmesh::message::{Command, MessageRole, MsgType};
use kvmesh::store::{handle_command, ServerState};
use kvmesh::text::{decimal_text, join, precedes, same, sort};

const WALL: WallTime = WallTime { secs: 0, nanos: 0 };

fn words(list: &[&str]) -> Vec<String> {
    list.iter().map(|s| s.to_string()).collect()
}

#[test]
fn node_arguments_give_addresses() {
    let config = parse_args(&words(&["node", "8080"])).unwrap();
    assert_eq!(config.port, 8080);
    assert_eq!(config.own_address, "127.0.0.1:8080");
    assert_eq!(config.first_node_addr, None);
    assert_eq!(config.first_server_address, None);
    let config = parse_args(&words(&["node", "0080", "+81"])).unwrap();
    assert_eq!(config.own_address, "127.0.0.1:80");
    assert_eq!(config.first_node_addr.as_deref(), Some("127.0.0.1:81"));
    assert_eq!(config.first_server_address.as_deref(), Some("127.0.0.1:+81"));
}

#[test]
fn wrong_number_of_node_arguments_shows_the_usage() {
    let usage =
        "Usage:\nFirst node: cargo run <port>\nOther nodes: cargo run <port> <first_node_port>";
    assert_eq!(parse_args(&words(&[])).unwrap_err(), usage);
    assert_eq!(parse_args(&words(&["node"])).unwrap_err(), usage);
    assert_eq!(parse_args(&words(&["node", "1", "2", "3"])).unwrap_err(), usage);
}

#[test]
fn wrong_ports_are_described() {
    assert_eq!(
        parse_args(&words(&["node", ""])).unwrap_err(),
        "Invalid port number: cannot parse integer from empty string"
    );
    assert_eq!(
        parse_args(&words(&["node", "80x", "1"])).unwrap_err(),
        "Invalid port number: invalid digit found in string"
    );
    assert_eq!(
        parse_args(&words(&["node", "80", "65536"])).unwrap_err(),
        "Invalid first node port number: number too large to fit in target type"
    );
    for text in ["-1", "+", " 80", "80 ", "1_000", "99999999999999999999", "٣"] {
        assert!(parse_args(&words(&["node", text])).is_err());
    }
    for text in ["0", "65535", "+65535", "000000000065535"] {
        let port: u16 = text.parse().unwrap();
        assert_eq!(parse_args(&words(&["node", text])).unwrap().port, port);
    }
}

#[test]
fn client_put_is_stored_by_a_node() {
    let args = words(&["client", "8080", "PUT", "a \"key\"", "line\nbreak \\ ä"]);
    let request = client_request(&args, WALL).unwrap();
    assert_eq!(request.word, "put");
    assert_eq!(request.server_addr, "127.0.0.1:8080");
    let message = request.message;
    assert_eq!(message.msg_type, MsgType::Normal);
    assert_eq!(message.role, MessageRole::Command);
    assert_eq!(message.serial_number, Some(1));
    assert_eq!(message.timestamp, "1970-01-01T00:00:00+00:00");
    assert_eq!(message.command, Some(Command::Put));
    assert_eq!(message.servers, None);
    assert!(!message.forwarded);
    let content = message.content.unwrap();
    assert_eq!(content, "{\"key\":\"a \\\"key\\\"\",\"value\":\"line\\nbreak \\\\ ä\"}");
    let mut state = ServerState::new();
    handle_command(&Command::Put, &mut state, &content);
    assert_eq!(
        handle_command(&Command::Get, &mut state, "a \"key\""),
        "Value for key a \"key\": line\nbreak \\ ä"
    );
}

#[test]
fn client_commands_carry_their_key() {
    for (word, command) in
        [("get", Command::Get), ("Delete", Command::Delete), ("EXISTS", Command::Exists)]
    {
        let request = client_request(&words(&["client", "1", word, "k"]), WALL).unwrap();
        assert_eq!(request.message.command, Some(command));
        assert_eq!(request.message.content.as_deref(), Some("k"));
    }
    let request = client_request(&words(&["client", "1", "list"]), WALL).unwrap();
    assert_eq!(request.message.command, Some(Command::List));
    assert_eq!(request.message.content.as_deref(), Some(""));
}

#[test]
fn unknown_word_goes_out_without_a_command() {
    let request = client_request(&words(&["client", "1", "FLÜG", "x", "y", "z"]), WALL).unwrap();
    assert_eq!(request.message.command, None);
    assert_eq!(request.message.content.as_deref(), Some("flüg"));
}

#[test]
fn wrong_client_arguments_are_described() {
    let cases = [
        (vec!["client", "1"], ClientError::Usage),
        (vec!["client", "1", "put", "k"], ClientError::Put),
        (vec!["client", "1", "get"], ClientError::Get),
        (vec!["client", "1", "delete", "k", "v"], ClientError::Delete),
        (vec!["client", "1", "exists"], ClientError::Exists),
        (vec!["client", "1", "list", "k"], ClientError::List),
    ];
    for (args, expected) in cases {
        assert_eq!(client_request(&words(&args), WALL).unwrap_err(), expected);
    }
    assert_eq!(
        ClientError::Usage.describe("kv"),
        "Usage: kv <server_port> <command> [key] [value]\nCommands:\n  put <key> <value>\n  get <key>\n  delete <key>\n  exists <key>\n  list"
    );
    assert_eq!(ClientError::Put.describe(""), "Put command requires key and value");
    assert_eq!(ClientError::Get.describe(""), "Get command requires key");
    assert_eq!(ClientError::Delete.describe(""), "Delete command requires key");
    assert_eq!(ClientError::Exists.describe(""), "Exists command requires key");
    assert_eq!(ClientError::List.describe(""), "List command doesn't take any arguments");
}

#[test]
fn message_is_built_from_the_lowercase_word() {
    let args = words(&["client", "1", "Get", "k"]);
    assert_eq!(build_message("get", &args, "t").unwrap().command, Some(Command::Get));
    assert_eq!(build_message("Get", &args, "t").unwrap().command, None);
    assert_eq!(build_message("list", &args, "t").unwrap_err(), ClientError::List);
}

#[test]
fn texts_compare_by_bytes() {
    assert!(same("ä", "ä"));
    assert!(!same("a", "ab"));
    assert!(!same("a", "b"));
    let samples = ["", "a", "ab", "b", "Z", "ä", "\u{ffff}", "\u{10000}", "a\0"];
    for x in samples {
        for y in samples {
            assert_eq!(precedes(x, y), x <= y);
        }
    }
    let mut expected = words(&samples);
    expected.sort();
    assert_eq!(sort(words(&samples)), expected);
    assert_eq!(join(&words(&["a", "", "b"]), ", "), "a, , b");
    assert_eq!(join(&words(&[]), ", "), "");
}

#[test]
fn numbers_are_written_in_decimal() {
    for n in [0u16, 7, 10, 99, 100, 8080, 65535] {
        assert_eq!(decimal_text(n), n.to_string());
        assert_eq!(parse_args(&words(&["node", &decimal_text(n)])).unwrap().port, n);
    }
}
