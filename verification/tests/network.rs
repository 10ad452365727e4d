use kvmesh::clock::WallTime;
use kvmesh::json::parse_pairs;
use kvmesh::message::{
    command_id, hello_message, ping_message, ping_response_message, server_list_message, Command,
    Message, MessageRole, MsgType,
};
use kvmesh::node::{forward_message, Action, Node, Payload, Timer};

const OWN: &str = "127.0.0.1:1";
const PEER: &str = "127.0.0.1:2";
const THIRD: &str = "127.0.0.1:3";
const CLIENT: &str = "127.0.0.1:9000";

const WALL: WallTime = WallTime { secs: 1_700_000_000, nanos: 123_456_789 };
const STAMP: &str = "2023-11-14T22:13:20.123456789+00:00";

fn lone() -> Node {
    Node::start(OWN.to_string(), None, WALL).0
}

fn pair() -> Node {
    Node::start(OWN.to_string(), Some(PEER.to_string()), WALL).0
}

fn command(command: Option<Command>, content: &str) -> Message {
    let mut msg = ping_message("t1");
    msg.msg_type = MsgType::Normal;
    msg.serial_number = Some(4);
    msg.command = command;
    msg.content = Some(content.to_string());
    msg
}

fn answer(cmd: Command, content: &str) -> Message {
    let mut msg = command(Some(cmd), content);
    msg.role = MessageRole::Response;
    msg.forwarded = true;
    msg
}

fn message_to(action: &Action) -> (&str, &Message) {
    match action {
        Action::Send { to, payload: Payload::Message(message) } => (to, message),
        _ => panic!("no message"),
    }
}

fn text_to(action: &Action) -> (&str, &str) {
    match action {
        Action::Send { to, payload: Payload::Text(text) } => (to, text),
        _ => panic!("no text"),
    }
}

fn timer_of(action: &Action) -> Timer {
    match action {
        Action::StartTimer { timer } => Timer {
            command_id: timer.command_id.clone(),
            client: timer.client.clone(),
            response: timer.response.clone(),
        },
        _ => panic!("no timer"),
    }
}

#[test]
fn starting_node_knows_itself_and_greets_the_first_server() {
    let (node, actions) = Node::start(OWN.to_string(), None, WALL);
    assert_eq!(node.known_servers(), &vec![OWN.to_string()]);
    assert_eq!(node.own_address(), OWN);
    assert!(!node.has_peers());
    assert!(actions.is_empty());
    let (node, actions) = Node::start(OWN.to_string(), Some(PEER.to_string()), WALL);
    assert_eq!(node.known_servers(), &vec![OWN.to_string(), PEER.to_string()]);
    assert!(node.has_peers());
    assert_eq!(actions.len(), 1);
    let (to, message) = message_to(&actions[0]);
    assert_eq!(to, PEER);
    assert_eq!(message.msg_type, MsgType::Hello);
    assert_eq!(message.role, MessageRole::Command);
    assert_eq!(message.timestamp, STAMP);
    assert_eq!(message.content, None);
    assert_eq!(message.servers, None);
}

#[test]
fn node_that_is_its_own_first_server_is_known_once() {
    let (node, actions) = Node::start(OWN.to_string(), Some(OWN.to_string()), WALL);
    assert_eq!(node.known_servers(), &vec![OWN.to_string()]);
    assert_eq!(message_to(&actions[0]).0, OWN);
}

#[test]
fn hello_spreads_the_server_list() {
    let mut node = pair();
    let actions = node.receive(THIRD, hello_message("x"), WALL, 0);
    let all = vec![OWN.to_string(), PEER.to_string(), THIRD.to_string()];
    assert_eq!(node.known_servers(), &all);
    assert_eq!(actions.len(), 2);
    for (action, expected) in actions.iter().zip([PEER, THIRD]) {
        let (to, message) = message_to(action);
        assert_eq!(to, expected);
        assert_eq!(message.msg_type, MsgType::ServerList);
        assert_eq!(message.servers, Some(all.clone()));
        assert_eq!(message.timestamp, STAMP);
    }
    let again = node.receive(THIRD, hello_message("x"), WALL, 0);
    assert_eq!(again.len(), 2);
    assert_eq!(node.known_servers(), &all);
}

#[test]
fn server_list_is_learned_in_order() {
    let mut node = lone();
    let list = vec![THIRD.to_string(), OWN.to_string(), PEER.to_string(), THIRD.to_string()];
    let actions = node.receive(PEER, server_list_message("x", &list), WALL, 0);
    assert!(actions.is_empty());
    assert_eq!(node.known_servers(), &vec![OWN.to_string(), THIRD.to_string(), PEER.to_string()]);
    let mut empty = server_list_message("x", &list);
    empty.servers = None;
    assert!(node.receive(PEER, empty, WALL, 0).is_empty());
}

#[test]
fn ping_is_counted_and_answered() {
    let mut node = lone();
    let msg = ping_message("x");
    assert!(node.can_receive(PEER, &msg));
    node.receive(PEER, msg, WALL, 5);
    let actions = node.receive(PEER, ping_message("x"), WALL, 9);
    let stats = node.ping_stats().get(PEER).unwrap();
    assert_eq!((stats.sent, stats.received, stats.last_seen), (0, 2, 9));
    let (to, message) = message_to(&actions[0]);
    assert_eq!(to, PEER);
    assert_eq!(message.msg_type, MsgType::PingResponse);
    assert_eq!(message.role, MessageRole::Response);
    assert_eq!(message.timestamp, STAMP);
    assert!(!node.has_peers());
}

#[test]
fn ping_response_makes_the_sender_known() {
    let mut node = lone();
    assert!(node.receive(PEER, ping_response_message("x"), WALL, 0).is_empty());
    assert_eq!(node.known_servers(), &vec![OWN.to_string(), PEER.to_string()]);
}

#[test]
fn join_hands_over_servers_and_pairs() {
    let mut node = lone();
    node.receive(OWN, command(Some(Command::Put), "{\"key\":\"a\",\"value\":\"1\"}"), WALL, 0);
    let mut join = command(None, "");
    join.role = MessageRole::Join;
    let actions = node.receive(PEER, join.clone(), WALL, 0);
    assert_eq!(actions.len(), 2);
    let (to, current) = message_to(&actions[0]);
    assert_eq!(to, PEER);
    assert_eq!(current.msg_type, MsgType::Normal);
    assert_eq!(current.role, MessageRole::CurrentServers);
    assert_eq!(current.serial_number, Some(4));
    assert_eq!(current.timestamp, "t1");
    assert_eq!(current.content.as_deref(), Some("[\"127.0.0.1:1\",\"127.0.0.1:2\"]"));
    let (to, state) = message_to(&actions[1]);
    assert_eq!(to, PEER);
    assert_eq!(state.msg_type, MsgType::InitialState);
    assert_eq!(state.role, MessageRole::Response);
    assert_eq!(state.serial_number, Some(1));
    assert_eq!(state.timestamp, STAMP);
    assert_eq!(state.content.as_deref(), Some("{\"a\":\"1\"}"));
    let mut other = Node::start(PEER.to_string(), None, WALL).0;
    other.receive(OWN, state.clone(), WALL, 0);
    assert_eq!(other.data().get("a").unwrap(), "1");
    assert!(node.receive(PEER, join, WALL, 0).is_empty());
}

#[test]
fn unreadable_initial_state_changes_nothing() {
    let mut node = lone();
    node.install(parse_pairs("{\"a\":\"1\"}"));
    let mut state = command(None, "{\"a\": 2}");
    state.msg_type = MsgType::InitialState;
    assert!(node.receive(PEER, state, WALL, 0).is_empty());
    assert_eq!(node.data().get("a").unwrap(), "1");
    node.install(Err("bad".to_string()));
    assert_eq!(node.data().len(), 1);
}

#[test]
fn node_that_knows_only_the_sender_answers_at_once() {
    let mut node = lone();
    let actions = node.receive(OWN, command(Some(Command::Exists), "a"), WALL, 0);
    assert_eq!(actions.len(), 1);
    assert_eq!(text_to(&actions[0]), (OWN, "Key a exists: false"));
    assert_eq!(node.collectors().len(), 0);
}

#[test]
fn command_is_forwarded_and_agreement_answers_the_client() {
    let mut node = pair();
    let mut peer = Node::start(PEER.to_string(), Some(OWN.to_string()), WALL).0;
    let put = command(Some(Command::Put), "{\"key\":\"a\",\"value\":\"1\"}");
    let actions = node.receive(CLIENT, put, WALL, 3);
    assert_eq!(actions.len(), 3);
    assert_eq!(message_to(&actions[0]).0, OWN);
    let (to, copy) = message_to(&actions[1]);
    assert_eq!(to, PEER);
    assert!(copy.forwarded);
    assert_eq!(copy.timestamp, "t1");
    assert_eq!(copy.serial_number, Some(4));
    let timer = timer_of(&actions[2]);
    assert_eq!(timer.command_id, "t1-Put");
    assert_eq!(timer.client, CLIENT);
    assert_eq!(timer.response, "Stored key a with value 1");
    assert_eq!(node.collectors().get("t1-Put").unwrap().required_count(), 3);

    let own_copy = message_to(&actions[0]).1.clone();
    let own_answers = node.receive(OWN, own_copy, WALL, 3);
    let own_answer = message_to(&own_answers[0]).1.clone();
    assert!(node.receive(OWN, own_answer, WALL, 3).is_empty());

    let peer_answers = peer.receive(OWN, copy.clone(), WALL, 3);
    assert_eq!(peer_answers.len(), 1);
    let (to, peer_answer) = message_to(&peer_answers[0]);
    assert_eq!(to, OWN);
    assert_eq!(peer_answer.role, MessageRole::Response);
    assert_eq!(peer_answer.command, Some(Command::Put));
    assert_eq!(peer_answer.content.as_deref(), Some("Stored key a with value 1"));
    assert!(peer_answer.forwarded);
    assert_eq!(peer.data().get("a").unwrap(), "1");

    let done = node.receive(PEER, peer_answer.clone(), WALL, 3);
    assert_eq!(done.len(), 1);
    assert_eq!(text_to(&done[0]), (CLIENT, "Stored key a with value 1"));
    assert_eq!(node.collectors().len(), 0);
    assert!(node.timer_fired(timer).is_empty());
    assert!(node.receive(PEER, peer_answer.clone(), WALL, 3).is_empty());
}

#[test]
fn disagreement_is_told_to_the_client() {
    let mut node = pair();
    node.receive(CLIENT, command(Some(Command::Get), "a"), WALL, 0);
    assert!(node.receive(OWN, answer(Command::Get, "x"), WALL, 0).is_empty());
    let done = node.receive(PEER, answer(Command::Get, "y"), WALL, 0);
    assert_eq!(text_to(&done[0]), (CLIENT, "Error: No consensus reached among nodes"));
}

#[test]
fn timeout_answers_with_the_local_response() {
    let mut node = pair();
    let actions = node.receive(CLIENT, command(Some(Command::Get), "a"), WALL, 0);
    let timer = timer_of(&actions[2]);
    let done = node.timer_fired(timer);
    assert_eq!(
        text_to(&done[0]),
        (CLIENT, "Warning: Not all nodes responded. Using local response: Key a not found")
    );
    assert!(node.receive(PEER, answer(Command::Get, "x"), WALL, 0).is_empty());
    assert!(node.receive(OWN, answer(Command::Get, "x"), WALL, 0).is_empty());
}

#[test]
fn command_message_without_command_is_refused() {
    let mut node = pair();
    let actions = node.receive(CLIENT, command(None, "fly"), WALL, 0);
    assert_eq!(actions.len(), 1);
    let (to, refusal) = message_to(&actions[0]);
    assert_eq!(to, CLIENT);
    assert_eq!(refusal.msg_type, MsgType::Normal);
    assert_eq!(refusal.role, MessageRole::Response);
    assert_eq!(refusal.serial_number, Some(4));
    assert_eq!(refusal.timestamp, STAMP);
    assert_eq!(refusal.content.as_deref(), Some("Error: Invalid command format"));
    assert_eq!(refusal.command, None);
    let mut forwarded = command(None, "fly");
    forwarded.forwarded = true;
    assert!(node.receive(CLIENT, forwarded, WALL, 0).is_empty());
}

#[test]
fn stray_messages_are_ignored() {
    let mut node = pair();
    let mut current = command(None, "[]");
    current.role = MessageRole::CurrentServers;
    assert!(node.receive(PEER, current, WALL, 0).is_empty());
    assert!(node.receive(PEER, answer(Command::List, "x"), WALL, 0).is_empty());
    let mut bare = answer(Command::List, "x");
    bare.content = None;
    assert!(node.receive(PEER, bare, WALL, 0).is_empty());
    assert_eq!(node.known_servers().len(), 2);
    assert_eq!(node.data().len(), 0);
}

#[test]
fn message_without_content_is_a_command_on_the_empty_key() {
    let mut node = lone();
    let mut msg = command(Some(Command::Get), "");
    msg.content = None;
    let actions = node.receive(OWN, msg, WALL, 0);
    assert_eq!(text_to(&actions[0]), (OWN, "Key  not found"));
}

#[test]
fn pings_are_a_second_apart() {
    let second = 1_000_000_000;
    let mut node = pair();
    assert!(!node.ping_due(OWN, 0, 0));
    assert!(node.ping_due(PEER, 0, 0));
    assert!(node.ping_due(PEER, 0, second));
    assert!(!node.ping_due(PEER, 0, second + 1));
    assert!(node.can_count_ping(PEER));
    node.ping_sent(PEER, 10, 12);
    let stats = node.ping_stats().get(PEER).unwrap();
    assert_eq!((stats.sent, stats.received, stats.last_seen), (1, 0, 12));
    assert!(!node.ping_due(PEER, 10, 10));
    assert!(!node.ping_due(PEER, second + 9, second + 9));
    assert!(node.ping_due(PEER, second + 10, second + 10));
    assert!(!node.ping_due(PEER, 5, 5));
    node.ping_sent(PEER, second + 10, second + 11);
    assert_eq!(node.ping_stats().get(PEER).unwrap().sent, 2);
    assert_eq!(node.ping_stats().get(PEER).unwrap().last_seen, 12);
}

#[test]
fn forwarding_goes_to_every_server_in_order() {
    let servers = vec![THIRD.to_string(), PEER.to_string()];
    let msg = command(Some(Command::List), "");
    let actions = forward_message(&msg, &servers);
    assert_eq!(actions.len(), 2);
    assert_eq!(message_to(&actions[0]).0, THIRD);
    assert_eq!(message_to(&actions[1]).0, PEER);
    assert_eq!(message_to(&actions[1]).1.command, Some(Command::List));
}

#[test]
fn command_ids_name_timestamp_and_command() {
    assert_eq!(command_id("t", Command::Put), "t-Put");
    assert_eq!(command_id("t", Command::Get), "t-Get");
    assert_eq!(command_id("t", Command::Delete), "t-Delete");
    assert_eq!(command_id("t", Command::Exists), "t-Exists");
    assert_eq!(command_id("", Command::List), "-List");
    assert_ne!(command_id("t-Put", Command::Get), command_id("t", Command::Put));
    assert_ne!(command_id("t", Command::Get), command_id("u", Command::Get));
}

#[test]
fn timestamps_are_rfc3339() {
    assert_eq!(WALL.timestamp(), STAMP);
    assert_eq!(WallTime { secs: 0, nanos: 0 }.timestamp(), "1970-01-01T00:00:00+00:00");
    assert_eq!(WallTime { secs: 1, nanos: 5_000_000 }.timestamp(), "1970-01-01T00:00:01.005+00:00");
    let last = WallTime { secs: kvmesh::clock::LAST_SECOND, nanos: 999_999_999 };
    assert!(last.is_valid());
    assert_eq!(last.timestamp(), "+262142-12-31T23:59:59.999999999+00:00");
    assert!(chrono::DateTime::from_timestamp(kvmesh::clock::LAST_SECOND + 1, 0).is_none());
    assert!(!WallTime { secs: kvmesh::clock::LAST_SECOND + 1, nanos: 0 }.is_valid());
    assert!(!WallTime { secs: -1, nanos: 0 }.is_valid());
    assert!(!WallTime { secs: 0, nanos: 1_000_000_000 }.is_valid());
}

#[test]
fn lone_network_disagrees_with_itself_on_delete() {
    let mut node = lone();
    node.install(parse_pairs("{\"a\":\"1\"}"));
    let actions = node.receive(CLIENT, command(Some(Command::Delete), "a"), WALL, 0);
    assert_eq!(actions.len(), 2);
    let copy = message_to(&actions[0]).1.clone();
    let answers = node.receive(OWN, copy, WALL, 0);
    let own_answer = message_to(&answers[0]).1.clone();
    assert_eq!(own_answer.content.as_deref(), Some("Key a not found"));
    let done = node.receive(OWN, own_answer, WALL, 0);
    assert_eq!(text_to(&done[0]), (CLIENT, "Error: No consensus reached among nodes"));
}

#[test]
fn put_is_read_back_by_the_next_command() {
    let mut node = lone();
    node.receive(OWN, command(Some(Command::Put), "{\"key\":\"a\",\"value\":\"1\"}"), WALL, 0);
    let actions = node.receive(OWN, command(Some(Command::Get), "a"), WALL, 0);
    assert_eq!(text_to(&actions[0]), (OWN, "Value for key a: 1"));
}

#[test]
fn known_servers_only_grow() {
    let mut node = pair();
    let mut before = node.known_servers().clone();
    for (i, src) in [THIRD, PEER, CLIENT, THIRD, OWN].iter().enumerate() {
        node.receive(src, ping_response_message("x"), WALL, i as u64);
        node.receive(src, command(Some(Command::List), ""), WALL, i as u64);
        node.ping_sent(src, i as u64, i as u64);
        let after = node.known_servers().clone();
        assert_eq!(&after[..before.len()], &before[..]);
        assert_eq!(after[0], OWN);
        before = after;
    }
    assert_eq!(before.len(), 4);
}
