//! The behaviour of a node: what every event does to its state, and what it sends.

use vstd::prelude::*;

use crate::consensus::{decision, CollectorView};
use crate::json::{json_list_text, json_map_outcome, json_map_text};
use crate::message::{
    bare_message, command_id_of, content_message, server_list, Command, MessageRole, MessageView,
    MsgType,
};
use crate::store::{command_answer, command_effect, Pairs};
use crate::text::without;

verus! {

/// Pings exchanged with a server.
#[derive(Clone, Copy, Debug, PartialEq, Eq, Structural)]
pub struct PingStats {
    /// How many pings were sent to it.
    pub sent: u32,
    /// How many pings came from it.
    pub received: u32,
    /// When it was last heard of, in nanoseconds of the node's clock.
    pub last_seen: u64,
}

impl View for PingStats {
    type V = PingStats;

    open spec fn view(&self) -> PingStats {
        *self
    }
}

/// The state of a node.
#[verifier::ext_equal]
pub struct NodeView {
    /// The address that the node listens on.
    pub own_address: Seq<char>,
    /// The servers that it knows, itself first, in the order in which it heard of them.
    pub known: Seq<Seq<char>>,
    /// The stored pairs.
    pub data: Pairs,
    /// The commands whose answers are being collected, by their identifiers.
    pub collectors: Map<Seq<char>, CollectorView>,
    /// Pings by server.
    pub stats: Map<Seq<char>, PingStats>,
    /// When each server was last pinged.
    pub last_pings: Map<Seq<char>, u64>,
}

/// What goes out in a datagram: a message, or a plain text for a client.
#[verifier::ext_equal]
pub enum PayloadView {
    Message(MessageView),
    Text(Seq<char>),
}

/// What a node wants done.
#[verifier::ext_equal]
pub enum ActionView {
    /// Send a datagram.
    Send { to: Seq<char>, payload: PayloadView },
    /// Call back when the time for collecting answers is over.
    StartTimer { command_id: Seq<char>, client: Seq<char>, response: Seq<char> },
}

/// A collection that is under way: its own identifier, at least one more answer missing, and
/// more than the node's own answer required.
pub open spec fn pending(id: Seq<char>, collector: CollectorView) -> bool {
    &&& collector.command_id == id
    &&& collector.required_count >= 2
    &&& collector.responses.dom().finite()
    &&& collector.responses.dom().len() < collector.required_count
}

impl NodeView {
    /// The node knows itself first and no server twice, and every collection is under way.
    pub open spec fn wf(self) -> bool {
        &&& self.known.len() > 0
        &&& self.known[0] == self.own_address
        &&& self.known.no_duplicates()
        &&& forall|id: Seq<char>| #[trigger]
            self.collectors.contains_key(id) ==> pending(id, self.collectors[id])
    }
}

/// The known servers after hearing of one.
pub open spec fn learn(known: Seq<Seq<char>>, server: Seq<char>) -> Seq<Seq<char>> {
    if known.contains(server) {
        known
    } else {
        known.push(server)
    }
}

/// The known servers after hearing of several.
pub open spec fn learn_all(known: Seq<Seq<char>>, servers: Seq<Seq<char>>) -> Seq<Seq<char>>
    decreases servers.len(),
{
    if servers.len() == 0 {
        known
    } else {
        learn(learn_all(known, servers.drop_last()), servers.last())
    }
}

/// A datagram with a message.
pub open spec fn send_message(to: Seq<char>, message: MessageView) -> ActionView {
    ActionView::Send { to, payload: PayloadView::Message(message) }
}

/// A datagram with a text.
pub open spec fn send_text(to: Seq<char>, text: Seq<char>) -> ActionView {
    ActionView::Send { to, payload: PayloadView::Text(text) }
}

/// The same message to each of several servers, in their order.
pub open spec fn send_each(targets: Seq<Seq<char>>, message: MessageView) -> Seq<ActionView> {
    targets.map_values(|to: Seq<char>| send_message(to, message))
}

/// The state after an event, and what is to be done.
#[verifier::ext_equal]
pub struct Step {
    pub node: NodeView,
    pub actions: Seq<ActionView>,
}

/// A step that changes nothing and asks for nothing.
pub open spec fn idle(node: NodeView) -> Step {
    Step { node, actions: Seq::empty() }
}

/// A greeting: the sender becomes known, and all known servers but the node itself get the
/// list of known servers.
pub open spec fn hello_step(node: NodeView, src: Seq<char>, timestamp: Seq<char>) -> Step {
    let known = learn(node.known, src);
    Step {
        node: NodeView { known, ..node },
        actions: send_each(without(known, node.own_address), server_list(timestamp, known)),
    }
}

/// A list of servers: all of them become known.
pub open spec fn server_list_step(node: NodeView, servers: Option<Seq<Seq<char>>>) -> Step {
    match servers {
        Some(servers) => idle(NodeView { known: learn_all(node.known, servers), ..node }),
        None => idle(node),
    }
}

/// The ping statistics of a server, before anything was counted.
pub open spec fn stats_of(node: NodeView, server: Seq<char>, now: u64) -> PingStats {
    if node.stats.contains_key(server) {
        node.stats[server]
    } else {
        PingStats { sent: 0, received: 0, last_seen: now }
    }
}

/// A ping: it is counted and answered.
pub open spec fn ping_step(
    node: NodeView,
    src: Seq<char>,
    timestamp: Seq<char>,
    now: u64,
) -> Step {
    let before = stats_of(node, src, now);
    let counted = PingStats {
        sent: before.sent,
        received: (before.received + 1) as u32,
        last_seen: now,
    };
    Step {
        node: NodeView { stats: node.stats.insert(src, counted), ..node },
        actions: seq![
            send_message(
                src,
                bare_message(MsgType::PingResponse, MessageRole::Response, timestamp),
            ),
        ],
    }
}

/// The answer to a server that joins: the known servers, itself among them.
pub open spec fn current_servers(msg: MessageView, known: Seq<Seq<char>>) -> MessageView {
    content_message(
        MsgType::Normal,
        MessageRole::CurrentServers,
        msg.serial_number,
        msg.timestamp,
        json_list_text(known),
    )
}

/// The stored pairs, as they go to a server that joins.
pub open spec fn initial_state(timestamp: Seq<char>, data: Pairs) -> MessageView {
    content_message(
        MsgType::InitialState,
        MessageRole::Response,
        Some(1u32),
        timestamp,
        json_map_text(data),
    )
}

/// A request to join: a sender that is not known yet becomes known, and gets the known servers
/// and the stored pairs.
pub open spec fn join_step(
    node: NodeView,
    src: Seq<char>,
    msg: MessageView,
    timestamp: Seq<char>,
) -> Step {
    if node.known.contains(src) {
        idle(node)
    } else {
        let known = node.known.push(src);
        Step {
            node: NodeView { known, ..node },
            actions: seq![
                send_message(src, current_servers(msg, known)),
                send_message(src, initial_state(timestamp, node.data)),
            ],
        }
    }
}

/// The content of a message, empty where it has none.
pub open spec fn content_or_empty(msg: MessageView) -> Seq<char> {
    match msg.content {
        Some(content) => content,
        None => Seq::empty(),
    }
}

/// The collection of answers to a command, with the node's own answer.
pub open spec fn opened_collector(
    id: Seq<char>,
    required_count: nat,
    client: Seq<char>,
    now: u64,
    response: Seq<char>,
) -> CollectorView {
    CollectorView {
        responses: Map::<Seq<char>, Seq<char>>::empty().insert("self"@, response),
        command_id: id,
        required_count,
        client_addr: client,
        created_at: now,
    }
}

/// A client's command: the node carries it out. Where it knows other servers than the sender,
/// itself among them, it forwards the command to them and collects their answers, for a
/// limited time; otherwise it answers at once.
pub open spec fn client_command_step(
    node: NodeView,
    src: Seq<char>,
    msg: MessageView,
    command: Command,
    now: u64,
) -> Step {
    let content = content_or_empty(msg);
    let response = command_answer(command, node.data, content);
    let data = command_effect(command, node.data, content);
    let targets = without(node.known, src);
    if targets.len() > 0 {
        let id = command_id_of(msg.timestamp, command);
        let collector = opened_collector(id, targets.len() + 1, src, now, response);
        Step {
            node: NodeView { data, collectors: node.collectors.insert(id, collector), ..node },
            actions: send_each(targets, MessageView { forwarded: true, ..msg }).push(
                ActionView::StartTimer { command_id: id, client: src, response },
            ),
        }
    } else {
        Step { node: NodeView { data, ..node }, actions: seq![send_text(src, response)] }
    }
}

/// The refusal of a command message without a command.
pub open spec fn invalid_command(msg: MessageView, timestamp: Seq<char>) -> MessageView {
    content_message(
        MsgType::Normal,
        MessageRole::Response,
        msg.serial_number,
        timestamp,
        "Error: Invalid command format"@,
    )
}

/// The answer to a forwarded command.
pub open spec fn forwarded_answer(msg: MessageView, response: Seq<char>) -> MessageView {
    MessageView {
        msg_type: MsgType::Normal,
        serial_number: msg.serial_number,
        timestamp: msg.timestamp,
        content: Some(response),
        command: msg.command,
        servers: None,
        forwarded: true,
        role: MessageRole::Response,
    }
}

/// A message with the role of a command.
pub open spec fn command_step(
    node: NodeView,
    src: Seq<char>,
    msg: MessageView,
    timestamp: Seq<char>,
    now: u64,
) -> Step {
    match msg.command {
        Some(command) => if msg.forwarded {
            let content = content_or_empty(msg);
            let response = command_answer(command, node.data, content);
            Step {
                node: NodeView { data: command_effect(command, node.data, content), ..node },
                actions: seq![send_message(src, forwarded_answer(msg, response))],
            }
        } else {
            client_command_step(node, src, msg, command, now)
        },
        None => if msg.forwarded {
            idle(node)
        } else {
            Step { node, actions: seq![send_message(src, invalid_command(msg, timestamp))] }
        },
    }
}

/// An answer to a command whose answers are being collected: it is added, and once that
/// decides, the client gets the outcome and the collection ends.
pub open spec fn response_step(node: NodeView, src: Seq<char>, msg: MessageView) -> Step {
    match (msg.content, msg.command) {
        (Some(content), Some(command)) => {
            let id = command_id_of(msg.timestamp, command);
            if node.collectors.contains_key(id) {
                let before = node.collectors[id];
                let collector = CollectorView {
                    responses: before.responses.insert(src, content),
                    ..before
                };
                match decision(collector.responses, collector.required_count) {
                    Some(outcome) => Step {
                        node: NodeView { collectors: node.collectors.remove(id), ..node },
                        actions: seq![send_text(before.client_addr, outcome)],
                    },
                    None => idle(
                        NodeView { collectors: node.collectors.insert(id, collector), ..node },
                    ),
                }
            } else {
                idle(node)
            }
        },
        _ => idle(node),
    }
}

/// The pairs of a node that was handed the pairs of another: these, where they could be read.
pub open spec fn installed(data: Pairs, outcome: Result<Pairs, Seq<char>>) -> Pairs {
    match outcome {
        Ok(pairs) => pairs,
        Err(_) => data,
    }
}

/// The stored pairs of another node: they take the place of the node's own, where they can be
/// read.
pub open spec fn initial_state_step(node: NodeView, msg: MessageView) -> Step {
    match msg.content {
        Some(content) => idle(
            NodeView { data: installed(node.data, json_map_outcome(content)), ..node },
        ),
        None => idle(node),
    }
}

/// A message arrives: `src` is the sender's address, `timestamp` that of the moment, and `now`
/// the node's clock in nanoseconds.
pub open spec fn receive_step(
    node: NodeView,
    src: Seq<char>,
    msg: MessageView,
    timestamp: Seq<char>,
    now: u64,
) -> Step {
    match msg.msg_type {
        MsgType::Hello => hello_step(node, src, timestamp),
        MsgType::ServerList => server_list_step(node, msg.servers),
        MsgType::Ping => ping_step(node, src, timestamp, now),
        MsgType::Normal => match msg.role {
            MessageRole::Join => join_step(node, src, msg, timestamp),
            MessageRole::Command => command_step(node, src, msg, timestamp, now),
            MessageRole::Response => response_step(node, src, msg),
            MessageRole::CurrentServers => idle(node),
        },
        MsgType::InitialState => initial_state_step(node, msg),
        MsgType::PingResponse => idle(NodeView { known: learn(node.known, src), ..node }),
    }
}

/// The numbers that the arrival of a message counts up have room: the pings from a server are
/// counted in a `u32`, and the answers that a command needs in a `usize`.
pub open spec fn receivable(node: NodeView, src: Seq<char>, msg: MessageView) -> bool {
    &&& msg.msg_type == MsgType::Ping && node.stats.contains_key(src) ==> node.stats[src].received
        < u32::MAX
    &&& node.known.len() < usize::MAX
}

/// What the client is told when not all servers answered in time.
pub open spec fn timeout_notice(response: Seq<char>) -> Seq<char> {
    "Warning: Not all nodes responded. Using local response: "@ + response
}

/// The time for collecting answers is over: if the collection has not ended, it ends, and the
/// client gets the node's own answer.
pub open spec fn timeout_step(
    node: NodeView,
    id: Seq<char>,
    client: Seq<char>,
    response: Seq<char>,
) -> Step {
    if node.collectors.contains_key(id) {
        Step {
            node: NodeView { collectors: node.collectors.remove(id), ..node },
            actions: seq![send_text(client, timeout_notice(response))],
        }
    } else {
        idle(node)
    }
}

/// How long answers to a command are collected, in seconds.
pub const COLLECT_SECONDS: u64 = 5;

/// The time between two pings to a server, in nanoseconds.
pub const PING_INTERVAL: u64 = 1_000_000_000;

/// Whether a server is to be pinged in a round that began at `now`, judged at the time
/// `checked`: never the node itself; a server that was pinged before once the interval is
/// over; any other at once, unless the round itself has taken longer than the interval.
pub open spec fn ping_is_due(node: NodeView, server: Seq<char>, now: u64, checked: u64) -> bool {
    &&& server != node.own_address
    &&& if node.last_pings.contains_key(server) {
        now - node.last_pings[server] >= PING_INTERVAL
    } else {
        checked - now <= PING_INTERVAL
    }
}

/// A ping went out to a server in a round that began at `now`; `seen` is the time of the
/// moment.
pub open spec fn pinged(node: NodeView, server: Seq<char>, now: u64, seen: u64) -> NodeView {
    let before = stats_of(node, server, seen);
    let counted = PingStats { sent: (before.sent + 1) as u32, ..before };
    NodeView {
        stats: node.stats.insert(server, counted),
        last_pings: node.last_pings.insert(server, now),
        ..node
    }
}

/// A node that starts: it knows itself, and the first server where one is given.
pub open spec fn started(own_address: Seq<char>, first_server: Option<Seq<char>>) -> NodeView {
    NodeView {
        own_address,
        known: match first_server {
            Some(server) => learn(seq![own_address], server),
            None => seq![own_address],
        },
        data: Map::empty(),
        collectors: Map::empty(),
        stats: Map::empty(),
        last_pings: Map::empty(),
    }
}

/// What a starting node sends: a greeting to the first server where one is given.
pub open spec fn greeting(first_server: Option<Seq<char>>, timestamp: Seq<char>) -> Seq<
    ActionView,
> {
    match first_server {
        Some(server) => seq![
            send_message(server, bare_message(MsgType::Hello, MessageRole::Command, timestamp)),
        ],
        None => Seq::empty(),
    }
}

/// Answers are collected for five seconds.
pub proof fn collecting_takes_five_seconds()
    ensures
        COLLECT_SECONDS == 5,
{
}

} // verus!
