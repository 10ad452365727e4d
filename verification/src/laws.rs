//! What holds of the network as a whole.

use vstd::prelude::*;

use crate::consensus::{decision, decision_exists, unanimity_decides, CollectorView};
use crate::json::{json_map_outcome, json_map_text, json_outcome};
use crate::message::{command_id_of, server_list, Command, MessageRole, MessageView, MsgType};
use crate::model::{
    content_or_empty, forwarded_answer, idle, initial_state, invalid_command, learn, learn_all,
    pending, ping_is_due, pinged, receive_step, send_message, send_text, started, timeout_notice,
    timeout_step, ActionView, NodeView, PING_INTERVAL,
};
use crate::store::{command_answer, command_effect, put_pair};
use crate::text::without;

verus! {

/// Hearing of a server adds to the known servers at the end, and names no server twice.
pub proof fn learning_extends(known: Seq<Seq<char>>, server: Seq<char>)
    requires
        known.no_duplicates(),
    ensures
        learn(known, server).no_duplicates(),
        known.is_prefix_of(learn(known, server)),
        learn(known, server).contains(server),
{
    if !known.contains(server) {
        let after = known.push(server);
        assert(after[known.len() as int] == server);
        assert(known =~= after.subrange(0, known.len() as int));
    } else {
        assert(known =~= known.subrange(0, known.len() as int));
    }
}

/// Hearing of several servers adds to the known servers at the end, and names no server twice.
pub proof fn learning_all_extends(known: Seq<Seq<char>>, servers: Seq<Seq<char>>)
    requires
        known.no_duplicates(),
    ensures
        learn_all(known, servers).no_duplicates(),
        known.is_prefix_of(learn_all(known, servers)),
        forall|server: Seq<char>| #[trigger]
            servers.contains(server) ==> learn_all(known, servers).contains(server),
    decreases servers.len(),
{
    if servers.len() > 0 {
        let rest = servers.drop_last();
        let middle = learn_all(known, rest);
        learning_all_extends(known, rest);
        learning_extends(middle, servers.last());
        let after = learn(middle, servers.last());
        assert(known =~= after.subrange(0, known.len() as int));
        assert forall|server: Seq<char>| #[trigger] servers.contains(server) implies after.contains(
            server,
        ) by {
            let i = choose|i: int| 0 <= i < servers.len() && servers[i] == server;
            if i < rest.len() {
                assert(rest[i] == server);
                assert(rest.contains(server));
                assert(middle.contains(server));
                let j = choose|j: int| 0 <= j < middle.len() && middle[j] == server;
                assert(after[j] == server);
            }
        }
    } else {
        assert(known =~= known.subrange(0, known.len() as int));
    }
}

/// Whatever message arrives, a well-formed node stays well-formed, keeps its own address, and
/// forgets no server.
pub proof fn receiving_keeps_wf(
    node: NodeView,
    src: Seq<char>,
    msg: MessageView,
    timestamp: Seq<char>,
    now: u64,
)
    requires
        node.wf(),
    ensures
        receive_step(node, src, msg, timestamp, now).node.wf(),
        receive_step(node, src, msg, timestamp, now).node.own_address == node.own_address,
        node.known.is_prefix_of(receive_step(node, src, msg, timestamp, now).node.known),
{
    let after = receive_step(node, src, msg, timestamp, now).node;
    learning_extends(node.known, src);
    if msg.servers is Some {
        learning_all_extends(node.known, msg.servers->0);
    }
    assert(node.known.is_prefix_of(node.known)) by {
        assert(node.known =~= node.known.subrange(0, node.known.len() as int));
    }
    assert(after.known[0] == node.known[0]);
    assert forall|id: Seq<char>| #[trigger] after.collectors.contains_key(id) implies pending(
        id,
        after.collectors[id],
    ) by {
        if node.collectors.contains_key(id) && after.collectors[id] == node.collectors[id] {
        } else if msg.role == MessageRole::Command {
            let own = after.collectors[id].responses;
            assert(own.dom() =~= Set::<Seq<char>>::empty().insert("self"@));
        } else {
            let before = node.collectors[id];
            let collector = after.collectors[id];
            assert(collector.responses.dom() =~= before.responses.dom().insert(src));
            decision_exists(collector.responses, collector.required_count);
        }
    }
}

/// When the time for collecting answers is over, a well-formed node stays well-formed.
pub proof fn timeout_keeps_wf(
    node: NodeView,
    id: Seq<char>,
    client: Seq<char>,
    response: Seq<char>,
)
    requires
        node.wf(),
    ensures
        timeout_step(node, id, client, response).node.wf(),
{
    let after = timeout_step(node, id, client, response).node;
    assert forall|other: Seq<char>| #[trigger] after.collectors.contains_key(other) implies pending(
        other,
        after.collectors[other],
    ) by {
        assert(node.collectors.contains_key(other));
    }
}

/// What can happen to a node.
pub enum Event {
    /// A message arrives.
    Message { src: Seq<char>, msg: MessageView, timestamp: Seq<char>, now: u64 },
    /// The time for collecting answers is over.
    Timeout { id: Seq<char>, client: Seq<char>, response: Seq<char> },
    /// A ping went out.
    Pinged { server: Seq<char>, now: u64, seen: u64 },
}

/// The node after an event.
pub open spec fn after_event(node: NodeView, event: Event) -> NodeView {
    match event {
        Event::Message { src, msg, timestamp, now } => receive_step(
            node,
            src,
            msg,
            timestamp,
            now,
        ).node,
        Event::Timeout { id, client, response } => timeout_step(node, id, client, response).node,
        Event::Pinged { server, now, seen } => pinged(node, server, now, seen),
    }
}

/// The node after several events, one after the other.
pub open spec fn after_events(node: NodeView, events: Seq<Event>) -> NodeView
    decreases events.len(),
{
    if events.len() == 0 {
        node
    } else {
        after_event(after_events(node, events.drop_last()), events.last())
    }
}

/// In every state that a node can come to after its start, whatever has happened: it knows
/// itself first, all servers that it knew before in their order, and no server twice, and
/// every collection of answers still waits for one.
pub proof fn every_history_keeps_wf(
    own_address: Seq<char>,
    first_server: Option<Seq<char>>,
    events: Seq<Event>,
)
    ensures
        started(own_address, first_server).wf(),
        after_events(started(own_address, first_server), events).wf(),
        after_events(started(own_address, first_server), events).own_address == own_address,
        started(own_address, first_server).known.is_prefix_of(
            after_events(started(own_address, first_server), events).known,
        ),
    decreases events.len(),
{
    let start = started(own_address, first_server);
    let after = after_events(start, events);
    if events.len() == 0 {
        assert(start.known =~= start.known.subrange(0, start.known.len() as int));
    } else {
        let before = after_events(start, events.drop_last());
        every_history_keeps_wf(own_address, first_server, events.drop_last());
        match events.last() {
            Event::Message { src, msg, timestamp, now } => {
                receiving_keeps_wf(before, src, msg, timestamp, now);
                assert(start.known =~= after.known.subrange(0, start.known.len() as int));
            },
            Event::Timeout { id, client, response } => {
                timeout_keeps_wf(before, id, client, response);
            },
            Event::Pinged { server, now, seen } => {
                assert(after.collectors == before.collectors);
            },
        }
    }
}

/// A list without one text holds the others, and no text twice that was there once.
pub proof fn without_holds_the_others(list: Seq<Seq<char>>, item: Seq<char>)
    ensures
        forall|s: Seq<char>| #[trigger]
            without(list, item).contains(s) <==> list.contains(s) && s != item,
        list.no_duplicates() ==> without(list, item).no_duplicates(),
    decreases list.len(),
{
    reveal(Seq::filter);
    let rest = without(list, item);
    if list.len() > 0 {
        let front = list.drop_last();
        let last = list.last();
        let kept = without(front, item);
        without_holds_the_others(front, item);
        assert(list =~= front.push(last));
        assert forall|s: Seq<char>| #[trigger] rest.contains(s) <==> list.contains(s) && s != item by {
            if rest.contains(s) {
                let i = choose|i: int| 0 <= i < rest.len() && rest[i] == s;
                if i < kept.len() {
                    assert(kept[i] == s);
                    assert(kept.contains(s));
                    let j = choose|j: int| 0 <= j < front.len() && front[j] == s;
                    assert(list[j] == s);
                } else {
                    assert(list[list.len() - 1] == s);
                }
            }
            if list.contains(s) && s != item {
                let j = choose|j: int| 0 <= j < list.len() && list[j] == s;
                if j < front.len() {
                    assert(front[j] == s);
                    assert(front.contains(s));
                    assert(kept.contains(s));
                    let i = choose|i: int| 0 <= i < kept.len() && kept[i] == s;
                    assert(rest[i] == s);
                } else {
                    assert(rest[rest.len() - 1] == s);
                }
            }
        }
        if list.no_duplicates() && last != item {
            assert(!front.contains(last)) by {
                if front.contains(last) {
                    let j = choose|j: int| 0 <= j < front.len() && front[j] == last;
                    assert(list[j] == list[list.len() - 1]);
                }
            }
            assert(!kept.contains(last));
        }
    }
}

/// A list without one text holds the others in their order: each stands at a place of its own
/// in the whole list, and these places go up.
pub proof fn without_keeps_the_order(list: Seq<Seq<char>>, item: Seq<char>) -> (places: Seq<int>)
    ensures
        places.len() == without(list, item).len(),
        forall|i: int|
            0 <= i < places.len() ==> {
                &&& 0 <= #[trigger] places[i] < list.len()
                &&& i > 0 ==> places[i - 1] < places[i]
                &&& without(list, item)[i] == list[places[i]]
            },
    decreases list.len(),
{
    reveal(Seq::filter);
    if list.len() == 0 {
        Seq::empty()
    } else {
        let front = list.drop_last();
        let before = without_keeps_the_order(front, item);
        let kept = without(front, item);
        if list.last() == item {
            assert(without(list, item) =~= kept);
            before
        } else {
            assert(without(list, item) =~= kept.push(list.last()));
            let places = before.push(list.len() - 1);
            assert forall|i: int| 0 <= i < places.len() implies {
                &&& 0 <= #[trigger] places[i] < list.len()
                &&& i > 0 ==> places[i - 1] < places[i]
                &&& without(list, item)[i] == list[places[i]]
            } by {
                if i < before.len() {
                    assert(places[i] == before[i]);
                    if i > 0 {
                        assert(places[i - 1] == before[i - 1]);
                    }
                } else if i > 0 {
                    assert(places[i - 1] == before[i - 1]);
                    assert(before[i - 1] < front.len());
                }
            }
            places
        }
    }
}

/// After a greeting the sender is known, and every known server but the node itself, the
/// sender among them, gets the list that names them all.
pub proof fn greeting_spreads_the_list(
    node: NodeView,
    src: Seq<char>,
    msg: MessageView,
    timestamp: Seq<char>,
    now: u64,
    server: Seq<char>,
)
    requires
        node.wf(),
        msg.msg_type == MsgType::Hello,
    ensures
        ({
            let step = receive_step(node, src, msg, timestamp, now);
            let message = send_message(server, server_list(timestamp, step.node.known));
            &&& step.node.known.contains(src)
            &&& step.actions.contains(message) <==> step.node.known.contains(server) && server
                != node.own_address
        }),
{
    let step = receive_step(node, src, msg, timestamp, now);
    let known = step.node.known;
    let targets = without(known, node.own_address);
    let list = server_list(timestamp, known);
    learning_extends(node.known, src);
    without_holds_the_others(known, node.own_address);
    if targets.contains(server) {
        let i = choose|i: int| 0 <= i < targets.len() && targets[i] == server;
        assert(step.actions[i] == send_message(server, list));
    }
    if step.actions.contains(send_message(server, list)) {
        let i = choose|i: int|
            0 <= i < step.actions.len() && step.actions[i] == send_message(server, list);
        assert(step.actions[i] == send_message(targets[i], list));
        assert(targets[i] == server);
    }
}

/// A server whose list is received makes all its servers known.
pub proof fn received_list_is_learned(
    node: NodeView,
    src: Seq<char>,
    msg: MessageView,
    timestamp: Seq<char>,
    now: u64,
    server: Seq<char>,
)
    requires
        node.wf(),
        msg.msg_type == MsgType::ServerList,
        msg.servers is Some,
        msg.servers->0.contains(server),
    ensures
        receive_step(node, src, msg, timestamp, now).node.known.contains(server),
{
    learning_all_extends(node.known, msg.servers->0);
}

/// A server that joins gets the stored pairs: a node that receives them stores the same pairs.
/// That the text of the pairs can be read back is what `serde_json` does.
pub proof fn joining_transfers_the_pairs(
    node: NodeView,
    src: Seq<char>,
    msg: MessageView,
    timestamp: Seq<char>,
    now: u64,
    joined: NodeView,
    from: Seq<char>,
    later: Seq<char>,
    then: u64,
)
    requires
        msg.msg_type == MsgType::Normal,
        msg.role == MessageRole::Join,
        !node.known.contains(src),
        json_map_outcome(json_map_text(node.data)) is Ok,
        json_map_outcome(json_map_text(node.data))->Ok_0 == node.data,
    ensures
        ({
            let message = initial_state(timestamp, node.data);
            &&& receive_step(node, src, msg, timestamp, now).actions.contains(
                send_message(src, message),
            )
            &&& receive_step(joined, from, message, later, then).node.data == node.data
        }),
{
    let actions = receive_step(node, src, msg, timestamp, now).actions;
    assert(actions[1] == send_message(src, initial_state(timestamp, node.data)));
}

/// The stored pairs change only by a command to put or delete, and by the pairs of another
/// node.
pub proof fn other_messages_keep_the_pairs(
    node: NodeView,
    src: Seq<char>,
    msg: MessageView,
    timestamp: Seq<char>,
    now: u64,
)
    requires
        msg.msg_type != MsgType::InitialState,
        !(msg.msg_type == MsgType::Normal && msg.role == MessageRole::Command && (msg.command
            == Some(Command::Put) || msg.command == Some(Command::Delete))),
    ensures
        receive_step(node, src, msg, timestamp, now).node.data == node.data,
{
}

/// A put that names a pair, from a client or forwarded, stores it; whoever asks the node for
/// the key next gets the value back.
pub proof fn put_is_read_back(
    node: NodeView,
    src: Seq<char>,
    msg: MessageView,
    timestamp: Seq<char>,
    now: u64,
    key: Seq<char>,
    value: Seq<char>,
)
    requires
        msg.msg_type == MsgType::Normal,
        msg.role == MessageRole::Command,
        msg.command == Some(Command::Put),
        json_outcome(content_or_empty(msg)) is Ok,
        put_pair(json_outcome(content_or_empty(msg))->Ok_0) == Some((key, value)),
    ensures
        ({
            let after = receive_step(node, src, msg, timestamp, now).node;
            &&& after.data == node.data.insert(key, value)
            &&& command_answer(Command::Get, after.data, key) == "Value for key "@ + key + ": "@
                + value
        }),
{
}

/// A command message that names no command is refused: the sender is told so, and nothing
/// else happens.
pub proof fn command_without_name_is_refused(
    node: NodeView,
    src: Seq<char>,
    msg: MessageView,
    timestamp: Seq<char>,
    now: u64,
)
    requires
        msg.msg_type == MsgType::Normal,
        msg.role == MessageRole::Command,
        msg.command is None,
        !msg.forwarded,
    ensures
        receive_step(node, src, msg, timestamp, now).node == node,
        receive_step(node, src, msg, timestamp, now).actions == seq![
            send_message(src, invalid_command(msg, timestamp)),
        ],
        invalid_command(msg, timestamp).content == Some("Error: Invalid command format"@),
{
}

/// A node that knows no server but the sender of a command answers at once.
pub proof fn lone_node_answers_at_once(
    node: NodeView,
    src: Seq<char>,
    msg: MessageView,
    command: Command,
    timestamp: Seq<char>,
    now: u64,
)
    requires
        msg.msg_type == MsgType::Normal,
        msg.role == MessageRole::Command,
        msg.command == Some(command),
        !msg.forwarded,
        forall|server: Seq<char>| #[trigger] node.known.contains(server) ==> server == src,
    ensures
        receive_step(node, src, msg, timestamp, now).actions == seq![
            send_text(src, command_answer(command, node.data, content_or_empty(msg))),
        ],
        receive_step(node, src, msg, timestamp, now).node.collectors == node.collectors,
{
    without_holds_the_others(node.known, src);
    let targets = without(node.known, src);
    if targets.len() > 0 {
        assert(targets.contains(targets[0]));
    }
}

/// A node that receives a forwarded command carries it out and answers the node that forwarded
/// it. The answer belongs to the same collection as the client's own message.
pub proof fn forwarded_command_is_answered(
    node: NodeView,
    from: Seq<char>,
    msg: MessageView,
    command: Command,
    timestamp: Seq<char>,
    now: u64,
)
    requires
        msg.msg_type == MsgType::Normal,
        msg.role == MessageRole::Command,
        msg.command == Some(command),
    ensures
        ({
            let copy = MessageView { forwarded: true, ..msg };
            let content = content_or_empty(msg);
            let step = receive_step(node, from, copy, timestamp, now);
            let answer = forwarded_answer(msg, command_answer(command, node.data, content));
            &&& step.actions == seq![send_message(from, answer)]
            &&& step.node.data == command_effect(command, node.data, content)
            &&& answer.msg_type == MsgType::Normal
            &&& answer.role == MessageRole::Response
            &&& answer.command == Some(command)
            &&& command_id_of(answer.timestamp, command) == command_id_of(msg.timestamp, command)
        }),
{
}

/// Nodes that store the same pairs go on to store the same pairs: one that gets a command from
/// a client, and one that gets the copy that the first forwards. The second answers the first
/// with the answer that the first has given itself.
pub proof fn replicas_stay_equal(
    first: NodeView,
    second: NodeView,
    client: Seq<char>,
    from: Seq<char>,
    msg: MessageView,
    command: Command,
    timestamp: Seq<char>,
    now: u64,
    later: Seq<char>,
    then: u64,
)
    requires
        first.data == second.data,
        msg.msg_type == MsgType::Normal,
        msg.role == MessageRole::Command,
        msg.command == Some(command),
        !msg.forwarded,
    ensures
        ({
            let copy = MessageView { forwarded: true, ..msg };
            let response = command_answer(command, first.data, content_or_empty(msg));
            let second_step = receive_step(second, from, copy, later, then);
            &&& receive_step(first, client, msg, timestamp, now).node.data == second_step.node.data
            &&& second_step.actions == seq![send_message(from, forwarded_answer(msg, response))]
        }),
{
}

/// An answer to a command that is not, or no longer, being collected is ignored, and so is
/// the end of the time for collecting.
pub proof fn ended_collection_is_silent(
    node: NodeView,
    src: Seq<char>,
    msg: MessageView,
    command: Command,
    timestamp: Seq<char>,
    now: u64,
    client: Seq<char>,
    response: Seq<char>,
)
    requires
        msg.msg_type == MsgType::Normal,
        msg.role == MessageRole::Response,
        msg.command == Some(command),
        !node.collectors.contains_key(command_id_of(msg.timestamp, command)),
    ensures
        receive_step(node, src, msg, timestamp, now) == idle(node),
        timeout_step(node, command_id_of(msg.timestamp, command), client, response) == idle(node),
{
}

/// A client gets one answer: whichever comes first of a decision and the end of the time for
/// collecting, it sends one text and ends the collection.
pub proof fn one_answer_ends_the_collection(
    node: NodeView,
    src: Seq<char>,
    msg: MessageView,
    command: Command,
    timestamp: Seq<char>,
    now: u64,
    client: Seq<char>,
    response: Seq<char>,
)
    requires
        node.wf(),
        msg.msg_type == MsgType::Normal,
        msg.role == MessageRole::Response,
        msg.command == Some(command),
        node.collectors.contains_key(command_id_of(msg.timestamp, command)),
    ensures
        ({
            let id = command_id_of(msg.timestamp, command);
            let answered = receive_step(node, src, msg, timestamp, now);
            let expired = timeout_step(node, id, client, response);
            &&& answered.node.collectors.contains_key(id) ==> answered.actions.len() == 0
            &&& !answered.node.collectors.contains_key(id) ==> answered.actions.len() == 1
                && answered.actions[0]->to == node.collectors[id].client_addr
            &&& !expired.node.collectors.contains_key(id)
            &&& expired.actions == seq![send_text(client, timeout_notice(response))]
        }),
{
}

/// The node after the same answer came from several servers, one after the other.
pub open spec fn after_answers(
    node: NodeView,
    servers: Seq<Seq<char>>,
    answer: MessageView,
    timestamp: Seq<char>,
    now: u64,
) -> NodeView
    decreases servers.len(),
{
    if servers.len() == 0 {
        node
    } else {
        receive_step(
            after_answers(node, servers.drop_last(), answer, timestamp, now),
            servers.last(),
            answer,
            timestamp,
            now,
        ).node
    }
}

/// The answers of the node itself and of some servers, all the same.
spec fn agreeing(servers: Seq<Seq<char>>, response: Seq<char>) -> Map<Seq<char>, Seq<char>> {
    Map::new(|s: Seq<char>| s == "self"@ || servers.contains(s), |s: Seq<char>| response)
}

proof fn agreeing_len(servers: Seq<Seq<char>>, response: Seq<char>)
    requires
        servers.no_duplicates(),
        !servers.contains("self"@),
    ensures
        agreeing(servers, response).dom().finite(),
        agreeing(servers, response).dom().len() == servers.len() + 1,
{
    servers.unique_seq_to_set();
    assert(agreeing(servers, response).dom() =~= servers.to_set().insert("self"@));
    assert(!servers.to_set().contains("self"@));
}

/// The collection while agreeing answers come in.
proof fn agreeing_answers_are_collected(
    opened: NodeView,
    id: Seq<char>,
    servers: Seq<Seq<char>>,
    answer: MessageView,
    command: Command,
    response: Seq<char>,
    timestamp: Seq<char>,
    now: u64,
)
    requires
        answer.msg_type == MsgType::Normal,
        answer.role == MessageRole::Response,
        answer.command == Some(command),
        answer.content == Some(response),
        command_id_of(answer.timestamp, command) == id,
        opened.collectors.contains_key(id),
        opened.collectors[id].responses == agreeing(Seq::empty(), response),
        servers.no_duplicates(),
        !servers.contains("self"@),
        servers.len() + 1 < opened.collectors[id].required_count,
    ensures
        after_answers(opened, servers, answer, timestamp, now) == (NodeView {
            collectors: opened.collectors.insert(
                id,
                CollectorView {
                    responses: agreeing(servers, response),
                    ..opened.collectors[id]
                },
            ),
            ..opened
        }),
    decreases servers.len(),
{
    let after = after_answers(opened, servers, answer, timestamp, now);
    let required = opened.collectors[id].required_count;
    if servers.len() == 0 {
        assert(servers =~= Seq::<Seq<char>>::empty());
        assert(after.collectors =~= opened.collectors.insert(
            id,
            CollectorView { responses: agreeing(servers, response), ..opened.collectors[id] },
        ));
    } else {
        let front = servers.drop_last();
        let last = servers.last();
        assert(!front.contains("self"@)) by {
            if front.contains("self"@) {
                let i = choose|i: int| 0 <= i < front.len() && front[i] == "self"@;
                assert(servers[i] == "self"@);
            }
        }
        agreeing_answers_are_collected(
            opened,
            id,
            front,
            answer,
            command,
            response,
            timestamp,
            now,
        );
        agreeing_grows(front, last, response);
        assert(servers =~= front.push(last));
        agreeing_len(servers, response);
        decision_exists(agreeing(servers, response), required);
        assert(after.collectors =~= opened.collectors.insert(
            id,
            CollectorView { responses: agreeing(servers, response), ..opened.collectors[id] },
        ));
    }
}

/// One more agreeing answer.
proof fn agreeing_grows(servers: Seq<Seq<char>>, last: Seq<char>, response: Seq<char>)
    ensures
        agreeing(servers, response).insert(last, response) == agreeing(servers.push(last), response),
{
    let more = servers.push(last);
    assert forall|s: Seq<char>| more.contains(s) <==> servers.contains(s) || s == last by {
        if servers.contains(s) {
            let i = choose|i: int| 0 <= i < servers.len() && servers[i] == s;
            assert(more[i] == s);
        }
        if s == last {
            assert(more[servers.len() as int] == s);
        }
        if more.contains(s) && s != last {
            let i = choose|i: int| 0 <= i < more.len() && more[i] == s;
            assert(servers[i] == s);
        }
    }
    assert(agreeing(servers, response).insert(last, response) =~= agreeing(more, response));
}

/// Where all servers that a command was forwarded to give the answer that the node itself has
/// given, in whatever order they do, the client hears nothing until the last of them has
/// answered, and then gets that answer.
pub proof fn agreeing_nodes_answer_the_client(
    node: NodeView,
    client: Seq<char>,
    msg: MessageView,
    command: Command,
    timestamp: Seq<char>,
    now: u64,
    order: Seq<Seq<char>>,
    later: Seq<char>,
    then: u64,
    k: int,
)
    requires
        node.wf(),
        !node.known.contains("self"@),
        msg.msg_type == MsgType::Normal,
        msg.role == MessageRole::Command,
        msg.command == Some(command),
        !msg.forwarded,
        order.no_duplicates(),
        order.to_set() == without(node.known, client).to_set(),
        0 <= k < order.len(),
    ensures
        ({
            let response = command_answer(command, node.data, content_or_empty(msg));
            let answer = forwarded_answer(msg, response);
            let opened = receive_step(node, client, msg, timestamp, now).node;
            let waiting = after_answers(opened, order.take(k), answer, later, then);
            let actions = receive_step(waiting, order[k], answer, later, then).actions;
            &&& k + 1 < order.len() ==> actions == Seq::<ActionView>::empty()
            &&& k + 1 == order.len() ==> actions == seq![send_text(client, response)]
        }),
{
    let targets = without(node.known, client);
    without_holds_the_others(node.known, client);
    order.unique_seq_to_set();
    targets.unique_seq_to_set();
    assert(order.len() == targets.len());
    let content = content_or_empty(msg);
    let response = command_answer(command, node.data, content);
    let answer = forwarded_answer(msg, response);
    let opened = receive_step(node, client, msg, timestamp, now).node;
    let id = command_id_of(msg.timestamp, command);
    assert(opened.collectors[id].responses =~= agreeing(Seq::empty(), response));
    assert(!order.contains("self"@)) by {
        if order.contains("self"@) {
            assert(order.to_set().contains("self"@));
            assert(targets.contains("self"@));
        }
    }
    let before = order.take(k);
    let upto = before.push(order[k]);
    assert(upto =~= order.take(k + 1));
    assert forall|n: int| 0 <= n <= order.len() implies !(#[trigger] order.take(n)).contains(
        "self"@,
    ) by {
        if order.take(n).contains("self"@) {
            let i = choose|i: int| 0 <= i < n && order.take(n)[i] == "self"@;
            assert(order[i] == "self"@);
        }
    }
    agreeing_answers_are_collected(opened, id, before, answer, command, response, later, then);
    agreeing_grows(before, order[k], response);
    agreeing_len(upto, response);
    let all = agreeing(upto, response);
    let required = opened.collectors[id].required_count;
    decision_exists(all, required);
    if k + 1 == order.len() {
        unanimity_decides(all, required, response, decision(all, required));
    }
}

/// A node never pings itself. Once it has pinged a server, it pings it again exactly when the
/// interval is over, and the times of other servers do not change.
pub proof fn pings_keep_their_distance(
    node: NodeView,
    server: Seq<char>,
    now: u64,
    seen: u64,
    later: u64,
    checked: u64,
    other: Seq<char>,
)
    requires
        server != node.own_address,
        other != server,
    ensures
        !ping_is_due(node, node.own_address, later, checked),
        ping_is_due(pinged(node, server, now, seen), server, later, checked) <==> later - now
            >= PING_INTERVAL,
        ping_is_due(pinged(node, server, now, seen), other, later, checked) <==> ping_is_due(
            node,
            other,
            later,
            checked,
        ),
{
}

} // verus!
