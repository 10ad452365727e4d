//! What each event does to a node, as its peers and its clients see it.

use vstd::prelude::*;

use crate::client::{
    key_goes_out_unchanged, message_for, pair_goes_out_unchanged, requests_are_command_messages,
};
use crate::consensus::{
    decision, decision_exists, disagreement_is_reported, more_than_half_decide, votes,
};
use crate::json::{
    json_list_text, json_map_outcome, json_map_text, json_outcome, json_pair_text, MembersView,
};
use crate::laws::{without_holds_the_others, without_keeps_the_order};
use crate::message::{
    command_id_is_readable, command_id_of, Command, MessageRole, MessageView, MsgType,
};
use crate::model::{
    greeting, learn_all, ping_is_due, pinged, receivable, receive_step, send_each, started,
    timeout_step, ActionView, NodeView, PayloadView,
};
use crate::store::{answers_to_a_key, command_answer, command_effect, put_stores_the_named_pair};
use crate::text::without;

verus! {

/// The message asks a node to carry out a command on the stored pairs, with `content` as what
/// the command is about: the content of the message, and nothing where it has none.
pub open spec fn asks_for(msg: MessageView, command: Command, content: Seq<char>) -> bool {
    &&& msg.msg_type == MsgType::Normal
    &&& msg.role == MessageRole::Command
    &&& msg.command == Some(command)
    &&& msg.content == Some(content) || (msg.content is None && content.len() == 0)
}

/// A client's command goes to every server that the node knows, but for the sender of the
/// command, and to no other: each gets the client's message, marked as forwarded.
pub proof fn command_is_forwarded_to_all(
    node: NodeView,
    src: Seq<char>,
    msg: MessageView,
    command: Command,
    content: Seq<char>,
    timestamp: Seq<char>,
    now: u64,
    server: Seq<char>,
)
    requires
        asks_for(msg, command, content),
        !msg.forwarded,
    ensures
        receive_step(node, src, msg, timestamp, now).actions.contains(
            (ActionView::Send {
                to: server,
                payload: PayloadView::Message(MessageView { forwarded: true, ..msg }),
            }),
        ) <==> node.known.contains(server) && server != src,
{
    let actions = receive_step(node, src, msg, timestamp, now).actions;
    let copy = MessageView { forwarded: true, ..msg };
    let send = ActionView::Send { to: server, payload: PayloadView::Message(copy) };
    let targets = without(node.known, src);
    without_holds_the_others(node.known, src);
    if targets.contains(server) {
        let i = choose|i: int| 0 <= i < targets.len() && targets[i] == server;
        assert(actions[i] == send);
    }
    if actions.contains(send) {
        let i = choose|i: int| 0 <= i < actions.len() && actions[i] == send;
        if targets.len() > 0 {
            assert(i < targets.len());
            assert(targets[i] == server);
        }
        assert(targets.contains(server));
    }
}

/// Where a client's command is forwarded, each server gets it once, in the order in which the
/// node heard of them: the n-th copy goes to the server at the n-th of some places in the list
/// of known servers, and these places go up. After the copies comes the timer, and nothing else.
pub proof fn command_is_forwarded_in_order(
    node: NodeView,
    src: Seq<char>,
    msg: MessageView,
    command: Command,
    content: Seq<char>,
    timestamp: Seq<char>,
    now: u64,
    other: Seq<char>,
)
    requires
        asks_for(msg, command, content),
        !msg.forwarded,
        node.known.contains(other),
        other != src,
    ensures
        ({
            let actions = receive_step(node, src, msg, timestamp, now).actions;
            &&& actions.len() >= 2
            &&& actions.last() is StartTimer
            &&& exists|places: Seq<int>| #[trigger]
                places.len() == actions.len() - 1 && forall|i: int|
                    0 <= i < places.len() ==> {
                        &&& 0 <= #[trigger] places[i] < node.known.len()
                        &&& i > 0 ==> places[i - 1] < places[i]
                        &&& actions[i] == (ActionView::Send {
                            to: node.known[places[i]],
                            payload: PayloadView::Message(MessageView { forwarded: true, ..msg }),
                        })
                    }
        }),
{
    let actions = receive_step(node, src, msg, timestamp, now).actions;
    let targets = without(node.known, src);
    without_holds_the_others(node.known, src);
    assert(targets.contains(other));
    let places = without_keeps_the_order(node.known, src);
    assert(actions.len() == targets.len() + 1);
    assert forall|i: int| 0 <= i < places.len() implies {
        &&& 0 <= #[trigger] places[i] < node.known.len()
        &&& i > 0 ==> places[i - 1] < places[i]
        &&& actions[i] == (ActionView::Send {
            to: node.known[places[i]],
            payload: PayloadView::Message(MessageView { forwarded: true, ..msg }),
        })
    } by {
        assert(targets[i] == node.known[places[i]]);
        if i > 0 {
            assert(targets[i - 1] == node.known[places[i - 1]]);
        }
    }
}

/// Where a client's command is forwarded, as many copies go out as there are other servers,
/// and one more answer than that is collected: the node's own counts.
pub proof fn command_waits_for_all(
    node: NodeView,
    src: Seq<char>,
    msg: MessageView,
    command: Command,
    content: Seq<char>,
    timestamp: Seq<char>,
    now: u64,
    others: Set<Seq<char>>,
)
    requires
        asks_for(msg, command, content),
        !msg.forwarded,
        node.known.no_duplicates(),
        forall|server: Seq<char>| #[trigger]
            others.contains(server) <==> node.known.contains(server) && server != src,
        others.len() > 0,
    ensures
        ({
            let step = receive_step(node, src, msg, timestamp, now);
            let id = command_id_of(msg.timestamp, command);
            &&& step.actions.len() == others.len() + 1
            &&& step.node.collectors.contains_key(id)
            &&& step.node.collectors[id].required_count == others.len() + 1
        }),
{
    let targets = without(node.known, src);
    without_holds_the_others(node.known, src);
    targets.unique_seq_to_set();
    assert(targets.to_set() =~= others);
}

/// Where a client's command is forwarded, the node's own answer is the first that is
/// collected, under the timestamp and the name of the command and for the client that sent it.
/// The answer is that to the pairs as they were when the command came. Other collections stay.
pub proof fn command_opens_a_collection(
    node: NodeView,
    src: Seq<char>,
    msg: MessageView,
    command: Command,
    content: Seq<char>,
    timestamp: Seq<char>,
    now: u64,
    other: Seq<char>,
    server: Seq<char>,
    id: Seq<char>,
)
    requires
        asks_for(msg, command, content),
        !msg.forwarded,
        node.known.contains(other),
        other != src,
    ensures
        ({
            let after = receive_step(node, src, msg, timestamp, now).node;
            let own = command_id_of(msg.timestamp, command);
            let collector = after.collectors[own];
            &&& after.collectors.contains_key(id) <==> node.collectors.contains_key(id) || id == own
            &&& id != own && node.collectors.contains_key(id) ==> after.collectors[id]
                == node.collectors[id]
            &&& collector.command_id == own
            &&& collector.client_addr == src
            &&& collector.created_at == now
            &&& collector.responses.contains_key(server) <==> server == "self"@
            &&& collector.responses["self"@] == command_answer(command, node.data, content)
        }),
{
    without_holds_the_others(node.known, src);
    assert(without(node.known, src).contains(other));
    if msg.content is None {
        assert(content =~= Seq::<char>::empty());
    }
}

/// The timer that goes with a client's command is the last thing asked for. It carries the
/// identifier of the collection, the client, and the answer to the pairs as they were when the
/// command came, whatever the command has done to them.
pub proof fn timer_carries_the_answer(
    node: NodeView,
    src: Seq<char>,
    msg: MessageView,
    command: Command,
    content: Seq<char>,
    timestamp: Seq<char>,
    now: u64,
    other: Seq<char>,
)
    requires
        asks_for(msg, command, content),
        !msg.forwarded,
        node.known.contains(other),
        other != src,
    ensures
        receive_step(node, src, msg, timestamp, now).actions.last() == (ActionView::StartTimer {
            command_id: command_id_of(msg.timestamp, command),
            client: src,
            response: command_answer(command, node.data, content),
        }),
{
    without_holds_the_others(node.known, src);
    assert(without(node.known, src).contains(other));
    if msg.content is None {
        assert(content =~= Seq::<char>::empty());
    }
}

/// A client that waited in vain for the other servers gets the node's own answer after a
/// warning: the timer that went with its command is handed back to the node, in whatever state
/// it is by then, while the answers are still being collected. The node then stops collecting,
/// and nothing else about it changes.
pub proof fn late_client_gets_the_first_answer(
    node: NodeView,
    src: Seq<char>,
    msg: MessageView,
    command: Command,
    content: Seq<char>,
    timestamp: Seq<char>,
    now: u64,
    other: Seq<char>,
    later: NodeView,
    id: Seq<char>,
)
    requires
        asks_for(msg, command, content),
        !msg.forwarded,
        node.known.contains(other),
        other != src,
        later.collectors.contains_key(command_id_of(msg.timestamp, command)),
    ensures
        ({
            let timer = receive_step(node, src, msg, timestamp, now).actions.last();
            let step = timeout_step(
                later,
                timer->command_id,
                timer->client,
                timer->response,
            );
            let answer = command_answer(command, node.data, content);
            &&& step.actions.len() == 1
            &&& step.actions[0] == (ActionView::Send {
                to: src,
                payload: PayloadView::Text(
                    "Warning: Not all nodes responded. Using local response: "@ + answer,
                ),
            })
            &&& step.node.collectors.contains_key(id) <==> later.collectors.contains_key(id) && id
                != command_id_of(msg.timestamp, command)
            &&& step.node.collectors.contains_key(id) ==> step.node.collectors[id]
                == later.collectors[id]
            &&& step.node.own_address == later.own_address
            &&& step.node.known == later.known
            &&& step.node.data == later.data
            &&& step.node.stats == later.stats
            &&& step.node.last_pings == later.last_pings
        }),
{
    timer_carries_the_answer(node, src, msg, command, content, timestamp, now, other);
}

/// A client that deleted a stored key and waited in vain for the other servers hears that the
/// key was deleted.
pub proof fn late_delete_is_reported(
    node: NodeView,
    src: Seq<char>,
    msg: MessageView,
    key: Seq<char>,
    timestamp: Seq<char>,
    now: u64,
    other: Seq<char>,
    later: NodeView,
)
    requires
        asks_for(msg, Command::Delete, key),
        !msg.forwarded,
        node.data.contains_key(key),
        node.known.contains(other),
        other != src,
        later.collectors.contains_key(command_id_of(msg.timestamp, Command::Delete)),
    ensures
        ({
            let before = receive_step(node, src, msg, timestamp, now);
            let timer = before.actions.last();
            let step = timeout_step(
                later,
                timer->command_id,
                timer->client,
                timer->response,
            );
            &&& !before.node.data.contains_key(key)
            &&& step.actions.len() == 1
            &&& step.actions[0] == (ActionView::Send {
                to: src,
                payload: PayloadView::Text(
                    "Warning: Not all nodes responded. Using local response: "@ + (
                    "Deleted key "@ + key),
                ),
            })
        }),
{
    late_client_gets_the_first_answer(
        node,
        src,
        msg,
        Command::Delete,
        key,
        timestamp,
        now,
        other,
        later,
        key,
    );
    command_is_carried_out(node, src, msg, Command::Delete, key, timestamp, now);
    answers_to_a_key(node.data, key, key);
}

/// A timer that comes back when the collection has ended does nothing.
pub proof fn timer_after_the_end_does_nothing(
    node: NodeView,
    id: Seq<char>,
    client: Seq<char>,
    response: Seq<char>,
)
    requires
        !node.collectors.contains_key(id),
    ensures
        timeout_step(node, id, client, response).node == node,
        timeout_step(node, id, client, response).actions.len() == 0,
{
}

/// A command is carried out once on the node's own pairs, whether it came from a client or was
/// forwarded. Neither what the node knows of other servers nor its ping statistics change.
pub proof fn command_is_carried_out(
    node: NodeView,
    src: Seq<char>,
    msg: MessageView,
    command: Command,
    content: Seq<char>,
    timestamp: Seq<char>,
    now: u64,
)
    requires
        asks_for(msg, command, content),
    ensures
        ({
            let after = receive_step(node, src, msg, timestamp, now).node;
            &&& after.data == command_effect(command, node.data, content)
            &&& after.own_address == node.own_address
            &&& after.known == node.known
            &&& after.stats == node.stats
            &&& after.last_pings == node.last_pings
        }),
{
    if msg.content is None {
        assert(content =~= Seq::<char>::empty());
    }
}

/// A node that knows no server but the sender of a command sends the answer as a text to the
/// sender, at once, and collects nothing.
pub proof fn lone_node_sends_the_answer(
    node: NodeView,
    src: Seq<char>,
    msg: MessageView,
    command: Command,
    content: Seq<char>,
    timestamp: Seq<char>,
    now: u64,
)
    requires
        asks_for(msg, command, content),
        !msg.forwarded,
        forall|server: Seq<char>| #[trigger] node.known.contains(server) ==> server == src,
    ensures
        ({
            let step = receive_step(node, src, msg, timestamp, now);
            &&& step.actions.len() == 1
            &&& step.actions[0] == (ActionView::Send {
                to: src,
                payload: PayloadView::Text(command_answer(command, node.data, content)),
            })
            &&& step.node.collectors == node.collectors
        }),
{
    without_holds_the_others(node.known, src);
    let targets = without(node.known, src);
    if targets.len() > 0 {
        assert(targets.contains(targets[0]));
    }
    if msg.content is None {
        assert(content =~= Seq::<char>::empty());
    }
}

/// The answer to a forwarded command goes to the server that forwarded it and to no other: a
/// response with the timestamp, the number and the command of the copy, and the answer to the
/// pairs as they were. Nothing is collected.
pub proof fn forwarded_command_gets_a_response(
    node: NodeView,
    src: Seq<char>,
    msg: MessageView,
    command: Command,
    content: Seq<char>,
    timestamp: Seq<char>,
    now: u64,
)
    requires
        asks_for(msg, command, content),
        msg.forwarded,
    ensures
        ({
            let step = receive_step(node, src, msg, timestamp, now);
            let answer = step.actions[0]->payload->Message_0;
            &&& step.actions.len() == 1
            &&& step.actions[0] is Send
            &&& step.actions[0]->to == src
            &&& step.actions[0]->payload is Message
            &&& answer.msg_type == MsgType::Normal
            &&& answer.role == MessageRole::Response
            &&& answer.content == Some(command_answer(command, node.data, content))
            &&& answer.serial_number == msg.serial_number
            &&& answer.timestamp == msg.timestamp
            &&& answer.command == msg.command
            &&& answer.servers is None
            &&& answer.forwarded
            &&& step.node.collectors == node.collectors
        }),
{
    if msg.content is None {
        assert(content =~= Seq::<char>::empty());
    }
}

/// A command message that names no command changes nothing. A client is told so, with a
/// response that has the number of its message and the timestamp of the moment; a server that
/// forwarded such a message hears nothing.
pub proof fn nameless_command_changes_nothing(
    node: NodeView,
    src: Seq<char>,
    msg: MessageView,
    timestamp: Seq<char>,
    now: u64,
)
    requires
        msg.msg_type == MsgType::Normal,
        msg.role == MessageRole::Command,
        msg.command is None,
    ensures
        ({
            let step = receive_step(node, src, msg, timestamp, now);
            &&& step.node == node
            &&& msg.forwarded ==> step.actions.len() == 0
            &&& !msg.forwarded ==> {
                let answer = step.actions[0]->payload->Message_0;
                &&& step.actions.len() == 1
                &&& step.actions[0] is Send
                &&& step.actions[0]->to == src
                &&& step.actions[0]->payload is Message
                &&& answer.msg_type == MsgType::Normal
                &&& answer.role == MessageRole::Response
                &&& answer.content == Some("Error: Invalid command format"@)
                &&& answer.serial_number == msg.serial_number
                &&& answer.timestamp == timestamp
                &&& answer.command is None
                &&& answer.servers is None
                &&& !answer.forwarded
            }
        }),
{
}

/// What the client puts through a node it gets back through that node: after a put of a key and
/// a value, a get of the same key, typed the same way, is answered with the key and the value,
/// at once where the node knows no other server, and otherwise as the node's own answer. That
/// the text which the client sends for the pair names the pair is what `serde_json` does.
pub proof fn client_reads_back_what_it_put(
    node: NodeView,
    put_args: Seq<Seq<char>>,
    get_args: Seq<Seq<char>>,
    members: MembersView,
    first: Seq<char>,
    second: Seq<char>,
    src: Seq<char>,
    timestamp: Seq<char>,
    now: u64,
    then: u64,
)
    requires
        put_args.len() == 5,
        get_args.len() == 4,
        get_args[3] == put_args[3],
        json_outcome(json_pair_text("key"@, put_args[3], "value"@, put_args[4])) is Ok,
        json_outcome(json_pair_text("key"@, put_args[3], "value"@, put_args[4]))->Ok_0 == Some(
            members,
        ),
        members.contains_key("key"@),
        members["key"@] == Some(put_args[3]),
        members.contains_key("value"@),
        members["value"@] == Some(put_args[4]),
    ensures
        ({
            let put = message_for("put"@, put_args, first);
            let get = message_for("get"@, get_args, second);
            let after = receive_step(node, src, put->Ok_0, timestamp, now).node;
            let last = receive_step(after, src, get->Ok_0, timestamp, then).actions.last();
            let answer = "Value for key "@ + put_args[3] + ": "@ + put_args[4];
            let alone = forall|server: Seq<char>| #[trigger]
                node.known.contains(server) ==> server == src;
            &&& put is Ok
            &&& get is Ok
            &&& alone ==> last == (ActionView::Send {
                to: src,
                payload: PayloadView::Text(answer),
            })
            &&& !alone ==> last == (ActionView::StartTimer {
                command_id: second + "-Get"@,
                client: src,
                response: answer,
            })
        }),
{
    pair_goes_out_unchanged(put_args, first);
    requests_are_command_messages("put"@, put_args, first);
    key_goes_out_unchanged("get"@, Command::Get, get_args, second);
    requests_are_command_messages("get"@, get_args, second);
    command_id_is_readable(second);
    let put = message_for("put"@, put_args, first)->Ok_0;
    let get = message_for("get"@, get_args, second)->Ok_0;
    let text = json_pair_text("key"@, put_args[3], "value"@, put_args[4]);
    let key = put_args[3];
    let value = put_args[4];
    let after = receive_step(node, src, put, timestamp, now).node;
    command_is_carried_out(node, src, put, Command::Put, text, timestamp, now);
    put_stores_the_named_pair(node.data, text, members, key, value, key);
    answers_to_a_key(after.data, key, key);
    if forall|server: Seq<char>| #[trigger] node.known.contains(server) ==> server == src {
        lone_node_sends_the_answer(after, src, get, Command::Get, key, timestamp, then);
    } else {
        let other = choose|server: Seq<char>| #[trigger]
            node.known.contains(server) && server != src;
        timer_carries_the_answer(after, src, get, Command::Get, key, timestamp, then, other);
    }
}

/// A greeting makes the sender known, after the servers that were known before, and changes
/// nothing else about the node.
pub proof fn greeting_makes_the_sender_known(
    node: NodeView,
    src: Seq<char>,
    msg: MessageView,
    timestamp: Seq<char>,
    now: u64,
)
    requires
        msg.msg_type == MsgType::Hello,
    ensures
        ({
            let after = receive_step(node, src, msg, timestamp, now).node;
            &&& node.known.contains(src) ==> after.known == node.known
            &&& !node.known.contains(src) ==> after.known == node.known.push(src)
            &&& after.own_address == node.own_address
            &&& after.data == node.data
            &&& after.collectors == node.collectors
            &&& after.stats == node.stats
            &&& after.last_pings == node.last_pings
        }),
{
}

/// A greeting is answered with the list of all known servers, the sender among them. The list
/// goes to every known server but the node itself, once to each and in their order, and to no
/// other.
pub proof fn greeting_sends_the_list(
    node: NodeView,
    src: Seq<char>,
    msg: MessageView,
    timestamp: Seq<char>,
    now: u64,
    server: Seq<char>,
)
    requires
        msg.msg_type == MsgType::Hello,
    ensures
        ({
            let step = receive_step(node, src, msg, timestamp, now);
            let list = MessageView {
                msg_type: MsgType::ServerList,
                serial_number: None,
                timestamp,
                content: None,
                command: None,
                servers: Some(step.node.known),
                forwarded: false,
                role: MessageRole::Command,
            };
            &&& step.actions.contains(
                (ActionView::Send { to: server, payload: PayloadView::Message(list) }),
            ) <==> step.node.known.contains(server) && server != node.own_address
            &&& exists|places: Seq<int>| #[trigger]
                places.len() == step.actions.len() && forall|i: int|
                    0 <= i < places.len() ==> {
                        &&& 0 <= #[trigger] places[i] < step.node.known.len()
                        &&& i > 0 ==> places[i - 1] < places[i]
                        &&& step.actions[i] == (ActionView::Send {
                            to: step.node.known[places[i]],
                            payload: PayloadView::Message(list),
                        })
                    }
        }),
{
    let step = receive_step(node, src, msg, timestamp, now);
    let known = step.node.known;
    let list = MessageView {
        msg_type: MsgType::ServerList,
        serial_number: None,
        timestamp,
        content: None,
        command: None,
        servers: Some(known),
        forwarded: false,
        role: MessageRole::Command,
    };
    let send = ActionView::Send { to: server, payload: PayloadView::Message(list) };
    let targets = without(known, node.own_address);
    without_holds_the_others(known, node.own_address);
    if targets.contains(server) {
        let i = choose|i: int| 0 <= i < targets.len() && targets[i] == server;
        assert(step.actions[i] == send);
    }
    if step.actions.contains(send) {
        let i = choose|i: int| 0 <= i < step.actions.len() && step.actions[i] == send;
        assert(targets[i] == server);
        assert(targets.contains(server));
    }
    let places = without_keeps_the_order(known, node.own_address);
    assert forall|i: int| 0 <= i < places.len() implies {
        &&& 0 <= #[trigger] places[i] < known.len()
        &&& i > 0 ==> places[i - 1] < places[i]
        &&& step.actions[i] == (ActionView::Send {
            to: known[places[i]],
            payload: PayloadView::Message(list),
        })
    } by {
        assert(targets[i] == known[places[i]]);
    }
}

/// A received list makes its servers known one after the other: a list of one server adds that
/// server at the end unless it was known, and a list in two parts does what the parts do when
/// they come one after the other.
pub proof fn received_list_is_learned_in_order(
    node: NodeView,
    src: Seq<char>,
    msg: MessageView,
    timestamp: Seq<char>,
    now: u64,
    left: Seq<Seq<char>>,
    right: Seq<Seq<char>>,
    server: Seq<char>,
)
    requires
        msg.msg_type == MsgType::ServerList,
    ensures
        ({
            let one = MessageView { servers: Some(seq![server]), ..msg };
            let known = receive_step(node, src, one, timestamp, now).node.known;
            &&& node.known.contains(server) ==> known == node.known
            &&& !node.known.contains(server) ==> known == node.known.push(server)
        }),
        ({
            let both = MessageView { servers: Some(left + right), ..msg };
            let first = MessageView { servers: Some(left), ..msg };
            let second = MessageView { servers: Some(right), ..msg };
            receive_step(node, src, both, timestamp, now).node == receive_step(
                receive_step(node, src, first, timestamp, now).node,
                src,
                second,
                timestamp,
                now,
            ).node
        }),
    decreases right.len(),
{
    assert(seq![server].drop_last() =~= Seq::<Seq<char>>::empty());
    assert(learn_all(node.known, seq![server].drop_last()) == node.known);
    if right.len() == 0 {
        assert(left + right =~= left);
    } else {
        received_list_is_learned_in_order(
            node,
            src,
            msg,
            timestamp,
            now,
            left,
            right.drop_last(),
            server,
        );
        assert((left + right).drop_last() =~= left + right.drop_last());
        assert((left + right).last() == right.last());
    }
}

/// After a list of servers the node knows the servers that it knew and those on the list, and
/// no others; a message without a list changes nothing. Nothing is sent, and nothing else about
/// the node changes.
pub proof fn received_list_adds_its_servers(
    node: NodeView,
    src: Seq<char>,
    msg: MessageView,
    timestamp: Seq<char>,
    now: u64,
    server: Seq<char>,
)
    requires
        msg.msg_type == MsgType::ServerList,
    ensures
        ({
            let step = receive_step(node, src, msg, timestamp, now);
            &&& step.actions.len() == 0
            &&& msg.servers is None ==> step.node == node
            &&& msg.servers is Some ==> (step.node.known.contains(server) <==> node.known.contains(
                server,
            ) || msg.servers->0.contains(server))
            &&& step.node.own_address == node.own_address
            &&& step.node.data == node.data
            &&& step.node.collectors == node.collectors
            &&& step.node.stats == node.stats
            &&& step.node.last_pings == node.last_pings
        }),
{
    if msg.servers is Some {
        learned_are_known(node.known, msg.servers->0, server);
    }
}

proof fn learned_are_known(known: Seq<Seq<char>>, servers: Seq<Seq<char>>, server: Seq<char>)
    ensures
        learn_all(known, servers).contains(server) <==> known.contains(server) || servers.contains(
            server,
        ),
    decreases servers.len(),
{
    if servers.len() > 0 {
        let front = servers.drop_last();
        let last = servers.last();
        let before = learn_all(known, front);
        learned_are_known(known, front, server);
        assert(servers =~= front.push(last));
        assert forall|list: Seq<Seq<char>>|
            (#[trigger] list.push(last)).contains(server) <==> list.contains(server) || server
                == last by {
            let more = list.push(last);
            if list.contains(server) {
                let i = choose|i: int| 0 <= i < list.len() && list[i] == server;
                assert(more[i] == server);
            }
            if server == last {
                assert(more[list.len() as int] == server);
            }
            if more.contains(server) && server != last {
                let i = choose|i: int| 0 <= i < more.len() && more[i] == server;
                assert(list[i] == server);
            }
        }
        assert(before.push(last).contains(server) <==> before.contains(server) || server == last);
        assert(front.push(last).contains(server) <==> front.contains(server) || server == last);
    }
}

/// A ping is answered to its sender, with the timestamp of the moment, and counted: the pings
/// from the sender are one more than before, it was last heard of now, and the pings to it are
/// as many as before. The statistics of other servers stay, and so does everything else.
pub proof fn ping_is_counted_and_answered(
    node: NodeView,
    src: Seq<char>,
    msg: MessageView,
    timestamp: Seq<char>,
    now: u64,
    server: Seq<char>,
)
    requires
        msg.msg_type == MsgType::Ping,
        node.stats.contains_key(src) ==> node.stats[src].received < u32::MAX,
    ensures
        ({
            let step = receive_step(node, src, msg, timestamp, now);
            let after = step.node;
            &&& step.actions.len() == 1
            &&& step.actions[0] == (ActionView::Send {
                to: src,
                payload: PayloadView::Message(
                    MessageView {
                        msg_type: MsgType::PingResponse,
                        serial_number: None,
                        timestamp,
                        content: None,
                        command: None,
                        servers: None,
                        forwarded: false,
                        role: MessageRole::Response,
                    },
                ),
            })
            &&& after.stats.contains_key(server) <==> node.stats.contains_key(server) || server
                == src
            &&& server != src && node.stats.contains_key(server) ==> after.stats[server]
                == node.stats[server]
            &&& after.stats[src].last_seen == now
            &&& node.stats.contains_key(src) ==> {
                &&& after.stats[src].received == node.stats[src].received + 1
                &&& after.stats[src].sent == node.stats[src].sent
            }
            &&& !node.stats.contains_key(src) ==> {
                &&& after.stats[src].received == 1
                &&& after.stats[src].sent == 0
            }
            &&& after.own_address == node.own_address
            &&& after.known == node.known
            &&& after.data == node.data
            &&& after.collectors == node.collectors
            &&& after.last_pings == node.last_pings
        }),
{
}

/// The answer to a ping makes its sender known, after the servers that were known before. It
/// asks for nothing, and nothing else about the node changes.
pub proof fn ping_answer_makes_the_sender_known(
    node: NodeView,
    src: Seq<char>,
    msg: MessageView,
    timestamp: Seq<char>,
    now: u64,
)
    requires
        msg.msg_type == MsgType::PingResponse,
    ensures
        ({
            let step = receive_step(node, src, msg, timestamp, now);
            &&& step.actions.len() == 0
            &&& node.known.contains(src) ==> step.node == node
            &&& !node.known.contains(src) ==> {
                &&& step.node.known == node.known.push(src)
                &&& step.node.own_address == node.own_address
                &&& step.node.data == node.data
                &&& step.node.collectors == node.collectors
                &&& step.node.stats == node.stats
                &&& step.node.last_pings == node.last_pings
            }
        }),
{
}

/// A list that answers a request to join is taken in without effect.
pub proof fn current_servers_change_nothing(
    node: NodeView,
    src: Seq<char>,
    msg: MessageView,
    timestamp: Seq<char>,
    now: u64,
)
    requires
        msg.msg_type == MsgType::Normal,
        msg.role == MessageRole::CurrentServers,
    ensures
        receive_step(node, src, msg, timestamp, now).node == node,
        receive_step(node, src, msg, timestamp, now).actions.len() == 0,
{
}

/// A server that joins becomes known, after the servers that were known before, and nothing
/// else about the node changes. It gets two messages and nobody else gets any: first the known
/// servers, itself among them, with the number and the timestamp of its request; then the
/// stored pairs, numbered one, with the timestamp of the moment. A server that is known already
/// gets nothing.
pub proof fn joining_server_is_brought_up_to_date(
    node: NodeView,
    src: Seq<char>,
    msg: MessageView,
    timestamp: Seq<char>,
    now: u64,
)
    requires
        msg.msg_type == MsgType::Normal,
        msg.role == MessageRole::Join,
    ensures
        ({
            let step = receive_step(node, src, msg, timestamp, now);
            &&& node.known.contains(src) ==> step.node == node && step.actions.len() == 0
            &&& !node.known.contains(src) ==> {
                &&& step.node.known == node.known.push(src)
                &&& step.node.own_address == node.own_address
                &&& step.node.data == node.data
                &&& step.node.collectors == node.collectors
                &&& step.node.stats == node.stats
                &&& step.node.last_pings == node.last_pings
                &&& step.actions.len() == 2
                &&& step.actions[0] == (ActionView::Send {
                    to: src,
                    payload: PayloadView::Message(
                        MessageView {
                            msg_type: MsgType::Normal,
                            serial_number: msg.serial_number,
                            timestamp: msg.timestamp,
                            content: Some(json_list_text(node.known.push(src))),
                            command: None,
                            servers: None,
                            forwarded: false,
                            role: MessageRole::CurrentServers,
                        },
                    ),
                })
                &&& step.actions[1] == (ActionView::Send {
                    to: src,
                    payload: PayloadView::Message(
                        MessageView {
                            msg_type: MsgType::InitialState,
                            serial_number: Some(1u32),
                            timestamp,
                            content: Some(json_map_text(node.data)),
                            command: None,
                            servers: None,
                            forwarded: false,
                            role: MessageRole::Response,
                        },
                    ),
                })
            }
        }),
{
}

/// The pairs of another node take the place of all pairs that were stored, where they can be
/// read; otherwise the stored pairs stay. Nothing is sent, and nothing else about the node
/// changes.
pub proof fn received_pairs_replace_the_stored(
    node: NodeView,
    src: Seq<char>,
    msg: MessageView,
    timestamp: Seq<char>,
    now: u64,
    key: Seq<char>,
)
    requires
        msg.msg_type == MsgType::InitialState,
    ensures
        ({
            let step = receive_step(node, src, msg, timestamp, now);
            let read = json_map_outcome(msg.content->0);
            &&& step.actions.len() == 0
            &&& msg.content is Some && read is Ok ==> {
                &&& step.node.data.contains_key(key) <==> read->Ok_0.contains_key(key)
                &&& step.node.data.contains_key(key) ==> step.node.data[key] == read->Ok_0[key]
            }
            &&& msg.content is None || read is Err ==> step.node.data == node.data
            &&& step.node.own_address == node.own_address
            &&& step.node.known == node.known
            &&& step.node.collectors == node.collectors
            &&& step.node.stats == node.stats
            &&& step.node.last_pings == node.last_pings
        }),
{
}

/// A response belongs to a command and has a content: without either, or where no answers are
/// collected under its command and timestamp, nothing happens. No response changes the pairs,
/// the known servers, the statistics or another collection.
pub proof fn response_touches_its_collection_only(
    node: NodeView,
    src: Seq<char>,
    msg: MessageView,
    timestamp: Seq<char>,
    now: u64,
    id: Seq<char>,
)
    requires
        msg.msg_type == MsgType::Normal,
        msg.role == MessageRole::Response,
    ensures
        ({
            let step = receive_step(node, src, msg, timestamp, now);
            let own = command_id_of(msg.timestamp, msg.command->0);
            let meant = msg.command is Some && msg.content is Some && node.collectors.contains_key(
                own,
            );
            &&& !meant ==> step.node == node && step.actions.len() == 0
            &&& id != own ==> {
                &&& step.node.collectors.contains_key(id) <==> node.collectors.contains_key(id)
                &&& node.collectors.contains_key(id) ==> step.node.collectors[id]
                    == node.collectors[id]
            }
            &&& step.node.own_address == node.own_address
            &&& step.node.known == node.known
            &&& step.node.data == node.data
            &&& step.node.stats == node.stats
            &&& step.node.last_pings == node.last_pings
        }),
{
}

/// The message is an answer to a command, collected under `id`.
pub open spec fn answers(msg: MessageView, id: Seq<char>, content: Seq<char>) -> bool {
    &&& msg.msg_type == MsgType::Normal
    &&& msg.role == MessageRole::Response
    &&& msg.command is Some
    &&& msg.content == Some(content)
    &&& id == command_id_of(msg.timestamp, msg.command->0)
}

/// While answers are missing, a response is kept as the answer of its sender, in place of one
/// that it gave before, and the client hears nothing. The answers of others stay, and so do the
/// client, the number of answers that are needed, and the time of the command.
pub proof fn early_response_is_kept(
    node: NodeView,
    src: Seq<char>,
    msg: MessageView,
    id: Seq<char>,
    content: Seq<char>,
    timestamp: Seq<char>,
    now: u64,
    server: Seq<char>,
)
    requires
        answers(msg, id, content),
        node.collectors.contains_key(id),
        node.collectors[id].responses.dom().finite(),
        node.collectors[id].responses.insert(src, content).dom().len()
            < node.collectors[id].required_count,
    ensures
        ({
            let step = receive_step(node, src, msg, timestamp, now);
            let before = node.collectors[id];
            let after = step.node.collectors[id];
            &&& step.actions.len() == 0
            &&& step.node.collectors.contains_key(id)
            &&& after.responses.contains_key(src)
            &&& after.responses[src] == content
            &&& server != src ==> {
                &&& after.responses.contains_key(server) <==> before.responses.contains_key(server)
                &&& before.responses.contains_key(server) ==> after.responses[server]
                    == before.responses[server]
            }
            &&& after.command_id == before.command_id
            &&& after.required_count == before.required_count
            &&& after.client_addr == before.client_addr
            &&& after.created_at == before.created_at
        }),
{
    let before = node.collectors[id];
    decision_exists(before.responses.insert(src, content), before.required_count);
}

/// Once the last missing response is there, the collection ends and the client that sent the
/// command, and nobody else, gets a text. It is the answer that more than half of the required
/// servers gave, where there is one.
pub proof fn last_response_answers_the_client(
    node: NodeView,
    src: Seq<char>,
    msg: MessageView,
    id: Seq<char>,
    content: Seq<char>,
    timestamp: Seq<char>,
    now: u64,
    agreed: Set<Seq<char>>,
    answer: Seq<char>,
)
    requires
        answers(msg, id, content),
        node.collectors.contains_key(id),
        node.collectors[id].responses.dom().finite(),
        node.collectors[id].responses.insert(src, content).dom().len()
            == node.collectors[id].required_count,
        forall|server: Seq<char>| #[trigger]
            agreed.contains(server) ==> (if server == src {
                content == answer
            } else {
                node.collectors[id].responses.contains_key(server)
                    && node.collectors[id].responses[server] == answer
            }),
        2 * agreed.len() > node.collectors[id].required_count,
    ensures
        ({
            let step = receive_step(node, src, msg, timestamp, now);
            &&& !step.node.collectors.contains_key(id)
            &&& step.actions.len() == 1
            &&& step.actions[0] == (ActionView::Send {
                to: node.collectors[id].client_addr,
                payload: PayloadView::Text(answer),
            })
        }),
{
    let before = node.collectors[id];
    let responses = before.responses.insert(src, content);
    assert(agreed.subset_of(responses.dom()));
    assert forall|server: Seq<char>| #[trigger] agreed.contains(server) implies responses[server]
        == answer by {}
    more_than_half_decide(responses, before.required_count, agreed, answer, Some(answer));
}

/// Once the last missing response is there and no answer came from more than half of the
/// required servers, the collection ends and the client that sent the command is told that the
/// nodes do not agree.
pub proof fn last_response_reports_disagreement(
    node: NodeView,
    src: Seq<char>,
    msg: MessageView,
    id: Seq<char>,
    content: Seq<char>,
    timestamp: Seq<char>,
    now: u64,
)
    requires
        answers(msg, id, content),
        node.collectors.contains_key(id),
        node.collectors[id].responses.dom().finite(),
        node.collectors[id].responses.insert(src, content).dom().len()
            >= node.collectors[id].required_count,
        forall|answer: Seq<char>|
            2 * #[trigger] votes(node.collectors[id].responses.insert(src, content), answer)
                <= node.collectors[id].required_count,
    ensures
        ({
            let step = receive_step(node, src, msg, timestamp, now);
            &&& !step.node.collectors.contains_key(id)
            &&& step.actions.len() == 1
            &&& step.actions[0] == (ActionView::Send {
                to: node.collectors[id].client_addr,
                payload: PayloadView::Text("Error: No consensus reached among nodes"@),
            })
        }),
{
    let before = node.collectors[id];
    let responses = before.responses.insert(src, content);
    decision_exists(responses, before.required_count);
    disagreement_is_reported(
        responses,
        before.required_count,
        decision(responses, before.required_count),
    );
}

/// When pings are due: never to the node itself; to a server that was pinged before, exactly
/// when a second has passed since; to any other, as long as the round has not taken longer than
/// a second.
pub proof fn pings_go_out_every_second(
    node: NodeView,
    server: Seq<char>,
    now: u64,
    checked: u64,
)
    ensures
        server == node.own_address ==> !ping_is_due(node, server, now, checked),
        server != node.own_address && node.last_pings.contains_key(server) ==> (ping_is_due(
            node,
            server,
            now,
            checked,
        ) <==> now >= node.last_pings[server] + 1_000_000_000),
        server != node.own_address && !node.last_pings.contains_key(server) ==> (ping_is_due(
            node,
            server,
            now,
            checked,
        ) <==> checked <= now + 1_000_000_000),
{
}

/// A ping that went out is counted: the pings to the server are one more than before, those
/// from it as many, and it was last heard of when it was before; a server without statistics
/// gets them now. The time of the round is noted. Nothing else about the node changes.
pub proof fn sent_ping_is_counted(
    node: NodeView,
    server: Seq<char>,
    now: u64,
    seen: u64,
    other: Seq<char>,
)
    requires
        node.stats.contains_key(server) ==> node.stats[server].sent < u32::MAX,
    ensures
        ({
            let after = pinged(node, server, now, seen);
            &&& after.stats.contains_key(other) <==> node.stats.contains_key(other) || other
                == server
            &&& after.last_pings.contains_key(other) <==> node.last_pings.contains_key(other)
                || other == server
            &&& after.last_pings[server] == now
            &&& other != server && node.stats.contains_key(other) ==> after.stats[other]
                == node.stats[other]
            &&& other != server && node.last_pings.contains_key(other) ==> after.last_pings[other]
                == node.last_pings[other]
            &&& node.stats.contains_key(server) ==> {
                &&& after.stats[server].sent == node.stats[server].sent + 1
                &&& after.stats[server].received == node.stats[server].received
                &&& after.stats[server].last_seen == node.stats[server].last_seen
            }
            &&& !node.stats.contains_key(server) ==> {
                &&& after.stats[server].sent == 1
                &&& after.stats[server].received == 0
                &&& after.stats[server].last_seen == seen
            }
            &&& after.own_address == node.own_address
            &&& after.known == node.known
            &&& after.data == node.data
            &&& after.collectors == node.collectors
        }),
{
}

/// A node starts without pairs, collections or statistics. It knows itself and, where one is
/// given, the first server, which alone gets a greeting with the timestamp of the moment.
pub proof fn start_greets_the_first_server(
    own_address: Seq<char>,
    first_server: Option<Seq<char>>,
    timestamp: Seq<char>,
    key: Seq<char>,
)
    ensures
        ({
            let node = started(own_address, first_server);
            let sent = greeting(first_server, timestamp);
            &&& node.own_address == own_address
            &&& node.known.len() > 0
            &&& node.known[0] == own_address
            &&& first_server is None || first_server->0 == own_address ==> node.known.len() == 1
            &&& first_server is Some && first_server->0 != own_address ==> {
                &&& node.known.len() == 2
                &&& node.known[1] == first_server->0
            }
            &&& !node.data.contains_key(key)
            &&& !node.collectors.contains_key(key)
            &&& !node.stats.contains_key(key)
            &&& !node.last_pings.contains_key(key)
            &&& first_server is None ==> sent.len() == 0
            &&& first_server is Some ==> {
                &&& sent.len() == 1
                &&& sent[0] == (ActionView::Send {
                    to: first_server->0,
                    payload: PayloadView::Message(
                        MessageView {
                            msg_type: MsgType::Hello,
                            serial_number: None,
                            timestamp,
                            content: None,
                            command: None,
                            servers: None,
                            forwarded: false,
                            role: MessageRole::Command,
                        },
                    ),
                })
            }
        }),
{
    assert(seq![own_address][0] == own_address);
    if seq![own_address].contains(first_server->0) {
        let i = choose|i: int| 0 <= i < 1 && seq![own_address][i] == first_server->0;
    }
}

/// A message can be taken in unless the pings from its sender cannot be counted up any more, or
/// the known servers cannot.
pub proof fn only_full_counters_refuse(node: NodeView, src: Seq<char>, msg: MessageView)
    requires
        node.known.len() < usize::MAX,
    ensures
        msg.msg_type != MsgType::Ping ==> receivable(node, src, msg),
        !node.stats.contains_key(src) ==> receivable(node, src, msg),
        msg.msg_type == MsgType::Ping && node.stats.contains_key(src) ==> (receivable(
            node,
            src,
            msg,
        ) <==> node.stats[src].received != u32::MAX),
{
}

/// The same message for each of several servers: the i-th datagram goes to the i-th server and
/// holds the message as it is.
pub proof fn each_server_gets_the_message(
    targets: Seq<Seq<char>>,
    message: MessageView,
    i: int,
)
    ensures
        send_each(targets, message).len() == targets.len(),
        0 <= i < targets.len() ==> send_each(targets, message)[i] == (ActionView::Send {
            to: targets[i],
            payload: PayloadView::Message(message),
        }),
{
}

} // verus!
