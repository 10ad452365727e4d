//! A node of the network.

use vstd::prelude::*;

use crate::clock::WallTime;
use crate::consensus::{decision_is_unique, ConsensusCollector};
use crate::json::{
    json_map_outcome, json_map_text, list_text, pairs_text, pairs_view, parse_pairs,
};
use crate::keyed::KeyedMap;
use crate::laws::{receiving_keeps_wf, timeout_keeps_wf};
use crate::message::{
    command_id, hello_message, message_with_content, opt_text, opt_texts, ping_response_message,
    server_list_message, Command, Message, MessageRole, MsgType,
};
use crate::model::{
    client_command_step, command_step, content_or_empty, greeting, hello_step, initial_state_step,
    installed, join_step, learn, learn_all, ping_is_due, ping_step, pinged, receivable, receive_step,
    response_step, send_each, send_message, server_list_step, started, stats_of, timeout_step,
    ActionView, NodeView, PayloadView, PingStats, Step, PING_INTERVAL,
};
use crate::store::{handle_command, ServerState};
use crate::text::{concat2, contains, copy_without, same, texts};

verus! {

/// What goes out in a datagram: a message, or a plain text for a client.
#[derive(Debug)]
pub enum Payload {
    Message(Message),
    Text(String),
}

impl View for Payload {
    type V = PayloadView;

    open spec fn view(&self) -> PayloadView {
        match self {
            Payload::Message(message) => PayloadView::Message(message@),
            Payload::Text(text) => PayloadView::Text(text@),
        }
    }
}

/// What is told to a client when the time for collecting answers is over.
#[derive(Debug)]
pub struct Timer {
    pub command_id: String,
    pub client: String,
    pub response: String,
}

/// What a node wants done.
#[derive(Debug)]
pub enum Action {
    /// Send a datagram.
    Send { to: String, payload: Payload },
    /// Hand the timer back when the time for collecting answers is over.
    StartTimer { timer: Timer },
}

impl View for Action {
    type V = ActionView;

    open spec fn view(&self) -> ActionView {
        match self {
            Action::Send { to, payload } => ActionView::Send { to: to@, payload: payload@ },
            Action::StartTimer { timer } => ActionView::StartTimer {
                command_id: timer.command_id@,
                client: timer.client@,
                response: timer.response@,
            },
        }
    }
}

/// The contents of a list of actions.
pub open spec fn action_views(actions: Seq<Action>) -> Seq<ActionView> {
    actions.map_values(|a: Action| a@)
}

/// One action.
fn only(action: Action) -> (r: Vec<Action>)
    ensures
        action_views(r@) == seq![action@],
{
    let mut r: Vec<Action> = Vec::new();
    r.push(action);
    assert(action_views(r@) =~= seq![action@]);
    r
}

/// No action.
fn nothing() -> (r: Vec<Action>)
    ensures
        action_views(r@) == Seq::<ActionView>::empty(),
{
    let r: Vec<Action> = Vec::new();
    assert(action_views(r@) =~= Seq::<ActionView>::empty());
    r
}

/// A message for each server in a list, in the order of the list.
pub fn forward_message(msg: &Message, known_servers: &Vec<String>) -> (r: Vec<Action>)
    ensures
        action_views(r@) == send_each(texts(known_servers@), msg@),
{
    let ghost all = send_each(texts(known_servers@), msg@);
    let mut r: Vec<Action> = Vec::new();
    let mut i: usize = 0;
    while i < known_servers.len()
        invariant
            i <= known_servers.len(),
            all == send_each(texts(known_servers@), msg@),
            action_views(r@) == all.take(i as int),
        decreases known_servers.len() - i,
    {
        let ghost before = action_views(r@);
        let action = Action::Send {
            to: known_servers[i].clone(),
            payload: Payload::Message(msg.clone()),
        };
        assert(action@ == all[i as int]);
        r.push(action);
        assert(action_views(r@) =~= before.push(all[i as int]));
        assert(action_views(r@) =~= all.take(i + 1));
        i += 1;
    }
    assert(all.take(i as int) =~= all);
    r
}

/// The state of a node.
pub struct Node {
    own_address: String,
    known_servers: Vec<String>,
    state: ServerState,
    collectors: KeyedMap<ConsensusCollector>,
    ping_stats: KeyedMap<PingStats>,
    last_pings: KeyedMap<u64>,
}

impl View for Node {
    type V = NodeView;

    closed spec fn view(&self) -> NodeView {
        NodeView {
            own_address: self.own_address@,
            known: texts(self.known_servers@),
            data: self.state@,
            collectors: self.collectors@,
            stats: self.ping_stats@,
            last_pings: self.last_pings@,
        }
    }
}

impl Node {
    /// Starts a node that listens on `own_address`, and greets the first server where one is
    /// given.
    pub fn start_at(own_address: String, first_server: Option<String>, timestamp: &str) -> (r: (
        Node,
        Vec<Action>,
    ))
        ensures
            r.0@.wf(),
            r.0@ == started(own_address@, opt_text(first_server)),
            action_views(r.1@) == greeting(opt_text(first_server), timestamp@),
    {
        let mut known_servers: Vec<String> = Vec::new();
        known_servers.push(own_address.clone());
        assert(texts(known_servers@) =~= seq![own_address@]);
        let mut node = Node {
            own_address,
            known_servers,
            state: ServerState::new(),
            collectors: KeyedMap::new(),
            ping_stats: KeyedMap::new(),
            last_pings: KeyedMap::new(),
        };
        match first_server {
            Some(server) => {
                node.learn(server.as_str());
                let hello = hello_message(timestamp);
                (node, only(Action::Send { to: server, payload: Payload::Message(hello) }))
            },
            None => (node, nothing()),
        }
    }

    /// Starts a node at a reading of the wall clock.
    pub fn start(own_address: String, first_server: Option<String>, wall: WallTime) -> (r: (
        Node,
        Vec<Action>,
    ))
        requires
            wall.valid(),
        ensures
            r.0@.wf(),
            r.0@ == started(own_address@, opt_text(first_server)),
            action_views(r.1@) == greeting(opt_text(first_server), wall.text()),
    {
        let timestamp = wall.timestamp();
        Node::start_at(own_address, first_server, timestamp.as_str())
    }

    /// The address that the node listens on.
    pub fn own_address(&self) -> (r: &String)
        ensures
            r@ == self@.own_address,
    {
        &self.own_address
    }

    /// The servers that the node knows.
    pub fn known_servers(&self) -> (r: &Vec<String>)
        ensures
            texts(r@) == self@.known,
    {
        &self.known_servers
    }

    /// Whether the node knows a server besides itself.
    pub fn has_peers(&self) -> (r: bool)
        ensures
            r == (self@.known.len() > 1),
    {
        self.known_servers.len() > 1
    }

    /// The stored pairs.
    pub fn data(&self) -> (r: &KeyedMap<String>)
        ensures
            r@ == self@.data,
    {
        self.state.data()
    }

    /// The commands whose answers are being collected.
    pub fn collectors(&self) -> (r: &KeyedMap<ConsensusCollector>)
        ensures
            r@ == self@.collectors,
    {
        &self.collectors
    }

    /// The pings by server.
    pub fn ping_stats(&self) -> (r: &KeyedMap<PingStats>)
        ensures
            r@ == self@.stats,
    {
        &self.ping_stats
    }

    /// Makes a server known.
    fn learn(&mut self, server: &str)
        ensures
            final(self)@ == (NodeView { known: learn(old(self)@.known, server@), ..old(self)@ }),
    {
        if !contains(&self.known_servers, server) {
            let ghost before = texts(self.known_servers@);
            self.known_servers.push(server.to_owned());
            assert(texts(self.known_servers@) =~= before.push(server@));
        }
    }

    fn on_hello(&mut self, src: &str, timestamp: &str) -> (r: Vec<Action>)
        ensures
            (Step { node: final(self)@, actions: action_views(r@) }) == hello_step(
                old(self)@,
                src@,
                timestamp@,
            ),
    {
        self.learn(src);
        let message = server_list_message(timestamp, &self.known_servers);
        let targets = copy_without(&self.known_servers, self.own_address.as_str());
        forward_message(&message, &targets)
    }

    fn on_server_list(&mut self, servers: Option<Vec<String>>)
        ensures
            (Step { node: final(self)@, actions: Seq::empty() }) == server_list_step(
                old(self)@,
                opt_texts(servers),
            ),
    {
        if let Some(servers) = servers {
            let ghost start = self@;
            let ghost all = texts(servers@);
            let mut i: usize = 0;
            assert(all.take(0) =~= Seq::<Seq<char>>::empty());
            while i < servers.len()
                invariant
                    i <= servers.len(),
                    all == texts(servers@),
                    self@ == (NodeView { known: learn_all(start.known, all.take(i as int)), ..start }),
                decreases servers.len() - i,
            {
                proof {
                    assert(all.take(i + 1).drop_last() =~= all.take(i as int));
                    assert(all.take(i + 1).last() == servers[i as int]@);
                }
                self.learn(servers[i].as_str());
                i += 1;
            }
            assert(all.take(i as int) =~= all);
        }
    }

    fn on_ping(&mut self, src: &str, timestamp: &str, now: u64) -> (r: Vec<Action>)
        requires
            old(self)@.stats.contains_key(src@) ==> old(self)@.stats[src@].received < u32::MAX,
        ensures
            (Step { node: final(self)@, actions: action_views(r@) }) == ping_step(
                old(self)@,
                src@,
                timestamp@,
                now,
            ),
    {
        let before = self.stats_or_new(src, now);
        let counted = PingStats { sent: before.sent, received: before.received + 1, last_seen: now };
        self.ping_stats.insert(src.to_owned(), counted);
        let message = ping_response_message(timestamp);
        only(Action::Send { to: src.to_owned(), payload: Payload::Message(message) })
    }

    /// The statistics of a server, new ones where it has none.
    fn stats_or_new(&self, server: &str, now: u64) -> (r: PingStats)
        ensures
            r == stats_of(self@, server@, now),
    {
        match self.ping_stats.get(server) {
            Some(stats) => *stats,
            None => PingStats { sent: 0, received: 0, last_seen: now },
        }
    }

    fn on_join(&mut self, src: &str, msg: &Message, timestamp: &str) -> (r: Vec<Action>)
        ensures
            (Step { node: final(self)@, actions: action_views(r@) }) == join_step(
                old(self)@,
                src@,
                msg@,
                timestamp@,
            ),
            !old(self)@.known.contains(src@) ==> {
                &&& json_map_outcome(json_map_text(old(self)@.data)) is Ok
                &&& json_map_outcome(json_map_text(old(self)@.data))->Ok_0 == old(self)@.data
            },
    {
        if contains(&self.known_servers, src) {
            return nothing();
        }
        self.learn(src);
        let current = message_with_content(
            MsgType::Normal,
            MessageRole::CurrentServers,
            msg.serial_number,
            msg.timestamp.as_str(),
            list_text(&self.known_servers),
        );
        let state = message_with_content(
            MsgType::InitialState,
            MessageRole::Response,
            Some(1),
            timestamp,
            pairs_text(self.state.data()),
        );
        let ghost first = send_message(src@, current@);
        let ghost second = send_message(src@, state@);
        let mut r = only(Action::Send { to: src.to_owned(), payload: Payload::Message(current) });
        let last = Action::Send { to: src.to_owned(), payload: Payload::Message(state) };
        assert(last@ == second);
        r.push(last);
        assert(action_views(r@) =~= seq![first].push(second));
        assert(seq![first].push(second) =~= seq![first, second]);
        r
    }

    /// The content of a message, empty where it has none.
    fn content_of(msg: &Message) -> (r: &str)
        ensures
            r@ == content_or_empty(msg@),
    {
        match &msg.content {
            Some(content) => content.as_str(),
            None => {
                proof {
                    reveal_strlit("");
                }
                assert(""@ =~= Seq::<char>::empty());
                ""
            },
        }
    }

    fn on_client_command(&mut self, src: &str, msg: &Message, command: Command, now: u64) -> (r: Vec<
        Action,
    >)
        requires
            old(self)@.known.len() < usize::MAX,
        ensures
            (Step { node: final(self)@, actions: action_views(r@) }) == client_command_step(
                old(self)@,
                src@,
                msg@,
                command,
                now,
            ),
    {
        let response = handle_command(&command, &mut self.state, Node::content_of(msg));
        let targets = copy_without(&self.known_servers, src);
        assert(texts(targets@).len() == targets@.len());
        assert(texts(self.known_servers@).len() == self.known_servers@.len());
        if targets.len() == 0 {
            return only(Action::Send { to: src.to_owned(), payload: Payload::Text(response) });
        }
        let id = command_id(msg.timestamp.as_str(), command);
        let mut collector = ConsensusCollector::new(
            targets.len() + 1,
            id.clone(),
            src.to_owned(),
            now,
        );
        collector.add_response("self".to_owned(), response.clone());
        self.collectors.insert(id.clone(), collector);
        let mut forwarded = msg.clone();
        forwarded.forwarded = true;
        let mut r = forward_message(&forwarded, &targets);
        let ghost sends = action_views(r@);
        let timer = Timer { command_id: id, client: src.to_owned(), response };
        let ghost last = Action::StartTimer { timer }@;
        r.push(Action::StartTimer { timer });
        assert(action_views(r@) =~= sends.push(last));
        r
    }

    fn on_command(&mut self, src: &str, msg: &Message, timestamp: &str, now: u64) -> (r: Vec<
        Action,
    >)
        requires
            old(self)@.known.len() < usize::MAX,
        ensures
            (Step { node: final(self)@, actions: action_views(r@) }) == command_step(
                old(self)@,
                src@,
                msg@,
                timestamp@,
                now,
            ),
    {
        match msg.command {
            Some(command) => {
                if !msg.forwarded {
                    return self.on_client_command(src, msg, command, now);
                }
                let response = handle_command(&command, &mut self.state, Node::content_of(msg));
                let mut answer = message_with_content(
                    MsgType::Normal,
                    MessageRole::Response,
                    msg.serial_number,
                    msg.timestamp.as_str(),
                    response,
                );
                answer.command = msg.command;
                answer.forwarded = true;
                only(Action::Send { to: src.to_owned(), payload: Payload::Message(answer) })
            },
            None => {
                if msg.forwarded {
                    return nothing();
                }
                let refusal = message_with_content(
                    MsgType::Normal,
                    MessageRole::Response,
                    msg.serial_number,
                    timestamp,
                    "Error: Invalid command format".to_owned(),
                );
                only(Action::Send { to: src.to_owned(), payload: Payload::Message(refusal) })
            },
        }
    }

    fn on_response(&mut self, src: &str, msg: &Message) -> (r: Vec<Action>)
        requires
            old(self)@.wf(),
        ensures
            (Step { node: final(self)@, actions: action_views(r@) }) == response_step(
                old(self)@,
                src@,
                msg@,
            ),
    {
        let (content, command) = match (&msg.content, msg.command) {
            (Some(content), Some(command)) => (content, command),
            _ => {
                return nothing();
            },
        };
        let id = command_id(msg.timestamp.as_str(), command);
        let ghost start = self@;
        match self.collectors.remove(id.as_str()) {
            Some(mut collector) => {
                let ghost before = start.collectors[id@];
                let outcome = collector.add_response(src.to_owned(), content.clone());
                proof {
                    let responses = collector@.responses;
                    assert(responses == before.responses.insert(src@, content@));
                    assert(responses.dom() =~= before.responses.dom().insert(src@));
                    decision_is_unique(responses, collector@.required_count, opt_text(outcome));
                }
                match outcome {
                    Some(text) => {
                        let to = collector.client_addr().clone();
                        only(Action::Send { to, payload: Payload::Text(text) })
                    },
                    None => {
                        let ghost kept = collector@;
                        self.collectors.insert(id, collector);
                        assert(self@.collectors =~= start.collectors.insert(id@, kept));
                        nothing()
                    },
                }
            },
            None => {
                assert(self@.collectors =~= start.collectors);
                nothing()
            },
        }
    }

    fn on_initial_state(&mut self, msg: &Message)
        ensures
            (Step { node: final(self)@, actions: Seq::empty() }) == initial_state_step(
                old(self)@,
                msg@,
            ),
    {
        if let Some(content) = &msg.content {
            self.install(parse_pairs(content.as_str()));
        }
    }

    /// Puts the pairs of another node, where they could be read, in the place of the stored
    /// ones.
    pub fn install(&mut self, outcome: Result<KeyedMap<String>, String>)
        ensures
            final(self)@ == (NodeView {
                data: installed(old(self)@.data, pairs_view(outcome)),
                ..old(self)@
            }),
    {
        if let Ok(data) = outcome {
            self.state = ServerState::from_pairs(data);
        }
    }

    /// Whether the arrival of a message can be counted.
    pub fn can_receive(&self, src: &str, msg: &Message) -> (r: bool)
        ensures
            r == receivable(self@, src@, msg@),
    {
        assert(texts(self.known_servers@).len() == self.known_servers@.len());
        if self.known_servers.len() == usize::MAX {
            return false;
        }
        match msg.msg_type {
            MsgType::Ping => match self.ping_stats.get(src) {
                Some(stats) => stats.received < u32::MAX,
                None => true,
            },
            _ => true,
        }
    }

    /// Takes in a message that came from `src`, and says what to do. `timestamp` is that of
    /// the moment, and `now` the node's clock in nanoseconds. The pairs that go to a server
    /// that joins can be read back as they are stored.
    pub fn receive_at(&mut self, src: &str, msg: Message, timestamp: &str, now: u64) -> (r: Vec<
        Action,
    >)
        requires
            old(self)@.wf(),
            receivable(old(self)@, src@, msg@),
        ensures
            final(self)@.wf(),
            (Step { node: final(self)@, actions: action_views(r@) }) == receive_step(
                old(self)@,
                src@,
                msg@,
                timestamp@,
                now,
            ),
            msg.msg_type == MsgType::Normal && msg.role == MessageRole::Join && !old(
                self,
            )@.known.contains(src@) ==> {
                &&& json_map_outcome(json_map_text(old(self)@.data)) is Ok
                &&& json_map_outcome(json_map_text(old(self)@.data))->Ok_0 == old(self)@.data
            },
    {
        let ghost start = self@;
        let ghost view = msg@;
        let r = match msg.msg_type {
            MsgType::Hello => self.on_hello(src, timestamp),
            MsgType::ServerList => {
                self.on_server_list(msg.servers);
                nothing()
            },
            MsgType::Ping => self.on_ping(src, timestamp, now),
            MsgType::Normal => match msg.role {
                MessageRole::Join => self.on_join(src, &msg, timestamp),
                MessageRole::Command => self.on_command(src, &msg, timestamp, now),
                MessageRole::Response => self.on_response(src, &msg),
                MessageRole::CurrentServers => nothing(),
            },
            MsgType::InitialState => {
                self.on_initial_state(&msg);
                nothing()
            },
            MsgType::PingResponse => {
                self.learn(src);
                nothing()
            },
        };
        proof {
            receiving_keeps_wf(start, src@, view, timestamp@, now);
        }
        r
    }

    /// Takes in a message at a reading of the wall clock.
    pub fn receive(&mut self, src: &str, msg: Message, wall: WallTime, now: u64) -> (r: Vec<
        Action,
    >)
        requires
            old(self)@.wf(),
            receivable(old(self)@, src@, msg@),
            wall.valid(),
        ensures
            final(self)@.wf(),
            (Step { node: final(self)@, actions: action_views(r@) }) == receive_step(
                old(self)@,
                src@,
                msg@,
                wall.text(),
                now,
            ),
            msg.msg_type == MsgType::Normal && msg.role == MessageRole::Join && !old(
                self,
            )@.known.contains(src@) ==> {
                &&& json_map_outcome(json_map_text(old(self)@.data)) is Ok
                &&& json_map_outcome(json_map_text(old(self)@.data))->Ok_0 == old(self)@.data
            },
    {
        let timestamp = wall.timestamp();
        self.receive_at(src, msg, timestamp.as_str(), now)
    }

    /// Takes a timer back when the time for collecting answers is over.
    pub fn timer_fired(&mut self, timer: Timer) -> (r: Vec<Action>)
        requires
            old(self)@.wf(),
        ensures
            final(self)@.wf(),
            (Step { node: final(self)@, actions: action_views(r@) }) == timeout_step(
                old(self)@,
                timer.command_id@,
                timer.client@,
                timer.response@,
            ),
    {
        let ghost start = self@;
        proof {
            timeout_keeps_wf(
                start,
                timer.command_id@,
                timer.client@,
                timer.response@,
            );
        }
        match self.collectors.remove(timer.command_id.as_str()) {
            Some(_) => {
                let text = concat2(
                    "Warning: Not all nodes responded. Using local response: ",
                    timer.response.as_str(),
                );
                only(Action::Send { to: timer.client, payload: Payload::Text(text) })
            },
            None => {
                assert(self@.collectors =~= start.collectors);
                nothing()
            },
        }
    }

    /// Whether a server is to be pinged in a round that began at `now`, judged at `checked`.
    pub fn ping_due(&self, server: &str, now: u64, checked: u64) -> (r: bool)
        ensures
            r == ping_is_due(self@, server@, now, checked),
    {
        if same(server, self.own_address.as_str()) {
            return false;
        }
        match self.last_pings.get(server) {
            Some(last) => now >= *last && now - *last >= PING_INTERVAL,
            None => checked <= now || checked - now <= PING_INTERVAL,
        }
    }

    /// Whether one more ping to a server can be counted.
    pub fn can_count_ping(&self, server: &str) -> (r: bool)
        ensures
            r == (self@.stats.contains_key(server@) ==> self@.stats[server@].sent < u32::MAX),
    {
        match self.ping_stats.get(server) {
            Some(stats) => stats.sent < u32::MAX,
            None => true,
        }
    }

    /// Notes that a ping went out to a server in a round that began at `now`; `seen` is the
    /// time of the moment.
    pub fn ping_sent(&mut self, server: &str, now: u64, seen: u64)
        requires
            old(self)@.wf(),
            old(self)@.stats.contains_key(server@) ==> old(self)@.stats[server@].sent < u32::MAX,
        ensures
            final(self)@.wf(),
            final(self)@ == pinged(old(self)@, server@, now, seen),
    {
        let before = self.stats_or_new(server, seen);
        let counted = PingStats {
            sent: before.sent + 1,
            received: before.received,
            last_seen: before.last_seen,
        };
        self.ping_stats.insert(server.to_owned(), counted);
        self.last_pings.insert(server.to_owned(), now);
        assert(self@.known == old(self)@.known);
        assert(self@.collectors == old(self)@.collectors);
    }
}

/// A list of actions is seen with each action in its place: a datagram with its receiver and
/// what it holds, a timer with what it carries.
pub proof fn actions_are_in_place(actions: Seq<Action>, i: int)
    ensures
        action_views(actions).len() == actions.len(),
        0 <= i < actions.len() ==> match actions[i] {
            Action::Send { to, payload: Payload::Message(message) } => action_views(actions)[i] == (
            ActionView::Send { to: to@, payload: PayloadView::Message(message@) }),
            Action::Send { to, payload: Payload::Text(text) } => action_views(actions)[i] == (
            ActionView::Send { to: to@, payload: PayloadView::Text(text@) }),
            Action::StartTimer { timer } => action_views(actions)[i] == (ActionView::StartTimer {
                command_id: timer.command_id@,
                client: timer.client@,
                response: timer.response@,
            }),
        },
{
}

} // verus!
