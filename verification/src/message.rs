//! The messages that nodes and clients exchange.

use vstd::prelude::*;

use crate::text::{concat3, texts};

verus! {

/// What a message is for.
#[derive(Clone, Copy, Debug, PartialEq, Eq, Structural)]
pub enum MsgType {
    Hello,
    Normal,
    ServerList,
    Ping,
    PingResponse,
    InitialState,
}

/// An operation on the stored pairs.
#[derive(Clone, Copy, Debug, PartialEq, Eq, Structural)]
pub enum Command {
    Put,
    Get,
    Delete,
    Exists,
    List,
}

/// The part that a `Normal` message plays.
#[derive(Clone, Copy, Debug, PartialEq, Eq, Structural)]
pub enum MessageRole {
    Command,
    Response,
    Join,
    CurrentServers,
}

/// A message between two parties of the network.
#[derive(Debug)]
pub struct Message {
    pub msg_type: MsgType,
    pub serial_number: Option<u32>,
    pub timestamp: String,
    pub content: Option<String>,
    pub command: Option<Command>,
    pub servers: Option<Vec<String>>,
    pub forwarded: bool,
    pub role: MessageRole,
}

/// What a `Message` says.
#[verifier::ext_equal]
pub struct MessageView {
    pub msg_type: MsgType,
    pub serial_number: Option<u32>,
    pub timestamp: Seq<char>,
    pub content: Option<Seq<char>>,
    pub command: Option<Command>,
    pub servers: Option<Seq<Seq<char>>>,
    pub forwarded: bool,
    pub role: MessageRole,
}

/// The contents of a string that may be missing.
pub open spec fn opt_text(s: Option<String>) -> Option<Seq<char>> {
    match s {
        Some(s) => Some(s@),
        None => None,
    }
}

/// The contents of a list that may be missing.
pub open spec fn opt_texts(list: Option<Vec<String>>) -> Option<Seq<Seq<char>>> {
    match list {
        Some(list) => Some(texts(list@)),
        None => None,
    }
}

impl View for Message {
    type V = MessageView;

    open spec fn view(&self) -> MessageView {
        MessageView {
            msg_type: self.msg_type,
            serial_number: self.serial_number,
            timestamp: self.timestamp@,
            content: opt_text(self.content),
            command: self.command,
            servers: opt_texts(self.servers),
            forwarded: self.forwarded,
            role: self.role,
        }
    }
}

/// A copy of a list of strings.
pub fn copy_texts(list: &Vec<String>) -> (r: Vec<String>)
    ensures
        texts(r@) == texts(list@),
        r@.len() == list@.len(),
{
    let mut r: Vec<String> = Vec::new();
    let mut i: usize = 0;
    while i < list.len()
        invariant
            i <= list.len(),
            texts(r@) == texts(list@).take(i as int),
        decreases list.len() - i,
    {
        let ghost before = texts(r@);
        r.push(list[i].clone());
        assert(texts(r@) =~= before.push(list[i as int]@));
        assert(texts(r@) =~= texts(list@).take(i + 1));
        i += 1;
    }
    assert(texts(list@).take(i as int) =~= texts(list@));
    assert(texts(r@).len() == r@.len());
    r
}

impl Clone for Message {
    fn clone(&self) -> (r: Self)
        ensures
            r@ == self@,
    {
        let content = match &self.content {
            Some(text) => Some(text.clone()),
            None => None,
        };
        let servers = match &self.servers {
            Some(list) => Some(copy_texts(list)),
            None => None,
        };
        Message {
            msg_type: self.msg_type,
            serial_number: self.serial_number,
            timestamp: self.timestamp.clone(),
            content,
            command: self.command,
            servers,
            forwarded: self.forwarded,
            role: self.role,
        }
    }
}

/// The name of a command.
pub open spec fn command_name(command: Command) -> Seq<char> {
    match command {
        Command::Put => "Put"@,
        Command::Get => "Get"@,
        Command::Delete => "Delete"@,
        Command::Exists => "Exists"@,
        Command::List => "List"@,
    }
}

/// What the answers to a command are collected under: the timestamp of the command's
/// message, a hyphen, and the command's name.
pub open spec fn command_id_of(timestamp: Seq<char>, command: Command) -> Seq<char> {
    timestamp + "-"@ + command_name(command)
}

/// What the answers to a command are collected under.
pub fn command_id(timestamp: &str, command: Command) -> (r: String)
    ensures
        r@ == command_id_of(timestamp@, command),
{
    let name = match command {
        Command::Put => "Put",
        Command::Get => "Get",
        Command::Delete => "Delete",
        Command::Exists => "Exists",
        Command::List => "List",
    };
    concat3(timestamp, "-", name)
}

/// Different commands, and equal commands with different timestamps, are collected under
/// different identifiers.
pub proof fn command_ids_differ(t1: Seq<char>, c1: Command, t2: Seq<char>, c2: Command)
    ensures
        command_id_of(t1, c1) == command_id_of(t2, c2) <==> t1 == t2 && c1 == c2,
{
    reveal_strlit("-");
    reveal_strlit("Put");
    reveal_strlit("Get");
    reveal_strlit("Delete");
    reveal_strlit("Exists");
    reveal_strlit("List");
    let a = command_id_of(t1, c1);
    let b = command_id_of(t2, c2);
    if a == b {
        let n1 = command_name(c1);
        let n2 = command_name(c2);
        assert(a[a.len() - 1] == n1[n1.len() - 1]);
        assert(b[b.len() - 1] == n2[n2.len() - 1]);
        assert(a[a.len() - 2] == n1[n1.len() - 2]);
        assert(b[b.len() - 2] == n2[n2.len() - 2]);
        assert(a[a.len() - 3] == n1[n1.len() - 3]);
        assert(b[b.len() - 3] == n2[n2.len() - 3]);
        assert(c1 == c2);
        assert(t1 =~= a.take(a.len() - 1 - n1.len()));
        assert(t2 =~= b.take(b.len() - 1 - n2.len()));
    }
}

/// A message in which only the timestamp varies: no serial number, content, command or list,
/// and not forwarded.
pub open spec fn bare_message(
    msg_type: MsgType,
    role: MessageRole,
    timestamp: Seq<char>,
) -> MessageView {
    MessageView {
        msg_type,
        serial_number: None,
        timestamp,
        content: None,
        command: None,
        servers: None,
        forwarded: false,
        role,
    }
}

fn bare(msg_type: MsgType, role: MessageRole, timestamp: String) -> (r: Message)
    ensures
        r@ == bare_message(msg_type, role, timestamp@),
{
    Message {
        msg_type,
        serial_number: None,
        timestamp,
        content: None,
        command: None,
        servers: None,
        forwarded: false,
        role,
    }
}

/// The greeting that a starting node sends to the first node.
pub fn hello_message(timestamp: &str) -> (r: Message)
    ensures
        r@ == bare_message(MsgType::Hello, MessageRole::Command, timestamp@),
{
    bare(MsgType::Hello, MessageRole::Command, timestamp.to_owned())
}

/// The question whether a node is there.
pub fn ping_message(timestamp: &str) -> (r: Message)
    ensures
        r@ == bare_message(MsgType::Ping, MessageRole::Command, timestamp@),
{
    bare(MsgType::Ping, MessageRole::Command, timestamp.to_owned())
}

/// The answer to a ping.
pub fn ping_response_message(timestamp: &str) -> (r: Message)
    ensures
        r@ == bare_message(MsgType::PingResponse, MessageRole::Response, timestamp@),
{
    bare(MsgType::PingResponse, MessageRole::Response, timestamp.to_owned())
}

/// The list of known servers, as it goes out after a greeting.
pub open spec fn server_list(timestamp: Seq<char>, servers: Seq<Seq<char>>) -> MessageView {
    MessageView {
        servers: Some(servers),
        ..bare_message(MsgType::ServerList, MessageRole::Command, timestamp)
    }
}

/// The list of known servers, as it goes out after a greeting.
pub fn server_list_message(timestamp: &str, servers: &Vec<String>) -> (r: Message)
    ensures
        r@ == server_list(timestamp@, texts(servers@)),
{
    let mut r = bare(MsgType::ServerList, MessageRole::Command, timestamp.to_owned());
    r.servers = Some(copy_texts(servers));
    r
}

/// A message with a content, which is neither forwarded nor holds a command or a list.
pub open spec fn content_message(
    msg_type: MsgType,
    role: MessageRole,
    serial_number: Option<u32>,
    timestamp: Seq<char>,
    content: Seq<char>,
) -> MessageView {
    MessageView {
        serial_number,
        content: Some(content),
        ..bare_message(msg_type, role, timestamp)
    }
}

/// A message with a content, which is neither forwarded nor holds a command or a list.
pub fn message_with_content(
    msg_type: MsgType,
    role: MessageRole,
    serial_number: Option<u32>,
    timestamp: &str,
    content: String,
) -> (r: Message)
    ensures
        r@ == content_message(msg_type, role, serial_number, timestamp@, content@),
{
    let mut r = bare(msg_type, role, timestamp.to_owned());
    r.serial_number = serial_number;
    r.content = Some(content);
    r
}

/// An identifier shows the timestamp and the command that it was made of.
pub proof fn command_id_is_readable(timestamp: Seq<char>)
    ensures
        command_id_of(timestamp, Command::Put) == timestamp + "-Put"@,
        command_id_of(timestamp, Command::Get) == timestamp + "-Get"@,
        command_id_of(timestamp, Command::Delete) == timestamp + "-Delete"@,
        command_id_of(timestamp, Command::Exists) == timestamp + "-Exists"@,
        command_id_of(timestamp, Command::List) == timestamp + "-List"@,
{
    reveal_strlit("-");
    reveal_strlit("Put");
    reveal_strlit("Get");
    reveal_strlit("Delete");
    reveal_strlit("Exists");
    reveal_strlit("List");
    reveal_strlit("-Put");
    reveal_strlit("-Get");
    reveal_strlit("-Delete");
    reveal_strlit("-Exists");
    reveal_strlit("-List");
    assert("-Put"@ =~= "-"@ + "Put"@);
    assert("-Get"@ =~= "-"@ + "Get"@);
    assert("-Delete"@ =~= "-"@ + "Delete"@);
    assert("-Exists"@ =~= "-"@ + "Exists"@);
    assert("-List"@ =~= "-"@ + "List"@);
    assert(timestamp + "-"@ + "Put"@ =~= timestamp + ("-"@ + "Put"@));
    assert(timestamp + "-"@ + "Get"@ =~= timestamp + ("-"@ + "Get"@));
    assert(timestamp + "-"@ + "Delete"@ =~= timestamp + ("-"@ + "Delete"@));
    assert(timestamp + "-"@ + "Exists"@ =~= timestamp + ("-"@ + "Exists"@));
    assert(timestamp + "-"@ + "List"@ =~= timestamp + ("-"@ + "List"@));
}

/// The view of a message says of each part what the message holds: a text where it has one,
/// and every name of a list in its place.
pub proof fn view_says_each_part(msg: Message, i: int)
    ensures
        msg@.msg_type == msg.msg_type,
        msg@.serial_number == msg.serial_number,
        msg@.timestamp == msg.timestamp@,
        msg@.content is Some <==> msg.content is Some,
        msg.content is Some ==> msg@.content->0 == msg.content->0@,
        msg@.command == msg.command,
        msg@.servers is Some <==> msg.servers is Some,
        msg.servers is Some ==> {
            &&& msg@.servers->0.len() == msg.servers->0@.len()
            &&& 0 <= i < msg@.servers->0.len() ==> msg@.servers->0[i] == msg.servers->0@[i]@
        },
        msg@.forwarded == msg.forwarded,
        msg@.role == msg.role,
{
}

} // verus!
