//! The client: from its arguments to the message that it sends.

use vstd::prelude::*;
use vstd::utf8::is_ascii_chars;

use crate::clock::WallTime;
use crate::config::{local, local_address};
use crate::json::{json_outcome, json_pair_text, pair_text};
use crate::message::{
    content_message, message_with_content, Command, Message, MessageRole, MessageView, MsgType,
};
use crate::store::put_pair;
use crate::text::{concat3, same, texts};

verus! {

/// The lowercase of an ASCII character.
pub open spec fn ascii_lower(c: char) -> char {
    if 'A' <= c && c <= 'Z' {
        (c as u32 + 32) as char
    } else {
        c
    }
}

/// The text that `str::to_lowercase` makes of a text.
pub uninterp spec fn lowercase_text(text: Seq<char>) -> Seq<char>;

/// Turns a text into lowercase with `str::to_lowercase`. The result is `lowercase_text` of the
/// text; in an ASCII text, each capital letter becomes the small one.
#[verifier::external_body]
fn lowercase(text: &str) -> (r: String)
    ensures
        r@ == lowercase_text(text@),
        is_ascii_chars(text@) ==> r@ == text@.map_values(|c: char| ascii_lower(c)),
{
    text.to_lowercase()
}

/// What is wrong with the arguments of the client.
#[derive(Clone, Copy, Debug, PartialEq, Eq, Structural)]
pub enum ClientError {
    /// The port or the command is missing.
    Usage,
    /// `put` takes a key and a value.
    Put,
    /// `get` takes a key.
    Get,
    /// `delete` takes a key.
    Delete,
    /// `exists` takes a key.
    Exists,
    /// `list` takes nothing.
    List,
}

/// How the client is used.
pub open spec fn usage(program: Seq<char>) -> Seq<char> {
    "Usage: "@ + program
        + " <server_port> <command> [key] [value]\nCommands:\n  put <key> <value>\n  get <key>\n  delete <key>\n  exists <key>\n  list"@
}

impl ClientError {
    /// What the user is told.
    pub open spec fn text(self, program: Seq<char>) -> Seq<char> {
        match self {
            ClientError::Usage => usage(program),
            ClientError::Put => "Put command requires key and value"@,
            ClientError::Get => "Get command requires key"@,
            ClientError::Delete => "Delete command requires key"@,
            ClientError::Exists => "Exists command requires key"@,
            ClientError::List => "List command doesn't take any arguments"@,
        }
    }

    /// What the user is told.
    pub fn describe(&self, program: &str) -> (r: String)
        ensures
            r@ == self.text(program@),
    {
        match self {
            ClientError::Usage => concat3(
                "Usage: ",
                program,
                " <server_port> <command> [key] [value]\nCommands:\n  put <key> <value>\n  get <key>\n  delete <key>\n  exists <key>\n  list",
            ),
            ClientError::Put => "Put command requires key and value".to_owned(),
            ClientError::Get => "Get command requires key".to_owned(),
            ClientError::Delete => "Delete command requires key".to_owned(),
            ClientError::Exists => "Exists command requires key".to_owned(),
            ClientError::List => "List command doesn't take any arguments".to_owned(),
        }
    }
}

/// A client's message.
pub open spec fn client_message(
    command: Option<Command>,
    content: Seq<char>,
    timestamp: Seq<char>,
) -> MessageView {
    MessageView {
        command,
        ..content_message(
            MsgType::Normal,
            MessageRole::Command,
            Some(1u32),
            timestamp,
            content,
        )
    }
}

/// The message for a command word in lowercase, with all arguments of the client. A word that
/// is no command goes out as it is, without a command.
pub open spec fn message_for(
    word: Seq<char>,
    args: Seq<Seq<char>>,
    timestamp: Seq<char>,
) -> Result<MessageView, ClientError> {
    if word == "put"@ {
        if args.len() != 5 {
            Err(ClientError::Put)
        } else {
            Ok(
                client_message(
                    Some(Command::Put),
                    json_pair_text("key"@, args[3], "value"@, args[4]),
                    timestamp,
                ),
            )
        }
    } else if word == "get"@ {
        if args.len() != 4 {
            Err(ClientError::Get)
        } else {
            Ok(client_message(Some(Command::Get), args[3], timestamp))
        }
    } else if word == "delete"@ {
        if args.len() != 4 {
            Err(ClientError::Delete)
        } else {
            Ok(client_message(Some(Command::Delete), args[3], timestamp))
        }
    } else if word == "exists"@ {
        if args.len() != 4 {
            Err(ClientError::Exists)
        } else {
            Ok(client_message(Some(Command::Exists), args[3], timestamp))
        }
    } else if word == "list"@ {
        if args.len() != 3 {
            Err(ClientError::List)
        } else {
            Ok(client_message(Some(Command::List), Seq::empty(), timestamp))
        }
    } else {
        Ok(client_message(None, word, timestamp))
    }
}

/// A client's message.
fn message_of(command: Option<Command>, content: String, timestamp: &str) -> (r: Message)
    ensures
        r@ == client_message(command, content@, timestamp@),
{
    let mut r = message_with_content(
        MsgType::Normal,
        MessageRole::Command,
        Some(1),
        timestamp,
        content,
    );
    r.command = command;
    r
}

/// The message for a command word in lowercase, with all arguments of the client. The content
/// of a `put` names the key and the value that were given.
pub fn build_message(word: &str, args: &Vec<String>, timestamp: &str) -> (r: Result<
    Message,
    ClientError,
>)
    requires
        args@.len() >= 3,
    ensures
        message_for(word@, texts(args@), timestamp@) == match r {
            Ok(message) => Ok::<MessageView, ClientError>(message@),
            Err(error) => Err::<MessageView, ClientError>(error),
        },
        r is Ok && word@ == "put"@ ==> {
            let content = r->Ok_0@.content->0;
            &&& json_outcome(content) is Ok
            &&& put_pair(json_outcome(content)->Ok_0) == Some((args@[3]@, args@[4]@))
        },
{
    assert(texts(args@).len() == args@.len());
    if same(word, "put") {
        if args.len() != 5 {
            return Err(ClientError::Put);
        }
        assert(texts(args@)[3] == args@[3]@ && texts(args@)[4] == args@[4]@);
        proof {
            reveal_strlit("key");
            reveal_strlit("value");
            assert("key"@.len() != "value"@.len());
        }
        let content = pair_text("key", args[3].as_str(), "value", args[4].as_str());
        Ok(message_of(Some(Command::Put), content, timestamp))
    } else if same(word, "get") {
        if args.len() != 4 {
            return Err(ClientError::Get);
        }
        assert(texts(args@)[3] == args@[3]@);
        Ok(message_of(Some(Command::Get), args[3].clone(), timestamp))
    } else if same(word, "delete") {
        if args.len() != 4 {
            return Err(ClientError::Delete);
        }
        assert(texts(args@)[3] == args@[3]@);
        Ok(message_of(Some(Command::Delete), args[3].clone(), timestamp))
    } else if same(word, "exists") {
        if args.len() != 4 {
            return Err(ClientError::Exists);
        }
        assert(texts(args@)[3] == args@[3]@);
        Ok(message_of(Some(Command::Exists), args[3].clone(), timestamp))
    } else if same(word, "list") {
        if args.len() != 3 {
            return Err(ClientError::List);
        }
        Ok(message_of(Some(Command::List), String::new(), timestamp))
    } else {
        Ok(message_of(None, word.to_owned(), timestamp))
    }
}

/// What the client sends, and where to.
#[derive(Debug)]
pub struct ClientRequest {
    /// The command word in lowercase.
    pub word: String,
    /// The address of the server.
    pub server_addr: String,
    /// The message.
    pub message: Message,
}

/// What a `ClientRequest` says.
#[verifier::ext_equal]
pub struct RequestView {
    pub word: Seq<char>,
    pub server_addr: Seq<char>,
    pub message: MessageView,
}

/// What the arguments of the client ask for.
pub open spec fn request_for(args: Seq<Seq<char>>, timestamp: Seq<char>) -> Result<
    RequestView,
    ClientError,
> {
    if args.len() < 3 {
        Err(ClientError::Usage)
    } else {
        let word = lowercase_text(args[2]);
        match message_for(word, args, timestamp) {
            Ok(message) => Ok(
                RequestView { word, server_addr: local_address(args[1]), message },
            ),
            Err(error) => Err(error),
        }
    }
}

/// Reads the arguments of the client, the name of the program first: the port of the server,
/// the command, and what belongs to it.
pub fn client_request(args: &Vec<String>, wall: WallTime) -> (r: Result<ClientRequest, ClientError>)
    requires
        wall.valid(),
    ensures
        request_for(texts(args@), wall.text()) == match r {
            Ok(request) => Ok::<RequestView, ClientError>(
                RequestView {
                    word: request.word@,
                    server_addr: request.server_addr@,
                    message: request.message@,
                },
            ),
            Err(error) => Err::<RequestView, ClientError>(error),
        },
        args@.len() < 3 ==> r is Err && r->Err_0 == ClientError::Usage,
        args@.len() >= 3 ==> {
            let word = lowercase_text(args@[2]@);
            match (r, message_for(word, texts(args@), wall.text())) {
                (Ok(request), Ok(message)) => {
                    &&& request.word@ == word
                    &&& request.server_addr@ == local_address(args@[1]@)
                    &&& request.message@ == message
                    &&& word == "put"@ ==> {
                        let content = request.message@.content->0;
                        &&& json_outcome(content) is Ok
                        &&& put_pair(json_outcome(content)->Ok_0) == Some((args@[3]@, args@[4]@))
                    }
                },
                (Err(error), Err(expected)) => error == expected,
                _ => false,
            }
        },
        args@.len() >= 3 && is_ascii_chars(args@[2]@) ==> lowercase_text(args@[2]@)
            == args@[2]@.map_values(|c: char| ascii_lower(c)),
{
    assert(texts(args@).len() == args@.len());
    if args.len() < 3 {
        return Err(ClientError::Usage);
    }
    assert(texts(args@)[1] == args@[1]@ && texts(args@)[2] == args@[2]@);
    let word = lowercase(args[2].as_str());
    let timestamp = wall.timestamp();
    match build_message(word.as_str(), args, timestamp.as_str()) {
        Ok(message) => Ok(
            ClientRequest { word, server_addr: local(args[1].as_str()), message },
        ),
        Err(error) => Err(error),
    }
}

/// The command words are five different words.
proof fn words_differ()
    ensures
        "put"@ != "get"@,
        "put"@ != "delete"@,
        "put"@ != "exists"@,
        "put"@ != "list"@,
        "get"@ != "delete"@,
        "get"@ != "exists"@,
        "get"@ != "list"@,
        "delete"@ != "exists"@,
        "delete"@ != "list"@,
        "exists"@ != "list"@,
{
    reveal_strlit("put");
    reveal_strlit("get");
    reveal_strlit("delete");
    reveal_strlit("exists");
    reveal_strlit("list");
    assert("put"@[0] != "get"@[0]);
    assert("delete"@[0] != "exists"@[0]);
    assert("put"@.len() == 3);
    assert("get"@.len() == 3);
    assert("list"@.len() == 4);
    assert("delete"@.len() == 6);
    assert("exists"@.len() == 6);
}

/// Whatever the client sends is a numbered command message of its own, with the timestamp of
/// the moment, a content, and no list of servers.
pub proof fn requests_are_command_messages(
    word: Seq<char>,
    args: Seq<Seq<char>>,
    timestamp: Seq<char>,
)
    requires
        message_for(word, args, timestamp) is Ok,
    ensures
        ({
            let message = message_for(word, args, timestamp)->Ok_0;
            &&& message.msg_type == MsgType::Normal
            &&& message.role == MessageRole::Command
            &&& message.serial_number == Some(1u32)
            &&& message.timestamp == timestamp
            &&& message.content is Some
            &&& message.servers is None
            &&& !message.forwarded
        }),
{
}

/// To get, delete or look for a key, the client sends the named command with the key exactly
/// as it was given; without exactly one key, the command is refused.
pub proof fn key_goes_out_unchanged(
    word: Seq<char>,
    command: Command,
    args: Seq<Seq<char>>,
    timestamp: Seq<char>,
)
    requires
        (word == "get"@ && command == Command::Get) || (word == "delete"@ && command
            == Command::Delete) || (word == "exists"@ && command == Command::Exists),
    ensures
        message_for(word, args, timestamp) is Ok <==> args.len() == 4,
        args.len() == 4 ==> {
            let message = message_for(word, args, timestamp)->Ok_0;
            &&& message.command == Some(command)
            &&& message.content == Some(args[3])
        },
        args.len() != 4 ==> message_for(word, args, timestamp)->Err_0 == match command {
            Command::Get => ClientError::Get,
            Command::Delete => ClientError::Delete,
            _ => ClientError::Exists,
        },
{
    words_differ();
}

/// To put a pair, the client sends the JSON text that names the key and the value exactly as
/// they were given; without exactly one key and one value, the command is refused.
pub proof fn pair_goes_out_unchanged(args: Seq<Seq<char>>, timestamp: Seq<char>)
    ensures
        message_for("put"@, args, timestamp) is Ok <==> args.len() == 5,
        args.len() == 5 ==> {
            let message = message_for("put"@, args, timestamp)->Ok_0;
            &&& message.command == Some(Command::Put)
            &&& message.content == Some(json_pair_text("key"@, args[3], "value"@, args[4]))
        },
        args.len() != 5 ==> message_for("put"@, args, timestamp)->Err_0 == ClientError::Put,
{
}

/// To list the pairs, the client sends the command with an empty content; with anything after
/// it, the command is refused.
pub proof fn list_goes_out_empty(args: Seq<Seq<char>>, timestamp: Seq<char>)
    ensures
        message_for("list"@, args, timestamp) is Ok <==> args.len() == 3,
        args.len() == 3 ==> {
            let message = message_for("list"@, args, timestamp)->Ok_0;
            &&& message.command == Some(Command::List)
            &&& message.content is Some
            &&& message.content->0.len() == 0
        },
        args.len() != 3 ==> message_for("list"@, args, timestamp)->Err_0 == ClientError::List,
{
    words_differ();
}

/// Any other word goes out as it is, as a message that names no command.
pub proof fn other_words_name_no_command(
    word: Seq<char>,
    args: Seq<Seq<char>>,
    timestamp: Seq<char>,
)
    requires
        word != "put"@,
        word != "get"@,
        word != "delete"@,
        word != "exists"@,
        word != "list"@,
    ensures
        message_for(word, args, timestamp) is Ok,
        message_for(word, args, timestamp)->Ok_0.command is None,
        message_for(word, args, timestamp)->Ok_0.content == Some(word),
{
}

/// The name of the program, the port and the way the command was typed have no part in the
/// message.
pub proof fn message_rests_on_the_operands(
    word: Seq<char>,
    args: Seq<Seq<char>>,
    others: Seq<Seq<char>>,
    timestamp: Seq<char>,
)
    requires
        args.len() >= 3,
        args.len() == others.len(),
        args.skip(3) == others.skip(3),
    ensures
        message_for(word, args, timestamp) == message_for(word, others, timestamp),
{
    if args.len() >= 4 {
        assert(args[3] == args.skip(3)[0]);
        assert(others[3] == others.skip(3)[0]);
    }
    if args.len() >= 5 {
        assert(args[4] == args.skip(3)[1]);
        assert(others[4] == others.skip(3)[1]);
    }
}

/// What the user is told names what the command lacks.
pub proof fn errors_name_what_is_missing(program: Seq<char>)
    ensures
        ClientError::Put.text(program) == "Put command requires key and value"@,
        ClientError::Get.text(program) == "Get command requires key"@,
        ClientError::Delete.text(program) == "Delete command requires key"@,
        ClientError::Exists.text(program) == "Exists command requires key"@,
        ClientError::List.text(program) == "List command doesn't take any arguments"@,
        ClientError::Usage.text(program) == "Usage: "@ + program
            + " <server_port> <command> [key] [value]\nCommands:\n  put <key> <value>\n  get <key>\n  delete <key>\n  exists <key>\n  list"@,
{
}

/// A capital letter becomes the small letter at its place in the alphabet, and any other
/// character stays.
pub proof fn capitals_become_small(c: char)
    ensures
        'A' <= c && c <= 'Z' ==> 'a' <= ascii_lower(c) && ascii_lower(c) <= 'z' && ascii_lower(c)
            as int - 'a' as int == c as int - 'A' as int,
        !('A' <= c && c <= 'Z') ==> ascii_lower(c) == c,
{
}

/// A port and a command are needed. The request goes to that port of this machine, as it was
/// given, and the command may be typed in small or capital letters: the message is that for the
/// word in lowercase.
pub proof fn request_goes_to_the_given_port(args: Seq<Seq<char>>, timestamp: Seq<char>)
    ensures
        args.len() < 3 ==> request_for(args, timestamp) is Err && request_for(
            args,
            timestamp,
        )->Err_0 == ClientError::Usage,
        args.len() >= 3 ==> {
            let word = lowercase_text(args[2]);
            let request = request_for(args, timestamp);
            &&& request is Ok <==> message_for(word, args, timestamp) is Ok
            &&& request is Ok ==> {
                &&& request->Ok_0.word == word
                &&& request->Ok_0.server_addr == "127.0.0.1:"@ + args[1]
                &&& request->Ok_0.message == message_for(word, args, timestamp)->Ok_0
            }
            &&& request is Err ==> request->Err_0 == message_for(word, args, timestamp)->Err_0
        },
{
}

/// Arguments that differ in the name of the program, and in a command word that is the same in
/// lowercase, ask for the same.
pub proof fn request_ignores_capitals(
    args: Seq<Seq<char>>,
    others: Seq<Seq<char>>,
    timestamp: Seq<char>,
)
    requires
        args.len() >= 3,
        args.len() == others.len(),
        args[1] == others[1],
        lowercase_text(args[2]) == lowercase_text(others[2]),
        args.skip(3) == others.skip(3),
    ensures
        request_for(args, timestamp) == request_for(others, timestamp),
{
    message_rests_on_the_operands(lowercase_text(args[2]), args, others, timestamp);
}

} // verus!
