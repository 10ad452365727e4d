//! The arguments of a node.

use vstd::prelude::*;

use crate::message::opt_text;
use crate::text::{concat2, decimal, decimal_text, digit, texts};

verus! {

/// A decimal digit.
pub open spec fn is_digit(c: char) -> bool {
    '0' <= c && c <= '9'
}

/// The number that a sequence of decimal digits stands for.
pub open spec fn digits_value(digits: Seq<char>) -> nat
    decreases digits.len(),
{
    if digits.len() == 0 {
        0
    } else {
        digits_value(digits.drop_last()) * 10 + (digits.last() as nat - '0' as nat) as nat
    }
}

/// A number without its sign.
pub open spec fn without_plus(text: Seq<char>) -> Seq<char> {
    if text.len() > 0 && text[0] == '+' {
        text.drop_first()
    } else {
        text
    }
}

/// The port number that a text stands for: decimal digits, at least one, with an optional plus
/// sign before them, and not more than 65535.
pub open spec fn port_value(text: Seq<char>) -> Option<nat> {
    let digits = without_plus(text);
    if digits.len() > 0 && (forall|i: int| 0 <= i < digits.len() ==> is_digit(#[trigger] digits[i]))
        && digits_value(digits) <= u16::MAX {
        Some(digits_value(digits))
    } else {
        None
    }
}

/// The decimal notation of a port number is read as that number.
pub proof fn decimal_reads_back(port: nat)
    requires
        port <= u16::MAX,
    ensures
        port_value(decimal(port)) == Some(port),
{
    decimal_has_value(port);
    assert(is_digit(decimal(port)[0]));
}

proof fn decimal_has_value(n: nat)
    ensures
        decimal(n).len() > 0,
        forall|i: int| 0 <= i < decimal(n).len() ==> is_digit(#[trigger] decimal(n)[i]),
        digits_value(decimal(n)) == n,
    decreases n,
{
    let last = digit(n % 10);
    assert(is_digit(last) && last as nat - '0' as nat == n % 10);
    if n < 10 {
        assert(decimal(n).drop_last() =~= Seq::<char>::empty());
        assert(digits_value(decimal(n).drop_last()) == 0);
    } else {
        decimal_has_value(n / 10);
        assert(decimal(n).drop_last() =~= decimal(n / 10));
    }
}

/// How `str::parse::<u16>` describes what is wrong with a text.
pub uninterp spec fn port_error_text(text: Seq<char>) -> Seq<char>;

/// Reads a port number with `str::parse::<u16>`. It succeeds exactly on the texts that stand
/// for a port number; the description of an error is `port_error_text` of the text.
#[verifier::external_body]
fn read_port(text: &str) -> (r: Result<u16, String>)
    ensures
        match r {
            Ok(port) => port_value(text@) == Some(port as nat),
            Err(error) => port_value(text@) is None && error@ == port_error_text(text@),
        },
{
    match text.parse::<u16>() {
        Ok(port) => Ok(port),
        Err(error) => Err(error.to_string()),
    }
}

/// The addresses of a node.
#[derive(Debug)]
pub struct NodeConfig {
    /// The port that it listens on.
    pub port: u16,
    /// The address that it listens on.
    pub own_address: String,
    /// The address of the first node, as it is shown.
    pub first_node_addr: Option<String>,
    /// The address of the first node, as it is used: with the port as it was given.
    pub first_server_address: Option<String>,
}

/// What a `NodeConfig` says.
#[verifier::ext_equal]
pub struct ConfigView {
    pub port: nat,
    pub own_address: Seq<char>,
    pub first_node_addr: Option<Seq<char>>,
    pub first_server_address: Option<Seq<char>>,
}

impl View for NodeConfig {
    type V = ConfigView;

    open spec fn view(&self) -> ConfigView {
        ConfigView {
            port: self.port as nat,
            own_address: self.own_address@,
            first_node_addr: opt_text(self.first_node_addr),
            first_server_address: opt_text(self.first_server_address),
        }
    }
}

/// The address of a port of this machine.
pub open spec fn local_address(port: Seq<char>) -> Seq<char> {
    "127.0.0.1:"@ + port
}

/// The address of a port of this machine.
pub fn local(port: &str) -> (r: String)
    ensures
        r@ == local_address(port@),
{
    concat2("127.0.0.1:", port)
}

/// What the arguments of a node say, the name of the program first: the port to listen on and,
/// if there is one more, the port of the first node. Otherwise, a description of the error.
pub open spec fn config_of(args: Seq<Seq<char>>) -> Result<ConfigView, Seq<char>> {
    if args.len() < 2 || args.len() > 3 {
        Err(
            "Usage:\nFirst node: cargo run <port>\nOther nodes: cargo run <port> <first_node_port>"@,
        )
    } else {
        match port_value(args[1]) {
            None => Err("Invalid port number: "@ + port_error_text(args[1])),
            Some(port) => if args.len() == 2 {
                Ok(
                    ConfigView {
                        port,
                        own_address: local_address(decimal(port)),
                        first_node_addr: None,
                        first_server_address: None,
                    },
                )
            } else {
                match port_value(args[2]) {
                    None => Err("Invalid first node port number: "@ + port_error_text(args[2])),
                    Some(first) => Ok(
                        ConfigView {
                            port,
                            own_address: local_address(decimal(port)),
                            first_node_addr: Some(local_address(decimal(first))),
                            first_server_address: Some(local_address(args[2])),
                        },
                    ),
                }
            },
        }
    }
}

/// Reads the arguments of a node, the name of the program first.
pub fn parse_args(args: &Vec<String>) -> (r: Result<NodeConfig, String>)
    ensures
        config_of(texts(args@)) == match r {
            Ok(config) => Ok::<ConfigView, Seq<char>>(config@),
            Err(error) => Err::<ConfigView, Seq<char>>(error@),
        },
{
    assert(texts(args@).len() == args@.len());
    if args.len() < 2 || args.len() > 3 {
        return Err(
            "Usage:\nFirst node: cargo run <port>\nOther nodes: cargo run <port> <first_node_port>".to_owned(),
        );
    }
    assert(texts(args@)[1] == args@[1]@);
    let port = match read_port(args[1].as_str()) {
        Ok(port) => port,
        Err(error) => {
            return Err(concat2("Invalid port number: ", error.as_str()));
        },
    };
    let own_address = local(decimal_text(port).as_str());
    if args.len() == 2 {
        return Ok(
            NodeConfig { port, own_address, first_node_addr: None, first_server_address: None },
        );
    }
    assert(texts(args@)[2] == args@[2]@);
    match read_port(args[2].as_str()) {
        Ok(first) => Ok(
            NodeConfig {
                port,
                own_address,
                first_node_addr: Some(local(decimal_text(first).as_str())),
                first_server_address: Some(local(args[2].as_str())),
            },
        ),
        Err(error) => Err(concat2("Invalid first node port number: ", error.as_str())),
    }
}

proof fn digits_value_of_push(digits: Seq<char>, c: char)
    ensures
        digits_value(digits.push(c)) == digits_value(digits) * 10 + (c as nat - '0' as nat) as nat,
{
    assert(digits.push(c).drop_last() =~= digits);
}

/// How a port number is read, digit by digit: one digit stands for itself, one more digit for
/// ten times what came before and that digit, as long as that is not more than 65535.
pub proof fn port_is_read_in_decimal(text: Seq<char>, c: char)
    requires
        '0' <= c && c <= '9',
    ensures
        port_value(seq![c]) == Some((c as nat - 48) as nat),
        port_value(text) is Some && port_value(text)->0 * 10 + (c as nat - 48) <= 65535
            ==> port_value(text.push(c)) == Some(
            (port_value(text)->0 * 10 + (c as nat - 48)) as nat,
        ),
        port_value(text) is Some && port_value(text)->0 * 10 + (c as nat - 48) > 65535
            ==> port_value(text.push(c)) is None,
        port_value(text) is None && text.len() > 1 ==> port_value(text.push(c)) is None,
{
    let one = seq![c];
    assert(one =~= Seq::<char>::empty().push(c));
    digits_value_of_push(Seq::empty(), c);
    assert(digits_value(Seq::<char>::empty()) == 0);
    assert(without_plus(one) == one);
    let more = text.push(c);
    let before = without_plus(text);
    let digits = without_plus(more);
    if text.len() > 0 {
        assert(more[0] == text[0]);
        assert(digits =~= before.push(c));
        digits_value_of_push(before, c);
        assert(forall|i: int| 0 <= i < before.len() ==> #[trigger] before[i] == digits[i]);
        if port_value(text) is None && text.len() > 1 {
            assert(before.len() > 0);
            if forall|i: int| 0 <= i < digits.len() ==> is_digit(#[trigger] digits[i]) {
                assert forall|i: int| 0 <= i < before.len() implies is_digit(
                    #[trigger] before[i],
                ) by {
                    assert(is_digit(digits[i]));
                }
                assert(digits_value(before) > u16::MAX);
            }
        } else if port_value(text) is Some {
            assert forall|i: int| 0 <= i < digits.len() implies is_digit(#[trigger] digits[i]) by {
                if i < before.len() {
                    assert(is_digit(before[i]));
                }
            }
        }
    }
}

/// What is no port number: nothing at all, and whatever holds anything but digits, except for
/// one plus sign before them, which changes nothing.
pub proof fn port_is_digits_only(text: Seq<char>, i: int)
    ensures
        text.len() == 0 ==> port_value(text) is None,
        text == seq!['+'] ==> port_value(text) is None,
        0 <= i < text.len() && !('0' <= text[i] && text[i] <= '9') && !(i == 0 && text[0] == '+')
            ==> port_value(text) is None,
        text.len() > 0 && text[0] != '+' ==> port_value(seq!['+'] + text) == port_value(text),
{
    let digits = without_plus(text);
    if 0 <= i < text.len() && !('0' <= text[i] && text[i] <= '9') && !(i == 0 && text[0] == '+') {
        let j = if text[0] == '+' {
            i - 1
        } else {
            i
        };
        assert(digits[j] == text[i]);
        assert(!is_digit(digits[j]));
    }
    if text.len() > 0 && text[0] != '+' {
        let signed = seq!['+'] + text;
        assert(signed.drop_first() =~= text);
    }
}

/// A node is given its port and at most the port of the first node. It listens on its port of
/// this machine; the first node is shown with its number, and greeted at the port as it was
/// given.
pub proof fn addresses_come_from_the_ports(args: Seq<Seq<char>>)
    ensures
        ({
            let config = config_of(args);
            &&& config is Ok <==> (args.len() == 2 || args.len() == 3) && port_value(args[1]) is Some
                && (args.len() == 3 ==> port_value(args[2]) is Some)
            &&& config is Ok ==> {
                &&& config->Ok_0.port == port_value(args[1])->0
                &&& config->Ok_0.own_address == "127.0.0.1:"@ + decimal(port_value(args[1])->0)
                &&& config->Ok_0.first_node_addr is Some <==> args.len() == 3
                &&& config->Ok_0.first_server_address is Some <==> args.len() == 3
                &&& args.len() == 3 ==> {
                    &&& config->Ok_0.first_node_addr->0 == "127.0.0.1:"@ + decimal(
                        port_value(args[2])->0,
                    )
                    &&& config->Ok_0.first_server_address->0 == "127.0.0.1:"@ + args[2]
                }
            }
        }),
{
}

/// What a user is told whose arguments do not start a node: how it is started where their
/// number is wrong, and otherwise which port cannot be read, the first one that cannot, and why.
pub proof fn wrong_arguments_are_explained(args: Seq<Seq<char>>)
    requires
        config_of(args) is Err,
    ensures
        ({
            let error = config_of(args)->Err_0;
            if args.len() != 2 && args.len() != 3 {
                error
                    == "Usage:\nFirst node: cargo run <port>\nOther nodes: cargo run <port> <first_node_port>"@
            } else if port_value(args[1]) is None {
                error == "Invalid port number: "@ + port_error_text(args[1])
            } else {
                error == "Invalid first node port number: "@ + port_error_text(args[2])
            }
        }),
{
}

/// The address of a port of this machine names the machine and the port as it was given.
pub proof fn local_address_names_the_port(port: Seq<char>)
    ensures
        local_address(port) == "127.0.0.1:"@ + port,
{
}

} // verus!
