//! Verified core of a small replicated key-value store whose nodes talk over UDP.
//!
//! A node keeps pairs, carries out commands on them, and asks the servers that it knows to do
//! the same; a client gets the answer that most of them gave. The modules:
//!
//! - `message`: the messages that nodes and clients exchange;
//! - `store`: the stored pairs and the commands on them;
//! - `consensus`: collecting the answers to a command and deciding on one;
//! - `model`: what every event does to a node, as specification;
//! - `node`: the node itself, which does what `model` says;
//! - `events`: what each event means for the peers and the clients of a node;
//! - `laws`: what follows for the network as a whole;
//! - `buffer`: bringing messages into the order of their serial numbers;
//! - `config` and `client`: the arguments of the node and of the client;
//! - `json` and `clock`: JSON texts and timestamps, made by outside crates;
//! - `keyed` and `text`: maps keyed by text, and texts themselves.

pub mod buffer;
pub mod client;
pub mod clock;
pub mod config;
pub mod consensus;
pub mod events;
pub mod json;
pub mod keyed;
pub mod laws;
pub mod message;
pub mod model;
pub mod node;
pub mod store;
pub mod text;
