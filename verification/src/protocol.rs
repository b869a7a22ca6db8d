//! The two kinds of client and the numeric message types of the protocol.

use vstd::prelude::*;
use vstd::string::StringExecFns;
use crate::text::{lowercase, ascii_lowercase, all_ascii, to_lowercase};

verus! {

/// A sender's own session id, sent when it connects.
pub const SENDER_SESSION_ID: u32 = 100;
/// Sent to a sender whose paired receiver has left.
pub const SENDER_RECEIVER_CLOSE: u32 = 108;
/// An error reported to a sender.
pub const SENDER_ERROR: u32 = 109;
/// A sender's description of its platform and GPU.
pub const SENDER_PLATFORM_INFO: u32 = 110;
/// A receiver's own session id and the senders it may watch.
pub const RECEIVER_SESSION_ID: u32 = 200;
/// The senders a receiver may watch, after a change.
pub const RECEIVER_SENDER_LIST: u32 = 201;
/// Sent to a receiver whose paired sender has left.
pub const RECEIVER_SENDER_CLOSE: u32 = 208;
/// An error reported to a receiver.
pub const RECEIVER_ERROR: u32 = 209;

/// Which side of a stream a websocket client is.
#[derive(Debug, Clone, Copy, PartialEq, Eq, Structural)]
pub enum ClientType {
    Sender,
    Receiver,
}

/// `sender`, the subprotocol name of a sender.
pub open spec fn sender_name() -> Seq<char> {
    seq!['s', 'e', 'n', 'd', 'e', 'r']
}

/// `receiver`, the subprotocol name of a receiver.
pub open spec fn receiver_name() -> Seq<char> {
    seq!['r', 'e', 'c', 'e', 'i', 'v', 'e', 'r']
}

/// The client type that an already-lowercased subprotocol name stands for.
pub open spec fn protocol_of_name(name: Seq<char>) -> Option<ClientType> {
    if name == sender_name() {
        Some(ClientType::Sender)
    } else if name == receiver_name() {
        Some(ClientType::Receiver)
    } else {
        None
    }
}

impl ClientType {
    /// The subprotocol name of this client type.
    pub open spec fn name(self) -> Seq<char> {
        match self {
            ClientType::Sender => sender_name(),
            ClientType::Receiver => receiver_name(),
        }
    }

    /// The type a client of this type talks to.
    pub open spec fn peer(self) -> ClientType {
        match self {
            ClientType::Sender => ClientType::Receiver,
            ClientType::Receiver => ClientType::Sender,
        }
    }

    /// Reads a websocket subprotocol header, ignoring case.
    pub fn from_protocol(protocol: &str) -> (res: Option<ClientType>)
        ensures
            res == protocol_of_name(lowercase(protocol@)),
            all_ascii(protocol@) ==> res == protocol_of_name(ascii_lowercase(protocol@)),
    {
        let lower = to_lowercase(protocol);
        ClientType::from_lowercase_name(&lower)
    }

    /// Reads a subprotocol name that has already been lowercased.
    pub fn from_lowercase_name(name: &String) -> (res: Option<ClientType>)
        ensures
            res == protocol_of_name(name@),
    {
        let sender = String::from_str("sender");
        let receiver = String::from_str("receiver");
        proof {
            reveal_strlit("sender");
            reveal_strlit("receiver");
            assert(sender@ =~= sender_name());
            assert(receiver@ =~= receiver_name());
        }
        if *name == sender {
            Some(ClientType::Sender)
        } else if *name == receiver {
            Some(ClientType::Receiver)
        } else {
            None
        }
    }

    /// The subprotocol name of this client type.
    pub fn as_str(&self) -> (res: &'static str)
        ensures
            res@ == self.name(),
    {
        match self {
            ClientType::Sender => {
                proof {
                    reveal_strlit("sender");
                }
                let s = "sender";
                assert(s@ =~= sender_name());
                s
            },
            ClientType::Receiver => {
                proof {
                    reveal_strlit("receiver");
                }
                let s = "receiver";
                assert(s@ =~= receiver_name());
                s
            },
        }
    }
}

/// The message type of an error reported to a client of the given type.
pub open spec fn error_code(p: ClientType) -> u32 {
    match p {
        ClientType::Sender => SENDER_ERROR,
        ClientType::Receiver => RECEIVER_ERROR,
    }
}

/// The message type told to the peer of a leaving client of the given type.
pub open spec fn close_code(p: ClientType) -> u32 {
    match p {
        ClientType::Receiver => SENDER_RECEIVER_CLOSE,
        ClientType::Sender => RECEIVER_SENDER_CLOSE,
    }
}

/// The message type of an error reported to a client of the given type.
pub fn error_type(p: ClientType) -> (res: u32)
    ensures
        res == error_code(p),
{
    match p {
        ClientType::Sender => SENDER_ERROR,
        ClientType::Receiver => RECEIVER_ERROR,
    }
}

/// The message type told to the peer of a leaving client of the given type.
pub fn close_type(p: ClientType) -> (res: u32)
    ensures
        res == close_code(p),
{
    match p {
        ClientType::Receiver => SENDER_RECEIVER_CLOSE,
        ClientType::Sender => RECEIVER_SENDER_CLOSE,
    }
}

/// The client type a message of the given client is meant for.
pub fn get_target_protocol(current: ClientType) -> (res: ClientType)
    ensures
        res == current.peer(),
{
    match current {
        ClientType::Receiver => ClientType::Sender,
        ClientType::Sender => ClientType::Receiver,
    }
}

} // verus!
