use vstd::prelude::*;

use crate::addr::Addr;
use crate::channel::router::{CommandResponse, CommandResult};
use crate::message::Message;
use crate::text::concat2;

verus! {

/// A websocket client: its id and the address it connected from. The
/// address is kept as its identity (`addr`) and as it is printed
/// (`addr_text`).
#[derive(Clone, Debug)]
pub struct Connection {
    pub id: String,
    pub addr: Addr,
    pub addr_text: String,
}

/// `c` is a lowercase hexadecimal digit.
pub open spec fn is_lower_hex_digit(c: char) -> bool {
    ('0' as int <= c as int <= '9' as int) || ('a' as int <= c as int <= 'f' as int)
}

/// `s` is a version 4 (random) UUID in its hyphenated lowercase text form:
/// 36 characters, hyphens at positions 8, 13, 18 and 23, lowercase hex
/// digits elsewhere, the version digit `4` at position 14, and at position
/// 19 a digit whose two top bits are `10` (the RFC 4122 variant).
pub open spec fn is_uuid_v4_text(s: Seq<char>) -> bool {
    &&& s.len() == 36
    &&& forall|i: int|
        0 <= i < 36 ==> if i == 8 || i == 13 || i == 18 || i == 23 {
            #[trigger] s[i] == '-'
        } else {
            is_lower_hex_digit(s[i])
        }
    &&& s[14] == '4'
    &&& (s[19] == '8' || s[19] == '9' || s[19] == 'a' || s[19] == 'b')
}

/// A fresh random UUID from `uuid::Uuid::new_v4`, as its `Display` writes it.
/// `new_v4` sets the version bits to 4 and the variant bits to `10` on
/// random bits, and `Display` writes the hyphenated lowercase form; which
/// UUID comes out is left open, as it is random.
#[verifier::external_body]
fn random_uuid() -> (r: String)
    ensures
        is_uuid_v4_text(r@),
{
    uuid::Uuid::new_v4().to_string()
}

/// How writing a frame to the websocket went.
#[derive(Clone, Copy, Debug, PartialEq, Eq, Structural)]
pub enum WriteOutcome {
    Written,
    /// The websocket reported that the connection is already closed.
    ConnectionClosed,
    /// The websocket reported another error.
    WebSocketError,
    /// The write failed with an error that did not come from the websocket.
    OtherError,
}

impl Connection {
    /// A connection from `addr` with the given id, or with a fresh random
    /// (version 4) UUID as its id when none is given.
    pub fn new(id: Option<String>, addr: Addr, addr_text: String) -> (c: Connection)
        ensures
            id matches Some(i) ==> c.id == i,
            id is None ==> is_uuid_v4_text(c.id@),
            c.addr == addr,
            c.addr_text == addr_text,
    {
        let id = match id {
            Some(i) => i,
            None => random_uuid(),
        };
        Connection { id, addr, addr_text }
    }

    /// A copy of this connection.
    pub fn duplicate(&self) -> (r: Connection)
        ensures
            r == *self,
    {
        Connection { id: self.id.clone(), addr: self.addr, addr_text: self.addr_text.clone() }
    }

    /// What the connection answers its client after a command: a refused
    /// command and an unauthorized one are answered with an `Error` message
    /// that carries the reason; any other response is not answered.
    pub fn reply_to(result: &CommandResult) -> (r: Option<Message>)
        ensures
            match result {
                Err(e) => r matches Some(Message::Error { message }) && message == e,
                Ok(CommandResponse::Unauthorized(m)) => r matches Some(Message::Error { message }) && message == m,
                Ok(_) => r is None,
            },
    {
        match result {
            Err(e) => Some(Message::Error { message: e.clone() }),
            Ok(CommandResponse::Unauthorized(m)) => Some(Message::Error { message: m.clone() }),
            Ok(_) => None,
        }
    }

    /// The answer to a text frame that does not parse as a message, given the
    /// parser's description of the problem.
    pub fn invalid_message_reply(problem: &str) -> (r: Message)
        ensures
            r matches Message::Error { message } && message@ == "Invalid message: "@ + problem@,
    {
        Message::Error { message: concat2("Invalid message: ", problem) }
    }

    /// Whether forwarding outgoing frames to the websocket goes on after a
    /// write: it stops when the websocket reports any error, and goes on after
    /// a success or an error that did not come from the websocket.
    pub fn keep_forwarding(outcome: WriteOutcome) -> (r: bool)
        ensures
            r == (outcome == WriteOutcome::Written || outcome == WriteOutcome::OtherError),
    {
        match outcome {
            WriteOutcome::Written => true,
            WriteOutcome::ConnectionClosed => false,
            WriteOutcome::WebSocketError => false,
            WriteOutcome::OtherError => true,
        }
    }
}

} // verus!
