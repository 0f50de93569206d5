use vstd::prelude::*;

use vstd::string::*;

use crate::auth::AuthConfig;
use crate::text::concat3;

verus! {

/// A message of the websocket protocol and of the channel API, as a client
/// sends it or the server answers it. On the wire each is a JSON object whose
/// `type` field names the variant in snake case.
#[derive(Clone, Debug)]
pub enum Message {
    Join { channel: String, presence: bool },
    Leave { channel: String },
    Disconnect,
    /// `body` is the JSON text of the broadcast body, relayed as it came.
    Broadcast { channel: String, body: String },
    Presence { channel: String, connections: Vec<String> },
    Error { message: String },
    ChannelGetAll,
    ChannelGet { name: String },
    ChannelCreate { name: String, auth: Option<AuthConfig>, presence: bool },
    ChannelDelete { name: String },
}

/// Requests of the channel API.
#[derive(Clone, Debug)]
pub enum ChannelApiMessage {
    GetChannels,
    CreateChannel { name: String },
    DeleteChannel { name: String },
    GetChannel { name: String },
}

/// A websocket frame that the server sends to a connection.
#[derive(Clone, Debug)]
pub enum Frame {
    Text(String),
    Binary(Vec<u8>),
    /// A protocol message, sent as a text frame that holds its JSON form.
    Json(Message),
}

/// What `{:?}` prints for a string: the string quoted, with its special
/// characters escaped.
pub uninterp spec fn str_debug(s: Seq<char>) -> Seq<char>;

/// Formats a string with `<str as Debug>::fmt`: trusted to return the text
/// that `str_debug` names for it.
#[verifier::external_body]
pub fn debug_str(s: &str) -> (r: String)
    ensures
        r@ == str_debug(s@),
{
    format!("{:?}", s)
}

/// What `{:?}` prints for the `serde_json::Value` that the JSON text `text`
/// parses to, or `None` when `text` is not JSON.
pub uninterp spec fn json_debug(text: Seq<char>) -> Option<Seq<char>>;

/// Parses `text` with `serde_json::from_str` into a `serde_json::Value` and
/// formats that with its `Debug`: trusted to return what `json_debug` names
/// for the text.
#[verifier::external_body]
fn debug_json(text: &str) -> (r: Option<String>)
    ensures
        match r {
            Some(d) => json_debug(text@) == Some(d@),
            None => json_debug(text@) is None,
        },
{
    match serde_json::from_str::<serde_json::Value>(text) {
        Ok(v) => Some(format!("{:?}", v)),
        Err(_) => None,
    }
}

/// What `{:?}` prints for a broadcast body: the JSON value it holds, or, for
/// a body that is not JSON, the text as a string.
pub open spec fn body_debug(body: Seq<char>) -> Seq<char> {
    match json_debug(body) {
        Some(d) => d,
        None => str_debug(body),
    }
}

/// The text of the elements, each as `{:?}` prints a string, separated by ", ".
pub open spec fn debug_list(items: Seq<Seq<char>>) -> Seq<char>
    decreases items.len(),
{
    if items.len() == 0 {
        Seq::empty()
    } else if items.len() == 1 {
        str_debug(items[0])
    } else {
        debug_list(items.drop_last()) + ", "@ + str_debug(items.last())
    }
}

/// What `{:?}` prints for a boolean.
pub open spec fn bool_debug(b: bool) -> Seq<char> {
    if b {
        "true"@
    } else {
        "false"@
    }
}

/// What `{:?}` prints for an optional authorization configuration.
pub open spec fn auth_debug(auth: Option<AuthConfig>) -> Seq<char> {
    match auth {
        Some(a) => "Some(AuthConfig { url: "@ + str_debug(a.url@) + " })"@,
        None => "None"@,
    }
}

/// What `{:?}` prints for a message.
pub open spec fn message_debug(m: Message) -> Seq<char> {
    match m {
        Message::Join { channel, presence } => "Join { channel: "@ + str_debug(channel@) + ", presence: "@
            + bool_debug(presence) + " }"@,
        Message::Leave { channel } => "Leave { channel: "@ + str_debug(channel@) + " }"@,
        Message::Disconnect => "Disconnect"@,
        Message::Broadcast { channel, body } => "Broadcast { channel: "@ + str_debug(channel@) + ", body: "@
            + body_debug(body@) + " }"@,
        Message::Presence { channel, connections } => "Presence { channel: "@ + str_debug(channel@)
            + ", connections: ["@ + debug_list(connections@.map_values(|s: String| s@)) + "] }"@,
        Message::Error { message } => "Error { message: "@ + str_debug(message@) + " }"@,
        Message::ChannelGetAll => "ChannelGetAll"@,
        Message::ChannelGet { name } => "ChannelGet { name: "@ + str_debug(name@) + " }"@,
        Message::ChannelCreate { name, auth, presence } => "ChannelCreate { name: "@ + str_debug(name@) + ", auth: "@
            + auth_debug(auth) + ", presence: "@ + bool_debug(presence) + " }"@,
        Message::ChannelDelete { name } => "ChannelDelete { name: "@ + str_debug(name@) + " }"@,
    }
}

fn bool_text(b: bool) -> (r: String)
    ensures
        r@ == bool_debug(b),
{
    if b {
        String::from_str("true")
    } else {
        String::from_str("false")
    }
}

/// The elements as `{:?}` prints each string, separated by ", ".
fn debug_list_text(items: &Vec<String>) -> (r: String)
    ensures
        r@ == debug_list(items@.map_values(|s: String| s@)),
{
    let ghost all = items@.map_values(|s: String| s@);
    let mut list = String::new();
    let n = items.len();
    let mut i: usize = 0;
    while i < n
        invariant
            n == items@.len(),
            all == items@.map_values(|s: String| s@),
            i <= n,
            list@ == debug_list(all.take(i as int)),
        decreases n - i,
    {
        let d = debug_str(items[i].as_str());
        proof {
            let t = all.take(i + 1);
            assert(t.drop_last() =~= all.take(i as int));
            assert(t.last() == items@[i as int]@);
        }
        if i == 0 {
            list = d;
        } else {
            list = concat3(list.as_str(), ", ", d.as_str());
        }
        i = i + 1;
    }
    assert(all.take(n as int) =~= all);
    list
}

/// The text of `{:?}` for a message.
pub fn debug_text(m: &Message) -> (r: String)
    ensures
        r@ == message_debug(*m),
{
    match m {
        Message::Join { channel, presence } => {
            let head = concat3("Join { channel: ", debug_str(channel.as_str()).as_str(), ", presence: ");
            concat3(head.as_str(), bool_text(*presence).as_str(), " }")
        },
        Message::Leave { channel } => concat3("Leave { channel: ", debug_str(channel.as_str()).as_str(), " }"),
        Message::Disconnect => String::from_str("Disconnect"),
        Message::Broadcast { channel, body } => {
            let body_text = match debug_json(body.as_str()) {
                Some(d) => d,
                None => debug_str(body.as_str()),
            };
            let head = concat3("Broadcast { channel: ", debug_str(channel.as_str()).as_str(), ", body: ");
            concat3(head.as_str(), body_text.as_str(), " }")
        },
        Message::Presence { channel, connections } => {
            let head = concat3("Presence { channel: ", debug_str(channel.as_str()).as_str(), ", connections: [");
            concat3(head.as_str(), debug_list_text(connections).as_str(), "] }")
        },
        Message::Error { message } => concat3("Error { message: ", debug_str(message.as_str()).as_str(), " }"),
        Message::ChannelGetAll => String::from_str("ChannelGetAll"),
        Message::ChannelGet { name } => concat3("ChannelGet { name: ", debug_str(name.as_str()).as_str(), " }"),
        Message::ChannelCreate { name, auth, presence } => {
            let auth_text = match auth {
                Some(a) => concat3("Some(AuthConfig { url: ", debug_str(a.url.as_str()).as_str(), " })"),
                None => String::from_str("None"),
            };
            let head = concat3("ChannelCreate { name: ", debug_str(name.as_str()).as_str(), ", auth: ");
            let mid = concat3(head.as_str(), auth_text.as_str(), ", presence: ");
            concat3(mid.as_str(), bool_text(*presence).as_str(), " }")
        },
        Message::ChannelDelete { name } => concat3("ChannelDelete { name: ", debug_str(name.as_str()).as_str(), " }"),
    }
}

} // verus!
