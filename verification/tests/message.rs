use synapse::auth::AuthConfig;
use synapse::message::{debug_text, Message};

#[test]
fn debug_text_matches_debug_formatting() {
    let join = Message::Join { channel: "room \"1\"".to_string(), presence: true };
    assert_eq!(debug_text(&join), "Join { channel: \"room \\\"1\\\"\", presence: true }");
    let presence = Message::Presence { channel: "r".to_string(), connections: vec!["a".to_string(), "b".to_string()] };
    assert_eq!(debug_text(&presence), "Presence { channel: \"r\", connections: [\"a\", \"b\"] }");
    let create = Message::ChannelCreate {
        name: "n".to_string(),
        auth: Some(AuthConfig { url: "http://auth".to_string() }),
        presence: false,
    };
    assert_eq!(
        debug_text(&create),
        "ChannelCreate { name: \"n\", auth: Some(AuthConfig { url: \"http://auth\" }), presence: false }"
    );
    assert_eq!(debug_text(&Message::Disconnect), "Disconnect");
}

#[test]
fn debug_text_of_broadcasts() {
    let b = Message::Broadcast { channel: "r".to_string(), body: "{\"a\": [1, \"x\", null, true]}".to_string() };
    assert_eq!(
        debug_text(&b),
        "Broadcast { channel: \"r\", body: Object {\"a\": Array [Number(1), String(\"x\"), Null, Bool(true)]} }"
    );
    let raw = Message::Broadcast { channel: "r".to_string(), body: "not json".to_string() };
    assert_eq!(debug_text(&raw), "Broadcast { channel: \"r\", body: \"not json\" }");
}
