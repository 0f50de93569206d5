use synapse::addr::Addr;
use synapse::channel::router::CommandResponse;
use synapse::connection::{Connection, WriteOutcome};
use synapse::message::Message;
use synapse::server::Server;

fn error_text(m: Option<Message>) -> Option<String> {
    match m {
        Some(Message::Error { message }) => Some(message),
        None => None,
        Some(other) => panic!("unexpected reply {:?}", other),
    }
}

#[test]
fn replies_to_refused_commands() {
    assert_eq!(error_text(Connection::reply_to(&Err("Channel x does not exist".to_string()))), Some("Channel x does not exist".to_string()));
    assert_eq!(error_text(Connection::reply_to(&Ok(CommandResponse::Unauthorized("Unauthorized".to_string())))), Some("Unauthorized".to_string()));
    assert_eq!(error_text(Connection::reply_to(&Ok(CommandResponse::Done))), None);
    assert_eq!(
        error_text(Some(Connection::invalid_message_reply("expected value at line 1 column 1"))),
        Some("Invalid message: expected value at line 1 column 1".to_string())
    );
}

#[test]
fn connection_ids() {
    let a = Connection::new(Some("given".to_string()), Addr::v4(1, 2, 3, 4, 5), "1.2.3.4:5".to_string());
    assert_eq!(a.id, "given");
    assert_eq!(a.addr, Addr::v4(1, 2, 3, 4, 5));
    let b = Connection::new(None, Addr::v4(1, 2, 3, 4, 5), "1.2.3.4:5".to_string());
    let c = Connection::new(None, Addr::v4(1, 2, 3, 4, 5), "1.2.3.4:5".to_string());
    assert_eq!(b.id.len(), 36);
    for (i, ch) in b.id.chars().enumerate() {
        if i == 8 || i == 13 || i == 18 || i == 23 {
            assert_eq!(ch, '-');
        } else {
            assert!(ch.is_ascii_digit() || ('a'..='f').contains(&ch));
        }
    }
    assert_eq!(b.id.chars().nth(14), Some('4'));
    assert!(matches!(b.id.chars().nth(19), Some('8' | '9' | 'a' | 'b')));
    assert_ne!(b.id, c.id);
    assert_eq!(Addr::v4(127, 0, 0, 1, 80).ip, 0x7f000001);
}

#[test]
fn forwarding_stops_on_websocket_errors() {
    assert!(Connection::keep_forwarding(WriteOutcome::Written));
    assert!(Connection::keep_forwarding(WriteOutcome::OtherError));
    assert!(!Connection::keep_forwarding(WriteOutcome::ConnectionClosed));
    assert!(!Connection::keep_forwarding(WriteOutcome::WebSocketError));
}

#[test]
fn server_new() {
    assert_eq!(Server::new(), Server {});
}
