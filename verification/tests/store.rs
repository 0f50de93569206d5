use synapse::addr::Addr;
use synapse::auth::{status_grants, AuthConfig, Operation};
use synapse::channel::router::CommandResponse;
use synapse::channel::storage::Storage;
use synapse::channel::store::{ChannelStore, Step};
use synapse::channel::Channel;
use synapse::connection::Connection;
use synapse::message::{Frame, Message};

struct NoStorage {}

impl Storage for NoStorage {
    fn new(_path: &str) -> Self {
        NoStorage {}
    }

    fn create_channel(&self, _channel: &Channel) -> Result<(), String> {
        Ok(())
    }

    fn remove_channel(&self, _name: &str) -> Result<(), String> {
        Ok(())
    }

    fn get_channels(&self) -> Result<Vec<Channel>, String> {
        Ok(vec![])
    }
}

fn store() -> ChannelStore<NoStorage> {
    ChannelStore::new(NoStorage {}).unwrap()
}

fn conn(id: &str, last: u8) -> Connection {
    Connection::new(Some(id.to_string()), Addr::v4(10, 0, 0, last, 4000), format!("10.0.0.{}:4000", last))
}

fn done(step: Step) -> Result<CommandResponse, String> {
    match step {
        Step::Done(r) => r,
        other => panic!("expected a result, got {:?}", other),
    }
}

#[test]
fn channel_api_commands() {
    let mut s = store();
    let r = done(s.handle(Message::ChannelCreate { name: "news".to_string(), auth: None, presence: false }, None));
    assert!(matches!(r, Ok(CommandResponse::ChannelCreate(ref n)) if n == "news"));
    let r = done(s.handle(Message::ChannelGetAll, None));
    assert!(matches!(r, Ok(CommandResponse::ChannelGetAll(ref ns)) if ns == &vec!["news".to_string()]));
    let r = done(s.handle(Message::ChannelGet { name: "news".to_string() }, None));
    assert!(matches!(r, Ok(CommandResponse::ChannelGet(Some(ref n))) if n == "news"));
    let r = done(s.handle(Message::ChannelGet { name: "sport".to_string() }, None));
    assert!(matches!(r, Ok(CommandResponse::ChannelGet(None))));
    let r = done(s.handle(Message::ChannelDelete { name: "news".to_string() }, None));
    assert!(matches!(r, Ok(CommandResponse::ChannelDelete(ref n)) if n == "news"));
    let r = done(s.handle(Message::ChannelGetAll, None));
    assert!(matches!(r, Ok(CommandResponse::ChannelGetAll(ref ns)) if ns.is_empty()));
}

#[test]
fn join_missing_channel_is_refused() {
    let mut s = store();
    let r = done(s.handle(Message::Join { channel: "x".to_string(), presence: true }, Some(conn("a", 1))));
    assert_eq!(r.unwrap_err(), "Channel x does not exist");
}

#[test]
fn join_broadcast_leave() {
    let mut s = store();
    done(s.handle(Message::ChannelCreate { name: "room".to_string(), auth: None, presence: false }, None)).unwrap();
    done(s.handle(Message::Join { channel: "room".to_string(), presence: true }, Some(conn("a", 1)))).unwrap();
    done(s.handle(Message::Join { channel: "room".to_string(), presence: true }, Some(conn("b", 2)))).unwrap();
    let r = done(s.handle(
        Message::Broadcast { channel: "room".to_string(), body: "{\"x\":1}".to_string() },
        Some(conn("a", 1)),
    ));
    assert!(matches!(r, Ok(CommandResponse::Done)));
    let out = s.channels.take_outbox();
    assert_eq!(out.len(), 1);
    assert_eq!(out[0].recipients, vec![Addr::v4(10, 0, 0, 2, 4000)]);
    match &out[0].frame {
        Frame::Json(Message::Broadcast { channel, body }) => {
            assert_eq!(channel, "room");
            assert_eq!(body, "{\"x\":1}");
        }
        other => panic!("unexpected frame {:?}", other),
    }
    done(s.handle(Message::Leave { channel: "room".to_string() }, Some(conn("a", 1)))).unwrap();
    assert!(!s.channels.get(&"room".to_string()).unwrap().has_connection(Addr::v4(10, 0, 0, 1, 4000)));
    done(s.handle(Message::Disconnect, Some(conn("b", 2)))).unwrap();
    assert!(s.channels.get(&"room".to_string()).unwrap().connections.is_empty());
}

#[test]
fn join_with_authorization() {
    let mut s = store();
    let auth = AuthConfig { url: "http://auth.local/check".to_string() };
    done(s.handle(Message::ChannelCreate { name: "vip".to_string(), auth: Some(auth), presence: false }, None)).unwrap();
    let step = s.handle(Message::Join { channel: "vip".to_string(), presence: false }, Some(conn("a", 1)));
    let (channel, c, presence) = match step {
        Step::Authorize { config, payload, channel, conn, presence } => {
            assert_eq!(config.url, "http://auth.local/check");
            assert_eq!(payload.operation, Operation::Join);
            assert_eq!(payload.channel, "vip");
            assert_eq!(payload.conn_id, "a");
            (channel, conn, presence)
        }
        other => panic!("expected an authorization request, got {:?}", other),
    };
    // the service refuses
    let r = s.finish_join(&channel, c.clone(), presence, Ok(status_grants(403)));
    assert!(matches!(r, Ok(CommandResponse::Unauthorized(ref m)) if m == "Unauthorized"));
    assert!(s.channels.get(&channel).unwrap().connections.is_empty());
    // the request fails
    let r = s.finish_join(&channel, c.clone(), presence, Err("connection refused".to_string()));
    assert_eq!(r.unwrap_err(), "connection refused");
    // the service grants
    let r = s.finish_join(&channel, c.clone(), presence, Ok(status_grants(200)));
    assert!(matches!(r, Ok(CommandResponse::Done)));
    assert!(s.channels.get(&channel).unwrap().has_connection(c.addr));
}

#[test]
fn presence_message_from_a_client_is_invalid() {
    let mut s = store();
    let r = done(s.handle(
        Message::Presence { channel: "c\"1".to_string(), connections: vec!["a".to_string(), "b".to_string()] },
        None,
    ));
    assert_eq!(
        r.unwrap_err(),
        "Received an invalid message: Presence { channel: \"c\\\"1\", connections: [\"a\", \"b\"] }"
    );
    let r = done(s.handle(Message::Presence { channel: "c".to_string(), connections: vec![] }, None));
    assert_eq!(r.unwrap_err(), "Received an invalid message: Presence { channel: \"c\", connections: [] }");
}

#[test]
fn error_message_is_accepted() {
    let mut s = store();
    let r = done(s.handle(Message::Error { message: "oops".to_string() }, None));
    assert!(matches!(r, Ok(CommandResponse::Done)));
}

#[test]
fn auth_status() {
    assert!(status_grants(200));
    assert!(!status_grants(201));
    assert!(!status_grants(401));
}
