use synapse::addr::Addr;
use synapse::auth::AuthConfig;
use synapse::channel::map::ChannelMap;
use synapse::channel::router::CommandResponse;
use synapse::channel::storage::Storage;
use synapse::channel::Channel;
use synapse::connection::Connection;
use synapse::message::{Frame, Message};

struct MockChannelStorage {}

impl Storage for MockChannelStorage {
    fn new(_path: &str) -> Self {
        MockChannelStorage {}
    }

    fn create_channel(&self, _channel: &Channel) -> Result<(), String> {
        Ok(())
    }

    fn remove_channel(&self, _name: &str) -> Result<(), String> {
        Ok(())
    }

    fn get_channels(&self) -> Result<Vec<Channel>, String> {
        Ok(vec![])
    }
}

struct FailingStorage {}

impl Storage for FailingStorage {
    fn new(_path: &str) -> Self {
        FailingStorage {}
    }

    fn create_channel(&self, _channel: &Channel) -> Result<(), String> {
        Err("disk full".to_string())
    }

    fn remove_channel(&self, _name: &str) -> Result<(), String> {
        Err("disk full".to_string())
    }

    fn get_channels(&self) -> Result<Vec<Channel>, String> {
        Err("cannot read".to_string())
    }
}

fn create_channel_map() -> ChannelMap<MockChannelStorage> {
    ChannelMap::new(MockChannelStorage::new("/tmp/test.db")).unwrap()
}

fn create_socket_addr() -> Addr {
    Addr::v4(127, 0, 0, 1, 8080)
}

fn create_connection() -> Connection {
    Connection::new(None, create_socket_addr(), "127.0.0.1:8080".to_string())
}

fn presence_of(frame: &Frame) -> (String, Vec<String>) {
    match frame {
        Frame::Json(Message::Presence { channel, connections }) => (channel.clone(), connections.clone()),
        other => panic!("not a presence update: {:?}", other),
    }
}

#[test]
fn map_test_add_channel() {
    let mut channel_map = create_channel_map();
    let channel_name = String::from("test_channel");

    channel_map.add_channel(&channel_name, None, true).unwrap();

    assert!(channel_map.has_channel(channel_name));
}

#[test]
fn map_test_add_connection() {
    let mut channel_map = create_channel_map();
    let channel_name = String::from("test_channel");
    let conn = create_connection();

    channel_map.add_channel(&channel_name, None, true).unwrap();

    channel_map.get_mut(&channel_name).unwrap().disable_presence();

    channel_map.add_connection(&channel_name, conn.clone(), true).unwrap();

    let channel = channel_map.get(&channel_name).unwrap();
    assert!(channel.has_connection(conn.addr));
}

#[test]
fn map_test_remove_connection() {
    let mut channel_map = create_channel_map();
    let channel_name = String::from("test_channel");
    let conn = create_connection();

    channel_map.add_channel(&channel_name, None, true).unwrap();

    channel_map.get_mut(&channel_name).unwrap().disable_presence();

    channel_map.add_connection(&channel_name, conn.clone(), true).unwrap();

    channel_map.remove_connection(&channel_name, conn.addr).unwrap();

    let channel = channel_map.get(&channel_name).unwrap();
    assert!(!channel.has_connection(conn.addr));
}

#[test]
fn map_test_remove_connection_from_all() {
    let mut channel_map = create_channel_map();
    let channel_name = String::from("test_channel");
    let conn = create_connection();

    channel_map.add_channel(&channel_name, None, true).unwrap();

    channel_map.get_mut(&channel_name).unwrap().disable_presence();

    channel_map.add_connection(&channel_name, conn.clone(), true).unwrap();

    channel_map.remove_connection_from_all(conn.addr).unwrap();

    let channel = channel_map.get(&channel_name).unwrap();
    assert!(!channel.has_connection(conn.addr));
}

#[test]
fn map_test_has_channel() {
    let mut channel_map = create_channel_map();
    let channel_name = String::from("test_channel");

    assert!(!channel_map.has_channel(channel_name.clone()));

    channel_map.add_channel(&channel_name, None, true).unwrap();

    assert!(channel_map.has_channel(channel_name));
}

#[test]
fn map_test_broadcast() {
    let mut channel_map = create_channel_map();
    let channel_name = String::from("test_channel");

    let conn1 = Connection::new(None, Addr::v4(127, 0, 0, 1, 8080), "127.0.0.1:8080".to_string());
    let conn2 = Connection::new(None, Addr::v4(127, 0, 0, 2, 8080), "127.0.0.2:8080".to_string());

    let skip_addr = conn1.addr;

    channel_map.add_channel(&channel_name, None, true).unwrap();

    channel_map.get_mut(&channel_name).unwrap().disable_presence();

    channel_map.add_connection(&channel_name, conn1, true).unwrap();
    channel_map.add_connection(&channel_name, conn2.clone(), true).unwrap();

    let msg_text = "Hello, world!";
    let message = Frame::Text(msg_text.to_owned());
    channel_map.broadcast(&channel_name, message, Some(skip_addr)).unwrap();

    let outbox = channel_map.take_outbox();
    assert_eq!(outbox.len(), 1);
    assert!(!outbox[0].recipients.contains(&skip_addr));
    assert_eq!(outbox[0].recipients, vec![conn2.addr]);
    match &outbox[0].frame {
        Frame::Text(t) => assert_eq!(t, msg_text),
        other => panic!("unexpected frame {:?}", other),
    }
}

#[test]
fn broadcast_to_missing_channel_fails() {
    let mut channel_map = create_channel_map();
    let r = channel_map.broadcast("nowhere", Frame::Text("x".to_string()), None);
    assert_eq!(r.unwrap_err(), "Channel nowhere does not exist");
    assert!(channel_map.take_outbox().is_empty());
}

#[test]
fn add_connection_errors() {
    let mut channel_map = create_channel_map();
    let name = String::from("room");
    let conn = create_connection();

    let r = channel_map.add_connection(&name, conn.clone(), false);
    assert_eq!(r.unwrap_err(), "Channel room does not exist");

    channel_map.add_channel(&name, None, false).unwrap();
    assert!(matches!(channel_map.add_connection(&name, conn.clone(), false), Ok(CommandResponse::Done)));
    let r = channel_map.add_connection(&name, conn, false);
    assert_eq!(r.unwrap_err(), "Connection already exists for 127.0.0.1:8080");
    assert_eq!(channel_map.get(&name).unwrap().connections.len(), 1);
}

#[test]
fn join_sends_presence_to_all_members() {
    let mut channel_map = create_channel_map();
    let name = String::from("room");
    channel_map.add_channel(&name, None, true).unwrap();

    let a = Connection::new(Some("a".to_string()), Addr::v4(10, 0, 0, 1, 1000), "10.0.0.1:1000".to_string());
    let b = Connection::new(Some("b".to_string()), Addr::v4(10, 0, 0, 2, 1000), "10.0.0.2:1000".to_string());
    channel_map.add_connection(&name, a.clone(), true).unwrap();
    channel_map.add_connection(&name, b.clone(), true).unwrap();

    let outbox = channel_map.take_outbox();
    assert_eq!(outbox.len(), 2);
    assert_eq!(presence_of(&outbox[0].frame), ("room".to_string(), vec!["a".to_string()]));
    assert_eq!(outbox[0].recipients, vec![a.addr]);
    assert_eq!(presence_of(&outbox[1].frame), ("room".to_string(), vec!["a".to_string(), "b".to_string()]));
    assert_eq!(outbox[1].recipients, vec![a.addr, b.addr]);

    // joining without asking for presence sends nothing
    let c = Connection::new(Some("c".to_string()), Addr::v4(10, 0, 0, 3, 1000), "10.0.0.3:1000".to_string());
    channel_map.add_connection(&name, c, false).unwrap();
    assert!(channel_map.take_outbox().is_empty());
}

#[test]
fn leave_sends_presence_of_the_rest() {
    let mut channel_map = create_channel_map();
    let name = String::from("room");
    channel_map.add_channel(&name, None, true).unwrap();
    let a = Connection::new(Some("a".to_string()), Addr::v4(10, 0, 0, 1, 1000), "10.0.0.1:1000".to_string());
    let b = Connection::new(Some("b".to_string()), Addr::v4(10, 0, 0, 2, 1000), "10.0.0.2:1000".to_string());
    channel_map.add_connection(&name, a.clone(), false).unwrap();
    channel_map.add_connection(&name, b.clone(), false).unwrap();

    channel_map.remove_connection(&name, a.addr).unwrap();
    let outbox = channel_map.take_outbox();
    assert_eq!(outbox.len(), 1);
    assert_eq!(presence_of(&outbox[0].frame), ("room".to_string(), vec!["b".to_string()]));
    assert_eq!(outbox[0].recipients, vec![b.addr]);

    assert_eq!(channel_map.remove_connection(&String::from("gone"), a.addr).unwrap_err(), "Channel gone does not exist");
}

#[test]
fn disconnect_leaves_every_channel() {
    let mut channel_map = create_channel_map();
    let one = String::from("one");
    let two = String::from("two");
    let three = String::from("three");
    channel_map.add_channel(&one, None, true).unwrap();
    channel_map.add_channel(&two, None, false).unwrap();
    channel_map.add_channel(&three, None, true).unwrap();
    let a = Connection::new(Some("a".to_string()), Addr::v4(10, 0, 0, 1, 1000), "10.0.0.1:1000".to_string());
    let b = Connection::new(Some("b".to_string()), Addr::v4(10, 0, 0, 2, 1000), "10.0.0.2:1000".to_string());
    for name in [&one, &two] {
        channel_map.add_connection(name, a.clone(), false).unwrap();
        channel_map.add_connection(name, b.clone(), false).unwrap();
    }
    channel_map.add_connection(&three, b.clone(), false).unwrap();

    channel_map.remove_connection_from_all(a.addr).unwrap();
    for name in [&one, &two, &three] {
        assert!(!channel_map.get(name).unwrap().has_connection(a.addr));
        assert!(channel_map.get(name).unwrap().has_connection(b.addr));
    }
    // only channel "one" held `a` and has presence on
    let outbox = channel_map.take_outbox();
    assert_eq!(outbox.len(), 1);
    assert_eq!(presence_of(&outbox[0].frame), ("one".to_string(), vec!["b".to_string()]));
}

#[test]
fn add_channel_keeps_an_existing_channel() {
    let mut channel_map = create_channel_map();
    let name = String::from("room");
    channel_map.add_channel(&name, None, true).unwrap();
    let a = create_connection();
    channel_map.add_connection(&name, a.clone(), false).unwrap();
    channel_map
        .add_channel(&name, Some(AuthConfig { url: "http://auth".to_string() }), false)
        .unwrap();
    let ch = channel_map.get(&name).unwrap();
    assert!(ch.presence);
    assert!(ch.auth.is_none());
    assert!(ch.has_connection(a.addr));
    assert_eq!(channel_map.keys(), vec!["room".to_string()]);
}

#[test]
fn remove_channel_then_gone() {
    let mut channel_map = create_channel_map();
    let a = String::from("a");
    let b = String::from("b");
    channel_map.add_channel(&a, None, true).unwrap();
    channel_map.add_channel(&b, None, true).unwrap();
    channel_map.remove_channel(&a).unwrap();
    assert!(!channel_map.has_channel(a.clone()));
    assert!(channel_map.has_channel(b.clone()));
    assert_eq!(channel_map.keys(), vec!["b".to_string()]);
    // removing a missing channel succeeds and changes nothing
    channel_map.remove_channel(&a).unwrap();
    assert_eq!(channel_map.keys(), vec!["b".to_string()]);
}

#[test]
fn storage_failures_change_nothing() {
    assert_eq!(ChannelMap::new(FailingStorage {}).err().unwrap(), "Error loading channels from DB: cannot read");
    let mut m = ChannelMap::with_channels(FailingStorage {}, vec![]);
    let name = String::from("x");
    assert_eq!(m.add_channel(&name, None, true).unwrap_err(), "disk full");
    assert!(!m.has_channel(name.clone()));
    let mut m2 = ChannelMap::with_channels(FailingStorage {}, vec![Channel::new(name.clone(), None, true)]);
    assert_eq!(m2.remove_channel(&name).unwrap_err(), "disk full");
    assert!(m2.has_channel(name));
}

#[test]
fn loading_keeps_the_last_stored_channel_of_each_name() {
    let stored = vec![
        Channel::new("a".to_string(), None, true),
        Channel::new("b".to_string(), None, true),
        Channel::new("a".to_string(), Some(AuthConfig { url: "http://auth".to_string() }), false),
    ];
    let m = ChannelMap::with_channels(MockChannelStorage {}, stored);
    let mut keys = m.keys();
    keys.sort();
    assert_eq!(keys, vec!["a".to_string(), "b".to_string()]);
    let a = m.get(&"a".to_string()).unwrap();
    assert!(!a.presence);
    assert_eq!(a.auth.as_ref().unwrap().url, "http://auth");
    assert!(a.connections.is_empty());
}

#[test]
fn join_then_leave_restores_the_channel() {
    let mut channel_map = create_channel_map();
    let name = String::from("room");
    channel_map.add_channel(&name, None, false).unwrap();
    let a = Connection::new(Some("a".to_string()), Addr::v4(10, 0, 0, 1, 1000), "10.0.0.1:1000".to_string());
    let b = Connection::new(Some("b".to_string()), Addr::v4(10, 0, 0, 2, 1000), "10.0.0.2:1000".to_string());
    channel_map.add_connection(&name, a.clone(), false).unwrap();
    let before: Vec<String> = channel_map.get(&name).unwrap().connection_ids();
    channel_map.add_connection(&name, b.clone(), false).unwrap();
    channel_map.remove_connection(&name, b.addr).unwrap();
    assert_eq!(channel_map.get(&name).unwrap().connection_ids(), before);
}

#[test]
fn loading_keeps_stored_connections() {
    let mut stored = Channel::new("a".to_string(), None, true);
    let first = Connection::new(Some("first".to_string()), Addr::v4(10, 0, 0, 1, 1), "10.0.0.1:1".to_string());
    let other = Connection::new(Some("other".to_string()), Addr::v4(10, 0, 0, 2, 2), "10.0.0.2:2".to_string());
    let again = Connection::new(Some("again".to_string()), Addr::v4(10, 0, 0, 1, 1), "10.0.0.1:1".to_string());
    stored.connections.push(first);
    stored.connections.push(other);
    stored.connections.push(again);
    let m = ChannelMap::with_channels(MockChannelStorage {}, vec![stored]);
    let a = m.get(&"a".to_string()).unwrap();
    let ids: Vec<String> = a.connections.iter().map(|c| c.id.clone()).collect();
    assert_eq!(ids, vec!["first".to_string(), "other".to_string()]);
    assert!(a.has_connection(Addr::v4(10, 0, 0, 2, 2)));
}
