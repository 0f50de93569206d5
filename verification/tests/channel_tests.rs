use synapse::addr::Addr;
use synapse::channel::relay::ChannelMap;
use synapse::connection::Connection;
use synapse::message::{Frame, Message};

// Helper function to create a socket address
fn create_socket_addr() -> Addr {
    Addr::v4(127, 0, 0, 1, 8080)
}

fn create_connection() -> Connection {
    Connection::new(None, create_socket_addr(), "127.0.0.1:8080".to_string())
}

fn create_channel_map() -> ChannelMap {
    ChannelMap::new()
}

#[test]
fn channel_tests_test_add_channel() {
    let mut channel_map = create_channel_map();
    let channel_name = String::from("test_channel");

    channel_map.add_channel(&channel_name);

    assert!(channel_map.has_channel(channel_name));
}

#[test]
fn channel_tests_test_add_connection() {
    let mut channel_map = create_channel_map();
    let channel_name = String::from("test_channel");
    let conn = create_connection();

    channel_map.add_channel(&channel_name);
    channel_map.add_connection(&channel_name, conn.clone()).unwrap();

    let channel = channel_map.get_channel(&channel_name).unwrap();

    assert!(channel.has_connection(conn.addr));
}

#[test]
fn channel_tests_test_remove_connection() {
    let mut channel_map = create_channel_map();
    let channel_name = String::from("test_channel");
    let conn = create_connection();

    channel_map.add_channel(&channel_name);
    channel_map.add_connection(&channel_name, conn.clone()).unwrap();

    channel_map.remove_connection(&channel_name, conn.addr, &conn.addr_text).unwrap();

    let channel = channel_map.get_channel(&channel_name).unwrap();

    assert!(!channel.has_connection(conn.addr));
}

#[test]
fn channel_tests_test_remove_connection_from_all() {
    let mut channel_map = create_channel_map();
    let channel_name = String::from("test_channel");
    let conn = create_connection();

    channel_map.add_channel(&channel_name);
    channel_map.add_connection(&channel_name, conn.clone()).unwrap();

    channel_map.remove_connection_from_all(conn.addr, &conn.addr_text).unwrap();

    let channel = channel_map.get_channel(&channel_name).unwrap();

    assert!(!channel.has_connection(conn.addr));
}

#[test]
fn channel_tests_test_has_channel() {
    let mut channel_map = create_channel_map();
    let channel_name = String::from("test_channel");

    assert!(!channel_map.has_channel(channel_name.clone()));

    channel_map.add_channel(&channel_name);

    assert!(channel_map.has_channel(channel_name));
}

#[test]
fn channel_tests_test_broadcast() {
    let mut channel_map = create_channel_map();
    let channel_name = String::from("test_channel");

    let conn1 = Connection::new(None, Addr::v4(127, 0, 0, 1, 8080), "127.0.0.1:8080".to_string());
    let conn2 = Connection::new(None, Addr::v4(127, 0, 0, 2, 8080), "127.0.0.2:8080".to_string());

    let skip_addr = conn1.addr;

    channel_map.add_channel(&channel_name);
    channel_map.add_connection(&channel_name, conn1).unwrap();
    channel_map.add_connection(&channel_name, conn2.clone()).unwrap();

    let msg_text = "Hello, world!";
    let message = Frame::Text(msg_text.to_owned());
    channel_map.broadcast(&channel_name, message, Some(skip_addr)).unwrap();

    let outbox = channel_map.channels.take_outbox();
    assert_eq!(outbox.len(), 1);
    assert!(!outbox[0].recipients.contains(&skip_addr));
    assert_eq!(outbox[0].recipients, vec![conn2.addr]);
    match &outbox[0].frame {
        Frame::Text(t) => assert_eq!(t, msg_text),
        other => panic!("unexpected frame {:?}", other),
    }
}

fn roster(frame: &Frame) -> (String, Vec<String>) {
    match frame {
        Frame::Json(Message::Presence { channel, connections }) => (channel.clone(), connections.clone()),
        other => panic!("not a roster: {:?}", other),
    }
}

fn error_text(frame: &Frame) -> String {
    match frame {
        Frame::Json(Message::Error { message }) => message.clone(),
        other => panic!("not an error: {:?}", other),
    }
}

#[test]
fn relay_join_announces_members() {
    let mut m = create_channel_map();
    let a = Connection::new(Some("a".to_string()), Addr::v4(10, 0, 0, 1, 1), "10.0.0.1:1".to_string());
    let b = Connection::new(Some("b".to_string()), Addr::v4(10, 0, 0, 2, 1), "10.0.0.2:1".to_string());
    m.handle(Message::Join { channel: "room".to_string(), presence: false }, a.clone());
    m.handle(Message::Join { channel: "room".to_string(), presence: false }, b.clone());
    let out = m.channels.take_outbox();
    assert_eq!(out.len(), 2);
    assert_eq!(roster(&out[1].frame), ("room".to_string(), vec!["10.0.0.1:1".to_string(), "10.0.0.2:1".to_string()]));
    assert_eq!(out[1].recipients, vec![a.addr, b.addr]);

    // joining twice is answered with an error
    m.handle(Message::Join { channel: "room".to_string(), presence: false }, a.clone());
    let out = m.channels.take_outbox();
    assert_eq!(out.len(), 1);
    assert_eq!(error_text(&out[0].frame), "Failed to add connection: Connection already exists for 10.0.0.1:1");
    assert_eq!(out[0].recipients, vec![a.addr]);
}

#[test]
fn relay_leave_and_disconnect() {
    let mut m = create_channel_map();
    let a = Connection::new(Some("a".to_string()), Addr::v4(10, 0, 0, 1, 1), "10.0.0.1:1".to_string());
    let b = Connection::new(Some("b".to_string()), Addr::v4(10, 0, 0, 2, 1), "10.0.0.2:1".to_string());
    for ch in ["x", "y"] {
        m.handle(Message::Join { channel: ch.to_string(), presence: false }, a.clone());
        m.handle(Message::Join { channel: ch.to_string(), presence: false }, b.clone());
    }
    m.channels.take_outbox();

    m.handle(Message::Leave { channel: "x".to_string() }, a.clone());
    let out = m.channels.take_outbox();
    assert_eq!(out.len(), 1);
    assert_eq!(roster(&out[0].frame), ("x".to_string(), vec!["10.0.0.2:1".to_string()]));
    assert_eq!(out[0].recipients, vec![b.addr]);

    m.handle(Message::Leave { channel: "z".to_string() }, a.clone());
    let out = m.channels.take_outbox();
    assert_eq!(error_text(&out[0].frame), "Failed to remove connection: Channel z does not exist");

    m.handle(Message::Disconnect, b.clone());
    let out = m.channels.take_outbox();
    assert_eq!(out.len(), 2);
    assert_eq!(roster(&out[0].frame), ("x".to_string(), vec![]));
    assert_eq!(roster(&out[1].frame), ("y".to_string(), vec!["10.0.0.1:1".to_string()]));
    assert_eq!(out[1].recipients, vec![a.addr]);
}

#[test]
fn relay_broadcast_and_invalid_messages() {
    let mut m = create_channel_map();
    let a = Connection::new(Some("a".to_string()), Addr::v4(10, 0, 0, 1, 1), "10.0.0.1:1".to_string());
    m.handle(Message::Broadcast { channel: "none".to_string(), body: "1".to_string() }, a.clone());
    let out = m.channels.take_outbox();
    assert_eq!(error_text(&out[0].frame), "Failed to broadcast message: Channel none does not exist");

    m.handle(Message::ChannelGet { name: "q".to_string() }, a.clone());
    m.handle(Message::ChannelGetAll, a.clone());
    m.handle(Message::ChannelCreate { name: "n".to_string(), auth: None, presence: true }, a.clone());
    m.handle(Message::Error { message: "ignored".to_string() }, a.clone());
    let out = m.channels.take_outbox();
    assert_eq!(out.len(), 3);
    assert_eq!(error_text(&out[0].frame), "Received an invalid message: ChannelGet { name: \"q\" }");
    assert_eq!(error_text(&out[1].frame), "Received an invalid message: ChannelGetAll");
    assert_eq!(
        error_text(&out[2].frame),
        "Received an invalid message: ChannelCreate { name: \"n\", auth: None, presence: true }"
    );
}
