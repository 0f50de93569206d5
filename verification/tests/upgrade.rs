use synapse::ws::upgrade::{
    header_contains, header_eq, sign, Header, RequestParts, WebSocketConfig, WebSocketUpgrade,
    WebSocketUpgradeRejection,
};

fn h(name: &str, value: &str) -> Header {
    Header { name: name.to_string(), value: value.as_bytes().to_vec() }
}

fn good_request() -> RequestParts {
    RequestParts {
        method: "GET".to_string(),
        headers: vec![
            h("connection", "keep-alive, Upgrade"),
            h("upgrade", "WebSocket"),
            h("sec-websocket-version", "13"),
            h("sec-websocket-key", "dGhlIHNhbXBsZSBub25jZQ=="),
        ],
        upgradable: true,
    }
}

#[test]
fn accept_value_of_the_rfc_example() {
    assert_eq!(sign(b"dGhlIHNhbXBsZSBub25jZQ=="), b"s3pPLMBiTxaQ9kYGzzhZRbK+xOo=".to_vec());
}

#[test]
fn accepts_a_good_request() {
    let u = WebSocketUpgrade::from_request_parts(&good_request()).unwrap();
    assert_eq!(u.sec_websocket_key, b"dGhlIHNhbXBsZSBub25jZQ==".to_vec());
    assert_eq!(u.config, WebSocketConfig::new());
    assert_eq!(u.config.max_message_size, Some(64 << 20));
    assert_eq!(u.config.max_frame_size, Some(16 << 20));
    assert_eq!(u.config.max_send_queue, None);
    assert!(!u.config.accept_unmasked_frames);
    assert!(u.protocol.is_none());
    assert!(u.sec_websocket_protocol.is_none());
}

#[test]
fn rejections_in_order() {
    let mut r = good_request();
    r.method = "POST".to_string();
    r.headers.clear();
    let e = WebSocketUpgrade::from_request_parts(&r).unwrap_err();
    assert_eq!(e, WebSocketUpgradeRejection::MethodNotGet);
    assert_eq!(e.status(), 405);
    assert_eq!(e.body_text(), "Request method must be `GET`");

    let mut r = good_request();
    r.headers[0] = h("connection", "keep-alive");
    let e = WebSocketUpgrade::from_request_parts(&r).unwrap_err();
    assert_eq!(e, WebSocketUpgradeRejection::InvalidConnectionHeader);
    assert_eq!(e.status(), 400);

    let mut r = good_request();
    r.headers[1] = h("upgrade", "h2c");
    assert_eq!(WebSocketUpgrade::from_request_parts(&r).unwrap_err(), WebSocketUpgradeRejection::InvalidUpgradeHeader);

    let mut r = good_request();
    r.headers[2] = h("sec-websocket-version", "8");
    assert_eq!(
        WebSocketUpgrade::from_request_parts(&r).unwrap_err(),
        WebSocketUpgradeRejection::InvalidWebSocketVersionHeader
    );

    let mut r = good_request();
    r.headers.remove(3);
    assert_eq!(
        WebSocketUpgrade::from_request_parts(&r).unwrap_err(),
        WebSocketUpgradeRejection::WebSocketKeyHeaderMissing
    );

    let mut r = good_request();
    r.upgradable = false;
    let e = WebSocketUpgrade::from_request_parts(&r).unwrap_err();
    assert_eq!(e, WebSocketUpgradeRejection::ConnectionNotUpgradable);
    assert_eq!(e.status(), 426);
}

#[test]
fn header_matching() {
    let hs = vec![h("connection", "Keep-Alive, UPGRADE"), h("upgrade", "websocket"), h("upgrade", "other")];
    assert!(header_contains(&hs, "connection", b"upgrade"));
    assert!(!header_contains(&hs, "connection", b"close"));
    assert!(!header_contains(&hs, "missing", b""));
    assert!(header_eq(&hs, "upgrade", b"WEBSOCKET"));
    assert!(!header_eq(&hs, "upgrade", b"websockets"));
    let bad = vec![Header { name: "connection".to_string(), value: vec![0xff, b'u', b'p', b'g', b'r', b'a', b'd', b'e'] }];
    assert!(!header_contains(&bad, "connection", b"upgrade"));
}

#[test]
fn protocol_choice() {
    let mut r = good_request();
    r.headers.push(h("sec-websocket-protocol", " chat , superchat,graphql-ws"));
    let u = WebSocketUpgrade::from_request_parts(&r).unwrap();
    assert_eq!(u.sec_websocket_protocol, Some(b" chat , superchat,graphql-ws".to_vec()));

    let chosen = u.clone().protocols(vec!["graphql-ws".to_string(), "chat".to_string()]);
    assert_eq!(chosen.protocol, Some(b"graphql-ws".to_vec()));

    let chosen = u.clone().protocols(vec!["mqtt".to_string(), "superchat".to_string()]);
    assert_eq!(chosen.protocol, Some(b"superchat".to_vec()));

    let none = chosen.protocols(vec!["mqtt".to_string()]);
    assert_eq!(none.protocol, None);

    // without the header the choice stays as it was
    let u = WebSocketUpgrade::from_request_parts(&good_request()).unwrap();
    assert_eq!(u.protocols(vec!["chat".to_string()]).protocol, None);
}

#[test]
fn builders_and_response() {
    let mut r = good_request();
    r.headers.push(h("sec-websocket-protocol", "chat"));
    let u = WebSocketUpgrade::from_request_parts(&r)
        .unwrap()
        .max_send_queue(7)
        .max_message_size(1024)
        .max_frame_size(512)
        .accept_unmasked_frames(true)
        .protocols(vec!["chat".to_string()]);
    assert_eq!(u.config.max_send_queue, Some(7));
    assert_eq!(u.config.max_message_size, Some(1024));
    assert_eq!(u.config.max_frame_size, Some(512));
    assert!(u.config.accept_unmasked_frames);

    let resp = u.response();
    assert_eq!(resp.status, 101);
    let pairs: Vec<(String, Vec<u8>)> = resp.headers.iter().map(|h| (h.name.clone(), h.value.clone())).collect();
    assert_eq!(
        pairs,
        vec![
            ("connection".to_string(), b"upgrade".to_vec()),
            ("upgrade".to_string(), b"websocket".to_vec()),
            ("sec-websocket-accept".to_string(), b"s3pPLMBiTxaQ9kYGzzhZRbK+xOo=".to_vec()),
            ("sec-websocket-protocol".to_string(), b"chat".to_vec()),
        ]
    );
}
