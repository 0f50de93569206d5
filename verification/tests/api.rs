use synapse::api::channels::{
    bad_request, create_channel_command, create_channel_response, delete_channel_response,
    get_channel_response, get_channels_response, ApiBody,
};
use synapse::channel::router::CommandResponse;
use synapse::message::Message;

fn text(body: &ApiBody) -> &str {
    match body {
        ApiBody::Text(t) => t,
        other => panic!("not text: {:?}", other),
    }
}

#[test]
fn creation() {
    let a = create_channel_response(Ok(CommandResponse::ChannelCreate("news".to_string())));
    assert_eq!(a.status, 201);
    assert_eq!(text(&a.body), "news");
    let a = create_channel_response(Err("disk full".to_string()));
    assert_eq!(a.status, 500);
    assert_eq!(text(&a.body), "disk full");
    let a = create_channel_response(Ok(CommandResponse::Done));
    assert_eq!(a.status, 500);
    assert_eq!(text(&a.body), "Internal Server Error");
    match create_channel_command("news".to_string(), None, None) {
        Message::ChannelCreate { name, auth, presence } => {
            assert_eq!(name, "news");
            assert!(auth.is_none());
            assert!(!presence);
        }
        other => panic!("unexpected {:?}", other),
    }
    assert!(matches!(
        create_channel_command("n".to_string(), None, Some(true)),
        Message::ChannelCreate { presence: true, .. }
    ));
    let a = bad_request("missing field `name`".to_string());
    assert_eq!(a.status, 400);
    assert_eq!(text(&a.body), "missing field `name`");
}

#[test]
fn listing_and_lookup() {
    let a = get_channels_response(Ok(CommandResponse::ChannelGetAll(vec!["a".to_string(), "b".to_string()])));
    assert_eq!(a.status, 200);
    assert!(matches!(a.body, ApiBody::JsonNames(ref ns) if ns == &vec!["a".to_string(), "b".to_string()]));
    let a = get_channel_response(Ok(CommandResponse::ChannelGet(Some("a".to_string()))));
    assert_eq!(a.status, 200);
    assert!(matches!(a.body, ApiBody::JsonName(ref n) if n == "a"));
    let a = get_channel_response(Ok(CommandResponse::ChannelGet(None)));
    assert_eq!(a.status, 404);
    assert_eq!(text(&a.body), "Channel not found");
    let a = delete_channel_response(Ok(CommandResponse::ChannelDelete("a".to_string())));
    assert_eq!(a.status, 200);
    assert_eq!(text(&a.body), "a");
    let a = delete_channel_response(Err("no".to_string()));
    assert_eq!(a.status, 500);
    assert_eq!(text(&a.body), "no");
}
