use twitch_pubsub::client::{ClientAction, ClientLoopWorker, ConnectionLoopMessage};
use twitch_pubsub::connection::{transport_item, Frame};
use twitch_pubsub::providers::StaticTokenProvider;
use twitch_pubsub::response::{Response, TwitchResponse};
use twitch_pubsub::worker::{read_message, FrameRead, WsReadError};

type P = StaticTokenProvider;
type Action = ClientAction<twitch_api::pubsub::TopicData, P>;

const BITS: &str = "channel-bits-events-v2.12345";

fn text_frame() -> FrameRead {
    FrameRead::Frame { text: true, utf8: true }
}

#[test]
fn read_message_parses_twitch_messages() {
    let pong = read_message(&text_frame(), &r#"{"type":"PONG"}"#.to_string());
    assert!(matches!(pong, Ok(Some(Response::Pong))));
    let reconnect = read_message(&text_frame(), &r#"{"type":"RECONNECT"}"#.to_string());
    assert!(matches!(reconnect, Ok(Some(Response::Reconnect))));
    let answer = read_message(&text_frame(), &r#"{"type":"RESPONSE","nonce":"abc","error":"ERR_BADAUTH"}"#.to_string());
    match answer {
        Ok(Some(Response::Response(TwitchResponse { nonce, error }))) => {
            assert_eq!(nonce.as_deref(), Some("abc"));
            assert_eq!(error.as_deref(), Some("ERR_BADAUTH"));
        }
        other => panic!("unexpected {other:?}"),
    }
    assert!(matches!(read_message(&text_frame(), &"not json".to_string()), Err(WsReadError::Deserialize(_))));
}

#[test]
fn read_message_checks_the_frame_first() {
    let pong = r#"{"type":"PONG"}"#.to_string();
    assert!(matches!(read_message(&FrameRead::TimedOut, &pong), Err(WsReadError::Timeout)));
    assert!(matches!(read_message(&FrameRead::Failed, &pong), Err(WsReadError::Parse)));
    assert!(matches!(read_message(&FrameRead::Frame { text: false, utf8: true }, &pong), Err(WsReadError::NotText)));
    assert!(matches!(read_message(&FrameRead::Frame { text: true, utf8: false }, &pong), Err(WsReadError::NotUtf8)));
}

#[test]
fn transport_items_reach_the_connection_loop() {
    assert!(matches!(transport_item::<P>(None), Some(None)));
    assert!(transport_item::<P>(Some(Ok(Frame::Other))).is_none());
    let pong = transport_item::<P>(Some(Ok(Frame::Text(r#"{"type":"PONG"}"#.to_string()))));
    assert!(matches!(pong, Some(Some(Ok(Ok(Response::Pong))))));
    match transport_item::<P>(Some(Ok(Frame::Text("garbage".to_string())))) {
        Some(Some(Ok(Err(e)))) => assert_eq!(e.raw, "garbage"),
        other => panic!("unexpected {other:?}"),
    }
    let closed = transport_item::<P>(Some(Err(async_tungstenite::tungstenite::Error::ConnectionClosed)));
    assert!(matches!(closed, Some(Some(Err(twitch_pubsub::ClientError::WsError(_))))));
}

#[test]
fn listen_topics_sends_twitch_api_request_with_a_fresh_nonce() {
    let mut w = ClientLoopWorker::new(50);
    let a: Vec<Action> = w.listen_topics(vec![BITS.to_string()], Some("my token".to_string()), Some(3));
    assert_eq!(a.len(), 2);
    assert!(matches!(a[0], ClientAction::Connect { connection: 0 }));
    let (nonce, _) = &w.connections[0].pending_topics[0];
    assert_eq!(nonce.len(), 30);
    let expected = format!(
        r#"{{"type":"LISTEN","nonce":"{nonce}","data":{{"topics":["{BITS}"],"auth_token":"my token"}}}}"#
    );
    match &a[1] {
        ClientAction::Send { connection: 0, message } => assert_eq!(*message, expected),
        other => panic!("unexpected {other:?}"),
    }
    assert_eq!(w.connections[0].wanted_topics, 1);
}

#[test]
fn a_topic_that_cannot_be_written_fails_its_callback() {
    let mut w = ClientLoopWorker::new(50);
    let a: Vec<Action> = w.listen_topics(vec!["no-such-topic".to_string()], None, Some(9));
    assert_eq!(a.len(), 1);
    assert!(matches!(a[0], ClientAction::Reply { callback: 9, result: Err(twitch_pubsub::ClientError::SerdeError(_)) }));
    assert!(w.connections.is_empty());
}

#[test]
fn unlisten_topic_sends_twitch_api_request() {
    let mut w = ClientLoopWorker::new(50);
    let _: Vec<Action> = w.listen_topics(vec![BITS.to_string()], None, None);
    let nonce = w.connections[0].pending_topics[0].0.clone();
    let ok = ConnectionLoopMessage::ServerMessage(Ok(Response::Response(TwitchResponse { nonce: Some(nonce), error: None })));
    let _: Vec<Action> = w.on_incoming_message(0, ok);
    assert_eq!(w.connections[0].active_topics, vec![BITS.to_string()]);
    assert!(w.can_unlisten(&BITS.to_string()));
    let a: Vec<Action> = w.unlisten_topic(BITS.to_string(), Some(4));
    let (nonce, _) = &w.connections[0].pending_topics[0];
    let expected = format!(r#"{{"type":"UNLISTEN","nonce":"{nonce}","data":{{"topics":["{BITS}"]}}}}"#);
    match &a[..] {
        [ClientAction::Send { connection: 0, message }] => assert_eq!(*message, expected),
        other => panic!("unexpected {other:?}"),
    }
    assert_eq!(w.connections[0].wanted_topics, 0);
}

#[test]
fn listen_topics_without_a_token_sends_the_empty_token() {
    let mut w = ClientLoopWorker::new(50);
    let a: Vec<Action> = w.listen_topics(vec![BITS.to_string()], None, None);
    let (nonce, _) = &w.connections[0].pending_topics[0];
    let expected = format!(r#"{{"type":"LISTEN","nonce":"{nonce}","data":{{"topics":["{BITS}"],"auth_token":""}}}}"#);
    match &a[1] {
        ClientAction::Send { connection: 0, message } => assert_eq!(*message, expected),
        other => panic!("unexpected {other:?}"),
    }
}
