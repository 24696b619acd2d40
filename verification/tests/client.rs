use std::sync::Arc;

use twitch_pubsub::message::to_server_message;
use twitch_pubsub::{ParseError, ServerMessage};

use twitch_pubsub::client::{listen_many_commands, ClientAction, ClientLoopWorker, ConnectionLoopMessage, PoolConnection, Request};
use twitch_pubsub::error::ClientError;
use twitch_pubsub::providers::StaticTokenProvider;
use twitch_pubsub::response::{Response, TwitchResponse};

type Action = ClientAction<u32, StaticTokenProvider>;

fn names(prefix: &str, n: usize) -> Vec<String> {
    (0..n).map(|i| format!("{prefix}.{i}")).collect()
}

fn serde_error() -> Arc<serde_json::Error> {
    Arc::new(serde_json::from_str::<u8>("x").unwrap_err())
}

fn answer(nonce: &str, error: Option<&str>) -> ConnectionLoopMessage<u32, StaticTokenProvider> {
    ConnectionLoopMessage::ServerMessage(Ok(Response::Response(TwitchResponse {
        nonce: Some(nonce.to_string()),
        error: error.map(|e| e.to_string()),
    })))
}

#[test]
fn can_handle_counts_wanted_topics() {
    let mut c = PoolConnection::new(50, 0);
    assert!(c.can_handle(50));
    assert!(!c.can_handle(51));
    c.wanted_topics = 45;
    assert!(c.can_handle(5));
    assert!(!c.can_handle(6));
    assert!(!c.can_handle(usize::MAX));
}

#[test]
fn listen_opens_a_connection_and_sends() {
    let mut w = ClientLoopWorker::new(50);
    let a: Vec<Action> = w.listen(names("a", 2), Some(1), "n1".to_string(), Ok("LISTEN a".to_string()));
    assert!(matches!(a[0], ClientAction::Connect { connection: 0 }));
    assert!(matches!(&a[1], ClientAction::Send { connection: 0, message } if message == "LISTEN a"));
    assert_eq!(w.connections.len(), 1);
    assert_eq!(w.connections[0].wanted_topics, 2);
    assert_eq!(w.connections[0].pending_topics, vec![("n1".to_string(), (Request::Listen(names("a", 2)), Some(1)))]);
    assert_eq!(w.next_connection_id, 1);
    // a second listen fits on the same connection
    let a: Vec<Action> = w.listen(names("b", 48), None, "n2".to_string(), Ok("LISTEN b".to_string()));
    assert_eq!(a.len(), 1);
    assert_eq!(w.connections[0].wanted_topics, 50);
    // a third does not
    let a: Vec<Action> = w.listen(names("c", 1), None, "n3".to_string(), Ok("LISTEN c".to_string()));
    assert!(matches!(a[0], ClientAction::Connect { connection: 1 }));
    assert_eq!(w.connections.len(), 2);
}

#[test]
fn listen_with_an_unserializable_message_answers_the_error() {
    let mut w = ClientLoopWorker::new(50);
    let a: Vec<Action> = w.listen(names("a", 1), Some(4), "n".to_string(), Err(serde_error()));
    assert!(matches!(a[0], ClientAction::Reply { callback: 4, result: Err(ClientError::SerdeError(_)) }));
    assert!(w.connections.is_empty());
    assert_eq!(w.next_connection_id, 0);
}

#[test]
fn a_successful_answer_activates_the_topics_and_answers_the_callback() {
    let mut w = ClientLoopWorker::new(50);
    let _: Vec<Action> = w.listen(names("a", 2), Some(1), "n1".to_string(), Ok("m".to_string()));
    let a: Vec<Action> = w.on_incoming_message(0, answer("n1", Some("")));
    assert_eq!(a.len(), 2);
    assert!(matches!(a[0], ClientAction::Reply { callback: 1, result: Ok(()) }));
    assert!(matches!(a[1], ClientAction::Forward(Ok(Response::Response(_)))));
    assert_eq!(w.connections[0].active_topics, names("a", 2));
    assert!(w.connections[0].pending_topics.is_empty());
}

#[test]
fn a_refused_listen_answers_the_error() {
    let mut w = ClientLoopWorker::new(50);
    let _: Vec<Action> = w.listen(names("a", 2), Some(1), "n1".to_string(), Ok("m".to_string()));
    let a: Vec<Action> = w.on_incoming_message(0, answer("n1", Some("ERR_BADAUTH")));
    match &a[0] {
        ClientAction::Reply { callback: 1, result: Err(ClientError::ListenError(e)) } => assert_eq!(e, "ERR_BADAUTH"),
        other => panic!("unexpected {other:?}"),
    }
    assert!(w.connections[0].active_topics.is_empty());
}

#[test]
fn pongs_are_not_forwarded_and_other_messages_are() {
    let mut w = ClientLoopWorker::new(50);
    let a: Vec<Action> = w.on_incoming_message(3, ConnectionLoopMessage::ServerMessage(Ok(Response::Pong)));
    assert!(a.is_empty());
    let a: Vec<Action> = w.on_incoming_message(3, ConnectionLoopMessage::ServerMessage(Ok(Response::Message(7))));
    assert!(matches!(a[0], ClientAction::Forward(Ok(Response::Message(7)))));
    let a: Vec<Action> = w.on_incoming_message(3, ConnectionLoopMessage::Open);
    assert!(a.is_empty());
}

#[test]
fn unlisten_goes_to_the_connection_that_listens() {
    let mut w = ClientLoopWorker::new(50);
    let _: Vec<Action> = w.listen(names("a", 2), None, "n1".to_string(), Ok("m".to_string()));
    let _: Vec<Action> = w.on_incoming_message(0, answer("n1", None));
    assert!(w.can_unlisten(&"a.1".to_string()));
    let a: Vec<Action> = w.unlisten("a.1".to_string(), Some(2), "n2".to_string(), Ok("UNLISTEN".to_string()));
    assert!(matches!(&a[0], ClientAction::Send { connection: 0, message } if message == "UNLISTEN"));
    assert_eq!(w.connections[0].wanted_topics, 1);
    assert_eq!(w.connections[0].pending_topics, vec![("n2".to_string(), (Request::Unlisten("a.1".to_string()), Some(2)))]);
    let a: Vec<Action> = w.on_incoming_message(0, answer("n2", None));
    assert!(matches!(a[0], ClientAction::Reply { callback: 2, result: Ok(()) }));
    // the confirmed topic is no longer active; the other one is
    assert_eq!(w.connections[0].active_topics, vec!["a.0".to_string()]);
    assert!(!w.connections.iter().any(|c| c.active_topics.contains(&"a.1".to_string())));
    // a second unlisten of it is answered at once, and counts nothing down
    let a: Vec<Action> = w.unlisten("a.1".to_string(), Some(3), "n3".to_string(), Ok("UNLISTEN".to_string()));
    assert!(matches!(a[..], [ClientAction::Reply { callback: 3, result: Ok(()) }]));
    assert_eq!(w.connections[0].wanted_topics, 1);
}

#[test]
fn unlisten_of_an_unknown_topic_succeeds_at_once() {
    let mut w = ClientLoopWorker::new(50);
    let a: Vec<Action> = w.unlisten("z.1".to_string(), Some(5), "n".to_string(), Ok("m".to_string()));
    assert!(matches!(a[0], ClientAction::Reply { callback: 5, result: Ok(()) }));
    assert!(w.connections.is_empty());
}

#[test]
fn a_closed_connection_fails_its_requests_and_listens_again() {
    let mut w = ClientLoopWorker::new(50);
    let _: Vec<Action> = w.listen(names("a", 2), None, "n1".to_string(), Ok("m".to_string()));
    let _: Vec<Action> = w.on_incoming_message(0, answer("n1", None));
    let _: Vec<Action> = w.listen(names("b", 1), Some(8), "n2".to_string(), Ok("m".to_string()));
    let a: Vec<Action> = w.on_incoming_message(0, ConnectionLoopMessage::Closed { cause: ClientError::PingTimeout });
    assert_eq!(a.len(), 3);
    assert!(matches!(a[0], ClientAction::Reply { callback: 8, result: Err(ClientError::PingTimeout) }));
    match &a[1] {
        ClientAction::Rehydrate { connection: 0, topics } => assert_eq!(*topics, names("a", 2)),
        other => panic!("unexpected {other:?}"),
    }
    assert!(matches!(a[2], ClientAction::Release { connection: 0 }));
    assert!(w.connections.is_empty());
}

#[test]
fn listen_many_cuts_large_groups() {
    let groups = vec![(names("a", 120), Some("t".to_string())), (names("b", 3), None), (vec![], None)];
    let cmds = listen_many_commands(groups, 50);
    let sizes: Vec<usize> = cmds.iter().map(|c| c.0.len()).collect();
    assert_eq!(sizes, vec![50, 50, 20, 3, 0]);
    assert_eq!(cmds[0].0, names("a", 120)[..50].to_vec());
    assert_eq!(cmds[2].0, names("a", 120)[100..].to_vec());
    assert_eq!(cmds[2].1, Some("t".to_string()));
    assert_eq!(cmds[3].1, None);
}

#[test]
fn the_user_hears_topic_messages_and_parse_errors() {
    let data = to_server_message::<u32, StaticTokenProvider>(Ok(Response::Message(7)));
    assert!(matches!(data, Some(ServerMessage::Data(7))));
    let error = serde_json::from_str::<u8>("x").unwrap_err();
    let parse = to_server_message::<u32, StaticTokenProvider>(Err(ParseError { raw: "x".to_string(), error }));
    assert!(matches!(parse, Some(ServerMessage::ParseError(ParseError { ref raw, .. })) if raw == "x"));
    assert!(to_server_message::<u32, StaticTokenProvider>(Ok(Response::Pong)).is_none());
    assert!(to_server_message::<u32, StaticTokenProvider>(Ok(Response::Reconnect)).is_none());
    let answer = Response::Response(TwitchResponse { nonce: None, error: None });
    assert!(to_server_message::<u32, StaticTokenProvider>(Ok(answer)).is_none());
}
