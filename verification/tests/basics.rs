use twitch_pubsub::config::ClientConfig;
use twitch_pubsub::error::ClientError;
use twitch_pubsub::providers::StaticTokenProvider;
use twitch_pubsub::util::{generate_nonce, nonce_from_bytes};
use twitch_pubsub::worker::{after_read_error, closes_socket, frame_verdict, FrameRead, WsContext, WsReadError};
use twitch_pubsub::EventLoopAction;
use twitch_pubsub::response::take_failure;

#[test]
fn event_loop_action_from_result() {
    assert_eq!(EventLoopAction::from(Ok::<(), u8>(())), EventLoopAction::Continue);
    assert_eq!(EventLoopAction::from(Err::<(), u8>(3)), EventLoopAction::Stop);
    assert_eq!(EventLoopAction::from_result(Err::<(), &str>("gone")), EventLoopAction::Stop);
}

#[test]
fn nonce_is_thirty_alphanumeric_characters() {
    for _ in 0..20 {
        let n = generate_nonce();
        assert_eq!(n.chars().count(), 30);
        assert!(n.chars().all(|c| c.is_ascii_alphanumeric()));
    }
    assert_ne!(generate_nonce(), generate_nonce());
}

#[test]
fn config_defaults() {
    let c = ClientConfig::new(StaticTokenProvider::new("t".to_string()));
    assert_eq!(c.max_topics_per_connection, 50);
    assert_eq!(c.connection_permits, 1);
    assert_eq!(c.new_connection_every_secs, 2);
    assert_eq!(c.connect_timeout_secs, 20);
}

#[test]
fn error_clone_keeps_the_error() {
    let e: ClientError<StaticTokenProvider> = ClientError::ListenError("ERR_BADAUTH".to_string());
    match e.clone() {
        ClientError::ListenError(s) => assert_eq!(s, "ERR_BADAUTH"),
        other => panic!("unexpected {other:?}"),
    }
    let serde = serde_json::from_str::<u8>("x").unwrap_err();
    let e: ClientError<StaticTokenProvider> = ClientError::SerdeError(std::sync::Arc::new(serde));
    match (&e, e.clone()) {
        (ClientError::SerdeError(a), ClientError::SerdeError(b)) => assert!(std::sync::Arc::ptr_eq(a, &b)),
        _ => panic!("not a serde error"),
    }
    assert!(matches!(ClientError::<StaticTokenProvider>::PingTimeout.clone(), ClientError::PingTimeout));
}

#[test]
fn empty_error_means_success() {
    assert_eq!(take_failure(Some("".to_string())), None);
    assert_eq!(take_failure(None), None);
    assert_eq!(take_failure(Some("ERR_BADTOPIC".to_string())), Some("ERR_BADTOPIC".to_string()));
}

#[test]
fn frames_are_classified_in_order() {
    assert!(matches!(frame_verdict::<()>(&FrameRead::TimedOut), Err(WsReadError::Timeout)));
    assert!(matches!(frame_verdict::<()>(&FrameRead::Failed), Err(WsReadError::Parse)));
    assert!(matches!(
        frame_verdict::<()>(&FrameRead::Frame { text: false, utf8: false }),
        Err(WsReadError::NotText)
    ));
    assert!(matches!(
        frame_verdict::<()>(&FrameRead::Frame { text: true, utf8: false }),
        Err(WsReadError::NotUtf8)
    ));
    assert!(frame_verdict::<()>(&FrameRead::Frame { text: true, utf8: true }).is_ok());
    assert!(closes_socket(&FrameRead::TimedOut));
    assert!(closes_socket(&FrameRead::Failed));
    assert!(!closes_socket(&FrameRead::Frame { text: true, utf8: true }));
}

#[test]
fn only_a_timeout_ends_the_connection_task() {
    assert_eq!(after_read_error::<()>(&WsReadError::Timeout), EventLoopAction::Stop);
    assert_eq!(after_read_error::<()>(&WsReadError::NotText), EventLoopAction::Continue);
    assert_eq!(after_read_error(&WsReadError::Deserialize("bad json")), EventLoopAction::Continue);
}

#[test]
fn ws_context_timeout() {
    let mut c = WsContext::new(7);
    assert_eq!(c.id(), 7);
    assert_eq!(c.timeout(), 60);
    c.set_timeout(90);
    assert_eq!(c.timeout(), 90);
    assert_eq!(c.id(), 7);
}

#[test]
fn a_nonce_is_made_of_its_drawn_bytes() {
    let bytes: Vec<u8> = b"abcXYZ0123456789abcdefghijklmn".to_vec();
    assert_eq!(bytes.len(), 30);
    assert_eq!(nonce_from_bytes(&bytes), "abcXYZ0123456789abcdefghijklmn");
    assert_eq!(nonce_from_bytes(&b"Q7".to_vec()), "Q7");
    assert_eq!(nonce_from_bytes(&Vec::new()), "");
}
