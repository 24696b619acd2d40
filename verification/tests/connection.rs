use twitch_pubsub::client::ConnectionLoopMessage;
use twitch_pubsub::connection::{ConnectionAction, ConnectionLoopCommand, ConnectionLoopState, ConnectionLoopWorker};
use twitch_pubsub::error::ClientError;
use twitch_pubsub::providers::StaticTokenProvider;
use twitch_pubsub::response::Response;

type P = StaticTokenProvider;
type Action = ConnectionAction<u32, P>;

fn open_worker() -> ConnectionLoopWorker<P> {
    let mut w = ConnectionLoopWorker::<P>::new();
    let _: Vec<Action> = w.process_command(ConnectionLoopCommand::WsInitFinished(Ok(())));
    w
}

#[test]
fn queued_messages_are_written_in_order_once_open() {
    let mut w = ConnectionLoopWorker::<P>::new();
    let a: Vec<Action> = w.process_command(ConnectionLoopCommand::SendMessage { message: "one".to_string(), callback: Some(1) });
    assert!(a.is_empty());
    let _: Vec<Action> = w.process_command(ConnectionLoopCommand::SendMessage { message: "two".to_string(), callback: None });
    let a: Vec<Action> = w.process_command(ConnectionLoopCommand::WsInitFinished(Ok(())));
    assert_eq!(a.len(), 4);
    assert!(matches!(a[0], ConnectionAction::StartTransport));
    assert!(matches!(a[1], ConnectionAction::Notify(ConnectionLoopMessage::Open)));
    assert!(matches!(&a[2], ConnectionAction::Write { message, callback: Some(1) } if message == "one"));
    assert!(matches!(&a[3], ConnectionAction::Write { message, callback: None } if message == "two"));
    assert!(matches!(w.state, ConnectionLoopState::Open(_)));
}

#[test]
fn a_failed_setup_fails_the_queue() {
    let mut w = ConnectionLoopWorker::<P>::new();
    let _: Vec<Action> = w.process_command(ConnectionLoopCommand::SendMessage { message: "one".to_string(), callback: Some(1) });
    let a: Vec<Action> = w.process_command(ConnectionLoopCommand::WsInitFinished(Err(ClientError::ConnectTimeout)));
    assert_eq!(a.len(), 2);
    assert!(matches!(a[0], ConnectionAction::Reply { callback: 1, result: Err(ClientError::ConnectTimeout) }));
    assert!(matches!(a[1], ConnectionAction::Notify(ConnectionLoopMessage::Closed { cause: ClientError::ConnectTimeout })));
    // closed for good: a message is refused with the cause
    let a: Vec<Action> = w.process_command(ConnectionLoopCommand::SendMessage { message: "x".to_string(), callback: Some(2) });
    assert!(matches!(a[0], ConnectionAction::Reply { callback: 2, result: Err(ClientError::ConnectTimeout) }));
}

#[test]
fn open_connection_writes_at_once() {
    let mut w = open_worker();
    let a: Vec<Action> = w.process_command(ConnectionLoopCommand::SendMessage { message: "m".to_string(), callback: None });
    assert!(matches!(&a[0], ConnectionAction::Write { message, callback: None } if message == "m"));
}

#[test]
fn a_missing_pong_closes_the_connection() {
    let mut w = open_worker();
    let a: Vec<Action> = w.process_command(ConnectionLoopCommand::SendPing);
    assert!(matches!(&a[0], ConnectionAction::Write { message, callback: None } if message == "{\"type\":\"PING\"}"));
    let a: Vec<Action> = w.process_command(ConnectionLoopCommand::CheckPong);
    assert!(matches!(a[0], ConnectionAction::Notify(ConnectionLoopMessage::Closed { cause: ClientError::PingTimeout })));
    assert!(matches!(a[1], ConnectionAction::StopTransport));
    assert!(matches!(w.state, ConnectionLoopState::Closed(_)));
}

#[test]
fn a_pong_keeps_the_connection_open() {
    let mut w = open_worker();
    let _: Vec<Action> = w.process_command(ConnectionLoopCommand::SendPing);
    let a: Vec<Action> = w.process_command(ConnectionLoopCommand::IncomingMessage(Some(Ok(Ok(Response::Pong)))));
    assert!(matches!(a[0], ConnectionAction::Notify(ConnectionLoopMessage::ServerMessage(Ok(Response::Pong)))));
    let a: Vec<Action> = w.process_command(ConnectionLoopCommand::CheckPong);
    assert!(a.is_empty());
    assert!(matches!(w.state, ConnectionLoopState::Open(_)));
}

#[test]
fn a_reconnect_request_closes_after_forwarding() {
    let mut w = open_worker();
    let a: Vec<Action> = w.process_command(ConnectionLoopCommand::IncomingMessage(Some(Ok(Ok(Response::Reconnect)))));
    assert_eq!(a.len(), 3);
    assert!(matches!(a[0], ConnectionAction::Notify(ConnectionLoopMessage::ServerMessage(Ok(Response::Reconnect)))));
    assert!(matches!(a[1], ConnectionAction::Notify(ConnectionLoopMessage::Closed { cause: ClientError::ReconnectMessage })));
    assert!(matches!(a[2], ConnectionAction::StopTransport));
}

#[test]
fn the_end_of_the_stream_closes_the_connection() {
    let mut w = open_worker();
    let a: Vec<Action> = w.process_command(ConnectionLoopCommand::IncomingMessage(None));
    assert!(matches!(
        a[0],
        ConnectionAction::Notify(ConnectionLoopMessage::Closed { cause: ClientError::RemoteUnexpectedlyClosedConnection })
    ));
}

#[test]
fn a_send_error_closes_the_connection() {
    let mut w = open_worker();
    let err = std::sync::Arc::new(async_tungstenite::tungstenite::Error::ConnectionClosed);
    let a: Vec<Action> = w.process_command(ConnectionLoopCommand::SendErr(err));
    assert!(matches!(a[0], ConnectionAction::Notify(ConnectionLoopMessage::Closed { cause: ClientError::OutgoingError(_) })));
    let a: Vec<Action> = w.process_command(ConnectionLoopCommand::IncomingMessage(None));
    assert!(a.is_empty());
}

#[test]
fn a_pong_among_other_messages_keeps_the_connection_open() {
    let mut w = open_worker();
    let _: Vec<Action> = w.process_command(ConnectionLoopCommand::SendPing);
    for item in [Response::Message(1), Response::Pong, Response::Message(2)] {
        let _: Vec<Action> = w.process_command(ConnectionLoopCommand::IncomingMessage(Some(Ok(Ok(item)))));
    }
    let a: Vec<Action> = w.process_command(ConnectionLoopCommand::CheckPong);
    assert!(a.is_empty());
    assert!(matches!(w.state, ConnectionLoopState::Open(_)));
    // the next ping waits for a new pong: messages alone do not do
    let _: Vec<Action> = w.process_command(ConnectionLoopCommand::SendPing);
    let _: Vec<Action> = w.process_command(ConnectionLoopCommand::IncomingMessage(Some(Ok(Ok(Response::Message(3))))));
    let a: Vec<Action> = w.process_command(ConnectionLoopCommand::CheckPong);
    assert!(matches!(a[0], ConnectionAction::Notify(ConnectionLoopMessage::Closed { cause: ClientError::PingTimeout })));
}
