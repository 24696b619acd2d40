use twitch_pubsub::client::{ClientAction, ClientLoopWorker, ConnectionLoopMessage};
use twitch_pubsub::handler::{create_handler, HandlerContext, WorkerEvent as PoolEvent};
use twitch_pubsub::providers::StaticTokenProvider;
use twitch_pubsub::pubsub::{PubSubHandler, WorkerData, WorkerEvent};
use twitch_pubsub::response::{Response, TwitchResponse};

type Action = ClientAction<u32, StaticTokenProvider>;

fn names(prefix: &str, n: usize) -> Vec<String> {
    (0..n).map(|i| format!("{prefix}.{i}")).collect()
}

fn distinct<T: PartialEq>(v: &[T]) -> bool {
    v.iter().enumerate().all(|(i, a)| v[i + 1..].iter().all(|b| a != b))
}

#[test]
fn workers_keep_distinct_ids_and_nonces() {
    let mut h = PubSubHandler::new(StaticTokenProvider::new("t".to_string()));
    let mut ctx: HandlerContext<WorkerData> = create_handler();
    h.subscribe_to(&mut ctx, vec![(names("a", 40), None), (names("b", 40), None), (names("c", 40), None)]);
    assert_eq!(ctx.workers.len(), 3);
    let r = h.handle_worker_event::<u32>(&mut ctx, PoolEvent::Closed(1));
    assert!(r.is_some());
    h.subscribe_to(&mut ctx, vec![(names("d", 45), None)]);
    let ids: Vec<usize> = ctx.workers.iter().map(|w| w.id).collect();
    assert_eq!(ids, vec![0, 2, 3]);
    assert!(ids.iter().all(|id| *id < ctx.next_id));
    let _ = h.on_message::<u32>(&mut ctx.workers[0], WorkerEvent::Connected);
    for k in 0..5 {
        h.subscribe_to(&mut ctx, vec![(names(&format!("e{k}"), 1), None)]);
    }
    let nonces: Vec<&String> = ctx.workers[0].data.unconfirmed.iter().map(|(n, _)| n).collect();
    assert_eq!(nonces.len(), 6);
    assert!(distinct(&nonces));
}

#[test]
fn connections_keep_distinct_ids_requests_and_topics() {
    let mut w = ClientLoopWorker::new(3);
    for k in 0..4 {
        let _: Vec<Action> = w.listen(names("a", 2), None, format!("n{k}"), Ok("m".to_string()));
    }
    let ids: Vec<usize> = w.connections.iter().map(|c| c.id).collect();
    assert!(distinct(&ids));
    assert!(ids.iter().all(|id| *id < w.next_connection_id));
    // the same topics confirmed twice are active once
    let c = w.connections.iter().position(|c| c.pending_topics.len() == 1).unwrap();
    let id = w.connections[c].id;
    let _: Vec<Action> = w.listen(names("a", 1), None, "again".to_string(), Ok("m".to_string()));
    for c in &w.connections {
        let keys: Vec<&String> = c.pending_topics.iter().map(|(n, _)| n).collect();
        assert!(distinct(&keys));
    }
    let pending: Vec<String> = w.connections.iter().find(|c| c.id == id).unwrap().pending_topics.iter().map(|(n, _)| n.clone()).collect();
    for n in pending {
        let ok = ConnectionLoopMessage::ServerMessage(Ok(Response::Response(TwitchResponse { nonce: Some(n), error: None })));
        let _: Vec<Action> = w.on_incoming_message(id, ok);
    }
    let active = &w.connections.iter().find(|c| c.id == id).unwrap().active_topics;
    assert!(distinct(active));
    assert!(!active.is_empty());
}
