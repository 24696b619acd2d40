use twitch_pubsub::handler::{create_handler, HandlerContext, WorkerEvent as PoolEvent};
use twitch_pubsub::providers::StaticTokenProvider;
use twitch_pubsub::pubsub::{
    Effect, Finish, PubSubEvent, PubSubHandler, PubSubWorker, WorkerCommand, WorkerData,
    WorkerEvent, WorkerReaction, TOPICS_PER_CONNECTION,
};
use twitch_pubsub::response::{Response, TwitchResponse};
use twitch_pubsub::EventLoopAction;

fn names(prefix: &str, n: usize) -> Vec<String> {
    (0..n).map(|i| format!("{prefix}.{i}")).collect()
}

fn handler() -> PubSubHandler<StaticTokenProvider> {
    PubSubHandler::new(StaticTokenProvider::new("tok".to_string()))
}

fn tok() -> Option<String> {
    Some("tok".to_string())
}

#[test]
fn first_subscription_creates_a_waiting_worker() {
    let mut h = handler();
    let mut ctx: HandlerContext<WorkerData> = create_handler();
    let effects = h.subscribe_to(&mut ctx, vec![(names("a", 3), tok())]);
    assert_eq!(effects.len(), 1);
    assert!(matches!(effects[0], Effect::Spawn { worker: 0 }));
    assert_eq!(ctx.workers.len(), 1);
    let d = &ctx.workers[0].data;
    assert!(!d.connected);
    assert_eq!(d.total_subs, 3);
    assert_eq!(d.pending_subscriptions.len(), 1);
    assert_eq!(d.pending_subscriptions[0].topics, names("a", 3));
    assert_eq!(d.pending_subscriptions[0].auth, tok());
    assert!(d.unconfirmed.is_empty());
    assert_eq!(ctx.next_id, 1);
}

#[test]
fn a_group_of_up_to_twice_the_limit_sends_the_topics_after_the_limit_first() {
    let mut h = handler();
    let mut ctx: HandlerContext<WorkerData> = create_handler();
    let all = names("t", 70);
    let effects = h.subscribe_to(&mut ctx, vec![(all.clone(), None)]);
    assert_eq!(effects.len(), 2);
    assert_eq!(ctx.workers[0].data.pending_subscriptions[0].topics, all[50..].to_vec());
    assert_eq!(ctx.workers[0].data.total_subs, 20);
    assert_eq!(ctx.workers[1].data.pending_subscriptions[0].topics, all[..50].to_vec());
    assert_eq!(ctx.workers[1].data.total_subs, 50);
}

#[test]
fn a_large_group_is_cut_into_batches_within_the_limit() {
    let mut h = handler();
    let mut ctx: HandlerContext<WorkerData> = create_handler();
    let all = names("t", 101);
    let effects = h.subscribe_to(&mut ctx, vec![(all.clone(), tok())]);
    assert_eq!(effects.len(), 3);
    assert_eq!(ctx.workers.len(), 3);
    let counts: Vec<usize> = ctx.workers.iter().map(|w| w.data.total_subs).collect();
    assert_eq!(counts, vec![1, 50, 50]);
    assert_eq!(ctx.workers[0].data.pending_subscriptions[0].topics, all[100..].to_vec());
    assert_eq!(ctx.workers[1].data.pending_subscriptions[0].topics, all[50..100].to_vec());
    assert_eq!(ctx.workers[2].data.pending_subscriptions[0].topics, all[..50].to_vec());
    assert!(ctx.workers.iter().all(|w| w.data.pending_subscriptions[0].auth == tok()));
}

#[test]
fn a_queued_batch_is_counted_against_the_limit() {
    let mut h = handler();
    let mut ctx: HandlerContext<WorkerData> = create_handler();
    h.subscribe_to(&mut ctx, vec![(names("a", 30), tok())]);
    // 20 more fit on worker 0, which is not connected yet: queued and counted
    let effects = h.subscribe_to(&mut ctx, vec![(names("b", 20), None)]);
    assert!(effects.is_empty());
    assert_eq!(ctx.workers.len(), 1);
    assert_eq!(ctx.workers[0].data.pending_subscriptions.len(), 2);
    assert_eq!(ctx.workers[0].data.total_subs, 50);
    // one more does not fit
    let effects = h.subscribe_to(&mut ctx, vec![(names("c", 1), None)]);
    assert!(matches!(effects[0], Effect::Spawn { worker: 1 }));
    assert_eq!(ctx.workers.len(), 2);
    assert_eq!(ctx.workers[0].data.total_subs, 50);
    assert_eq!(TOPICS_PER_CONNECTION, 50);
}

fn connected_worker(h: &mut PubSubHandler<StaticTokenProvider>, ctx: &mut HandlerContext<WorkerData>) -> String {
    h.subscribe_to(ctx, vec![(names("a", 2), tok())]);
    let r = h.on_message::<u32>(&mut ctx.workers[0], WorkerEvent::Connected);
    assert!(matches!(r.finish, Finish::Act(EventLoopAction::Continue)));
    assert_eq!(r.effects.len(), 1);
    match &r.effects[0] {
        Effect::Send { worker, command: WorkerCommand::Subscribe { topics, auth_token, nonce } } => {
            assert_eq!(*worker, 0);
            assert_eq!(*topics, names("a", 2));
            assert_eq!(*auth_token, tok());
            assert_eq!(nonce.len(), 30);
            nonce.clone()
        }
        other => panic!("unexpected {other:?}"),
    }
}

#[test]
fn opening_sends_the_pending_subscriptions() {
    let mut h = handler();
    let mut ctx: HandlerContext<WorkerData> = create_handler();
    let nonce = connected_worker(&mut h, &mut ctx);
    let d = &ctx.workers[0].data;
    assert!(d.connected);
    assert!(d.pending_subscriptions.is_empty());
    assert_eq!(d.unconfirmed, vec![(nonce, names("a", 2))]);
}

#[test]
fn a_batch_on_a_connected_worker_is_sent_at_once() {
    let mut h = handler();
    let mut ctx: HandlerContext<WorkerData> = create_handler();
    connected_worker(&mut h, &mut ctx);
    let effects = h.subscribe_to(&mut ctx, vec![(names("b", 3), None)]);
    assert_eq!(effects.len(), 1);
    assert!(matches!(&effects[0], Effect::Send { worker: 0, command: WorkerCommand::Subscribe { topics, auth_token: None, .. } } if *topics == names("b", 3)));
    assert_eq!(ctx.workers[0].data.total_subs, 5);
    assert_eq!(ctx.workers[0].data.unconfirmed.len(), 2);
}

#[test]
fn a_successful_answer_confirms_the_topics() {
    let mut h = handler();
    let mut ctx: HandlerContext<WorkerData> = create_handler();
    let nonce = connected_worker(&mut h, &mut ctx);
    let r = h.on_message::<u32>(
        &mut ctx.workers[0],
        WorkerEvent::Response(TwitchResponse { nonce: Some(nonce), error: Some(String::new()) }),
    );
    assert!(matches!(r.finish, Finish::Act(EventLoopAction::Continue)));
    assert_eq!(ctx.workers[0].data.topics, names("a", 2));
    assert!(ctx.workers[0].data.unconfirmed.is_empty());
    assert_eq!(ctx.workers[0].data.total_subs, 2);
}

#[test]
fn a_refused_subscription_is_reported() {
    let mut h = handler();
    let mut ctx: HandlerContext<WorkerData> = create_handler();
    let nonce = connected_worker(&mut h, &mut ctx);
    let r = h.on_message::<u32>(
        &mut ctx.workers[0],
        WorkerEvent::Response(TwitchResponse { nonce: Some(nonce), error: Some("ERR_BADAUTH".to_string()) }),
    );
    match r.finish {
        Finish::Emit(PubSubEvent::SubError { topics, error }) => {
            assert_eq!(topics, names("a", 2));
            assert_eq!(error, "ERR_BADAUTH");
        }
        other => panic!("unexpected {other:?}"),
    }
    assert!(ctx.workers[0].data.topics.is_empty());
    assert_eq!(ctx.workers[0].data.total_subs, 0);
}

#[test]
fn answers_without_a_known_nonce_are_ignored() {
    let mut h = handler();
    let mut ctx: HandlerContext<WorkerData> = create_handler();
    connected_worker(&mut h, &mut ctx);
    let r = h.on_message::<u32>(&mut ctx.workers[0], WorkerEvent::Response(TwitchResponse { nonce: None, error: None }));
    assert!(matches!(r.finish, Finish::Act(EventLoopAction::Continue)));
    let r = h.on_message::<u32>(
        &mut ctx.workers[0],
        WorkerEvent::Response(TwitchResponse { nonce: Some("unknown".to_string()), error: Some("ERR".to_string()) }),
    );
    assert!(matches!(r.finish, Finish::Act(EventLoopAction::Continue)));
    assert_eq!(ctx.workers[0].data.unconfirmed.len(), 1);
}

#[test]
fn topic_messages_go_to_the_user() {
    let mut h = handler();
    let mut ctx: HandlerContext<WorkerData> = create_handler();
    connected_worker(&mut h, &mut ctx);
    let r = h.on_message(&mut ctx.workers[0], WorkerEvent::Message(42u32));
    assert!(matches!(r.finish, Finish::Emit(PubSubEvent::Message(42))));
    assert!(r.effects.is_empty());
}

#[test]
fn a_closed_worker_subscribes_to_all_its_topics_again() {
    let mut h = handler();
    let mut ctx: HandlerContext<WorkerData> = create_handler();
    let nonce = connected_worker(&mut h, &mut ctx);
    h.on_message::<u32>(&mut ctx.workers[0], WorkerEvent::Response(TwitchResponse { nonce: Some(nonce), error: None }));
    h.subscribe_to(&mut ctx, vec![(names("b", 1), None)]);
    let r = h.handle_worker_event::<u32>(&mut ctx, PoolEvent::Closed(0)).unwrap();
    assert!(ctx.workers.is_empty());
    match r.finish {
        Finish::Resubscribe(all) => assert_eq!(all, vec!["a.0", "a.1", "b.0"]),
        other => panic!("unexpected {other:?}"),
    }
    assert!(h.handle_worker_event::<u32>(&mut ctx, PoolEvent::Closed(0)).is_none());
}

#[test]
fn a_closed_worker_that_never_opened_keeps_its_pending_topics() {
    let mut h = handler();
    let mut ctx: HandlerContext<WorkerData> = create_handler();
    h.subscribe_to(&mut ctx, vec![(names("p", 2), tok())]);
    let data = ctx.remove(0).unwrap();
    match h.on_worker_closed::<u32>(data) {
        Finish::Resubscribe(all) => assert_eq!(all, names("p", 2)),
        other => panic!("unexpected {other:?}"),
    }
}

#[test]
fn messages_of_unknown_workers_are_dropped() {
    let mut h = handler();
    let mut ctx: HandlerContext<WorkerData> = create_handler();
    let r = h.handle_worker_event(&mut ctx, PoolEvent::User(9, WorkerEvent::Message(1u32))).unwrap();
    assert!(matches!(r.finish, Finish::Act(EventLoopAction::Continue)));
}

#[test]
fn provider_errors_go_to_the_user() {
    let mut h = handler();
    let mut ctx: HandlerContext<WorkerData> = create_handler();
    let err = std::io::Error::new(std::io::ErrorKind::Other, "no token");
    let r = h.on_external::<u32>(&mut ctx, Err(err));
    assert!(matches!(r.finish, Finish::Emit(PubSubEvent::ProvideError(_))));
    assert!(ctx.workers.is_empty());
    let r = h.on_external::<u32>(&mut ctx, Ok(vec![(names("x", 1), None)]));
    assert!(matches!(r.finish, Finish::Act(EventLoopAction::Continue)));
    assert_eq!(ctx.workers.len(), 1);
}

#[test]
fn worker_reacts_to_server_messages() {
    let mut w = PubSubWorker {};
    assert!(matches!(w.on_message(Response::<u8>::Pong), WorkerReaction::Act(EventLoopAction::Continue)));
    assert!(matches!(w.on_message(Response::<u8>::Reconnect), WorkerReaction::Act(EventLoopAction::Stop)));
    assert!(matches!(w.on_message(Response::Message(5u8)), WorkerReaction::Emit(WorkerEvent::Message(5))));
    let r = w.on_message(Response::<u8>::Response(TwitchResponse { nonce: Some("n".to_string()), error: None }));
    assert!(matches!(r, WorkerReaction::Emit(WorkerEvent::Response(_))));
    assert_eq!(w.on_command(WorkerCommand::Ping), Some("{\"type\":\"PING\"}".to_string()));
    let (timeout, ev, ping) = w.on_created::<u8>();
    assert_eq!((timeout, ping), (90, 30));
    assert!(matches!(ev, WorkerEvent::Connected));
}

fn pool_topics(ctx: &HandlerContext<WorkerData>) -> Vec<String> {
    let mut all = Vec::new();
    for w in &ctx.workers {
        all.extend(w.data.topics.iter().cloned());
        for (_, t) in &w.data.unconfirmed {
            all.extend(t.iter().cloned());
        }
        for p in &w.data.pending_subscriptions {
            all.extend(p.topics.iter().cloned());
        }
    }
    all.sort();
    all
}

#[test]
fn subscribing_keeps_every_topic_once() {
    let mut h = handler();
    let mut ctx: HandlerContext<WorkerData> = create_handler();
    connected_worker(&mut h, &mut ctx);
    let mut expected = names("a", 2);
    let groups = vec![(names("b", 70), tok()), (names("c", 10), None), (names("d", 45), None)];
    for g in &groups {
        expected.extend(g.0.iter().cloned());
    }
    h.subscribe_to(&mut ctx, groups);
    expected.sort();
    assert_eq!(pool_topics(&ctx), expected);
    assert!(ctx.workers.iter().all(|w| w.data.total_subs <= TOPICS_PER_CONNECTION));
    for w in &ctx.workers {
        let held = w.data.topics.len()
            + w.data.unconfirmed.iter().map(|(_, t)| t.len()).sum::<usize>()
            + w.data.pending_subscriptions.iter().map(|p| p.topics.len()).sum::<usize>();
        assert_eq!(w.data.total_subs, held);
    }
}

#[test]
fn a_subscription_is_sent_as_twitch_api_writes_it() {
    let mut w = PubSubWorker {};
    let command = WorkerCommand::Subscribe {
        topics: vec!["channel-bits-events-v2.12345".to_string()],
        auth_token: Some("my token".to_string()),
        nonce: "my nonce".to_string(),
    };
    let expected = r#"{"type":"LISTEN","nonce":"my nonce","data":{"topics":["channel-bits-events-v2.12345"],"auth_token":"my token"}}"#;
    assert_eq!(w.on_command(command), Some(expected.to_string()));
    let unknown = WorkerCommand::Subscribe { topics: vec!["no-such-topic".to_string()], auth_token: None, nonce: "n".to_string() };
    assert_eq!(w.on_command(unknown), None);
}
