//! The PubSub handler: which connection subscribes to which topics, what a
//! connection's answers change, and what happens to the topics of a connection
//! that closed.
use vstd::prelude::*;

use crate::event_loop::EventLoopAction;
use crate::handler::{ids_fresh, next_id_after, HandlerContext, Worker};
use crate::response::{failure, take_failure, Response, TwitchResponse};
use crate::seq_util::{
    assoc_get, assoc_insert, assoc_insert_exec, assoc_remove, assoc_remove_exec, first_index,
    keys_distinct, lemma_assoc_insert_distinct, lemma_assoc_remove_distinct, lemma_first_index,
    lemma_first_index_is, lemma_first_index_none,
};
use crate::token_provider::{flatten_chunks, lemma_flatten_chunks_append, lemma_flatten_single, Chunk, ChunkView, TokenProvider};
use vstd::multiset::Multiset;
use crate::util::{generate_nonce, is_nonce, lemma_some_nonce, some_nonce};
use crate::wire::{listen_command, listen_request};

verus! {

/// The most topics that one connection subscribes to (Twitch's limit).
pub const TOPICS_PER_CONNECTION: usize = 50;

/// A subscription that waits for its connection to open.
#[derive(Debug)]
pub struct PendingSub {
    pub topics: Vec<String>,
    pub auth: Option<String>,
}

impl DeepView for PendingSub {
    type V = ChunkView;

    open spec fn deep_view(&self) -> ChunkView {
        (self.topics.deep_view(), self.auth.deep_view())
    }
}

/// What the handler keeps for one connection.
#[derive(Debug)]
pub struct WorkerData {
    /// Topics that Twitch confirmed.
    pub topics: Vec<String>,
    /// Topics sent to Twitch and not answered yet, by the nonce of the request.
    pub unconfirmed: Vec<(String, Vec<String>)>,
    /// Subscriptions that wait for the connection to open.
    pub pending_subscriptions: Vec<PendingSub>,
    /// The number of topics counted against the connection's limit.
    pub total_subs: usize,
    /// Whether the connection is open.
    pub connected: bool,
}

/// The view of `WorkerData`.
pub struct WorkerDataView {
    pub topics: Seq<Seq<char>>,
    pub unconfirmed: Seq<(Seq<char>, Seq<Seq<char>>)>,
    pub pending: Seq<ChunkView>,
    pub total_subs: nat,
    pub connected: bool,
}

impl DeepView for WorkerData {
    type V = WorkerDataView;

    open spec fn deep_view(&self) -> WorkerDataView {
        WorkerDataView {
            topics: self.topics.deep_view(),
            unconfirmed: self.unconfirmed.deep_view(),
            pending: self.pending_subscriptions.deep_view(),
            total_subs: self.total_subs as nat,
            connected: self.connected,
        }
    }
}

/// A command from the handler to a connection.
#[derive(Debug)]
pub enum WorkerCommand {
    /// Send a LISTEN request for `topics`.
    Subscribe { topics: Vec<String>, auth_token: Option<String>, nonce: String },
    /// Send a ping.
    Ping,
}

/// The view of a `WorkerCommand`.
pub enum WorkerCommandView {
    Subscribe { topics: Seq<Seq<char>>, auth_token: Option<Seq<char>>, nonce: Seq<char> },
    Ping,
}

impl DeepView for WorkerCommand {
    type V = WorkerCommandView;

    open spec fn deep_view(&self) -> WorkerCommandView {
        match self {
            WorkerCommand::Subscribe { topics, auth_token, nonce } => WorkerCommandView::Subscribe {
                topics: topics.deep_view(),
                auth_token: auth_token.deep_view(),
                nonce: nonce@,
            },
            WorkerCommand::Ping => WorkerCommandView::Ping,
        }
    }
}

/// An event from a connection to the handler; `D` is the data of a topic message.
#[derive(Debug)]
pub enum WorkerEvent<D> {
    /// The connection opened.
    Connected,
    /// A message on a topic.
    Message(D),
    /// Twitch answered a request.
    Response(TwitchResponse),
}

/// A command from the library's user to the handler.
#[derive(Debug)]
pub enum PubSubCommand {
    /// Subscribe to these topics.
    Subscribe(Vec<String>),
}

/// An event from the handler to the library's user.
#[derive(Debug)]
pub enum PubSubEvent<D, E> {
    /// A PubSub message was received.
    Message(D),
    /// A subscription to some topics didn't work.
    SubError {
        /// The affected topics.
        topics: Vec<String>,
        /// The error received from Twitch.
        error: String,
    },
    /// The token provider failed to provide a token.
    ProvideError(E),
}

/// A step that the handler asks the caller to perform; the handler does not
/// look at its outcome.
#[derive(Debug)]
pub enum Effect {
    /// Hand `command` to the connection of worker `worker`.
    Send { worker: usize, command: WorkerCommand },
    /// Open the connection of the new worker `worker`.
    Spawn { worker: usize },
}

/// The view of an `Effect`.
pub enum EffectView {
    Send { worker: usize, command: WorkerCommandView },
    Spawn { worker: usize },
}

impl DeepView for Effect {
    type V = EffectView;

    open spec fn deep_view(&self) -> EffectView {
        match self {
            Effect::Send { worker, command } => EffectView::Send {
                worker: *worker,
                command: command.deep_view(),
            },
            Effect::Spawn { worker } => EffectView::Spawn { worker: *worker },
        }
    }
}

/// How the handler's event loop goes on after the effects.
#[derive(Debug)]
pub enum Finish<D, E> {
    /// Go on as given.
    Act(EventLoopAction),
    /// Emit the event to the user; the loop goes on as `EventLoopAction::from`
    /// of the outcome of that send.
    Emit(PubSubEvent<D, E>),
    /// Subscribe again to these topics through the handler's own queue; the loop
    /// stops where that queue is gone, and else goes on as `EventLoopAction::from`
    /// of the outcome of the send.
    Resubscribe(Vec<String>),
}

/// The handler's answer to one event: effects to perform in order, then how the
/// loop goes on.
#[derive(Debug)]
pub struct Reaction<D, E> {
    pub effects: Vec<Effect>,
    pub finish: Finish<D, E>,
}

/// The handler's view of its pool: each worker's id and data, and the next id.
pub struct PoolView {
    pub workers: Seq<(usize, WorkerDataView)>,
    pub next_id: usize,
}

/// The view of a pool of workers.
pub open spec fn pool_view(ctx: &HandlerContext<WorkerData>) -> PoolView {
    PoolView { workers: ctx.workers.deep_view(), next_id: ctx.next_id }
}

/// `n` more topics fit on a connection that counts `total` topics.
pub open spec fn fits(total: nat, n: nat) -> bool {
    total + n <= TOPICS_PER_CONNECTION
}

/// The predicate "`n` more topics fit on this worker".
pub open spec fn fits_worker(n: nat) -> spec_fn((usize, WorkerDataView)) -> bool {
    |w: (usize, WorkerDataView)| fits(w.1.total_subs, n)
}

/// Where a group of `n` topics that does not fit on one connection is cut: after
/// its last full piece of `TOPICS_PER_CONNECTION` topics that leaves some over.
pub open spec fn last_cut(n: nat) -> int {
    ((n - 1) / TOPICS_PER_CONNECTION as int) * TOPICS_PER_CONNECTION
}

/// How one group of topics is cut into batches of at most
/// `TOPICS_PER_CONNECTION` topics: a group that fits is one batch; a larger one
/// gives the topics after `last_cut` first, and the topics before it are cut in
/// the same way. A group of up to twice the limit thus gives its topics after
/// the first `TOPICS_PER_CONNECTION`, then those.
pub open spec fn batches(t: Seq<Seq<char>>) -> Seq<Seq<Seq<char>>>
    decreases t.len(),
{
    if t.len() == 0 {
        seq![]
    } else if t.len() <= TOPICS_PER_CONNECTION {
        seq![t]
    } else {
        let q = last_cut(t.len());
        seq![t.skip(q)] + batches(t.take(q))
    }
}

/// The batches of one group, each with the group's token.
pub open spec fn chunk_batches(c: ChunkView) -> Seq<ChunkView> {
    batches(c.0).map_values(|b: Seq<Seq<char>>| (b, c.1))
}

/// The batches of all groups, in order.
pub open spec fn all_batches(subs: Seq<ChunkView>) -> Seq<ChunkView>
    decreases subs.len(),
{
    if subs.len() == 0 {
        seq![]
    } else {
        all_batches(subs.drop_last()) + chunk_batches(subs.last())
    }
}

/// The data of a worker created for one batch: it waits for its connection with
/// the batch pending, and counts the batch's topics.
pub open spec fn fresh_worker(item: ChunkView) -> WorkerDataView {
    WorkerDataView {
        topics: seq![],
        unconfirmed: seq![],
        pending: seq![item],
        total_subs: item.0.len(),
        connected: false,
    }
}

/// Where one batch goes: to the first worker that it fits on (sent with `nonce`
/// where that worker is connected, else queued), whose count it raises, or to a
/// new worker.
pub open spec fn place(pool: PoolView, item: ChunkView, nonce: Seq<char>) -> (PoolView, Seq<EffectView>) {
    let i = first_index(pool.workers, fits_worker(item.0.len()));
    if i >= 0 {
        let id = pool.workers[i].0;
        let w = pool.workers[i].1;
        if w.connected {
            let w2 = WorkerDataView {
                unconfirmed: assoc_insert(w.unconfirmed, nonce, item.0),
                total_subs: w.total_subs + item.0.len(),
                ..w
            };
            (
                PoolView { workers: pool.workers.update(i, (id, w2)), ..pool },
                seq![EffectView::Send {
                    worker: id,
                    command: WorkerCommandView::Subscribe { topics: item.0, auth_token: item.1, nonce },
                }],
            )
        } else {
            let w2 = WorkerDataView { pending: w.pending.push(item), total_subs: w.total_subs + item.0.len(), ..w };
            (PoolView { workers: pool.workers.update(i, (id, w2)), ..pool }, seq![])
        }
    } else {
        (
            PoolView {
                workers: pool.workers.push((pool.next_id, fresh_worker(item))),
                next_id: next_id_after(pool.next_id),
            },
            seq![EffectView::Spawn { worker: pool.next_id }],
        )
    }
}

/// Places the batches one after the other, the `i`th with the `i`th nonce.
pub open spec fn place_all(pool: PoolView, items: Seq<ChunkView>, nonces: Seq<Seq<char>>) -> (PoolView, Seq<EffectView>)
    decreases items.len(),
{
    if items.len() == 0 {
        (pool, seq![])
    } else {
        let r = place_all(pool, items.drop_last(), nonces.drop_last());
        let s = place(r.0, items.last(), nonces.last());
        (s.0, r.1 + s.1)
    }
}

proof fn lemma_place_all_push(pool: PoolView, items: Seq<ChunkView>, nonces: Seq<Seq<char>>, item: ChunkView, nonce: Seq<char>)
    ensures
        ({
            let r = place_all(pool, items, nonces);
            let s = place(r.0, item, nonce);
            place_all(pool, items.push(item), nonces.push(nonce)) == (s.0, r.1 + s.1)
        }),
{
    assert(items.push(item).drop_last() =~= items);
    assert(nonces.push(nonce).drop_last() =~= nonces);
}

proof fn lemma_all_batches_take(subs: Seq<ChunkView>, k: int)
    requires
        0 <= k < subs.len(),
    ensures
        all_batches(subs.take(k + 1)) == all_batches(subs.take(k)) + chunk_batches(subs[k]),
{
    assert(subs.take(k + 1).drop_last() =~= subs.take(k));
}

/// A copy of an optional token.
pub fn clone_token(token: &Option<String>) -> (r: Option<String>)
    ensures
        r.deep_view() == token.deep_view(),
{
    match token {
        Some(t) => Some(t.clone()),
        None => None,
    }
}

/// Places one batch, as `place` says, with a nonce of its own where it is sent.
fn place_batch(
    ctx: &mut HandlerContext<WorkerData>,
    batch: Vec<String>,
    token: &Option<String>,
    effects: &mut Vec<Effect>,
) -> (nonce: Ghost<Seq<char>>)
    ensures
        ({
            let r = place(pool_view(old(ctx)), (batch.deep_view(), token.deep_view()), nonce@);
            &&& pool_view(final(ctx)) == r.0
            &&& final(effects).deep_view() == old(effects).deep_view() + r.1
        }),
        is_nonce(nonce@),
{
    let n = batch.len();
    let ghost ws = ctx.workers.deep_view();
    let ghost p = fits_worker(n as nat);
    let room = |_id: usize, data: &WorkerData| -> (b: bool)
        ensures
            b == fits(data.total_subs as nat, n as nat),
        {
            let total: usize = data.total_subs;
            n <= TOPICS_PER_CONNECTION && total <= TOPICS_PER_CONNECTION - n
        };
    let found = ctx.find_mut(room);
    let ghost item = (batch.deep_view(), token.deep_view());
    match found {
        Some(i) => {
            proof {
                assert forall|j: int| 0 <= j < i implies !p(#[trigger] ws[j]) by {
                    assert(ws[j].1 == ctx.workers@[j].data.deep_view());
                }
                lemma_first_index_is(ws, p, i as int);
            }
            let id = ctx.workers[i].id;
            if ctx.workers[i].data.connected {
                let nonce = generate_nonce();
                let ghost old_effects = effects.deep_view();
                assoc_insert_exec(&mut ctx.workers[i].data.unconfirmed, nonce.clone(), batch.clone());
                ctx.workers[i].data.total_subs = ctx.workers[i].data.total_subs + n;
                effects.push(Effect::Send {
                    worker: id,
                    command: WorkerCommand::Subscribe { topics: batch, auth_token: clone_token(token), nonce: nonce.clone() },
                });
                proof {
                    let r = place(PoolView { workers: ws, next_id: old(ctx).next_id }, item, nonce@);
                    assert(ctx.workers.deep_view() =~= r.0.workers);
                    assert(effects.deep_view() =~= old_effects + r.1);
                }
                Ghost(nonce@)
            } else {
                let ghost old_effects = effects.deep_view();
                let ghost old_pending = ctx.workers@[i as int].data.pending_subscriptions.deep_view();
                ctx.workers[i].data.total_subs = ctx.workers[i].data.total_subs + n;
                ctx.workers[i].data.pending_subscriptions.push(PendingSub { topics: batch, auth: clone_token(token) });
                proof {
                    let r = place(PoolView { workers: ws, next_id: old(ctx).next_id }, item, some_nonce());
                    assert(ctx.workers@[i as int].data.pending_subscriptions.deep_view() =~= old_pending.push(item));
                    assert(ctx.workers.deep_view()[i as int] == r.0.workers[i as int]);
                    assert(ctx.workers.deep_view() =~= r.0.workers);
                    assert(effects.deep_view() =~= old_effects + r.1);
                }
                proof {
                    lemma_some_nonce();
                }
                Ghost(some_nonce())
            }
        },
        None => {
            proof {
                assert forall|j: int| 0 <= j < ws.len() implies !p(#[trigger] ws[j]) by {
                    assert(ws[j].1 == ctx.workers@[j].data.deep_view());
                }
                lemma_first_index_none(ws, p);
            }
            let ghost old_effects = effects.deep_view();
            let total_subs = batch.len();
            let id = ctx.create(WorkerData {
                connected: false,
                pending_subscriptions: vec![PendingSub { topics: batch, auth: clone_token(token) }],
                topics: vec![],
                unconfirmed: Vec::new(),
                total_subs,
            });
            effects.push(Effect::Spawn { worker: id });
            proof {
                let r = place(PoolView { workers: ws, next_id: old(ctx).next_id }, item, some_nonce());
                let nw = ctx.workers@[ws.len() as int];
                assert(nw.data.pending_subscriptions.deep_view() =~= seq![item]);
                assert(nw.data.topics.deep_view() =~= Seq::<Seq<char>>::empty());
                assert(nw.data.unconfirmed.deep_view() =~= Seq::<(Seq<char>, Seq<Seq<char>>)>::empty());
                assert(ctx.workers.deep_view()[ws.len() as int] == r.0.workers[ws.len() as int]);
                assert(ctx.workers.deep_view() =~= r.0.workers);
                assert(effects.deep_view() =~= old_effects + r.1);
            }
            proof {
                lemma_some_nonce();
            }
            Ghost(some_nonce())
        },
    }
}

/// The data of a connection that has just opened: every pending subscription is
/// sent, the `i`th with the `i`th nonce, and waits for its answer.
pub open spec fn flush_pending(
    id: usize,
    w: WorkerDataView,
    pending: Seq<ChunkView>,
    nonces: Seq<Seq<char>>,
) -> (WorkerDataView, Seq<EffectView>)
    decreases pending.len(),
{
    if pending.len() == 0 {
        (w, seq![])
    } else {
        let r = flush_pending(id, w, pending.drop_last(), nonces.drop_last());
        let item = pending.last();
        let nonce = nonces.last();
        (
            WorkerDataView { unconfirmed: assoc_insert(r.0.unconfirmed, nonce, item.0), ..r.0 },
            r.1.push(EffectView::Send {
                worker: id,
                command: WorkerCommandView::Subscribe { topics: item.0, auth_token: item.1, nonce },
            }),
        )
    }
}

/// What the opening of its connection does to a worker.
pub open spec fn connect(id: usize, w: WorkerDataView, nonces: Seq<Seq<char>>) -> (WorkerDataView, Seq<EffectView>) {
    flush_pending(id, WorkerDataView { connected: true, pending: seq![], ..w }, w.pending, nonces)
}

/// What an answer of Twitch does to a worker: the request with the answer's
/// nonce stops waiting; on success its topics are confirmed, on failure they
/// are no longer counted and are reported with the error.
pub open spec fn answer(w: WorkerDataView, res: (Option<Seq<char>>, Option<Seq<char>>)) -> (WorkerDataView, Option<(Seq<Seq<char>>, Seq<char>)>) {
    match res.0 {
        None => (w, None),
        Some(nonce) => match assoc_get(w.unconfirmed, nonce) {
            None => (w, None),
            Some(topics) => {
                let w1 = WorkerDataView { unconfirmed: assoc_remove(w.unconfirmed, nonce), ..w };
                match failure(res.1) {
                    Some(e) => (
                        WorkerDataView { total_subs: (w.total_subs - topics.len()) as nat, ..w1 },
                        Some((topics, e)),
                    ),
                    None => (WorkerDataView { topics: w.topics + topics, ..w1 }, None),
                }
            },
        },
    }
}

/// A failed answer does not take more topics off the count than it holds.
pub open spec fn answer_in_range(w: WorkerDataView, res: (Option<Seq<char>>, Option<Seq<char>>)) -> bool {
    match res.0 {
        Some(nonce) => match assoc_get(w.unconfirmed, nonce) {
            Some(topics) => failure(res.1) is Some ==> topics.len() <= w.total_subs,
            None => true,
        },
        None => true,
    }
}

/// The topics of all unanswered requests, in order.
pub open spec fn flatten_values(s: Seq<(Seq<char>, Seq<Seq<char>>)>) -> Seq<Seq<char>>
    decreases s.len(),
{
    if s.len() == 0 {
        seq![]
    } else {
        flatten_values(s.drop_last()) + s.last().1
    }
}

/// Every topic of a worker: confirmed, waiting for an answer, and pending.
pub open spec fn all_topics(w: WorkerDataView) -> Seq<Seq<char>> {
    w.topics + flatten_values(w.unconfirmed) + flatten_chunks(w.pending)
}

/// The handler of the PubSub pool; `P` provides the tokens.
pub struct PubSubHandler<P> {
    provider: P,
}

impl<P> PubSubHandler<P> {
    /// The handler's token provider.
    pub closed spec fn provider_spec(&self) -> P {
        self.provider
    }

    /// Creates a handler that gets its tokens from `provider`.
    pub fn new(provider: P) -> (r: Self)
        ensures
            r.provider_spec() == provider,
    {
        PubSubHandler { provider }
    }

    /// The handler's token provider.
    pub fn provider(&self) -> (r: &P)
        ensures
            *r == self.provider_spec(),
    {
        &self.provider
    }

    /// Subscribes to the topics of `subs`, each group with its token: every group
    /// is cut into batches (see `batches`), and each batch is placed in turn (see
    /// `place`), with a fresh nonce where it is sent at once.
    pub fn subscribe_to(&mut self, ctx: &mut HandlerContext<WorkerData>, subs: Vec<Chunk>) -> (effects: Vec<Effect>)
        ensures
            exists|nonces: Seq<Seq<char>>|
                #![trigger place_all(pool_view(old(ctx)), all_batches(subs.deep_view()), nonces)]
                {
                    let r = place_all(pool_view(old(ctx)), all_batches(subs.deep_view()), nonces);
                    &&& nonces.len() == all_batches(subs.deep_view()).len()
                    &&& forall|i: int| 0 <= i < nonces.len() ==> is_nonce(#[trigger] nonces[i])
                    &&& pool_view(final(ctx)) == r.0
                    &&& effects.deep_view() == r.1
                },
            final(self).provider_spec() == old(self).provider_spec(),
    {
        let ghost sv = subs.deep_view();
        let ghost start = pool_view(ctx);
        let ghost mut items: Seq<ChunkView> = seq![];
        let ghost mut nonces: Seq<Seq<char>> = seq![];
        let mut effects: Vec<Effect> = Vec::new();
        let mut k: usize = 0;
        proof {
            assert(sv.take(0) =~= Seq::<ChunkView>::empty());
        }
        while k < subs.len()
            invariant
                k <= subs@.len(),
                sv == subs.deep_view(),
                start == pool_view(old(ctx)),
                items == all_batches(sv.take(k as int)),
                nonces.len() == items.len(),
                forall|i: int| 0 <= i < nonces.len() ==> is_nonce(#[trigger] nonces[i]),
                place_all(start, items, nonces) == (pool_view(ctx), effects.deep_view()),
            decreases subs@.len() - k,
        {
            let mut topics = subs[k].0.clone();
            let token = &subs[k].1;
            let ghost c = sv[k as int];
            proof {
                assert(topics.deep_view() =~= c.0);
                assert(token.deep_view() == c.1);
                lemma_all_batches_take(sv, k as int);
            }
            proof {
                assert(items + chunk_batches((topics.deep_view(), c.1)) == all_batches(sv.take(k + 1)));
            }
            while topics.len() > 0
                invariant
                    sv == subs.deep_view(),
                    k < subs@.len(),
                    c == sv[k as int],
                    token.deep_view() == c.1,
                    start == pool_view(old(ctx)),
                    items + chunk_batches((topics.deep_view(), c.1)) == all_batches(sv.take(k + 1)),
                    nonces.len() == items.len(),
                    forall|i: int| 0 <= i < nonces.len() ==> is_nonce(#[trigger] nonces[i]),
                    place_all(start, items, nonces) == (pool_view(ctx), effects.deep_view()),
                decreases topics.len(),
            {
                let ghost t = topics.deep_view();
                let len = topics.len();
                let batch = if len <= TOPICS_PER_CONNECTION {
                    let mut all: Vec<String> = Vec::new();
                    std::mem::swap(&mut all, &mut topics);
                    all
                } else {
                    let q = ((len - 1) / TOPICS_PER_CONNECTION) * TOPICS_PER_CONNECTION;
                    proof {
                        assert(q as int == last_cut(t.len()));
                    }
                    topics.split_off(q)
                };
                let ghost b = batch.deep_view();
                proof {
                    if t.len() <= TOPICS_PER_CONNECTION {
                        assert(b =~= t);
                        assert(topics.deep_view() =~= Seq::<Seq<char>>::empty());
                        assert(chunk_batches((t, c.1)) =~= seq![(b, c.1)] + chunk_batches((topics.deep_view(), c.1)));
                    } else {
                        let q = last_cut(t.len());
                        assert(b =~= t.skip(q));
                        assert(topics.deep_view() =~= t.take(q));
                        assert(chunk_batches((t, c.1)) =~= seq![(b, c.1)] + chunk_batches((topics.deep_view(), c.1)));
                    }
                }
                let n = place_batch(ctx, batch, token, &mut effects);
                proof {
                    lemma_place_all_push(start, items, nonces, (b, c.1), n@);
                    assert(items.push((b, c.1)) + chunk_batches((topics.deep_view(), c.1)) =~= items + chunk_batches((t, c.1)));
                    items = items.push((b, c.1));
                    nonces = nonces.push(n@);
                }
            }
            proof {
                assert(chunk_batches((topics.deep_view(), c.1)) =~= Seq::<ChunkView>::empty());
                assert(items =~= all_batches(sv.take(k + 1)));
            }
            k += 1;
        }
        proof {
            assert(sv.take(subs@.len() as int) =~= sv);
            assert(place_all(pool_view(old(ctx)), all_batches(subs.deep_view()), nonces) == (pool_view(ctx), effects.deep_view()));
        }
        effects
    }
}

/// What a worker's message does to the worker (`before` becomes `after`) and
/// what the handler answers (`r`): an opened connection sends its pending
/// subscriptions (see `connect`); a topic message goes to the user; Twitch's
/// answer settles its request (see `answer`).
pub open spec fn message_step<D, E>(
    before: Worker<WorkerData>,
    message: WorkerEvent<D>,
    after: Worker<WorkerData>,
    r: Reaction<D, E>,
) -> bool {
    &&& after.id == before.id
    &&& message is Connected ==> {
        &&& r.finish == Finish::<D, E>::Act(EventLoopAction::Continue)
        &&& exists|nonces: Seq<Seq<char>>|
            #![trigger connect(before.id, before.data.deep_view(), nonces)]
            {
                let c = connect(before.id, before.data.deep_view(), nonces);
                &&& nonces.len() == before.data.pending_subscriptions@.len()
                &&& forall|i: int| 0 <= i < nonces.len() ==> is_nonce(#[trigger] nonces[i])
                &&& after.data.deep_view() == c.0
                &&& r.effects.deep_view() == c.1
            }
    }
    &&& message matches WorkerEvent::Message(m) ==> {
        &&& after.data == before.data
        &&& r.effects@.len() == 0
        &&& r.finish == Finish::<D, E>::Emit(PubSubEvent::Message(m))
    }
    &&& message matches WorkerEvent::Response(res) ==> {
        let a = answer(before.data.deep_view(), res.deep_view());
        &&& after.data.deep_view() == a.0
        &&& after.data.connected == before.data.connected
        &&& r.effects@.len() == 0
        &&& match a.1 {
            Some(f) => r.finish matches Finish::Emit(PubSubEvent::SubError { topics, error })
                && topics.deep_view() == f.0 && error@ == f.1,
            None => r.finish == Finish::<D, E>::Act(EventLoopAction::Continue),
        }
    }
}

impl<P: TokenProvider> PubSubHandler<P> {
    /// Handles an event of worker `worker`: an opened connection sends its
    /// pending subscriptions; a topic message goes to the user; Twitch's answer
    /// confirms or reports the request with its nonce.
    pub fn on_message<D>(&mut self, worker: &mut Worker<WorkerData>, message: WorkerEvent<D>) -> (r: Reaction<D, P::Error>)
        requires
            message is Connected ==> !old(worker).data.connected,
            message matches WorkerEvent::Response(res) ==> answer_in_range(
                old(worker).data.deep_view(),
                res.deep_view(),
            ),
        ensures
            message_step(*old(worker), message, *final(worker), r),
            final(self).provider_spec() == old(self).provider_spec(),
    {
        match message {
            WorkerEvent::Connected => {
                let id = worker.id;
                let ghost w0 = worker.data.deep_view();
                worker.data.connected = true;
                let mut pending: Vec<PendingSub> = Vec::new();
                std::mem::swap(&mut pending, &mut worker.data.pending_subscriptions);
                let mut effects: Vec<Effect> = Vec::new();
                let ghost pv = pending.deep_view();
                let ghost mut nonces: Seq<Seq<char>> = seq![];
                let ghost w1 = WorkerDataView { connected: true, pending: seq![], ..w0 };
                proof {
                    assert(worker.data.pending_subscriptions.deep_view() =~= Seq::<ChunkView>::empty());
                    assert(worker.data.deep_view() =~= w1);
                    assert(pv == w0.pending);
                    assert(pv.take(0) =~= Seq::<ChunkView>::empty());
                }
                let mut k: usize = 0;
                while k < pending.len()
                    invariant
                        k <= pending@.len(),
                        pv == pending.deep_view(),
                        worker.id == id,
                        nonces.len() == k,
                        forall|i: int| 0 <= i < nonces.len() ==> is_nonce(#[trigger] nonces[i]),
                        flush_pending(id, w1, pv.take(k as int), nonces) == (worker.data.deep_view(), effects.deep_view()),
                    decreases pending@.len() - k,
                {
                    let nonce = generate_nonce();
                    let topics = pending[k].topics.clone();
                    let auth = clone_token(&pending[k].auth);
                    let ghost item = pv[k as int];
                    proof {
                        assert(topics.deep_view() =~= item.0);
                    }
                    effects.push(Effect::Send {
                        worker: id,
                        command: WorkerCommand::Subscribe {
                            topics: pending[k].topics.clone(),
                            auth_token: auth,
                            nonce: nonce.clone(),
                        },
                    });
                    assoc_insert_exec(&mut worker.data.unconfirmed, nonce.clone(), topics);
                    proof {
                        assert(pv.take(k + 1).drop_last() =~= pv.take(k as int));
                        assert(nonces.push(nonce@).drop_last() =~= nonces);
                        let f = flush_pending(id, w1, pv.take(k + 1), nonces.push(nonce@));
                        assert(worker.data.deep_view() =~= f.0);
                        assert(effects.deep_view() =~= f.1);
                        nonces = nonces.push(nonce@);
                    }
                    k += 1;
                }
                proof {
                    assert(pv.take(pending@.len() as int) =~= pv);
                    assert(connect(id, w0, nonces) == (worker.data.deep_view(), effects.deep_view()));
                }
                Reaction { effects, finish: Finish::Act(EventLoopAction::Continue) }
            },
            WorkerEvent::Message(m) => Reaction {
                effects: Vec::new(),
                finish: Finish::Emit(PubSubEvent::Message(m)),
            },
            WorkerEvent::Response(res) => {
                let ghost w0 = worker.data.deep_view();
                let nonce = match res.nonce {
                    Some(n) => n,
                    None => {
                        return Reaction { effects: Vec::new(), finish: Finish::Act(EventLoopAction::Continue) };
                    },
                };
                let topics = match assoc_remove_exec(&mut worker.data.unconfirmed, &nonce) {
                    Some(t) => t,
                    None => {
                        return Reaction { effects: Vec::new(), finish: Finish::Act(EventLoopAction::Continue) };
                    },
                };
                match take_failure(res.error) {
                    Some(error) => {
                        worker.data.total_subs = worker.data.total_subs - topics.len();
                        proof {
                            assert(worker.data.deep_view() =~= answer(w0, res.deep_view()).0);
                        }
                        Reaction { effects: Vec::new(), finish: Finish::Emit(PubSubEvent::SubError { topics, error }) }
                    },
                    None => {
                        let mut confirmed = topics;
                        worker.data.topics.append(&mut confirmed);
                        proof {
                            assert(worker.data.topics.deep_view() =~= w0.topics + assoc_get(w0.unconfirmed, nonce@).unwrap());
                            assert(worker.data.deep_view() =~= answer(w0, res.deep_view()).0);
                        }
                        Reaction { effects: Vec::new(), finish: Finish::Act(EventLoopAction::Continue) }
                    },
                }
            },
        }
    }

    /// Handles the closing of a worker's connection: all its topics (confirmed,
    /// waiting for an answer, and pending) are subscribed to again.
    pub fn on_worker_closed<D>(&mut self, data: WorkerData) -> (r: Finish<D, P::Error>)
        ensures
            r matches Finish::Resubscribe(all) && all.deep_view() == all_topics(data.deep_view()),
            final(self).provider_spec() == old(self).provider_spec(),
    {
        let ghost w = data.deep_view();
        let mut all = data.topics;
        let ghost uv = w.unconfirmed;
        let ghost pv = w.pending;
        let mut i: usize = 0;
        proof {
            assert(uv.take(0) =~= Seq::<(Seq<char>, Seq<Seq<char>>)>::empty());
        }
        while i < data.unconfirmed.len()
            invariant
                i <= data.unconfirmed@.len(),
                uv == data.unconfirmed.deep_view(),
                all.deep_view() == w.topics + flatten_values(uv.take(i as int)),
            decreases data.unconfirmed@.len() - i,
        {
            let mut t = data.unconfirmed[i].1.clone();
            proof {
                assert(t.deep_view() =~= uv[i as int].1);
                assert(uv.take(i + 1).drop_last() =~= uv.take(i as int));
            }
            let ghost before = all.deep_view();
            all.append(&mut t);
            proof {
                assert(all.deep_view() =~= before + uv[i as int].1);
            }
            i += 1;
        }
        proof {
            assert(uv.take(data.unconfirmed@.len() as int) =~= uv);
            assert(pv.take(0) =~= Seq::<ChunkView>::empty());
        }
        let mut j: usize = 0;
        while j < data.pending_subscriptions.len()
            invariant
                j <= data.pending_subscriptions@.len(),
                pv == data.pending_subscriptions.deep_view(),
                all.deep_view() == w.topics + flatten_values(uv) + flatten_chunks(pv.take(j as int)),
            decreases data.pending_subscriptions@.len() - j,
        {
            let mut t = data.pending_subscriptions[j].topics.clone();
            proof {
                assert(t.deep_view() =~= pv[j as int].0);
                assert(pv.take(j + 1).drop_last() =~= pv.take(j as int));
            }
            let ghost before = all.deep_view();
            all.append(&mut t);
            proof {
                assert(all.deep_view() =~= before + pv[j as int].0);
            }
            j += 1;
        }
        proof {
            assert(pv.take(data.pending_subscriptions@.len() as int) =~= pv);
        }
        Finish::Resubscribe(all)
    }

    /// Handles a subscription request of the user, given what the token provider
    /// answered for its topics: the topics are subscribed to with their tokens,
    /// or the provider's error goes to the user.
    pub fn on_external<D>(
        &mut self,
        ctx: &mut HandlerContext<WorkerData>,
        provided: Result<Vec<Chunk>, P::Error>,
    ) -> (r: Reaction<D, P::Error>)
        ensures
            final(self).provider_spec() == old(self).provider_spec(),
            match provided {
                Ok(subs) => r.finish == Finish::<D, P::Error>::Act(EventLoopAction::Continue)
                    && exists|nonces: Seq<Seq<char>>|
                    #![trigger place_all(pool_view(old(ctx)), all_batches(subs.deep_view()), nonces)]
                    {
                        let p = place_all(pool_view(old(ctx)), all_batches(subs.deep_view()), nonces);
                        &&& nonces.len() == all_batches(subs.deep_view()).len()
                        &&& forall|i: int| 0 <= i < nonces.len() ==> is_nonce(#[trigger] nonces[i])
                        &&& pool_view(final(ctx)) == p.0
                        &&& r.effects.deep_view() == p.1
                    },
                Err(e) => r.finish == Finish::<D, P::Error>::Emit(PubSubEvent::ProvideError(e))
                    && r.effects@.len() == 0 && *final(ctx) == *old(ctx),
            },
    {
        match provided {
            Ok(subs) => {
                let effects = self.subscribe_to(ctx, subs);
                Reaction { effects, finish: Finish::Act(EventLoopAction::Continue) }
            },
            Err(e) => Reaction { effects: Vec::new(), finish: Finish::Emit(PubSubEvent::ProvideError(e)) },
        }
    }
}

/// Seconds without a message after which a connection's read times out.
pub const READ_TIMEOUT_SECS: u64 = 90;

/// Seconds between two pings of a connection.
pub const PING_INTERVAL_SECS: u64 = 30;

/// What a connection does with a message of Twitch.
#[derive(Debug)]
pub enum WorkerReaction<D> {
    /// Hand the event to the handler; the connection goes on as
    /// `EventLoopAction::from` of the outcome of that send.
    Emit(WorkerEvent<D>),
    /// Go on as given.
    Act(EventLoopAction),
}

/// The worker side of a PubSub connection.
#[derive(Debug)]
pub struct PubSubWorker {}

impl PubSubWorker {
    /// Handles a message of Twitch: answers and topic messages go to the
    /// handler, a pong is dropped, and a request to reconnect ends the
    /// connection (its topics cannot be kept).
    pub fn on_message<D>(&mut self, message: Response<D>) -> (r: WorkerReaction<D>)
        ensures
            match message {
                Response::Response(res) => r == WorkerReaction::Emit(WorkerEvent::<D>::Response(res)),
                Response::Message(data) => r == WorkerReaction::Emit(WorkerEvent::Message(data)),
                Response::Pong => r == WorkerReaction::<D>::Act(EventLoopAction::Continue),
                Response::Reconnect => r == WorkerReaction::<D>::Act(EventLoopAction::Stop),
            },
    {
        match message {
            Response::Response(res) => WorkerReaction::Emit(WorkerEvent::Response(res)),
            Response::Message(data) => WorkerReaction::Emit(WorkerEvent::Message(data)),
            Response::Pong => WorkerReaction::Act(EventLoopAction::Continue),
            Response::Reconnect => WorkerReaction::Act(EventLoopAction::Stop),
        }
    }

    /// What the connection sends for a command: for a subscription, the LISTEN
    /// request that `twitch_api` writes for it (nothing where it writes none);
    /// for a ping, the ping text.
    pub fn on_command(&mut self, command: WorkerCommand) -> (r: Option<String>)
        ensures
            match command {
                WorkerCommand::Subscribe { topics, auth_token, nonce } => r.deep_view() == listen_request(
                    topics.deep_view(),
                    auth_token.deep_view(),
                    nonce@,
                ),
                WorkerCommand::Ping => r.deep_view() == Some(crate::connection::ping_text()),
            },
    {
        match command {
            WorkerCommand::Subscribe { topics, auth_token, nonce } => match listen_command(&topics, &auth_token, &nonce) {
                Ok(text) => Some(text),
                Err(_) => None,
            },
            WorkerCommand::Ping => Some(crate::connection::ping_message()),
        }
    }

    /// What a new connection does: it reads with a timeout of
    /// `READ_TIMEOUT_SECS`, tells the handler that it is connected, and pings
    /// every `PING_INTERVAL_SECS`.
    pub fn on_created<D>(&mut self) -> (r: (u64, WorkerEvent<D>, u64))
        ensures
            r == (READ_TIMEOUT_SECS, WorkerEvent::<D>::Connected, PING_INTERVAL_SECS),
    {
        (READ_TIMEOUT_SECS, WorkerEvent::Connected, PING_INTERVAL_SECS)
    }
}

/// A worker's message to the handler may be handled: a second `Connected`
/// cannot come, and a failed answer does not take more topics off the count than
/// it holds.
pub open spec fn message_in_range<D>(w: WorkerDataView, message: WorkerEvent<D>) -> bool {
    &&& message is Connected ==> !w.connected
    &&& message matches WorkerEvent::Response(res) ==> answer_in_range(w, res.deep_view())
}

impl<P: TokenProvider> PubSubHandler<P> {
    /// Handles an event of the pool's connections: a closed connection's worker
    /// leaves the pool and its topics are subscribed to again; a message goes to
    /// its worker. Events of workers that are not in the pool are dropped: for a
    /// closed one the loop goes on without any step (`None`), for a message it
    /// goes on.
    pub fn handle_worker_event<D>(
        &mut self,
        ctx: &mut HandlerContext<WorkerData>,
        event: crate::handler::WorkerEvent<WorkerEvent<D>>,
    ) -> (r: Option<Reaction<D, P::Error>>)
        requires
            event matches crate::handler::WorkerEvent::User(id, msg) ==> ({
                let i = first_index(old(ctx).workers.deep_view(), crate::handler::has_id(id));
                i >= 0 ==> message_in_range(old(ctx).workers@[i].data.deep_view(), msg)
            }),
        ensures
            final(self).provider_spec() == old(self).provider_spec(),
            final(ctx).next_id == old(ctx).next_id,
            match event {
                crate::handler::WorkerEvent::Closed(id) => {
                    let i = first_index(old(ctx).workers.deep_view(), crate::handler::has_id(id));
                    if i < 0 {
                        r is None && final(ctx).workers@ == old(ctx).workers@
                    } else {
                        &&& final(ctx).workers@ == old(ctx).workers@.remove(i)
                        &&& r matches Some(re) && (re.effects@.len() == 0
                            && (re.finish matches Finish::Resubscribe(all)
                            && all.deep_view() == all_topics(old(ctx).workers@[i].data.deep_view())))
                    }
                },
                crate::handler::WorkerEvent::User(id, msg) => {
                    let i = first_index(old(ctx).workers.deep_view(), crate::handler::has_id(id));
                    if i < 0 {
                        &&& final(ctx).workers@ == old(ctx).workers@
                        &&& r matches Some(re) && re.effects@.len() == 0
                            && re.finish == Finish::<D, P::Error>::Act(EventLoopAction::Continue)
                    } else {
                        &&& r matches Some(re) && message_step(old(ctx).workers@[i], msg, final(ctx).workers@[i], re)
                        &&& final(ctx).workers@.len() == old(ctx).workers@.len()
                        &&& forall|j: int| 0 <= j < old(ctx).workers@.len() && j != i
                            ==> #[trigger] final(ctx).workers@[j] == old(ctx).workers@[j]
                    }
                },
            },
    {
        match event {
            crate::handler::WorkerEvent::Closed(id) => {
                let ghost ws = ctx.workers.deep_view();
                match ctx.remove(id) {
                    Some(data) => {
                        proof {
                            lemma_first_index(ws, crate::handler::has_id(id));
                        }
                        let finish = self.on_worker_closed(data);
                        Some(Reaction { effects: Vec::new(), finish })
                    },
                    None => None,
                }
            },
            crate::handler::WorkerEvent::User(id, msg) => match ctx.position(id) {
                Some(i) => Some(self.on_message(&mut ctx.workers[i], msg)),
                None => Some(Reaction { effects: Vec::new(), finish: Finish::Act(EventLoopAction::Continue) }),
            },
        }
    }
}

/// A worker counts at least all its topics (confirmed, waiting for an answer,
/// and pending), and at most `TOPICS_PER_CONNECTION`.
pub open spec fn worker_within(w: WorkerDataView) -> bool {
    all_topics(w).len() <= w.total_subs <= TOPICS_PER_CONNECTION
}

/// Every worker of the pool holds at most `TOPICS_PER_CONNECTION` topics, all
/// of them counted.
pub open spec fn within_capacity(pool: PoolView) -> bool {
    forall|i: int| 0 <= i < pool.workers.len() ==> worker_within((#[trigger] pool.workers[i]).1)
}

/// Every batch holds at least one and at most `TOPICS_PER_CONNECTION` topics.
pub open spec fn batches_within_capacity(items: Seq<ChunkView>) -> bool {
    forall|i: int| 0 <= i < items.len() ==> 1 <= (#[trigger] items[i]).0.len() <= TOPICS_PER_CONNECTION
}

proof fn lemma_flatten_values_split(u: Seq<(Seq<char>, Seq<Seq<char>>)>, i: int, x: (Seq<char>, Seq<Seq<char>>))
    requires
        0 <= i < u.len(),
    ensures
        flatten_values(u).len() == flatten_values(u.take(i)).len() + u[i].1.len() + flatten_values(u.skip(i + 1)).len(),
        flatten_values(u.remove(i)).len() == flatten_values(u.take(i)).len() + flatten_values(u.skip(i + 1)).len(),
        flatten_values(u.update(i, x)).len() == flatten_values(u.take(i)).len() + x.1.len() + flatten_values(u.skip(i + 1)).len(),
{
    let a = u.take(i);
    let b = u.skip(i + 1);
    let one = seq![u[i]];
    let other = seq![x];
    assert(one.drop_last() =~= Seq::<(Seq<char>, Seq<Seq<char>>)>::empty());
    assert(other.drop_last() =~= Seq::<(Seq<char>, Seq<Seq<char>>)>::empty());
    let e = Seq::<(Seq<char>, Seq<Seq<char>>)>::empty();
    assert(flatten_values(e) == Seq::<Seq<char>>::empty());
    assert(flatten_values(one) == flatten_values(e) + u[i].1);
    assert(flatten_values(one) =~= u[i].1);
    assert(flatten_values(other) == flatten_values(e) + x.1);
    assert(flatten_values(other) =~= x.1);
    assert(u =~= (a + one) + b);
    assert(u.remove(i) =~= a + b);
    assert(u.update(i, x) =~= (a + other) + b);
    lemma_flatten_values_append(a + one, b);
    lemma_flatten_values_append(a, one);
    lemma_flatten_values_append(a, b);
    lemma_flatten_values_append(a + other, b);
    lemma_flatten_values_append(a, other);
}

/// Setting a request in the list adds at most its topics.
proof fn lemma_flatten_values_insert(u: Seq<(Seq<char>, Seq<Seq<char>>)>, k: Seq<char>, v: Seq<Seq<char>>)
    ensures
        flatten_values(assoc_insert(u, k, v)).len() <= flatten_values(u).len() + v.len(),
{
    let i = crate::seq_util::key_index(u, k);
    lemma_first_index(u, crate::seq_util::has_key::<Seq<char>, Seq<Seq<char>>>(k));
    if i >= 0 {
        lemma_flatten_values_split(u, i, (k, v));
    } else {
        assert(u.push((k, v)).drop_last() =~= u);
    }
}

/// Placing batches of one to `TOPICS_PER_CONNECTION` topics keeps every worker
/// within the connection limit, with all its topics counted.
pub proof fn law_placing_keeps_capacity(pool: PoolView, items: Seq<ChunkView>, nonces: Seq<Seq<char>>)
    requires
        within_capacity(pool),
        batches_within_capacity(items),
    ensures
        within_capacity(place_all(pool, items, nonces).0),
    decreases items.len(),
{
    if items.len() > 0 {
        let d = items.drop_last();
        assert forall|i: int| 0 <= i < d.len() implies 1 <= (#[trigger] d[i]).0.len() <= TOPICS_PER_CONNECTION by {
            assert(d[i] == items[i]);
        }
        law_placing_keeps_capacity(pool, d, nonces.drop_last());
        let p = place_all(pool, d, nonces.drop_last()).0;
        let item = items.last();
        let ws = p.workers;
        let i = first_index(ws, fits_worker(item.0.len()));
        lemma_first_index(ws, fits_worker(item.0.len()));
        let after = place(p, item, nonces.last()).0.workers;
        if i >= 0 {
            let w = ws[i].1;
            let w2 = after[i].1;
            assert(worker_within(w));
            if w.connected {
                lemma_flatten_values_insert(w.unconfirmed, nonces.last(), item.0);
            } else {
                assert(w2.pending.drop_last() =~= w.pending);
            }
            assert(all_topics(w2).len() <= w2.total_subs);
        } else {
            lemma_flatten_single(item);
        }
        assert forall|j: int| 0 <= j < after.len() implies worker_within((#[trigger] after[j]).1) by {
            if j < ws.len() && j != i {
                assert(after[j] == ws[j]);
            }
        }
    }
}

/// A group is cut into batches of one to `TOPICS_PER_CONNECTION` topics, each
/// with the group's token, which together hold the group's topics, each as
/// often as the group does; a group of up to twice the limit gives its topics
/// after the first `TOPICS_PER_CONNECTION` first, then those.
pub proof fn law_batches_of_group(c: ChunkView)
    ensures
        batches_within_capacity(chunk_batches(c)),
        forall|i: int| 0 <= i < chunk_batches(c).len() ==> (#[trigger] chunk_batches(c)[i]).1 == c.1,
        flatten_chunks(chunk_batches(c)).to_multiset() == c.0.to_multiset(),
        TOPICS_PER_CONNECTION < c.0.len() <= 2 * TOPICS_PER_CONNECTION ==> batches(c.0) == seq![
            c.0.skip(TOPICS_PER_CONNECTION as int),
            c.0.take(TOPICS_PER_CONNECTION as int),
        ],
    decreases c.0.len(),
{
    broadcast use vstd::seq_lib::lemma_multiset_commutative;

    let t = c.0;
    let cb = chunk_batches(c);
    if t.len() == 0 {
        assert(cb =~= Seq::<ChunkView>::empty());
        assert(flatten_chunks(cb) =~= t);
    } else if t.len() <= TOPICS_PER_CONNECTION {
        assert(cb =~= seq![(t, c.1)]);
        lemma_flatten_single((t, c.1));
    } else {
        let q = last_cut(t.len());
        let tail = t.skip(q);
        let rest = (t.take(q), c.1);
        law_batches_of_group(rest);
        let rb = chunk_batches(rest);
        assert(cb =~= seq![(tail, c.1)] + rb);
        lemma_flatten_chunks_append(seq![(tail, c.1)], rb);
        lemma_flatten_single((tail, c.1));
        assert(rest.0 + tail =~= t);
        assert(flatten_chunks(cb).to_multiset() =~= t.to_multiset());
        assert forall|i: int| 0 <= i < cb.len() implies 1 <= (#[trigger] cb[i]).0.len() <= TOPICS_PER_CONNECTION
            && cb[i].1 == c.1 by {
            if i > 0 {
                assert(cb[i] == rb[i - 1]);
            }
        }
        if t.len() <= 2 * TOPICS_PER_CONNECTION {
            assert(q == TOPICS_PER_CONNECTION);
            assert(batches(t.take(q)) =~= seq![t.take(q)]);
            assert(batches(t) =~= seq![t.skip(q), t.take(q)]);
        }
    }
}

/// Subscribing to any groups keeps every worker within the connection limit,
/// with all its topics counted.
pub proof fn law_subscribe_keeps_capacity(pool: PoolView, subs: Seq<ChunkView>, nonces: Seq<Seq<char>>)
    requires
        within_capacity(pool),
    ensures
        within_capacity(place_all(pool, all_batches(subs), nonces).0),
{
    lemma_all_batches_within(subs);
    law_placing_keeps_capacity(pool, all_batches(subs), nonces);
}

proof fn lemma_all_batches_within(subs: Seq<ChunkView>)
    ensures
        batches_within_capacity(all_batches(subs)),
        flatten_chunks(all_batches(subs)).to_multiset() == flatten_chunks(subs).to_multiset(),
    decreases subs.len(),
{
    broadcast use vstd::seq_lib::lemma_multiset_commutative;

    if subs.len() > 0 {
        let d = subs.drop_last();
        lemma_all_batches_within(d);
        law_batches_of_group(subs.last());
        let a = all_batches(d);
        let b = chunk_batches(subs.last());
        lemma_flatten_chunks_append(a, b);
        assert forall|i: int| 0 <= i < (a + b).len() implies 1 <= (#[trigger] (a + b)[i]).0.len() <= TOPICS_PER_CONNECTION by {
            if i < a.len() {
                assert((a + b)[i] == a[i]);
            } else {
                assert((a + b)[i] == b[i - a.len()]);
            }
        }
    }
}

proof fn lemma_flush_within(id: usize, w: WorkerDataView, pending: Seq<ChunkView>, nonces: Seq<Seq<char>>)
    ensures
        ({
            let f = flush_pending(id, w, pending, nonces).0;
            &&& f.topics == w.topics
            &&& f.pending == w.pending
            &&& f.total_subs == w.total_subs
            &&& f.connected == w.connected
            &&& flatten_values(f.unconfirmed).len() <= flatten_values(w.unconfirmed).len() + flatten_chunks(pending).len()
        }),
    decreases pending.len(),
{
    if pending.len() > 0 {
        lemma_flush_within(id, w, pending.drop_last(), nonces.drop_last());
        let r = flush_pending(id, w, pending.drop_last(), nonces.drop_last()).0;
        lemma_flatten_values_insert(r.unconfirmed, nonces.last(), pending.last().0);
    }
}

/// Opening a worker's connection keeps it within the connection limit, with all
/// its topics counted, whatever nonces are drawn.
pub proof fn law_connect_keeps_capacity(id: usize, w: WorkerDataView, nonces: Seq<Seq<char>>)
    requires
        worker_within(w),
    ensures
        worker_within(connect(id, w, nonces).0),
{
    lemma_flush_within(id, WorkerDataView { connected: true, pending: seq![], ..w }, w.pending, nonces);
    assert(flatten_chunks(Seq::<ChunkView>::empty()) =~= Seq::<Seq<char>>::empty());
}

/// Twitch's answer keeps a worker within the connection limit, with all its
/// topics counted; such a worker can always take a failed answer
/// (`answer_in_range`).
pub proof fn law_answer_keeps_capacity(w: WorkerDataView, res: (Option<Seq<char>>, Option<Seq<char>>))
    requires
        worker_within(w),
    ensures
        answer_in_range(w, res),
        worker_within(answer(w, res).0),
{
    if let Some(nonce) = res.0 {
        let u = w.unconfirmed;
        let i = crate::seq_util::key_index(u, nonce);
        lemma_first_index(u, crate::seq_util::has_key::<Seq<char>, Seq<Seq<char>>>(nonce));
        if i >= 0 {
            lemma_flatten_values_split(u, i, u[i]);
            let a = answer(w, res).0;
            assert(all_topics(w).len() == w.topics.len() + flatten_values(u).len() + flatten_chunks(w.pending).len());
            assert(all_topics(a).len() == a.topics.len() + flatten_values(a.unconfirmed).len() + flatten_chunks(a.pending).len());
        }
    }
}

/// Placing one batch sends at most one command: a LISTEN for exactly the
/// batch's topics, with the batch's own token and the given nonce, to the first
/// worker it fits on, and only where that worker's connection is open; a batch
/// that no worker has room for opens a new worker with the next id.
pub proof fn law_placed_batch_carries_its_token(pool: PoolView, item: ChunkView, nonce: Seq<char>)
    ensures
        ({
            let r = place(pool, item, nonce);
            let i = first_index(pool.workers, fits_worker(item.0.len()));
            &&& r.1.len() == 1 || (r.1.len() == 0 && i >= 0 && !pool.workers[i].1.connected)
            &&& forall|k: int| 0 <= k < r.1.len() ==> match #[trigger] r.1[k] {
                EffectView::Send { worker, command } => {
                    &&& i >= 0 && pool.workers[i].1.connected && worker == pool.workers[i].0
                    &&& command matches WorkerCommandView::Subscribe { topics, auth_token, nonce: n }
                    &&& topics == item.0 && auth_token == item.1 && n == nonce
                },
                EffectView::Spawn { worker } => i < 0 && worker == pool.next_id,
            }
        }),
{
    lemma_first_index(pool.workers, fits_worker(item.0.len()));
}

/// Every LISTEN that placing batches sends is one of the batches, with that
/// batch's own token and the nonce drawn for it.
pub proof fn law_sent_commands_carry_batches(pool: PoolView, items: Seq<ChunkView>, nonces: Seq<Seq<char>>)
    requires
        nonces.len() == items.len(),
    ensures
        forall|k: int|
            0 <= k < place_all(pool, items, nonces).1.len() ==> (#[trigger] place_all(pool, items, nonces).1[k] matches EffectView::Send {
                command: WorkerCommandView::Subscribe { topics, auth_token, nonce },
                ..
            } ==> exists|j: int| 0 <= j < items.len() && items[j] == (topics, auth_token) && nonces[j] == nonce),
    decreases items.len(),
{
    if items.len() > 0 {
        let di = items.drop_last();
        let dn = nonces.drop_last();
        law_sent_commands_carry_batches(pool, di, dn);
        let r = place_all(pool, di, dn);
        let s = place(r.0, items.last(), nonces.last());
        law_placed_batch_carries_its_token(r.0, items.last(), nonces.last());
        let all = place_all(pool, items, nonces).1;
        assert(all == r.1 + s.1);
        assert forall|k: int| 0 <= k < all.len() implies (#[trigger] all[k] matches EffectView::Send {
            command: WorkerCommandView::Subscribe { topics, auth_token, nonce },
            ..
        } ==> exists|j: int| 0 <= j < items.len() && items[j] == (topics, auth_token) && nonces[j] == nonce) by {
            if k < r.1.len() {
                assert(all[k] == r.1[k]);
                if let EffectView::Send { command: WorkerCommandView::Subscribe { topics, auth_token, nonce }, .. } = all[k] {
                    let j = choose|j: int| 0 <= j < di.len() && di[j] == (topics, auth_token) && dn[j] == nonce;
                    assert(items[j] == di[j] && nonces[j] == dn[j]);
                }
            } else {
                assert(all[k] == s.1[k - r.1.len()]);
                let j = items.len() - 1;
                assert(items[j] == items.last() && nonces[j] == nonces.last());
            }
        }
    }
}

/// Every batch of the groups `subs` carries the token of a group that holds all
/// its topics.
pub proof fn law_batches_carry_group_tokens(subs: Seq<ChunkView>)
    ensures
        forall|k: int| 0 <= k < all_batches(subs).len() ==> exists|g: int| 0 <= g < subs.len() && (#[trigger] all_batches(subs)[k]).1 == subs[g].1
            && forall|t: Seq<char>| all_batches(subs)[k].0.contains(t) ==> subs[g].0.contains(t),
    decreases subs.len(),
{
    if subs.len() > 0 {
        let d = subs.drop_last();
        let c = subs.last();
        law_batches_carry_group_tokens(d);
        lemma_batches_within_group(c.0);
        law_batches_of_group(c);
        let a = all_batches(d);
        let b = chunk_batches(c);
        assert(all_batches(subs) == a + b);
        assert forall|k: int| 0 <= k < (a + b).len() implies exists|g: int| 0 <= g < subs.len() && (#[trigger] (a + b)[k]).1 == subs[g].1
            && forall|t: Seq<char>| (a + b)[k].0.contains(t) ==> subs[g].0.contains(t) by {
            if k < a.len() {
                assert((a + b)[k] == a[k]);
                let g = choose|g: int| 0 <= g < d.len() && a[k].1 == d[g].1
                    && forall|t: Seq<char>| a[k].0.contains(t) ==> d[g].0.contains(t);
                assert(subs[g] == d[g]);
            } else {
                let kb = k - a.len();
                assert((a + b)[k] == b[kb]);
                assert(b[kb].0 == batches(c.0)[kb]);
                let g = subs.len() - 1;
                assert(subs[g] == c);
            }
        }
    }
}

proof fn lemma_batches_within_group(t: Seq<Seq<char>>)
    ensures
        forall|k: int, x: Seq<char>| 0 <= k < batches(t).len() && #[trigger] batches(t)[k].contains(x) ==> t.contains(x),
    decreases t.len(),
{
    if t.len() > TOPICS_PER_CONNECTION {
        let q = last_cut(t.len());
        lemma_batches_within_group(t.take(q));
        let bt = batches(t);
        let br = batches(t.take(q));
        assert(bt == seq![t.skip(q)] + br);
        assert forall|k: int, x: Seq<char>| 0 <= k < bt.len() && #[trigger] bt[k].contains(x) implies t.contains(x) by {
            if k == 0 {
                assert(bt[0] == t.skip(q));
                let p = choose|p: int| 0 <= p < t.skip(q).len() && t.skip(q)[p] == x;
                assert(t[p + q] == x);
            } else {
                assert(bt[k] == br[k - 1]);
                assert(t.take(q).contains(x));
                let p = choose|p: int| 0 <= p < t.take(q).len() && t.take(q)[p] == x;
                assert(t[p] == x);
            }
        }
    }
}

/// Twitch's answer settles the request with its nonce, and nothing else: on
/// success the request's topics join the confirmed ones and nothing is reported;
/// on failure the confirmed topics stay, the count drops by the request's topics
/// and those topics are reported with the error. An answer without a nonce, or
/// with one that no request has, changes nothing.
pub proof fn law_answer_settles_its_request(w: WorkerDataView, nonce: Option<Seq<char>>, error: Option<Seq<char>>)
    ensures
        ({
            let a = answer(w, (nonce, error));
            match nonce {
                None => a == (w, None::<(Seq<Seq<char>>, Seq<char>)>),
                Some(n) => match assoc_get(w.unconfirmed, n) {
                    None => a == (w, None::<(Seq<Seq<char>>, Seq<char>)>),
                    Some(t) => {
                        &&& a.0.unconfirmed == assoc_remove(w.unconfirmed, n)
                        &&& a.0.pending == w.pending
                        &&& a.0.connected == w.connected
                        &&& match error {
                            Some(e) if e.len() > 0 => {
                                &&& a.0.topics == w.topics
                                &&& t.len() <= w.total_subs ==> a.0.total_subs == w.total_subs - t.len()
                                &&& a.1 == Some((t, e))
                            },
                            _ => {
                                &&& a.0.topics == w.topics + t
                                &&& a.0.total_subs == w.total_subs
                                &&& a.1 is None
                            },
                        }
                    },
                },
            }
        }),
{
}

/// A batch sent on a connected worker is confirmed by Twitch's successful answer
/// to its nonce: the worker's confirmed topics gain the batch, nothing is
/// reported, and a later close subscribes to them again.
pub proof fn law_sent_batch_is_confirmed(pool: PoolView, item: ChunkView, nonce: Seq<char>)
    requires
        ({
            let i = first_index(pool.workers, fits_worker(item.0.len()));
            i >= 0 && pool.workers[i].1.connected
        }),
    ensures
        ({
            let i = first_index(pool.workers, fits_worker(item.0.len()));
            let w = pool.workers[i].1;
            let after = place(pool, item, nonce).0.workers[i].1;
            let a = answer(after, (Some(nonce), None));
            &&& a.0.topics == w.topics + item.0
            &&& a.1 is None
            &&& all_topics(a.0).take((w.topics + item.0).len() as int) == w.topics + item.0
        }),
{
    let i = first_index(pool.workers, fits_worker(item.0.len()));
    lemma_first_index(pool.workers, fits_worker(item.0.len()));
    let w = pool.workers[i].1;
    crate::seq_util::lemma_assoc_insert_get(w.unconfirmed, nonce, item.0);
    let a = answer(place(pool, item, nonce).0.workers[i].1, (Some(nonce), None));
    assert(all_topics(a.0).take((w.topics + item.0).len() as int) =~= w.topics + item.0);
}

/// A batch sent on a connected worker and refused by Twitch is reported with
/// Twitch's error and no longer counted, and the worker's confirmed topics stay
/// as they were.
pub proof fn law_refused_batch_is_reported(pool: PoolView, item: ChunkView, nonce: Seq<char>, error: Seq<char>)
    requires
        error.len() > 0,
        ({
            let i = first_index(pool.workers, fits_worker(item.0.len()));
            i >= 0 && pool.workers[i].1.connected
        }),
    ensures
        ({
            let i = first_index(pool.workers, fits_worker(item.0.len()));
            let w = pool.workers[i].1;
            let after = place(pool, item, nonce).0.workers[i].1;
            let a = answer(after, (Some(nonce), Some(error)));
            &&& a.0.topics == w.topics
            &&& a.1 == Some((item.0, error))
            &&& a.0.total_subs == w.total_subs
        }),
{
    let i = first_index(pool.workers, fits_worker(item.0.len()));
    lemma_first_index(pool.workers, fits_worker(item.0.len()));
    let w = pool.workers[i].1;
    crate::seq_util::lemma_assoc_insert_get(w.unconfirmed, nonce, item.0);
}

/// The requests that the pending subscriptions become: each one's nonce with
/// its topics.
pub open spec fn requests_of(nonces: Seq<Seq<char>>, pending: Seq<ChunkView>) -> Seq<(Seq<char>, Seq<Seq<char>>)> {
    Seq::new(pending.len(), |i: int| (nonces[i], pending[i].0))
}

/// The nonces are distinct, and none is the key of one of the `unconfirmed`
/// requests.
pub open spec fn fresh_nonces(nonces: Seq<Seq<char>>, unconfirmed: Seq<(Seq<char>, Seq<Seq<char>>)>) -> bool {
    &&& forall|i: int, j: int| 0 <= i < nonces.len() && 0 <= j < nonces.len() && i != j ==> nonces[i] != nonces[j]
    &&& forall|i: int, j: int| 0 <= i < nonces.len() && 0 <= j < unconfirmed.len() ==> nonces[i] != unconfirmed[j].0
}

proof fn lemma_flatten_values_append(a: Seq<(Seq<char>, Seq<Seq<char>>)>, b: Seq<(Seq<char>, Seq<Seq<char>>)>)
    ensures
        flatten_values(a + b) == flatten_values(a) + flatten_values(b),
    decreases b.len(),
{
    if b.len() == 0 {
        assert(a + b =~= a);
        assert(flatten_values(a) + flatten_values(b) =~= flatten_values(a));
    } else {
        lemma_flatten_values_append(a, b.drop_last());
        assert((a + b).drop_last() =~= a + b.drop_last());
    }
}

proof fn lemma_flatten_requests(nonces: Seq<Seq<char>>, pending: Seq<ChunkView>)
    requires
        nonces.len() == pending.len(),
    ensures
        flatten_values(requests_of(nonces, pending)) == flatten_chunks(pending),
    decreases pending.len(),
{
    if pending.len() > 0 {
        lemma_flatten_requests(nonces.drop_last(), pending.drop_last());
        assert(requests_of(nonces, pending).drop_last() =~= requests_of(nonces.drop_last(), pending.drop_last()));
    }
}

proof fn lemma_flush_pending(id: usize, w: WorkerDataView, pending: Seq<ChunkView>, nonces: Seq<Seq<char>>)
    requires
        nonces.len() == pending.len(),
        fresh_nonces(nonces, w.unconfirmed),
    ensures
        ({
            let f = flush_pending(id, w, pending, nonces);
            &&& f.0 == WorkerDataView { unconfirmed: w.unconfirmed + requests_of(nonces, pending), ..w }
            &&& f.1.len() == pending.len()
            &&& forall|i: int| 0 <= i < pending.len() ==> #[trigger] f.1[i] == (EffectView::Send {
                worker: id,
                command: WorkerCommandView::Subscribe { topics: pending[i].0, auth_token: pending[i].1, nonce: nonces[i] },
            })
        }),
    decreases pending.len(),
{
    if pending.len() > 0 {
        let dp = pending.drop_last();
        let dn = nonces.drop_last();
        lemma_flush_pending(id, w, dp, dn);
        let u = w.unconfirmed + requests_of(dn, dp);
        let n = nonces.last();
        assert forall|j: int| 0 <= j < u.len() implies !crate::seq_util::has_key::<Seq<char>, Seq<Seq<char>>>(n)(#[trigger] u[j]) by {
            if j < w.unconfirmed.len() {
                assert(u[j] == w.unconfirmed[j]);
            } else {
                assert(u[j] == requests_of(dn, dp)[j - w.unconfirmed.len()]);
                assert(nonces[j - w.unconfirmed.len()] != nonces[nonces.len() - 1]);
            }
        }
        lemma_first_index_none(u, crate::seq_util::has_key::<Seq<char>, Seq<Seq<char>>>(n));
        assert(u.push((n, pending.last().0)) =~= w.unconfirmed + requests_of(nonces, pending));
        let f = flush_pending(id, w, pending, nonces);
        assert forall|i: int| 0 <= i < pending.len() implies #[trigger] f.1[i] == (EffectView::Send {
            worker: id,
            command: WorkerCommandView::Subscribe { topics: pending[i].0, auth_token: pending[i].1, nonce: nonces[i] },
        }) by {
            if i < pending.len() - 1 {
                assert(dp[i] == pending[i]);
                assert(dn[i] == nonces[i]);
            }
        }
    }
}

/// When its connection opens, a worker sends each pending subscription, in
/// order, with its token and a nonce of its own, and keeps all its topics: with
/// fresh nonces, the topics it waits for answers for are the ones it waited for
/// plus the pending ones, and a later close subscribes to the same topics as
/// before.
pub proof fn law_connect_keeps_topics(id: usize, w: WorkerDataView, nonces: Seq<Seq<char>>)
    requires
        nonces.len() == w.pending.len(),
        fresh_nonces(nonces, w.unconfirmed),
    ensures
        ({
            let c = connect(id, w, nonces);
            &&& c.0.connected
            &&& c.0.pending.len() == 0
            &&& c.0.topics == w.topics
            &&& c.0.total_subs == w.total_subs
            &&& all_topics(c.0) == all_topics(w)
            &&& c.1.len() == w.pending.len()
            &&& forall|i: int| 0 <= i < w.pending.len() ==> #[trigger] c.1[i] == (EffectView::Send {
                worker: id,
                command: WorkerCommandView::Subscribe { topics: w.pending[i].0, auth_token: w.pending[i].1, nonce: nonces[i] },
            })
        }),
{
    let w1 = WorkerDataView { connected: true, pending: seq![], ..w };
    lemma_flush_pending(id, w1, w.pending, nonces);
    let c = connect(id, w, nonces);
    lemma_flatten_values_append(w.unconfirmed, requests_of(nonces, w.pending));
    lemma_flatten_requests(nonces, w.pending);
    assert(flatten_chunks(c.0.pending) == Seq::<Seq<char>>::empty());
    assert(all_topics(c.0) =~= all_topics(w));
}

/// The topics of all workers of the pool, each counted as often as it occurs.
pub open spec fn pool_topics(ws: Seq<(usize, WorkerDataView)>) -> Multiset<Seq<char>>
    decreases ws.len(),
{
    if ws.len() == 0 {
        Multiset::empty()
    } else {
        pool_topics(ws.drop_last()).add(all_topics(ws.last().1).to_multiset())
    }
}

/// No unanswered request of the pool has `nonce` as its key.
pub open spec fn nonce_unused(ws: Seq<(usize, WorkerDataView)>, nonce: Seq<char>) -> bool {
    forall|i: int, j: int|
        0 <= i < ws.len() && 0 <= j < ws[i].1.unconfirmed.len() ==> (#[trigger] ws[i].1.unconfirmed[j]).0 != nonce
}

proof fn lemma_pool_topics_push(ws: Seq<(usize, WorkerDataView)>, w: (usize, WorkerDataView))
    ensures
        pool_topics(ws.push(w)) == pool_topics(ws).add(all_topics(w.1).to_multiset()),
{
    assert(ws.push(w).drop_last() =~= ws);
}

proof fn lemma_pool_topics_update(ws: Seq<(usize, WorkerDataView)>, i: int, w: (usize, WorkerDataView))
    requires
        0 <= i < ws.len(),
    ensures
        pool_topics(ws.update(i, w)).add(all_topics(ws[i].1).to_multiset())
            == pool_topics(ws).add(all_topics(w.1).to_multiset()),
    decreases ws.len(),
{
    broadcast use vstd::multiset::group_multiset_axioms;

    let d = ws.drop_last();
    let u = ws.update(i, w);
    let old_t = all_topics(ws[i].1).to_multiset();
    let new_t = all_topics(w.1).to_multiset();
    let last_t = all_topics(ws.last().1).to_multiset();
    assert(pool_topics(ws) == pool_topics(d).add(last_t));
    if i == ws.len() - 1 {
        assert(u.drop_last() =~= d);
        assert(pool_topics(u) == pool_topics(d).add(new_t));
        assert(pool_topics(u).add(old_t) =~= pool_topics(ws).add(new_t));
    } else {
        lemma_pool_topics_update(d, i, w);
        assert(u.drop_last() =~= d.update(i, w));
        assert(d[i] == ws[i]);
        assert(u.last() == ws.last());
        assert(pool_topics(u) == pool_topics(d.update(i, w)).add(last_t));
        assert forall|x: Seq<char>| #[trigger] pool_topics(u).add(old_t).count(x) == pool_topics(ws).add(new_t).count(x) by {
            assert(pool_topics(d.update(i, w)).add(old_t).count(x) == pool_topics(d).add(new_t).count(x));
        }
        assert(pool_topics(u).add(old_t) =~= pool_topics(ws).add(new_t));
    }
}

/// The topics of a worker that a batch was added to.
proof fn lemma_worker_gains(w: WorkerDataView, w2: WorkerDataView, item: Seq<Seq<char>>)
    requires
        (w2.topics + flatten_values(w2.unconfirmed)) == (w.topics + flatten_values(w.unconfirmed)) + item
            && w2.pending == w.pending
        || w2.topics == w.topics && w2.unconfirmed == w.unconfirmed && flatten_chunks(w2.pending)
            == flatten_chunks(w.pending) + item,
    ensures
        all_topics(w2).to_multiset() == all_topics(w).to_multiset().add(item.to_multiset()),
{
    broadcast use vstd::seq_lib::lemma_multiset_commutative;

    let a = w.topics + flatten_values(w.unconfirmed);
    let c = flatten_chunks(w.pending);
    if w2.pending == w.pending {
        assert(all_topics(w2) =~= (a + item) + c);
        assert(all_topics(w) =~= a + c);
    } else {
        assert(all_topics(w2) =~= (a + c) + item);
        assert(all_topics(w) =~= a + c);
    }
    assert(all_topics(w2).to_multiset() =~= all_topics(w).to_multiset().add(item.to_multiset()));
}

proof fn lemma_place_topics(pool: PoolView, item: ChunkView, nonce: Seq<char>)
    requires
        nonce_unused(pool.workers, nonce),
    ensures
        pool_topics(place(pool, item, nonce).0.workers) == pool_topics(pool.workers).add(item.0.to_multiset()),
        forall|n: Seq<char>|
            nonce_unused(pool.workers, n) && n != nonce ==> #[trigger] nonce_unused(place(pool, item, nonce).0.workers, n),
{
    let ws = pool.workers;
    let i = first_index(ws, fits_worker(item.0.len()));
    lemma_first_index(ws, fits_worker(item.0.len()));
    let after = place(pool, item, nonce).0.workers;
    if i >= 0 {
        let w = ws[i].1;
        let w2 = after[i].1;
        if w.connected {
            let p = crate::seq_util::has_key::<Seq<char>, Seq<Seq<char>>>(nonce);
            assert forall|j: int| 0 <= j < w.unconfirmed.len() implies !p(#[trigger] w.unconfirmed[j]) by {
                assert(ws[i].1.unconfirmed[j].0 != nonce);
            }
            lemma_first_index_none(w.unconfirmed, p);
            assert(w2.unconfirmed == w.unconfirmed.push((nonce, item.0)));
            assert(w2.unconfirmed.drop_last() =~= w.unconfirmed);
            assert(flatten_values(w2.unconfirmed) == flatten_values(w.unconfirmed) + item.0);
            assert((w2.topics + flatten_values(w2.unconfirmed)) =~= (w.topics + flatten_values(w.unconfirmed)) + item.0);
        } else {
            assert(w2.pending.drop_last() =~= w.pending);
        }
        lemma_worker_gains(w, w2, item.0);
        lemma_pool_topics_update(ws, i, after[i]);
        broadcast use vstd::multiset::group_multiset_axioms;

        assert(after == ws.update(i, after[i]));
        let tw = all_topics(w).to_multiset();
        assert forall|x: Seq<char>| #[trigger] pool_topics(after).count(x) == pool_topics(ws).add(item.0.to_multiset()).count(x) by {
            assert(pool_topics(after).add(tw).count(x) == pool_topics(ws).add(all_topics(w2).to_multiset()).count(x));
        }
        assert(pool_topics(after) =~= pool_topics(ws).add(item.0.to_multiset()));
        assert forall|n: Seq<char>| nonce_unused(ws, n) && n != nonce implies #[trigger] nonce_unused(after, n) by {
            assert forall|a: int, j: int| 0 <= a < after.len() && 0 <= j < after[a].1.unconfirmed.len() implies
                (#[trigger] after[a].1.unconfirmed[j]).0 != n by {
                if a != i || !w.connected || j < w.unconfirmed.len() {
                    assert(after[a].1.unconfirmed[j] == ws[a].1.unconfirmed[j]);
                }
            }
        }
    } else {
        let fresh = fresh_worker(item);
        lemma_flatten_single(item);
        assert(all_topics(fresh) =~= item.0);
        lemma_pool_topics_push(ws, (pool.next_id, fresh));
        assert forall|n: Seq<char>| nonce_unused(ws, n) && n != nonce implies #[trigger] nonce_unused(after, n) by {
            assert forall|a: int, j: int| 0 <= a < after.len() && 0 <= j < after[a].1.unconfirmed.len() implies
                (#[trigger] after[a].1.unconfirmed[j]).0 != n by {
                assert(a < ws.len());
                assert(after[a] == ws[a]);
            }
        }
    }
}

/// The nonces are distinct, and no request of the pool uses one of them.
pub open spec fn unused_nonces(ws: Seq<(usize, WorkerDataView)>, nonces: Seq<Seq<char>>) -> bool {
    &&& forall|i: int, j: int| 0 <= i < nonces.len() && 0 <= j < nonces.len() && i != j ==> nonces[i] != nonces[j]
    &&& forall|k: int| 0 <= k < nonces.len() ==> nonce_unused(ws, #[trigger] nonces[k])
}

proof fn lemma_place_all_topics(pool: PoolView, items: Seq<ChunkView>, nonces: Seq<Seq<char>>)
    requires
        nonces.len() == items.len(),
        unused_nonces(pool.workers, nonces),
    ensures
        pool_topics(place_all(pool, items, nonces).0.workers) == pool_topics(pool.workers).add(
            flatten_chunks(items).to_multiset(),
        ),
        forall|n: Seq<char>|
            nonce_unused(pool.workers, n) && !nonces.contains(n) ==> #[trigger] nonce_unused(
                place_all(pool, items, nonces).0.workers,
                n,
            ),
    decreases items.len(),
{
    broadcast use vstd::seq_lib::lemma_multiset_commutative;

    if items.len() == 0 {
        broadcast use vstd::multiset::group_multiset_axioms, vstd::seq_lib::group_to_multiset_ensures;

        assert(flatten_chunks(items).to_multiset().len() == 0);
        assert(pool_topics(pool.workers).add(flatten_chunks(items).to_multiset()) =~= pool_topics(pool.workers));
    } else {
        let di = items.drop_last();
        let dn = nonces.drop_last();
        assert forall|k: int| 0 <= k < dn.len() implies nonce_unused(pool.workers, #[trigger] dn[k]) by {
            assert(dn[k] == nonces[k]);
        }
        lemma_place_all_topics(pool, di, dn);
        let r = place_all(pool, di, dn).0;
        let last = nonces.last();
        assert(!dn.contains(last)) by {
            if dn.contains(last) {
                let j = choose|j: int| 0 <= j < dn.len() && dn[j] == last;
                assert(nonces[j] == nonces[nonces.len() - 1]);
            }
        }
        assert(nonce_unused(pool.workers, nonces[nonces.len() - 1]));
        lemma_place_topics(r, items.last(), last);
        assert(flatten_chunks(items) == flatten_chunks(di) + items.last().0);
        assert(pool_topics(place_all(pool, items, nonces).0.workers) =~= pool_topics(pool.workers).add(
            flatten_chunks(items).to_multiset(),
        ));
        assert forall|n: Seq<char>| nonce_unused(pool.workers, n) && !nonces.contains(n) implies #[trigger] nonce_unused(
            place_all(pool, items, nonces).0.workers,
            n,
        ) by {
            if dn.contains(n) {
                let j = choose|j: int| 0 <= j < dn.len() && dn[j] == n;
                assert(nonces[j] == n);
            }
            if n == last {
                assert(nonces[nonces.len() - 1] == n);
            }
        }
    }
}

proof fn lemma_all_batches_topics(subs: Seq<ChunkView>)
    ensures
        flatten_chunks(all_batches(subs)).to_multiset() == flatten_chunks(subs).to_multiset(),
{
    lemma_all_batches_within(subs);
}

/// Subscribing loses no topic and adds none: where the nonces are distinct and
/// no request of the pool uses one of them, the pool's workers hold, once the
/// batches of `subs` are placed, their topics of before and each topic of `subs`
/// once more.
pub proof fn law_subscribe_keeps_topics(pool: PoolView, subs: Seq<ChunkView>, nonces: Seq<Seq<char>>)
    requires
        nonces.len() == all_batches(subs).len(),
        unused_nonces(pool.workers, nonces),
    ensures
        pool_topics(place_all(pool, all_batches(subs), nonces).0.workers) == pool_topics(pool.workers).add(
            flatten_chunks(subs).to_multiset(),
        ),
{
    lemma_place_all_topics(pool, all_batches(subs), nonces);
    lemma_all_batches_topics(subs);
}

/// A worker's count is exactly the number of its topics (confirmed, waiting for
/// an answer, and pending).
pub open spec fn counted(w: WorkerDataView) -> bool {
    w.total_subs == all_topics(w).len()
}

/// Twitch's answer keeps a worker's count equal to the number of its topics;
/// so does opening its connection, where the nonces drawn are distinct and new
/// to the worker.
pub proof fn law_messages_keep_count(id: usize, w: WorkerDataView, nonces: Seq<Seq<char>>, res: (Option<Seq<char>>, Option<Seq<char>>))
    requires
        counted(w),
    ensures
        counted(answer(w, res).0),
        nonces.len() == w.pending.len() && fresh_nonces(nonces, w.unconfirmed) ==> counted(connect(id, w, nonces).0),
{
    if let Some(nonce) = res.0 {
        let u = w.unconfirmed;
        let i = crate::seq_util::key_index(u, nonce);
        lemma_first_index(u, crate::seq_util::has_key::<Seq<char>, Seq<Seq<char>>>(nonce));
        if i >= 0 {
            lemma_flatten_values_split(u, i, u[i]);
            let a = answer(w, res).0;
            assert(all_topics(w).len() == w.topics.len() + flatten_values(u).len() + flatten_chunks(w.pending).len());
            assert(all_topics(a).len() == a.topics.len() + flatten_values(a.unconfirmed).len() + flatten_chunks(a.pending).len());
        }
    }
    if nonces.len() == w.pending.len() && fresh_nonces(nonces, w.unconfirmed) {
        law_connect_keeps_topics(id, w, nonces);
    }
}

proof fn lemma_place_count(pool: PoolView, item: ChunkView, nonce: Seq<char>)
    requires
        forall|i: int| 0 <= i < pool.workers.len() ==> counted((#[trigger] pool.workers[i]).1),
        nonce_unused(pool.workers, nonce),
    ensures
        forall|i: int|
            0 <= i < place(pool, item, nonce).0.workers.len() ==> counted((#[trigger] place(pool, item, nonce).0.workers[i]).1),
{
    let ws = pool.workers;
    let i = first_index(ws, fits_worker(item.0.len()));
    lemma_first_index(ws, fits_worker(item.0.len()));
    let after = place(pool, item, nonce).0.workers;
    if i >= 0 {
        let w = ws[i].1;
        let w2 = after[i].1;
        assert(counted(w));
        if w.connected {
            let p = crate::seq_util::has_key::<Seq<char>, Seq<Seq<char>>>(nonce);
            assert forall|j: int| 0 <= j < w.unconfirmed.len() implies !p(#[trigger] w.unconfirmed[j]) by {
                assert(ws[i].1.unconfirmed[j].0 != nonce);
            }
            lemma_first_index_none(w.unconfirmed, p);
            assert(w2.unconfirmed.drop_last() =~= w.unconfirmed);
        } else {
            assert(w2.pending.drop_last() =~= w.pending);
        }
        assert(counted(w2));
    } else {
        lemma_flatten_single(item);
    }
    assert forall|j: int| 0 <= j < after.len() implies counted((#[trigger] after[j]).1) by {
        if j < ws.len() && j != i {
            assert(after[j] == ws[j]);
        }
    }
}

/// Placing batches keeps each worker's count equal to the number of its topics,
/// where the nonces are distinct and no request of the pool uses one of them.
pub proof fn law_placing_keeps_count(pool: PoolView, items: Seq<ChunkView>, nonces: Seq<Seq<char>>)
    requires
        forall|i: int| 0 <= i < pool.workers.len() ==> counted((#[trigger] pool.workers[i]).1),
        nonces.len() == items.len(),
        unused_nonces(pool.workers, nonces),
    ensures
        forall|i: int|
            0 <= i < place_all(pool, items, nonces).0.workers.len() ==> counted(
                (#[trigger] place_all(pool, items, nonces).0.workers[i]).1,
            ),
    decreases items.len(),
{
    if items.len() > 0 {
        let di = items.drop_last();
        let dn = nonces.drop_last();
        assert forall|k: int| 0 <= k < dn.len() implies nonce_unused(pool.workers, #[trigger] dn[k]) by {
            assert(dn[k] == nonces[k]);
        }
        law_placing_keeps_count(pool, di, dn);
        lemma_place_all_topics(pool, di, dn);
        let r = place_all(pool, di, dn).0;
        let last = nonces.last();
        assert(!dn.contains(last)) by {
            if dn.contains(last) {
                let j = choose|j: int| 0 <= j < dn.len() && dn[j] == last;
                assert(nonces[j] == nonces[nonces.len() - 1]);
            }
        }
        assert(nonce_unused(pool.workers, nonces[nonces.len() - 1]));
        lemma_place_count(r, items.last(), last);
    }
}

/// Each worker's unanswered requests have distinct nonces.
pub open spec fn nonces_distinct(ws: Seq<(usize, WorkerDataView)>) -> bool {
    forall|i: int| 0 <= i < ws.len() ==> keys_distinct((#[trigger] ws[i]).1.unconfirmed)
}

/// Placing batches keeps the nonces of each worker's unanswered requests
/// distinct, whatever nonces are drawn: a nonce that a request of the worker
/// already has takes that request's place.
pub proof fn law_placing_keeps_nonces_distinct(pool: PoolView, items: Seq<ChunkView>, nonces: Seq<Seq<char>>)
    requires
        nonces_distinct(pool.workers),
    ensures
        nonces_distinct(place_all(pool, items, nonces).0.workers),
    decreases items.len(),
{
    if items.len() > 0 {
        law_placing_keeps_nonces_distinct(pool, items.drop_last(), nonces.drop_last());
        let p = place_all(pool, items.drop_last(), nonces.drop_last()).0;
        let item = items.last();
        let ws = p.workers;
        let i = first_index(ws, fits_worker(item.0.len()));
        lemma_first_index(ws, fits_worker(item.0.len()));
        let after = place(p, item, nonces.last()).0.workers;
        if i >= 0 && ws[i].1.connected {
            lemma_assoc_insert_distinct(ws[i].1.unconfirmed, nonces.last(), item.0);
        }
        assert forall|j: int| 0 <= j < after.len() implies keys_distinct((#[trigger] after[j]).1.unconfirmed) by {
            if j < ws.len() && j != i {
                assert(after[j] == ws[j]);
            } else if j == i {
                assert(keys_distinct(ws[j].1.unconfirmed));
            } else {
                assert(after[j].1.unconfirmed.len() == 0);
            }
        }
    }
}

proof fn lemma_flush_keeps_nonces_distinct(id: usize, w: WorkerDataView, pending: Seq<ChunkView>, nonces: Seq<Seq<char>>)
    requires
        keys_distinct(w.unconfirmed),
    ensures
        keys_distinct(flush_pending(id, w, pending, nonces).0.unconfirmed),
    decreases pending.len(),
{
    if pending.len() > 0 {
        lemma_flush_keeps_nonces_distinct(id, w, pending.drop_last(), nonces.drop_last());
        let r = flush_pending(id, w, pending.drop_last(), nonces.drop_last());
        lemma_assoc_insert_distinct(r.0.unconfirmed, nonces.last(), pending.last().0);
    }
}

/// Opening a worker's connection keeps the nonces of its unanswered requests
/// distinct, whatever nonces are drawn.
pub proof fn law_connect_keeps_nonces_distinct(id: usize, w: WorkerDataView, nonces: Seq<Seq<char>>)
    requires
        keys_distinct(w.unconfirmed),
    ensures
        keys_distinct(connect(id, w, nonces).0.unconfirmed),
{
    lemma_flush_keeps_nonces_distinct(id, WorkerDataView { connected: true, pending: seq![], ..w }, w.pending, nonces);
}

/// Handling Twitch's answer keeps the nonces of the worker's unanswered
/// requests distinct.
pub proof fn law_answer_keeps_nonces_distinct(w: WorkerDataView, res: (Option<Seq<char>>, Option<Seq<char>>))
    requires
        keys_distinct(w.unconfirmed),
    ensures
        keys_distinct(answer(w, res).0.unconfirmed),
{
    if let Some(nonce) = res.0 {
        lemma_assoc_remove_distinct(w.unconfirmed, nonce);
    }
}

/// Placing batches keeps the workers' ids distinct and below the next id, as
/// long as the ids that new workers take stay below `usize::MAX` (there the
/// next id wraps around to 0).
pub proof fn law_placing_keeps_ids_fresh(pool: PoolView, items: Seq<ChunkView>, nonces: Seq<Seq<char>>)
    requires
        ids_fresh(pool.workers, pool.next_id as nat),
        pool.next_id + items.len() < usize::MAX,
    ensures
        ids_fresh(place_all(pool, items, nonces).0.workers, place_all(pool, items, nonces).0.next_id as nat),
        place_all(pool, items, nonces).0.next_id <= pool.next_id + items.len(),
    decreases items.len(),
{
    if items.len() > 0 {
        law_placing_keeps_ids_fresh(pool, items.drop_last(), nonces.drop_last());
        let p = place_all(pool, items.drop_last(), nonces.drop_last()).0;
        let item = items.last();
        let ws = p.workers;
        let i = first_index(ws, fits_worker(item.0.len()));
        lemma_first_index(ws, fits_worker(item.0.len()));
        let after = place(p, item, nonces.last()).0;
        if i >= 0 {
            assert forall|j: int| 0 <= j < ws.len() implies (#[trigger] after.workers[j]).0 == ws[j].0 by {
                if j != i {
                    assert(after.workers[j] == ws[j]);
                }
            }
        } else {
            crate::handler::law_ids_stay_fresh(ws, p.next_id, fresh_worker(item), 0);
        }
    }
}

/// Whether Twitch's answer `res` may be handled by the worker with `data` (see
/// `answer_in_range`).
pub fn response_in_range(data: &WorkerData, res: &TwitchResponse) -> (r: bool)
    ensures
        r == answer_in_range(data.deep_view(), res.deep_view()),
{
    match &res.nonce {
        None => true,
        Some(nonce) => match crate::seq_util::assoc_get_exec(&data.unconfirmed, nonce) {
            None => true,
            Some(topics) => {
                let failed = match &res.error {
                    Some(e) => !e.as_str().is_empty(),
                    None => false,
                };
                !failed || topics.len() <= data.total_subs
            },
        },
    }
}

} // verus!
