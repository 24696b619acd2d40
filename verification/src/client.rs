//! The client loop: a pool of connections, each listening to at most a limited
//! number of topics, and the requests that wait for Twitch's answers.
use vstd::prelude::*;

use std::sync::Arc;

use crate::error::ClientError;
use crate::handler::next_id_after;
use crate::message::ParseError;
use crate::response::{failure, take_failure, Response, TwitchResponse};
use crate::seq_util::{
    assoc_get, assoc_insert, assoc_insert_exec, assoc_remove, assoc_remove_exec, contains_exec,
    first_index, keys_distinct, lemma_assoc_insert_distinct, lemma_assoc_remove_distinct,
    lemma_first_index, lemma_first_index_is, lemma_first_index_none, lemma_set_insert_all_distinct,
    lemma_set_remove, set_insert_all, set_insert_all_exec, set_remove, set_remove_exec,
};
use crate::pubsub::clone_token;
use crate::util::{generate_nonce, is_nonce};
use crate::wire::{listen_command, listen_request, unlisten_command, unlisten_request, written};
use crate::token_provider::{flatten_chunks, lemma_flatten_chunks_append, lemma_flatten_single, Chunk, ChunkView, TokenProvider};

verus! {

/// Stands for the caller's callback (a one-shot sender) that an answer goes to.
pub type CallbackId = u64;

/// What a request that waits for Twitch's answer asks for.
#[derive(Debug, PartialEq, Eq)]
pub enum Request {
    /// To listen to these topics.
    Listen(Vec<String>),
    /// To stop listening to this topic.
    Unlisten(String),
}

/// The view of a `Request`.
pub enum RequestView {
    Listen(Seq<Seq<char>>),
    Unlisten(Seq<char>),
}

impl DeepView for Request {
    type V = RequestView;

    open spec fn deep_view(&self) -> RequestView {
        match self {
            Request::Listen(t) => RequestView::Listen(t.deep_view()),
            Request::Unlisten(t) => RequestView::Unlisten(t@),
        }
    }
}

/// A request that waits for Twitch's answer: what it asks for, and the
/// callback.
pub type Pending = (Request, Option<CallbackId>);

/// The view of a `Pending`.
pub type PendingView = (RequestView, Option<CallbackId>);

/// A connection of the pool.
#[derive(Debug)]
pub struct PoolConnection {
    /// The connection's id.
    pub id: usize,
    /// The requests that wait for an answer, by nonce.
    pub pending_topics: Vec<(String, Pending)>,
    /// The number of topics the client listens to or wants to listen to.
    pub wanted_topics: usize,
    /// The topics the client definitely listens to (no topic twice).
    pub active_topics: Vec<String>,
    /// The most topics for one connection.
    pub max_topics_per_connection: usize,
}

/// The view of a `PoolConnection`.
pub struct PoolConnectionView {
    pub id: usize,
    pub pending: Seq<(Seq<char>, PendingView)>,
    pub wanted: nat,
    pub active: Seq<Seq<char>>,
    pub max: nat,
}

impl DeepView for PoolConnection {
    type V = PoolConnectionView;

    open spec fn deep_view(&self) -> PoolConnectionView {
        PoolConnectionView {
            id: self.id,
            pending: self.pending_topics.deep_view(),
            wanted: self.wanted_topics as nat,
            active: self.active_topics.deep_view(),
            max: self.max_topics_per_connection as nat,
        }
    }
}

/// A new connection: nothing wanted, nothing waiting, nothing active.
pub open spec fn fresh_connection(id: usize, max: nat) -> PoolConnectionView {
    PoolConnectionView { id, pending: seq![], wanted: 0, active: seq![], max }
}

impl PoolConnection {
    /// Creates the connection `id` of a pool whose connections take at most
    /// `max_topics_per_connection` topics.
    pub fn new(max_topics_per_connection: usize, id: usize) -> (r: Self)
        ensures
            r.deep_view() == fresh_connection(id, max_topics_per_connection as nat),
    {
        let r = PoolConnection {
            id,
            pending_topics: Vec::new(),
            wanted_topics: 0,
            active_topics: Vec::new(),
            max_topics_per_connection,
        };
        assert(r.deep_view().pending =~= Seq::<(Seq<char>, PendingView)>::empty());
        assert(r.deep_view().active =~= Seq::<Seq<char>>::empty());
        r
    }

    /// Whether `n_topics` more topics fit on this connection.
    pub fn can_handle(&self, n_topics: usize) -> (r: bool)
        ensures
            r == (self.wanted_topics + n_topics <= self.max_topics_per_connection),
    {
        n_topics <= self.max_topics_per_connection && self.wanted_topics <= self.max_topics_per_connection - n_topics
    }
}

/// The predicate "`n` more topics fit on the connection".
pub open spec fn handles(n: nat) -> spec_fn(PoolConnectionView) -> bool {
    |c: PoolConnectionView| c.wanted + n <= c.max
}

/// The predicate "the connection actively listens to `topic`".
pub open spec fn listens_to(topic: Seq<char>) -> spec_fn(PoolConnectionView) -> bool {
    |c: PoolConnectionView| c.active.contains(topic)
}

/// The predicate "the connection's id is `id`".
pub open spec fn is_connection(id: usize) -> spec_fn(PoolConnectionView) -> bool {
    |c: PoolConnectionView| c.id == id
}

/// What the client loop asks its caller to do.
#[derive(Debug)]
pub enum ClientAction<D, T: TokenProvider> {
    /// Open the connection `connection` and forward its messages to the loop.
    Connect { connection: usize },
    /// Send `message` on the connection `connection`.
    Send { connection: usize, message: String },
    /// Answer the callback `callback` with `result`.
    Reply { callback: CallbackId, result: Result<(), ClientError<T>> },
    /// Hand a message of Twitch to the user.
    Forward(Result<Response<D>, ParseError>),
    /// Get fresh tokens for `topics`, which the closed connection `connection`
    /// listened to, and listen to them again.
    Rehydrate { connection: usize, topics: Vec<String> },
    /// Stop forwarding the messages of the removed connection `connection`.
    Release { connection: usize },
}

/// A message of a connection to the client loop.
#[derive(Debug)]
pub enum ConnectionLoopMessage<D, T: TokenProvider> {
    /// A message of Twitch, or one that could not be parsed.
    ServerMessage(Result<Response<D>, ParseError>),
    /// The connection opened.
    Open,
    /// The connection closed.
    Closed { cause: ClientError<T> },
}

/// The client loop's view of its pool.
pub struct ClientView {
    pub connections: Seq<PoolConnectionView>,
    pub next_id: usize,
    pub max: nat,
}

/// Where a LISTEN request for `topics` with `nonce` goes: to the first connection
/// that can handle them (moved to the end of the pool), or to a new connection;
/// it counts the topics as wanted and waits for its answer.
pub open spec fn listen_spec(s: ClientView, topics: Seq<Seq<char>>, callback: Option<CallbackId>, nonce: Seq<char>) -> ClientView {
    let i = first_index(s.connections, handles(topics.len()));
    let c = if i >= 0 { s.connections[i] } else { fresh_connection(s.next_id, s.max) };
    let rest = if i >= 0 { s.connections.remove(i) } else { s.connections };
    let c2 = PoolConnectionView {
        wanted: c.wanted + topics.len(),
        pending: assoc_insert(c.pending, nonce, (RequestView::Listen(topics), callback)),
        ..c
    };
    ClientView {
        connections: rest.push(c2),
        next_id: if i >= 0 { s.next_id } else { next_id_after(s.next_id) },
        max: s.max,
    }
}

/// The connection that a LISTEN request for `n` topics goes to.
pub open spec fn listen_target(s: ClientView, n: nat) -> usize {
    let i = first_index(s.connections, handles(n));
    if i >= 0 { s.connections[i].id } else { s.next_id }
}

/// Where an UNLISTEN request for `topic` with `nonce` goes: to the first
/// connection that listens to it (moved to the end of the pool), which wants one
/// topic less and waits for the answer. A pool where no connection listens to
/// `topic` stays as it is.
pub open spec fn unlisten_spec(s: ClientView, topic: Seq<char>, callback: Option<CallbackId>, nonce: Seq<char>) -> ClientView {
    let i = first_index(s.connections, listens_to(topic));
    if i >= 0 {
        let c = s.connections[i];
        let c2 = PoolConnectionView {
            wanted: (c.wanted - 1) as nat,
            pending: assoc_insert(c.pending, nonce, (RequestView::Unlisten(topic), callback)),
            ..c
        };
        ClientView { connections: s.connections.remove(i).push(c2), ..s }
    } else {
        s
    }
}

/// What Twitch's answer `(nonce, error)` on the connection `id` does: the
/// request with that nonce stops waiting, and on success its topics become
/// active.
pub open spec fn respond_spec(s: ClientView, id: usize, nonce: Seq<char>, error: Option<Seq<char>>) -> ClientView {
    let k = first_index(s.connections, is_connection(id));
    let c = s.connections[k];
    match assoc_get(c.pending, nonce) {
        None => s,
        Some(p) => {
            let c1 = PoolConnectionView { pending: assoc_remove(c.pending, nonce), ..c };
            let c2 = if failure(error) is Some {
                c1
            } else {
                match p.0 {
                    RequestView::Listen(topics) => PoolConnectionView { active: set_insert_all(c.active, topics), ..c1 },
                    RequestView::Unlisten(topic) => PoolConnectionView { active: set_remove(c.active, topic), ..c1 },
                }
            };
            ClientView { connections: s.connections.update(k, c2), ..s }
        },
    }
}

/// The callbacks of the requests that wait on a connection, in order.
pub open spec fn callbacks(pending: Seq<(Seq<char>, PendingView)>) -> Seq<CallbackId>
    decreases pending.len(),
{
    if pending.len() == 0 {
        seq![]
    } else {
        let rest = callbacks(pending.drop_last());
        match pending.last().1.1 {
            Some(cb) => rest.push(cb),
            None => rest,
        }
    }
}

/// The client loop: the pool of connections and the id of the next one.
pub struct ClientLoopWorker {
    pub connections: Vec<PoolConnection>,
    pub next_connection_id: usize,
    pub max_topics_per_connection: usize,
}

impl ClientLoopWorker {
    /// The view of the pool.
    pub open spec fn view_of(&self) -> ClientView {
        ClientView {
            connections: self.connections.deep_view(),
            next_id: self.next_connection_id,
            max: self.max_topics_per_connection as nat,
        }
    }

    /// Every connection knows the pool's limit, its waiting requests have
    /// distinct nonces, and its active topics are distinct.
    pub open spec fn wf(&self) -> bool {
        &&& forall|i: int|
            0 <= i < self.connections@.len() ==> (#[trigger] self.connections@[i]).max_topics_per_connection
                == self.max_topics_per_connection
        &&& pool_distinct(self.view_of())
    }

    /// An empty pool whose connections take at most `max_topics_per_connection`
    /// topics.
    pub fn new(max_topics_per_connection: usize) -> (r: Self)
        ensures
            r.wf(),
            r.view_of().connections.len() == 0,
            r.next_connection_id == 0,
            r.max_topics_per_connection == max_topics_per_connection,
    {
        ClientLoopWorker { connections: Vec::new(), next_connection_id: 0, max_topics_per_connection }
    }

    /// A new connection of the pool, with the next id.
    pub fn make_new_connection(&mut self) -> (c: PoolConnection)
        ensures
            c.deep_view() == fresh_connection(old(self).next_connection_id, old(self).max_topics_per_connection as nat),
            c.max_topics_per_connection == old(self).max_topics_per_connection,
            final(self).next_connection_id == next_id_after(old(self).next_connection_id),
            final(self).connections == old(self).connections,
            final(self).max_topics_per_connection == old(self).max_topics_per_connection,
    {
        let connection_id = self.next_connection_id;
        self.next_connection_id = self.next_connection_id.wrapping_add(1);
        PoolConnection::new(self.max_topics_per_connection, connection_id)
    }
}

/// The error that a request whose message could not be serialized gets.
pub open spec fn serde_reply<D, T: TokenProvider>(callback: Option<CallbackId>, e: Arc<serde_json::Error>) -> Seq<ClientAction<D, T>> {
    match callback {
        Some(cb) => seq![ClientAction::Reply { callback: cb, result: Err(ClientError::SerdeError(e)) }],
        None => seq![],
    }
}

/// What `listen` does with `topics`, given the nonce of the request and its
/// serialized LISTEN message: a message that could not be serialized answers the
/// callback with the error and changes nothing; else the request goes to the
/// first connection that can handle the topics, or to a new one (see
/// `listen_spec`), and the message is sent there.
pub open spec fn listen_post<D, T: TokenProvider>(
    before: ClientLoopWorker,
    after: ClientLoopWorker,
    topics: Seq<Seq<char>>,
    callback: Option<CallbackId>,
    nonce: Seq<char>,
    message: Result<String, Arc<serde_json::Error>>,
    actions: Seq<ClientAction<D, T>>,
) -> bool {
    &&& after.wf()
    &&& after.max_topics_per_connection == before.max_topics_per_connection
    &&& match message {
        Err(e) => after == before && actions == serde_reply::<D, T>(callback, e),
        Ok(m) => {
            let s = before.view_of();
            let fresh = first_index(s.connections, handles(topics.len())) == -1;
            &&& after.view_of() == listen_spec(s, topics, callback, nonce)
            &&& actions == (if fresh {
                seq![ClientAction::<D, T>::Connect { connection: s.next_id }]
            } else {
                seq![]
            }) + seq![ClientAction::Send { connection: listen_target(s, topics.len()), message: m }]
        },
    }
}

impl ClientLoopWorker {
    /// The position of the first connection for which `p` holds.
    fn find_connection(&self, n: usize, topic: Option<&String>) -> (r: Option<usize>)
        ensures
            topic is None ==> match r {
                Some(i) => i as int == first_index(self.connections.deep_view(), handles(n as nat)),
                None => first_index(self.connections.deep_view(), handles(n as nat)) == -1,
            },
            topic matches Some(t) ==> match r {
                Some(i) => i as int == first_index(self.connections.deep_view(), listens_to(t@)),
                None => first_index(self.connections.deep_view(), listens_to(t@)) == -1,
            },
            r matches Some(i) ==> i < self.connections@.len(),
    {
        let ghost cs = self.connections.deep_view();
        let ghost p = match topic {
            Some(t) => listens_to(t@),
            None => handles(n as nat),
        };
        let mut i: usize = 0;
        while i < self.connections.len()
            invariant
                i <= self.connections@.len(),
                cs == self.connections.deep_view(),
                p == match topic {
                    Some(t) => listens_to(t@),
                    None => handles(n as nat),
                },
                forall|j: int| 0 <= j < i ==> !p(#[trigger] cs[j]),
            decreases self.connections@.len() - i,
        {
            let hit = match topic {
                Some(t) => contains_exec(&self.connections[i].active_topics, t),
                None => self.connections[i].can_handle(n),
            };
            if hit {
                proof {
                    lemma_first_index_is(cs, p, i as int);
                }
                return Some(i);
            }
            i += 1;
        }
        proof {
            lemma_first_index_none(cs, p);
        }
        None
    }

    /// The position of the connection `id`.
    fn position(&self, id: usize) -> (r: Option<usize>)
        ensures
            match r {
                Some(i) => i as int == first_index(self.connections.deep_view(), is_connection(id)),
                None => first_index(self.connections.deep_view(), is_connection(id)) == -1,
            },
            r matches Some(i) ==> i < self.connections@.len(),
    {
        let ghost cs = self.connections.deep_view();
        let mut i: usize = 0;
        while i < self.connections.len()
            invariant
                i <= self.connections@.len(),
                cs == self.connections.deep_view(),
                forall|j: int| 0 <= j < i ==> !is_connection(id)(#[trigger] cs[j]),
            decreases self.connections@.len() - i,
        {
            if self.connections[i].id == id {
                proof {
                    lemma_first_index_is(cs, is_connection(id), i as int);
                }
                return Some(i);
            }
            i += 1;
        }
        proof {
            lemma_first_index_none(cs, is_connection(id));
        }
        None
    }

    /// Listens to `topics`, given the nonce of the request and its serialized
    /// LISTEN message: the request goes to the first connection that can
    /// handle the topics, or to a new one (see `listen_spec`). A message that
    /// could not be serialized answers the callback with the error and changes
    /// nothing.
    pub fn listen<D, T: TokenProvider>(
        &mut self,
        topics: Vec<String>,
        callback: Option<CallbackId>,
        nonce: String,
        message: Result<String, Arc<serde_json::Error>>,
    ) -> (actions: Vec<ClientAction<D, T>>)
        requires
            old(self).wf(),
        ensures
            listen_post(*old(self), *final(self), topics.deep_view(), callback, nonce@, message, actions@),
    {
        let m = match message {
            Ok(m) => m,
            Err(e) => {
                let mut actions: Vec<ClientAction<D, T>> = Vec::new();
                if let Some(cb) = callback {
                    actions.push(ClientAction::Reply { callback: cb, result: Err(ClientError::SerdeError(e)) });
                }
                proof {
                    assert(actions@ =~= serde_reply::<D, T>(callback, e));
                }
                return actions;
            },
        };
        let ghost s = self.view_of();
        let ghost tv = topics.deep_view();
        let n = topics.len();
        let mut actions: Vec<ClientAction<D, T>> = Vec::new();
        let found = self.find_connection(n, None);
        let mut conn = match found {
            Some(i) => {
                proof {
                    lemma_first_index(s.connections, handles(n as nat));
                }
                let c = self.connections.remove(i);
                proof {
                    assert(self.connections.deep_view() =~= s.connections.remove(i as int));
                }
                c
            },
            None => {
                let c = self.make_new_connection();
                actions.push(ClientAction::Connect { connection: c.id });
                c
            },
        };
        actions.push(ClientAction::Send { connection: conn.id, message: m });
        conn.wanted_topics = conn.wanted_topics + n;
        assoc_insert_exec(&mut conn.pending_topics, nonce, (Request::Listen(topics), callback));
        let ghost before = self.connections.deep_view();
        self.connections.push(conn);
        proof {
            assert(self.connections.deep_view() =~= before.push(conn.deep_view()));
            assert(self.view_of() =~= listen_spec(s, tv, callback, nonce@));
            law_client_keeps_distinct(s, tv, Seq::empty(), callback, nonce@, 0, None, -1);
            assert(actions@ =~= (if found is None {
                seq![ClientAction::<D, T>::Connect { connection: s.next_id }]
            } else {
                seq![]
            }) + seq![ClientAction::Send { connection: listen_target(s, tv.len()), message: m }]);
        }
        actions
    }
}

/// The first connection that listens to `topic`, where there is one, still
/// counts a wanted topic that an UNLISTEN can take off.
pub open spec fn unlisten_in_range(s: ClientView, topic: Seq<char>) -> bool {
    let i = first_index(s.connections, listens_to(topic));
    i >= 0 ==> s.connections[i].wanted >= 1
}

/// The callback's result for Twitch's answer with `error`: success, or the
/// error message of a failed request.
pub open spec fn reply_matches<T: TokenProvider>(result: Result<(), ClientError<T>>, error: Option<Seq<char>>) -> bool {
    match failure(error) {
        Some(e) => result matches Err(ClientError::ListenError(s)) && s@ == e,
        None => result is Ok,
    }
}

/// What `unlisten` does with `topic`, given the nonce of the request and its
/// serialized UNLISTEN message: where no connection listens to the topic, the
/// callback is answered with success; where the message could not be
/// serialized, it is answered with the error and the connection moves to the end
/// of the pool; else the request goes to the first connection that listens to
/// the topic (see `unlisten_spec`), and the message is sent there.
pub open spec fn unlisten_post<D, T: TokenProvider>(
    before: ClientLoopWorker,
    after: ClientLoopWorker,
    topic: Seq<char>,
    callback: Option<CallbackId>,
    nonce: Seq<char>,
    message: Result<String, Arc<serde_json::Error>>,
    actions: Seq<ClientAction<D, T>>,
) -> bool {
    let s = before.view_of();
    let i = first_index(s.connections, listens_to(topic));
    &&& after.wf()
    &&& after.max_topics_per_connection == before.max_topics_per_connection
    &&& after.next_connection_id == before.next_connection_id
    &&& if i < 0 {
        &&& after.view_of() == s
        &&& actions == match callback {
            Some(cb) => seq![ClientAction::<D, T>::Reply { callback: cb, result: Ok(()) }],
            None => seq![],
        }
    } else {
        match message {
            Err(e) => {
                &&& after.view_of() == ClientView { connections: s.connections.remove(i).push(s.connections[i]), ..s }
                &&& actions == serde_reply::<D, T>(callback, e)
            },
            Ok(m) => {
                &&& after.view_of() == unlisten_spec(s, topic, callback, nonce)
                &&& actions == seq![ClientAction::<D, T>::Send { connection: s.connections[i].id, message: m }]
            },
        }
    }
}

impl ClientLoopWorker {
    /// Whether an UNLISTEN for `topic` keeps the wanted count in range (see
    /// `unlisten_in_range`).
    pub fn can_unlisten(&self, topic: &String) -> (r: bool)
        ensures
            r == unlisten_in_range(self.view_of(), topic@),
    {
        match self.find_connection(0, Some(topic)) {
            Some(i) => self.connections[i].wanted_topics >= 1,
            None => true,
        }
    }

    /// Stops listening to `topic`, given the nonce of the request and its
    /// serialized UNLISTEN message: the request goes to the first connection
    /// that listens to the topic (see `unlisten_spec`). Where none does, the
    /// callback is answered with success; where the message could not be
    /// serialized, it is answered with the error and the connection moves to the
    /// end of the pool.
    pub fn unlisten<D, T: TokenProvider>(
        &mut self,
        topic: String,
        callback: Option<CallbackId>,
        nonce: String,
        message: Result<String, Arc<serde_json::Error>>,
    ) -> (actions: Vec<ClientAction<D, T>>)
        requires
            old(self).wf(),
            unlisten_in_range(old(self).view_of(), topic@),
        ensures
            unlisten_post(*old(self), *final(self), topic@, callback, nonce@, message, actions@),
    {
        let ghost s = self.view_of();
        let mut actions: Vec<ClientAction<D, T>> = Vec::new();
        let i = match self.find_connection(0, Some(&topic)) {
            Some(i) => i,
            None => {
                if let Some(cb) = callback {
                    actions.push(ClientAction::Reply { callback: cb, result: Ok(()) });
                }
                proof {
                    assert(actions@ =~= match callback {
                        Some(cb) => seq![ClientAction::<D, T>::Reply { callback: cb, result: Ok(()) }],
                        None => seq![],
                    });
                }
                return actions;
            },
        };
        proof {
            lemma_first_index(s.connections, listens_to(topic@));
        }
        let mut conn = self.connections.remove(i);
        let ghost rest = self.connections.deep_view();
        proof {
            assert(rest =~= s.connections.remove(i as int));
        }
        let m = match message {
            Ok(m) => m,
            Err(e) => {
                if let Some(cb) = callback {
                    actions.push(ClientAction::Reply { callback: cb, result: Err(ClientError::SerdeError(e)) });
                }
                self.connections.push(conn);
                proof {
                    assert(self.connections.deep_view() =~= rest.push(s.connections[i as int]));
                    assert(self.view_of() =~= ClientView { connections: s.connections.remove(i as int).push(s.connections[i as int]), ..s });
                    lemma_move_to_end_distinct(s, i as int);
                    assert(actions@ =~= serde_reply::<D, T>(callback, e));
                }
                return actions;
            },
        };
        actions.push(ClientAction::Send { connection: conn.id, message: m });
        conn.wanted_topics = conn.wanted_topics - 1;
        let ghost tv = topic@;
        assoc_insert_exec(&mut conn.pending_topics, nonce, (Request::Unlisten(topic), callback));
        self.connections.push(conn);
        proof {
            assert(self.connections.deep_view() =~= rest.push(conn.deep_view()));
            assert(self.view_of() =~= unlisten_spec(s, tv, callback, nonce@));
            law_client_keeps_distinct(s, Seq::empty(), tv, callback, nonce@, 0, None, -1);
            assert(actions@ =~= seq![ClientAction::<D, T>::Send { connection: s.connections[i as int].id, message: m }]);
        }
        actions
    }
}

/// The token of a LISTEN request: the given one, or the empty token.
pub open spec fn token_or_empty(token: Option<Seq<char>>) -> Seq<char> {
    match token {
        Some(t) => t,
        None => Seq::empty(),
    }
}

impl ClientLoopWorker {
    /// Listens to `topics` with `token` (an empty token where there is none):
    /// the request gets a fresh nonce and the LISTEN message that `twitch_api`
    /// writes for it, and goes on as `listen`.
    pub fn listen_topics<D, T: TokenProvider>(
        &mut self,
        topics: Vec<String>,
        token: Option<String>,
        callback: Option<CallbackId>,
    ) -> (actions: Vec<ClientAction<D, T>>)
        requires
            old(self).wf(),
        ensures
            exists|nonce: Seq<char>, message: Result<String, Arc<serde_json::Error>>|
                #![trigger listen_post(*old(self), *final(self), topics.deep_view(), callback, nonce, message, actions@)]
                {
                    &&& is_nonce(nonce)
                    &&& written(message, listen_request(topics.deep_view(), Some(token_or_empty(token.deep_view())), nonce))
                    &&& listen_post(*old(self), *final(self), topics.deep_view(), callback, nonce, message, actions@)
                },
    {
        let nonce = generate_nonce();
        let auth = Some(match token {
            Some(t) => t,
            None => String::new(),
        });
        let message = match listen_command(&topics, &auth, &nonce) {
            Ok(m) => Ok(m),
            Err(e) => Err(Arc::new(e)),
        };
        let ghost tv = topics.deep_view();
        let ghost nv = nonce@;
        let ghost mv = message;
        let actions = self.listen(topics, callback, nonce, message);
        proof {
            assert(written(mv, listen_request(tv, Some(token_or_empty(token.deep_view())), nv)));
        }
        actions
    }

    /// Stops listening to `topic`: the request gets a fresh nonce and the
    /// UNLISTEN message that `twitch_api` writes for it, and goes on as
    /// `unlisten`.
    pub fn unlisten_topic<D, T: TokenProvider>(
        &mut self,
        topic: String,
        callback: Option<CallbackId>,
    ) -> (actions: Vec<ClientAction<D, T>>)
        requires
            old(self).wf(),
            unlisten_in_range(old(self).view_of(), topic@),
        ensures
            exists|nonce: Seq<char>, message: Result<String, Arc<serde_json::Error>>|
                #![trigger unlisten_post(*old(self), *final(self), topic@, callback, nonce, message, actions@)]
                {
                    &&& is_nonce(nonce)
                    &&& written(message, unlisten_request(seq![topic@], nonce))
                    &&& unlisten_post(*old(self), *final(self), topic@, callback, nonce, message, actions@)
                },
    {
        let nonce = generate_nonce();
        let topics = vec![topic.clone()];
        let message = match unlisten_command(&topics, &nonce) {
            Ok(m) => Ok(m),
            Err(e) => Err(Arc::new(e)),
        };
        proof {
            assert(topics.deep_view() =~= seq![topic@]);
        }
        let ghost nv = nonce@;
        let ghost mv = message;
        let actions = self.unlisten(topic, callback, nonce, message);
        proof {
            assert(written(mv, unlisten_request(seq![topic@], nv)));
        }
        actions
    }
}

/// The messages of Twitch that a connection hands to the loop and that need the
/// connection to be in the pool: answers with a nonce.
pub open spec fn needs_connection<D, T: TokenProvider>(message: ConnectionLoopMessage<D, T>) -> bool {
    match message {
        ConnectionLoopMessage::ServerMessage(Ok(Response::Response(r))) => r.nonce is Some,
        ConnectionLoopMessage::Closed { .. } => true,
        _ => false,
    }
}

impl ClientLoopWorker {
    /// Handles a message of the connection `source`. Twitch's answer to a request
    /// settles it (see `respond_spec`) and answers its callback; every message of
    /// Twitch but a pong goes on to the user. A closed connection leaves the
    /// pool: every waiting request is answered with the cause, and the topics it
    /// listened to are listened to again with fresh tokens.
    pub fn on_incoming_message<D, T: TokenProvider>(
        &mut self,
        source: usize,
        message: ConnectionLoopMessage<D, T>,
    ) -> (actions: Vec<ClientAction<D, T>>)
        requires
            old(self).wf(),
            needs_connection(message) ==> first_index(old(self).view_of().connections, is_connection(source)) >= 0,
        ensures
            final(self).wf(),
            final(self).max_topics_per_connection == old(self).max_topics_per_connection,
            final(self).next_connection_id == old(self).next_connection_id,
            ({
                let s = old(self).view_of();
                let k = first_index(s.connections, is_connection(source));
                match message {
                    ConnectionLoopMessage::ServerMessage(msg) => match msg {
                        Ok(Response::Response(r)) => match r.nonce {
                            Some(n) => {
                                &&& final(self).view_of() == respond_spec(s, source, n@, r.error.deep_view())
                                &&& match assoc_get(s.connections[k].pending, n@) {
                                    Some(p) => match p.1 {
                                        Some(cb) => {
                                            &&& actions@.len() == 2
                                            &&& actions@[0] matches ClientAction::Reply { callback, result }
                                                && callback == cb && reply_matches(result, r.error.deep_view())
                                            &&& actions@[1] == ClientAction::<D, T>::Forward(msg)
                                        },
                                        None => actions@ == seq![ClientAction::<D, T>::Forward(msg)],
                                    },
                                    None => actions@ == seq![ClientAction::<D, T>::Forward(msg)],
                                }
                            },
                            None => final(self).view_of() == s && actions@ == seq![ClientAction::<D, T>::Forward(msg)],
                        },
                        Ok(Response::Pong) => final(self).view_of() == s && actions@.len() == 0,
                        _ => final(self).view_of() == s && actions@ == seq![ClientAction::<D, T>::Forward(msg)],
                    },
                    ConnectionLoopMessage::Open => final(self).view_of() == s && actions@.len() == 0,
                    ConnectionLoopMessage::Closed { cause } => {
                        let c = s.connections[k];
                        let cbs = callbacks(c.pending);
                        let rehydrate: int = if c.active.len() > 0 { 1 } else { 0 };
                        &&& final(self).view_of() == ClientView { connections: s.connections.remove(k), ..s }
                        &&& actions@.len() == cbs.len() + rehydrate + 1
                        &&& forall|j: int| 0 <= j < cbs.len() ==> #[trigger] actions@[j] == (ClientAction::<D, T>::Reply {
                            callback: cbs[j],
                            result: Err(cause),
                        })
                        &&& c.active.len() > 0 ==> (actions@[cbs.len() as int] matches ClientAction::Rehydrate { connection, topics }
                            && connection == source && topics.deep_view() == c.active)
                        &&& actions@.last() == ClientAction::<D, T>::Release { connection: source }
                    },
                }
            }),
    {
        let ghost s = self.view_of();
        let mut actions: Vec<ClientAction<D, T>> = Vec::new();
        match message {
            ConnectionLoopMessage::ServerMessage(msg) => {
                let answer: Option<(String, Option<String>)> = match &msg {
                    Ok(Response::Response(r)) => match &r.nonce {
                        Some(n) => Some((n.clone(), r.error.clone())),
                        None => None,
                    },
                    Ok(Response::Pong) => {
                        return actions;
                    },
                    _ => None,
                };
                if let Some((nonce, error)) = answer {
                    let k = self.position(source).unwrap();
                    proof {
                        lemma_first_index(s.connections, is_connection(source));
                    }
                    let ghost ev = error.deep_view();
                    if let Some((request, callback)) = assoc_remove_exec(&mut self.connections[k].pending_topics, &nonce) {
                        let result: Result<(), ClientError<T>> = match take_failure(error) {
                            Some(e) => Err(ClientError::ListenError(e)),
                            None => {
                                match request {
                                    Request::Listen(topics) => set_insert_all_exec(&mut self.connections[k].active_topics, topics),
                                    Request::Unlisten(topic) => set_remove_exec(&mut self.connections[k].active_topics, &topic),
                                }
                                Ok(())
                            },
                        };
                        if let Some(callback) = callback {
                            actions.push(ClientAction::Reply { callback, result });
                        }
                        proof {
                            assert(self.connections.deep_view() =~= respond_spec(s, source, nonce@, ev).connections);
                            law_client_keeps_distinct(s, Seq::empty(), Seq::empty(), None, nonce@, source, ev, -1);
                            assert(self.view_of() =~= respond_spec(s, source, nonce@, ev));
                        }
                    } else {
                        proof {
                            assert(self.connections.deep_view()[k as int] == s.connections[k as int]);
                            assert(self.connections.deep_view() =~= s.connections);
                        }
                    }
                }
                actions.push(ClientAction::Forward(msg));
                actions
            },
            ConnectionLoopMessage::Open => actions,
            ConnectionLoopMessage::Closed { cause } => {
                let k = self.position(source).unwrap();
                proof {
                    lemma_first_index(s.connections, is_connection(source));
                }
                let connection = self.connections.remove(k);
                proof {
                    assert(self.connections.deep_view() =~= s.connections.remove(k as int));
                    law_client_keeps_distinct(s, Seq::empty(), Seq::empty(), None, Seq::empty(), source, None, k as int);
                    assert(self.view_of() =~= ClientView { connections: s.connections.remove(k as int), ..s });
                }
                let ghost pv = connection.pending_topics.deep_view();
                let mut j: usize = 0;
                proof {
                    assert(pv.take(0) =~= Seq::<(Seq<char>, PendingView)>::empty());
                }
                while j < connection.pending_topics.len()
                    invariant
                        j <= connection.pending_topics@.len(),
                        pv == connection.pending_topics.deep_view(),
                        actions@.len() == callbacks(pv.take(j as int)).len(),
                        forall|i: int|
                            0 <= i < actions@.len() ==> #[trigger] actions@[i] == (ClientAction::<D, T>::Reply {
                                callback: callbacks(pv.take(j as int))[i],
                                result: Err(cause),
                            }),
                    decreases connection.pending_topics@.len() - j,
                {
                    proof {
                        assert(pv.take(j + 1).drop_last() =~= pv.take(j as int));
                    }
                    if let Some(callback) = connection.pending_topics[j].1.1 {
                        actions.push(ClientAction::Reply { callback, result: Err(cause.clone()) });
                    }
                    j += 1;
                }
                proof {
                    assert(pv.take(connection.pending_topics@.len() as int) =~= pv);
                }
                if connection.active_topics.len() > 0 {
                    actions.push(ClientAction::Rehydrate { connection: source, topics: connection.active_topics });
                }
                actions.push(ClientAction::Release { connection: source });
                actions
            },
        }
    }
}

/// `t` cut into consecutive pieces of `m` topics, the last one possibly
/// shorter; `t` itself where it has at most `m` topics.
pub open spec fn pieces(t: Seq<Seq<char>>, m: nat) -> Seq<Seq<Seq<char>>>
    decreases t.len(),
{
    if m == 0 || t.len() <= m {
        seq![t]
    } else {
        seq![t.take(m as int)] + pieces(t.skip(m as int), m)
    }
}

/// Each piece of `ps` with the token `token`.
pub open spec fn with_token(ps: Seq<Seq<Seq<char>>>, token: Option<Seq<char>>) -> Seq<ChunkView> {
    ps.map_values(|p: Seq<Seq<char>>| (p, token))
}

/// The LISTEN commands for one group of topics: a group of more than `m`
/// topics is cut into pieces of `m`, each with the group's token.
pub open spec fn group_commands(g: ChunkView, m: nat) -> Seq<ChunkView> {
    if g.0.len() > m {
        with_token(pieces(g.0, m), g.1)
    } else {
        seq![g]
    }
}

/// The LISTEN commands for all groups, in order.
pub open spec fn listen_many_plan(groups: Seq<ChunkView>, m: nat) -> Seq<ChunkView>
    decreases groups.len(),
{
    if groups.len() == 0 {
        seq![]
    } else {
        listen_many_plan(groups.drop_last(), m) + group_commands(groups.last(), m)
    }
}

/// Cuts the groups of topics that the token provider returned into LISTEN
/// commands of at most `max` topics each (see `listen_many_plan`).
pub fn listen_many_commands(groups: Vec<Chunk>, max: usize) -> (r: Vec<Chunk>)
    requires
        max > 0 || forall|i: int| 0 <= i < groups@.len() ==> (#[trigger] groups@[i]).0@.len() == 0,
    ensures
        r.deep_view() == listen_many_plan(groups.deep_view(), max as nat),
{
    let ghost gv = groups.deep_view();
    let mut r: Vec<Chunk> = Vec::new();
    let mut k: usize = 0;
    proof {
        assert(gv.take(0) =~= Seq::<ChunkView>::empty());
        assert(r.deep_view() =~= Seq::<ChunkView>::empty());
    }
    while k < groups.len()
        invariant
            k <= groups@.len(),
            gv == groups.deep_view(),
            max > 0 || forall|i: int| 0 <= i < groups@.len() ==> (#[trigger] groups@[i]).0@.len() == 0,
            r.deep_view() == listen_many_plan(gv.take(k as int), max as nat),
        decreases groups@.len() - k,
    {
        let ghost g = gv[k as int];
        let ghost before = r.deep_view();
        proof {
            assert(gv.take(k + 1).drop_last() =~= gv.take(k as int));
            assert(g.0.len() == groups@[k as int].0@.len());
        }
        let topics = groups[k].0.clone();
        let token = &groups[k].1;
        proof {
            assert(topics.deep_view() =~= g.0);
        }
        if topics.len() > max {
            let mut rest = topics;
            let ghost mut done: Seq<Seq<Seq<char>>> = seq![];
            while rest.len() > max
                invariant
                    max > 0,
                    done + pieces(rest.deep_view(), max as nat) == pieces(g.0, max as nat),
                    r.deep_view() == before + with_token(done, g.1),
                    token.deep_view() == g.1,
                decreases rest@.len(),
            {
                let ghost rv = rest.deep_view();
                let tail = rest.split_off(max);
                proof {
                    assert(rest.deep_view() =~= rv.take(max as int));
                    assert(tail.deep_view() =~= rv.skip(max as int));
                    assert(done.push(rest.deep_view()) + pieces(tail.deep_view(), max as nat) =~= done + pieces(rv, max as nat));
                }
                let ghost old_r = r.deep_view();
                let piece = (rest, clone_token(token));
                proof {
                    assert(piece.deep_view() == (rv.take(max as int), g.1));
                }
                r.push(piece);
                proof {
                    assert(r.deep_view() =~= old_r.push((rv.take(max as int), g.1)));
                    assert(with_token(done.push(rv.take(max as int)), g.1) =~= with_token(done, g.1).push((rv.take(max as int), g.1)));
                    assert(r.deep_view() =~= before + with_token(done.push(rv.take(max as int)), g.1));
                    done = done.push(rv.take(max as int));
                }
                rest = tail;
            }
            let ghost rv = rest.deep_view();
            let ghost old_r = r.deep_view();
            let piece = (rest, clone_token(token));
            r.push(piece);
            proof {
                assert(r.deep_view() =~= old_r.push((rv, g.1)));
                assert(pieces(rv, max as nat) =~= seq![rv]);
                assert(done.push(rv) =~= pieces(g.0, max as nat));
                assert(with_token(done.push(rv), g.1) =~= with_token(done, g.1).push((rv, g.1)));
                assert(r.deep_view() =~= before + group_commands(g, max as nat));
            }
        } else {
            r.push((topics, clone_token(token)));
            proof {
                assert(r.deep_view() =~= before + group_commands(g, max as nat));
            }
        }
        k += 1;
    }
    proof {
        assert(gv.take(groups@.len() as int) =~= gv);
    }
    r
}

/// No two connections of the pool share an id, and none has the next id.
pub open spec fn ids_fresh(s: ClientView) -> bool {
    &&& forall|i: int, j: int|
        0 <= i < s.connections.len() && 0 <= j < s.connections.len() && i != j ==> s.connections[i].id != s.connections[j].id
    &&& forall|i: int| 0 <= i < s.connections.len() ==> (#[trigger] s.connections[i]).id != s.next_id
}

/// Every connection of the pool knows the pool's limit and is within it.
pub open spec fn within_limit(s: ClientView) -> bool {
    forall|i: int|
        0 <= i < s.connections.len() ==> (#[trigger] s.connections[i]).max == s.max && s.connections[i].wanted <= s.max
}

proof fn lemma_listen_target_last(s: ClientView, topics: Seq<Seq<char>>, callback: Option<CallbackId>, nonce: Seq<char>)
    requires
        ids_fresh(s),
    ensures
        ({
            let s2 = listen_spec(s, topics, callback, nonce);
            let id = listen_target(s, topics.len());
            &&& s2.connections.len() > 0
            &&& first_index(s2.connections, is_connection(id)) == s2.connections.len() - 1
            &&& s2.connections.last().id == id
        }),
{
    let s2 = listen_spec(s, topics, callback, nonce);
    let id = listen_target(s, topics.len());
    let i = first_index(s.connections, handles(topics.len()));
    lemma_first_index(s.connections, handles(topics.len()));
    let last = s2.connections.len() - 1;
    assert forall|j: int| 0 <= j < last implies !is_connection(id)(#[trigger] s2.connections[j]) by {
        if i >= 0 {
            let k = if j < i { j } else { j + 1 };
            assert(s2.connections[j] == s.connections[k]);
        } else {
            assert(s2.connections[j] == s.connections[j]);
        }
    }
    crate::seq_util::lemma_first_index_is(s2.connections, is_connection(id), last);
}

/// Listening to `topics` and then Twitch's successful answer to the request's
/// nonce on the connection it went to make every topic active on that
/// connection.
pub proof fn law_listen_then_success(s: ClientView, topics: Seq<Seq<char>>, callback: Option<CallbackId>, nonce: Seq<char>)
    requires
        ids_fresh(s),
    ensures
        ({
            let s2 = listen_spec(s, topics, callback, nonce);
            let id = listen_target(s, topics.len());
            let s3 = respond_spec(s2, id, nonce, None);
            &&& s3.connections.len() == s2.connections.len()
            &&& s3.connections.last().id == id
            &&& forall|t: Seq<char>| topics.contains(t) ==> s3.connections.last().active.contains(t)
            &&& forall|t: Seq<char>| s2.connections.last().active.contains(t) ==> s3.connections.last().active.contains(t)
        }),
{
    lemma_listen_target_last(s, topics, callback, nonce);
    let s2 = listen_spec(s, topics, callback, nonce);
    let c2 = s2.connections.last();
    crate::seq_util::lemma_assoc_insert_get(
        if first_index(s.connections, handles(topics.len())) >= 0 {
            s.connections[first_index(s.connections, handles(topics.len()))].pending
        } else {
            seq![]
        },
        nonce,
        (RequestView::Listen(topics), callback),
    );
    crate::seq_util::lemma_set_insert_all_contains(c2.active, topics);
}

/// Listening to `topics` and then Twitch's refusal of the request leave the
/// active topics of the connection it went to as they were, and no longer
/// wait for the answer.
pub proof fn law_listen_then_failure(
    s: ClientView,
    topics: Seq<Seq<char>>,
    callback: Option<CallbackId>,
    nonce: Seq<char>,
    error: Seq<char>,
)
    requires
        ids_fresh(s),
        error.len() > 0,
    ensures
        ({
            let s2 = listen_spec(s, topics, callback, nonce);
            let id = listen_target(s, topics.len());
            let s3 = respond_spec(s2, id, nonce, Some(error));
            &&& s3.connections.last().active == s2.connections.last().active
            &&& s3.connections.last().pending == assoc_remove(s2.connections.last().pending, nonce)
        }),
{
    lemma_listen_target_last(s, topics, callback, nonce);
    crate::seq_util::lemma_assoc_insert_get(
        if first_index(s.connections, handles(topics.len())) >= 0 {
            s.connections[first_index(s.connections, handles(topics.len()))].pending
        } else {
            seq![]
        },
        nonce,
        (RequestView::Listen(topics), callback),
    );
}

/// Unlistening from `topic` and then Twitch's successful answer to the
/// request's nonce on the connection that listened to it take the topic off
/// that connection's active topics and keep the others.
pub proof fn law_unlisten_then_success(s: ClientView, topic: Seq<char>, callback: Option<CallbackId>, nonce: Seq<char>)
    requires
        ids_fresh(s),
        first_index(s.connections, listens_to(topic)) >= 0,
    ensures
        ({
            let i = first_index(s.connections, listens_to(topic));
            let s2 = unlisten_spec(s, topic, callback, nonce);
            let s3 = respond_spec(s2, s.connections[i].id, nonce, None);
            &&& s3.connections.len() == s.connections.len()
            &&& s3.connections.last().id == s.connections[i].id
            &&& !s3.connections.last().active.contains(topic)
            &&& forall|t: Seq<char>| t != topic && s.connections[i].active.contains(t) ==> s3.connections.last().active.contains(t)
        }),
{
    let i = first_index(s.connections, listens_to(topic));
    lemma_first_index(s.connections, listens_to(topic));
    let c = s.connections[i];
    let s2 = unlisten_spec(s, topic, callback, nonce);
    let last = s2.connections.len() - 1;
    assert forall|j: int| 0 <= j < last implies !is_connection(c.id)(#[trigger] s2.connections[j]) by {
        let k = if j < i { j } else { j + 1 };
        assert(s2.connections[j] == s.connections[k]);
    }
    crate::seq_util::lemma_first_index_is(s2.connections, is_connection(c.id), last);
    crate::seq_util::lemma_assoc_insert_get(c.pending, nonce, (RequestView::Unlisten(topic), callback));
    lemma_set_remove(c.active, topic);
}

/// Closing a connection answers the callback of every waiting request,
/// whatever it asks for, and no other callback: the callbacks answered are
/// exactly those of the waiting requests that have one, at most one per
/// request.
pub proof fn law_closing_answers_every_request(pending: Seq<(Seq<char>, PendingView)>)
    ensures
        forall|i: int|
            0 <= i < pending.len() && (#[trigger] pending[i]).1.1 is Some ==> callbacks(pending).contains(pending[i].1.1->0),
        forall|c: CallbackId| callbacks(pending).contains(c) ==> exists|i: int| 0 <= i < pending.len() && (#[trigger] pending[i]).1.1 == Some(c),
        callbacks(pending).len() <= pending.len(),
    decreases pending.len(),
{
    if pending.len() > 0 {
        let d = pending.drop_last();
        law_closing_answers_every_request(d);
        let r = callbacks(d);
        let l = pending.last();
        assert forall|i: int| 0 <= i < pending.len() && (#[trigger] pending[i]).1.1 is Some implies callbacks(pending).contains(pending[i].1.1->0) by {
            if i < pending.len() - 1 {
                assert(pending[i] == d[i]);
                let j = choose|j: int| 0 <= j < r.len() && r[j] == d[i].1.1->0;
                if l.1.1 is Some {
                    assert(r.push(l.1.1->0)[j] == r[j]);
                }
            } else {
                assert(r.push(l.1.1->0)[r.len() as int] == l.1.1->0);
            }
        }
        assert forall|c: CallbackId| callbacks(pending).contains(c) implies exists|i: int| 0 <= i < pending.len() && (#[trigger] pending[i]).1.1 == Some(c) by {
            let j = choose|j: int| 0 <= j < callbacks(pending).len() && callbacks(pending)[j] == c;
            if j < r.len() {
                if l.1.1 is Some {
                    assert(r.push(l.1.1->0)[j] == r[j]);
                }
                assert(r.contains(c));
                let i = choose|i: int| 0 <= i < d.len() && (#[trigger] d[i]).1.1 == Some(c);
                assert(pending[i] == d[i]);
            } else {
                assert(pending[pending.len() - 1] == l);
            }
        }
    }
}

/// A refused answer (a non-empty error) changes no active topic, whatever the
/// request asked for: the request stops waiting, and nothing else changes.
pub proof fn law_refused_answer_keeps_active_topics(s: ClientView, id: usize, nonce: Seq<char>, error: Seq<char>)
    requires
        first_index(s.connections, is_connection(id)) >= 0,
        error.len() > 0,
    ensures
        ({
            let k = first_index(s.connections, is_connection(id));
            let s2 = respond_spec(s, id, nonce, Some(error));
            &&& s2.next_id == s.next_id
            &&& s2.connections.len() == s.connections.len()
            &&& forall|j: int| 0 <= j < s.connections.len() && j != k ==> s2.connections[j] == s.connections[j]
            &&& s2.connections[k].active == s.connections[k].active
            &&& s2.connections[k].wanted == s.connections[k].wanted
            &&& s2.connections[k].id == s.connections[k].id
            &&& s2.connections[k].pending == assoc_remove(s.connections[k].pending, nonce)
        }),
{
    let k = first_index(s.connections, is_connection(id));
    lemma_first_index(s.connections, is_connection(id));
    let c = s.connections[k];
    if assoc_get(c.pending, nonce) is None {
        lemma_first_index(c.pending, crate::seq_util::has_key::<Seq<char>, PendingView>(nonce));
    }
}

proof fn lemma_pieces_within(t: Seq<Seq<char>>, m: nat)
    ensures
        forall|k: int, x: Seq<char>| 0 <= k < pieces(t, m).len() && #[trigger] pieces(t, m)[k].contains(x) ==> t.contains(x),
    decreases t.len(),
{
    if !(m == 0 || t.len() <= m) {
        let rest = t.skip(m as int);
        lemma_pieces_within(rest, m);
        let p = pieces(t, m);
        let pr = pieces(rest, m);
        assert(p == seq![t.take(m as int)] + pr);
        assert forall|k: int, x: Seq<char>| 0 <= k < p.len() && #[trigger] p[k].contains(x) implies t.contains(x) by {
            if k == 0 {
                let i = choose|i: int| 0 <= i < t.take(m as int).len() && t.take(m as int)[i] == x;
                assert(t[i] == x);
            } else {
                assert(p[k] == pr[k - 1]);
                assert(rest.contains(x));
                let i = choose|i: int| 0 <= i < rest.len() && rest[i] == x;
                assert(t[i + m] == x);
            }
        }
    }
}

/// Every LISTEN command that `listen_many` sends carries the token of a group
/// that holds all its topics, and a group of at most `m` topics goes out whole,
/// with its token, as one command.
pub proof fn law_listen_many_keeps_tokens(groups: Seq<ChunkView>, m: nat)
    ensures
        forall|k: int|
            0 <= k < listen_many_plan(groups, m).len() ==> exists|g: int| 0 <= g < groups.len()
                && (#[trigger] listen_many_plan(groups, m)[k]).1 == groups[g].1
                && forall|t: Seq<char>| listen_many_plan(groups, m)[k].0.contains(t) ==> groups[g].0.contains(t),
        forall|g: ChunkView| g.0.len() <= m ==> #[trigger] listen_many_plan(seq![g], m) == seq![g],
    decreases groups.len(),
{
    assert forall|g: ChunkView| g.0.len() <= m implies #[trigger] listen_many_plan(seq![g], m) == seq![g] by {
        let e = Seq::<ChunkView>::empty();
        assert(seq![g].drop_last() =~= e);
        assert(listen_many_plan(e, m) == e);
        assert(listen_many_plan(seq![g], m) =~= e + group_commands(g, m));
    }
    if groups.len() > 0 {
        let d = groups.drop_last();
        let c = groups.last();
        law_listen_many_keeps_tokens(d, m);
        let a = listen_many_plan(d, m);
        let b = group_commands(c, m);
        let plan = listen_many_plan(groups, m);
        assert(plan == a + b);
        lemma_pieces_within(c.0, m);
        assert forall|k: int| 0 <= k < plan.len() implies exists|g: int| 0 <= g < groups.len()
            && (#[trigger] plan[k]).1 == groups[g].1 && forall|t: Seq<char>| plan[k].0.contains(t) ==> groups[g].0.contains(t) by {
            if k < a.len() {
                assert(plan[k] == a[k]);
                let g = choose|g: int| 0 <= g < d.len() && a[k].1 == d[g].1
                    && forall|t: Seq<char>| a[k].0.contains(t) ==> d[g].0.contains(t);
                assert(groups[g] == d[g]);
            } else {
                let kb = k - a.len();
                assert(plan[k] == b[kb]);
                let g = groups.len() - 1;
                assert(groups[g] == c);
                if c.0.len() > m {
                    assert(b[kb] == (pieces(c.0, m)[kb], c.1));
                }
            }
        }
    }
}

/// A LISTEN request counts its topics as wanted on the connection it goes to
/// (the first that can handle them, or a new one, moved to the end of the pool)
/// and waits there under its nonce; an UNLISTEN request counts one topic less on
/// the first connection that listens to the topic and waits there, and where no
/// connection listens to it the pool stays as it is.
pub proof fn law_requests_count_wanted_topics(
    s: ClientView,
    topics: Seq<Seq<char>>,
    topic: Seq<char>,
    callback: Option<CallbackId>,
    nonce: Seq<char>,
)
    ensures
        ({
            let i = first_index(s.connections, handles(topics.len()));
            let l = listen_spec(s, topics, callback, nonce);
            let before: nat = if i >= 0 { s.connections[i].wanted } else { 0 };
            &&& l.connections.len() == s.connections.len() + (if i >= 0 { 0int } else { 1int })
            &&& l.connections.last().id == listen_target(s, topics.len())
            &&& l.connections.last().wanted == before + topics.len()
            &&& assoc_get(l.connections.last().pending, nonce) == Some((RequestView::Listen(topics), callback))
        }),
        ({
            let u = first_index(s.connections, listens_to(topic));
            let ul = unlisten_spec(s, topic, callback, nonce);
            &&& u < 0 ==> ul == s
            &&& u >= 0 ==> {
                &&& ul.connections.len() == s.connections.len()
                &&& ul.connections.last().id == s.connections[u].id
                &&& ul.connections.last().wanted == s.connections[u].wanted - 1 || s.connections[u].wanted == 0
                &&& assoc_get(ul.connections.last().pending, nonce) == Some((RequestView::Unlisten(topic), callback))
            }
        }),
{
    let i = first_index(s.connections, handles(topics.len()));
    lemma_first_index(s.connections, handles(topics.len()));
    let c = if i >= 0 { s.connections[i] } else { fresh_connection(s.next_id, s.max) };
    crate::seq_util::lemma_assoc_insert_get(c.pending, nonce, (RequestView::Listen(topics), callback));
    let u = first_index(s.connections, listens_to(topic));
    lemma_first_index(s.connections, listens_to(topic));
    if u >= 0 {
        crate::seq_util::lemma_assoc_insert_get(s.connections[u].pending, nonce, (RequestView::Unlisten(topic), callback));
    }
}

/// Listening to at most the pool's limit of topics keeps every connection
/// within the limit.
pub proof fn law_listen_keeps_limit(s: ClientView, topics: Seq<Seq<char>>, callback: Option<CallbackId>, nonce: Seq<char>)
    requires
        within_limit(s),
        topics.len() <= s.max,
    ensures
        within_limit(listen_spec(s, topics, callback, nonce)),
{
    let i = first_index(s.connections, handles(topics.len()));
    lemma_first_index(s.connections, handles(topics.len()));
    let s2 = listen_spec(s, topics, callback, nonce);
    assert forall|j: int| 0 <= j < s2.connections.len() implies (#[trigger] s2.connections[j]).max == s2.max
        && s2.connections[j].wanted <= s2.max by {
        if j < s2.connections.len() - 1 {
            if i >= 0 {
                let k = if j < i { j } else { j + 1 };
                assert(s2.connections[j] == s.connections[k]);
            } else {
                assert(s2.connections[j] == s.connections[j]);
            }
        }
    }
}

proof fn lemma_move_to_end_distinct(s: ClientView, i: int)
    requires
        pool_distinct(s),
        0 <= i < s.connections.len(),
    ensures
        pool_distinct(ClientView { connections: s.connections.remove(i).push(s.connections[i]), ..s }),
{
    let cs = s.connections;
    let r = cs.remove(i).push(cs[i]);
    assert forall|j: int| 0 <= j < r.len() implies keys_distinct((#[trigger] r[j]).pending) && r[j].active.no_duplicates() by {
        let k = if j == r.len() - 1 { i } else if j >= i { j + 1 } else { j };
        assert(r[j] == cs[k]);
    }
}

/// Each connection's waiting requests have distinct nonces, and its active
/// topics are distinct.
pub open spec fn pool_distinct(s: ClientView) -> bool {
    forall|i: int|
        0 <= i < s.connections.len() ==> keys_distinct((#[trigger] s.connections[i]).pending)
            && s.connections[i].active.no_duplicates()
}

/// Listening, unlistening, Twitch's answers and the removal of a closed
/// connection keep each connection's waiting requests under distinct nonces and
/// its active topics distinct, whatever nonces are drawn.
pub proof fn law_client_keeps_distinct(
    s: ClientView,
    topics: Seq<Seq<char>>,
    topic: Seq<char>,
    callback: Option<CallbackId>,
    nonce: Seq<char>,
    id: usize,
    error: Option<Seq<char>>,
    closed: int,
)
    requires
        pool_distinct(s),
    ensures
        pool_distinct(listen_spec(s, topics, callback, nonce)),
        pool_distinct(unlisten_spec(s, topic, callback, nonce)),
        first_index(s.connections, is_connection(id)) >= 0 ==> pool_distinct(respond_spec(s, id, nonce, error)),
        0 <= closed < s.connections.len() ==> pool_distinct(ClientView { connections: s.connections.remove(closed), ..s }),
{
    let cs = s.connections;
    let i = first_index(cs, handles(topics.len()));
    lemma_first_index(cs, handles(topics.len()));
    let c = if i >= 0 { cs[i] } else { fresh_connection(s.next_id, s.max) };
    lemma_assoc_insert_distinct(c.pending, nonce, (RequestView::Listen(topics), callback));
    let l = listen_spec(s, topics, callback, nonce).connections;
    assert forall|j: int| 0 <= j < l.len() implies keys_distinct((#[trigger] l[j]).pending) && l[j].active.no_duplicates() by {
        if j < l.len() - 1 {
            let k = if i >= 0 && j >= i { j + 1 } else { j };
            assert(l[j] == cs[k]);
        }
    }
    let u = first_index(cs, listens_to(topic));
    lemma_first_index(cs, listens_to(topic));
    if u >= 0 {
        lemma_assoc_insert_distinct(cs[u].pending, nonce, (RequestView::Unlisten(topic), callback));
        let ul = unlisten_spec(s, topic, callback, nonce).connections;
        assert forall|j: int| 0 <= j < ul.len() implies keys_distinct((#[trigger] ul[j]).pending) && ul[j].active.no_duplicates() by {
            if j < ul.len() - 1 {
                let k = if j >= u { j + 1 } else { j };
                assert(ul[j] == cs[k]);
            }
        }
    }
    let k = first_index(cs, is_connection(id));
    lemma_first_index(cs, is_connection(id));
    if k >= 0 {
        lemma_assoc_remove_distinct(cs[k].pending, nonce);
        if let Some(p) = assoc_get(cs[k].pending, nonce) {
            match p.0 {
                RequestView::Listen(t) => lemma_set_insert_all_distinct(cs[k].active, t),
                RequestView::Unlisten(t) => lemma_set_remove(cs[k].active, t),
            }
        }
        let rl = respond_spec(s, id, nonce, error).connections;
        assert forall|j: int| 0 <= j < rl.len() implies keys_distinct((#[trigger] rl[j]).pending) && rl[j].active.no_duplicates() by {
            if j != k {
                assert(rl[j] == cs[j]);
            }
        }
    }
    if 0 <= closed < cs.len() {
        let r = cs.remove(closed);
        assert forall|j: int| 0 <= j < r.len() implies keys_distinct((#[trigger] r[j]).pending) && r[j].active.no_duplicates() by {
            let k2 = if j >= closed { j + 1 } else { j };
            assert(r[j] == cs[k2]);
        }
    }
}

/// The connections' ids are distinct and below the next id.
pub open spec fn ids_below(s: ClientView) -> bool {
    &&& forall|i: int| 0 <= i < s.connections.len() ==> (#[trigger] s.connections[i]).id < s.next_id
    &&& forall|i: int, j: int|
        0 <= i < s.connections.len() && 0 <= j < s.connections.len() && i != j ==> s.connections[i].id != s.connections[j].id
}

/// A pool whose ids are distinct and below the next id never gives the next id
/// to one of its connections; listening, unlistening, Twitch's answers and the
/// removal of a closed connection keep the ids so, as long as a new
/// connection's id stays below `usize::MAX` (there the next id wraps around to
/// 0).
pub proof fn law_client_ids_stay_fresh(
    s: ClientView,
    topics: Seq<Seq<char>>,
    topic: Seq<char>,
    callback: Option<CallbackId>,
    nonce: Seq<char>,
    id: usize,
    error: Option<Seq<char>>,
    closed: int,
)
    requires
        ids_below(s),
    ensures
        ids_fresh(s),
        s.next_id < usize::MAX ==> ids_below(listen_spec(s, topics, callback, nonce)),
        ids_below(unlisten_spec(s, topic, callback, nonce)),
        first_index(s.connections, is_connection(id)) >= 0 ==> ids_below(respond_spec(s, id, nonce, error)),
        0 <= closed < s.connections.len() ==> ids_below(ClientView { connections: s.connections.remove(closed), ..s }),
{
    let cs = s.connections;
    let i = first_index(cs, handles(topics.len()));
    lemma_first_index(cs, handles(topics.len()));
    if s.next_id < usize::MAX {
        let s2 = listen_spec(s, topics, callback, nonce);
        let l = s2.connections;
        assert forall|a: int| 0 <= a < l.len() - 1 implies (#[trigger] l[a]).id == cs[if i >= 0 && a >= i { a + 1 } else { a }].id by {}
        assert forall|a: int| 0 <= a < l.len() implies (#[trigger] l[a]).id < s2.next_id by {
            if a < l.len() - 1 {
                assert(l[a].id == cs[if i >= 0 && a >= i { a + 1 } else { a }].id);
            }
        }
        assert forall|a: int, b: int| 0 <= a < l.len() && 0 <= b < l.len() && a != b implies l[a].id != l[b].id by {
            let ka = if i >= 0 && a >= i { a + 1 } else { a };
            let kb = if i >= 0 && b >= i { b + 1 } else { b };
            if a < l.len() - 1 {
                assert(l[a].id == cs[ka].id);
            }
            if b < l.len() - 1 {
                assert(l[b].id == cs[kb].id);
            }
        }
    }
    let u = first_index(cs, listens_to(topic));
    lemma_first_index(cs, listens_to(topic));
    if u >= 0 {
        let ul = unlisten_spec(s, topic, callback, nonce).connections;
        assert forall|a: int| 0 <= a < ul.len() implies (#[trigger] ul[a]).id == cs[if a == ul.len() - 1 { u } else if a >= u { a + 1 } else { a }].id by {}
        assert forall|a: int, b: int| 0 <= a < ul.len() && 0 <= b < ul.len() && a != b implies ul[a].id != ul[b].id by {
            assert(ul[a].id == cs[if a == ul.len() - 1 { u } else if a >= u { a + 1 } else { a }].id);
            assert(ul[b].id == cs[if b == ul.len() - 1 { u } else if b >= u { b + 1 } else { b }].id);
        }
    }
    let k = first_index(cs, is_connection(id));
    lemma_first_index(cs, is_connection(id));
    if k >= 0 {
        let rl = respond_spec(s, id, nonce, error).connections;
        assert forall|a: int| 0 <= a < rl.len() implies (#[trigger] rl[a]).id == cs[a].id by {}
    }
    if 0 <= closed < cs.len() {
        let r = cs.remove(closed);
        assert forall|a: int| 0 <= a < r.len() implies (#[trigger] r[a]).id == cs[if a >= closed { a + 1 } else { a }].id by {}
        assert forall|a: int, b: int| 0 <= a < r.len() && 0 <= b < r.len() && a != b implies r[a].id != r[b].id by {
            assert(r[a].id == cs[if a >= closed { a + 1 } else { a }].id);
            assert(r[b].id == cs[if b >= closed { b + 1 } else { b }].id);
        }
    }
}

/// The LISTEN commands of `listen_many_plan` hold the topics of the groups, in
/// order, each with its group's token, and at most `m` topics each where `m` is
/// not zero.
pub proof fn law_listen_many_plan(groups: Seq<ChunkView>, m: nat)
    requires
        m > 0,
    ensures
        flatten_chunks(listen_many_plan(groups, m)) == flatten_chunks(groups),
        forall|i: int| 0 <= i < listen_many_plan(groups, m).len() ==> (#[trigger] listen_many_plan(groups, m)[i]).0.len() <= m,
    decreases groups.len(),
{
    if groups.len() > 0 {
        let d = groups.drop_last();
        let g = groups.last();
        law_listen_many_plan(d, m);
        let a = listen_many_plan(d, m);
        let b = group_commands(g, m);
        lemma_group_commands(g, m);
        lemma_flatten_chunks_append(a, b);
        assert forall|i: int| 0 <= i < (a + b).len() implies (#[trigger] (a + b)[i]).0.len() <= m by {
            if i < a.len() {
                assert((a + b)[i] == a[i]);
            } else {
                assert((a + b)[i] == b[i - a.len()]);
            }
        }
    }
}

proof fn lemma_pieces(t: Seq<Seq<char>>, m: nat, tok: Option<Seq<char>>)
    requires
        m > 0,
    ensures
        flatten_chunks(with_token(pieces(t, m), tok)) == t,
        forall|i: int| 0 <= i < pieces(t, m).len() ==> (#[trigger] pieces(t, m)[i]).len() <= m,
    decreases t.len(),
{
    if t.len() <= m {
        assert(with_token(pieces(t, m), tok) =~= seq![(t, tok)]);
        lemma_flatten_single((t, tok));
    } else {
        let rest = t.skip(m as int);
        lemma_pieces(rest, m, tok);
        let w = with_token(pieces(t, m), tok);
        let wr = with_token(pieces(rest, m), tok);
        assert(w =~= seq![(t.take(m as int), tok)] + wr);
        lemma_flatten_chunks_append(seq![(t.take(m as int), tok)], wr);
        lemma_flatten_single((t.take(m as int), tok));
        assert(t.take(m as int) + rest =~= t);
        assert forall|i: int| 0 <= i < pieces(t, m).len() implies (#[trigger] pieces(t, m)[i]).len() <= m by {
            if i > 0 {
                assert(pieces(t, m)[i] == pieces(rest, m)[i - 1]);
            }
        }
    }
}

proof fn lemma_group_commands(g: ChunkView, m: nat)
    requires
        m > 0,
    ensures
        flatten_chunks(group_commands(g, m)) == g.0,
        forall|i: int| 0 <= i < group_commands(g, m).len() ==> (#[trigger] group_commands(g, m)[i]).0.len() <= m,
{
    if g.0.len() > m {
        lemma_pieces(g.0, m, g.1);
    } else {
        lemma_flatten_single(g);
    }
}

impl ClientLoopWorker {
    /// Whether the connection `id` is in the pool.
    pub fn has_connection(&self, id: usize) -> (r: bool)
        ensures
            r == (first_index(self.view_of().connections, is_connection(id)) >= 0),
    {
        self.position(id).is_some()
    }
}

} // verus!
