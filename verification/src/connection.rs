//! The connection loop: the state machine of one connection, from its
//! initialization through its open life to its closing.
use vstd::prelude::*;
use vstd::string::StringExecFns;

use std::sync::Arc;

use crate::client::{CallbackId, ConnectionLoopMessage};
use crate::error::ClientError;
use crate::message::ParseError;
use crate::response::Response;
use crate::token_provider::TokenProvider;
use crate::wire::{json_message_shape, parse_json_message, shape_of, MessageShape};
use twitch_api::pubsub::TopicData;

verus! {

/// The text of a ping.
pub open spec fn ping_text() -> Seq<char> {
    "{\"type\":\"PING\"}"@
}

/// The text of a ping.
pub fn ping_message() -> (r: String)
    ensures
        r@ == ping_text(),
{
    String::from_str("{\"type\":\"PING\"}")
}

/// Seconds between two pings of an open connection.
pub const PING_EVERY_SECS: u64 = 60;

/// Seconds after a ping at which the pong must have come.
pub const CHECK_PONG_AFTER_SECS: u64 = 5;

/// A message waiting to be sent, with the callback to answer once it is.
pub type QueuedMessage = (String, Option<CallbackId>);

/// The state of a connection whose transport is being set up: the messages to
/// send once it is.
#[derive(Debug)]
pub struct ConnectionLoopInitializingState {
    pub commands_queue: Vec<QueuedMessage>,
}

/// The state of an open connection: whether a pong came since the last ping.
#[derive(Debug)]
pub struct ConnectionLoopOpenState {
    pub pong_received: bool,
}

/// The state of a closed connection, with the cause.
#[derive(Debug)]
pub struct ConnectionLoopClosedState<T: TokenProvider> {
    pub cause: ClientError<T>,
}

/// The state of a connection.
#[derive(Debug)]
pub enum ConnectionLoopState<T: TokenProvider> {
    Initializing(ConnectionLoopInitializingState),
    Open(ConnectionLoopOpenState),
    Closed(ConnectionLoopClosedState<T>),
}

/// The view of a connection's state.
pub enum StateView<T: TokenProvider> {
    Initializing(Seq<QueuedMessage>),
    Open(bool),
    Closed(ClientError<T>),
}

impl<T: TokenProvider> ConnectionLoopState<T> {
    /// The view of the state.
    pub open spec fn view_of(&self) -> StateView<T> {
        match self {
            ConnectionLoopState::Initializing(s) => StateView::Initializing(s.commands_queue@),
            ConnectionLoopState::Open(s) => StateView::Open(s.pong_received),
            ConnectionLoopState::Closed(s) => StateView::Closed(s.cause),
        }
    }
}

/// An incoming item of the transport: the end of the stream, a transport error,
/// or a message of Twitch (or one that could not be parsed).
pub type Incoming<D, T> = Option<Result<Result<Response<D>, ParseError>, ClientError<T>>>;

/// A frame of the transport's stream, as far as the connection reads it: its
/// text, or that it is not text.
#[derive(Debug)]
pub enum Frame {
    Text(String),
    Other,
}

/// What the transport's stream hands the connection loop for one of its items:
/// the end of the stream as it is; a transport error as `ClientError::WsError`;
/// the text of a frame parsed as Twitch's message (see `parse_json_message`),
/// or, where it does not parse, the text with the parser's error. A frame that
/// is not text, or a message of a kind that the client does not know, gives
/// nothing (`None`).
pub fn transport_item<T: TokenProvider>(
    item: Option<Result<Frame, async_tungstenite::tungstenite::Error>>,
) -> (r: Option<Incoming<TopicData, T>>)
    ensures
        match item {
            None => r == Some(None::<Result<Result<Response<TopicData>, ParseError>, ClientError<T>>>),
            Some(Err(e)) => r matches Some(Some(Err(ClientError::WsError(a)))) && *a == e,
            Some(Ok(Frame::Other)) => r is None,
            Some(Ok(Frame::Text(t))) => match json_message_shape(t@) {
                None => r matches Some(Some(Ok(Err(p)))) && p.raw == t,
                Some(MessageShape::Other) => r is None,
                Some(shape) => r matches Some(Some(Ok(Ok(m)))) && shape_of(Some(m)) == shape,
            },
        },
{
    match item {
        None => Some(None),
        Some(Err(e)) => Some(Some(Err(ClientError::WsError(Arc::new(e))))),
        Some(Ok(Frame::Other)) => None,
        Some(Ok(Frame::Text(raw))) => match parse_json_message(&raw) {
            Err(error) => Some(Some(Ok(Err(ParseError { raw, error })))),
            Ok(Some(m)) => Some(Some(Ok(Ok(m)))),
            Ok(None) => None,
        },
    }
}

/// A command to the connection loop.
#[derive(Debug)]
pub enum ConnectionLoopCommand<D, T: TokenProvider> {
    /// Send a message, and answer the callback once it is sent.
    SendMessage { message: String, callback: Option<CallbackId> },
    /// The transport was set up, or failed to be.
    WsInitFinished(Result<(), ClientError<T>>),
    /// Time to send a ping.
    SendPing,
    /// Time to check that the pong came.
    CheckPong,
    /// An item of the transport's stream.
    IncomingMessage(Incoming<D, T>),
    /// Sending on the transport failed.
    SendErr(Arc<async_tungstenite::tungstenite::Error>),
}

/// What the connection loop asks its caller to do.
#[derive(Debug)]
pub enum ConnectionAction<D, T: TokenProvider> {
    /// Answer the callback `callback` with `result`.
    Reply { callback: CallbackId, result: Result<(), ClientError<T>> },
    /// Tell the client loop.
    Notify(ConnectionLoopMessage<D, T>),
    /// Hand `message` to the transport's writer, which answers `callback`.
    Write { message: String, callback: Option<CallbackId> },
    /// Start the transport's reader, writer and pinger.
    StartTransport,
    /// Stop the transport's reader and pinger.
    StopTransport,
}

/// The answers to the callbacks of `queue`, in order, with `cause`.
pub open spec fn fail_queue<D, T: TokenProvider>(queue: Seq<QueuedMessage>, cause: ClientError<T>) -> Seq<ConnectionAction<D, T>>
    decreases queue.len(),
{
    if queue.len() == 0 {
        seq![]
    } else {
        let rest = fail_queue(queue.drop_last(), cause);
        match queue.last().1 {
            Some(cb) => rest.push(ConnectionAction::Reply { callback: cb, result: Err(cause) }),
            None => rest,
        }
    }
}

/// The writes of the messages of `queue`, in order.
pub open spec fn write_queue<D, T: TokenProvider>(queue: Seq<QueuedMessage>) -> Seq<ConnectionAction<D, T>>
    decreases queue.len(),
{
    if queue.len() == 0 {
        seq![]
    } else {
        write_queue(queue.drop_last()).push(
            ConnectionAction::Write { message: queue.last().0, callback: queue.last().1 },
        )
    }
}

/// What a message to send does.
pub open spec fn send_message_spec<D, T: TokenProvider>(s: StateView<T>, message: String, callback: Option<CallbackId>) -> (StateView<T>, Seq<ConnectionAction<D, T>>) {
    match s {
        StateView::Initializing(q) => (StateView::Initializing(q.push((message, callback))), seq![]),
        StateView::Open(p) => (StateView::Open(p), seq![ConnectionAction::Write { message, callback }]),
        StateView::Closed(cause) => (
            StateView::Closed(cause),
            match callback {
                Some(cb) => seq![ConnectionAction::Reply { callback: cb, result: Err(cause) }],
                None => seq![],
            },
        ),
    }
}

/// Closing a connection that was being set up: every queued callback gets the
/// cause, and the client loop hears of it.
pub open spec fn close_initializing<D, T: TokenProvider>(q: Seq<QueuedMessage>, cause: ClientError<T>) -> (StateView<T>, Seq<ConnectionAction<D, T>>) {
    (
        StateView::Closed(cause),
        fail_queue(q, cause).push(ConnectionAction::Notify(ConnectionLoopMessage::Closed { cause })),
    )
}

/// Closing an open connection: the client loop hears of it, and the transport's
/// tasks stop.
pub open spec fn close_open<D, T: TokenProvider>(cause: ClientError<T>) -> (StateView<T>, Seq<ConnectionAction<D, T>>) {
    (
        StateView::Closed(cause),
        seq![ConnectionAction::Notify(ConnectionLoopMessage::Closed { cause }), ConnectionAction::StopTransport],
    )
}

/// What the end of the transport's setup does.
pub open spec fn init_finished_spec<D, T: TokenProvider>(s: StateView<T>, res: Result<(), ClientError<T>>) -> (StateView<T>, Seq<ConnectionAction<D, T>>) {
    match s {
        StateView::Initializing(q) => match res {
            Err(e) => close_initializing(q, e),
            Ok(_) => (
                StateView::Open(false),
                seq![ConnectionAction::StartTransport, ConnectionAction::Notify(ConnectionLoopMessage::Open)]
                    + write_queue(q),
            ),
        },
        _ => (s, seq![]),
    }
}

/// What a failed send does.
pub open spec fn send_error_spec<D, T: TokenProvider>(s: StateView<T>, error: Arc<async_tungstenite::tungstenite::Error>) -> (StateView<T>, Seq<ConnectionAction<D, T>>) {
    match s {
        StateView::Initializing(q) => close_initializing(q, ClientError::OutgoingError(error)),
        StateView::Open(_) => close_open(ClientError::OutgoingError(error)),
        StateView::Closed(_) => (s, seq![]),
    }
}

/// What an item of the transport's stream does to an open connection: the end
/// of the stream or an error closes it; a message of Twitch goes to the client
/// loop, a pong is noted, and a request to reconnect closes it.
pub open spec fn incoming_spec<D, T: TokenProvider>(s: StateView<T>, item: Incoming<D, T>) -> (StateView<T>, Seq<ConnectionAction<D, T>>) {
    match s {
        StateView::Open(pong) => match item {
            None => close_open(ClientError::RemoteUnexpectedlyClosedConnection),
            Some(Err(e)) => close_open(e),
            Some(Ok(msg)) => {
                let notify = ConnectionAction::Notify(ConnectionLoopMessage::ServerMessage(msg));
                match msg {
                    Ok(Response::Reconnect) => {
                        let c = close_open::<D, T>(ClientError::ReconnectMessage);
                        (c.0, seq![notify] + c.1)
                    },
                    Ok(Response::Pong) => (StateView::Open(true), seq![notify]),
                    _ => (StateView::Open(pong), seq![notify]),
                }
            },
        },
        _ => (s, seq![]),
    }
}

/// What a ping does to an open connection: it waits for a new pong and sends a
/// ping.
pub open spec fn ping_spec<D, T: TokenProvider>(s: StateView<T>, ping: String) -> (StateView<T>, Seq<ConnectionAction<D, T>>) {
    match s {
        StateView::Open(_) => (StateView::Open(false), seq![ConnectionAction::Write { message: ping, callback: None }]),
        _ => (s, seq![]),
    }
}

/// What the check for a pong does to an open connection: without a pong since
/// the last ping, it closes.
pub open spec fn check_pong_spec<D, T: TokenProvider>(s: StateView<T>) -> (StateView<T>, Seq<ConnectionAction<D, T>>) {
    match s {
        StateView::Open(pong) => if pong {
            (s, seq![])
        } else {
            close_open(ClientError::PingTimeout)
        },
        _ => (s, seq![]),
    }
}

/// Answers the callbacks of `queue` with `cause`, in order.
fn fail_queue_exec<D, T: TokenProvider>(queue: &Vec<QueuedMessage>, cause: &ClientError<T>, actions: &mut Vec<ConnectionAction<D, T>>)
    ensures
        final(actions)@ == old(actions)@ + fail_queue::<D, T>(queue@, *cause),
{
    let ghost a0 = actions@;
    let mut i: usize = 0;
    proof {
        assert(queue@.take(0) =~= Seq::<QueuedMessage>::empty());
        assert(actions@ =~= a0 + fail_queue::<D, T>(queue@.take(0), *cause));
    }
    while i < queue.len()
        invariant
            i <= queue@.len(),
            actions@ == a0 + fail_queue::<D, T>(queue@.take(i as int), *cause),
        decreases queue@.len() - i,
    {
        proof {
            assert(queue@.take(i + 1).drop_last() =~= queue@.take(i as int));
        }
        if let Some(cb) = queue[i].1 {
            actions.push(ConnectionAction::Reply { callback: cb, result: Err(cause.clone()) });
        }
        proof {
            assert(actions@ =~= a0 + fail_queue::<D, T>(queue@.take(i + 1), *cause));
        }
        i += 1;
    }
    proof {
        assert(queue@.take(queue@.len() as int) =~= queue@);
    }
}

/// Writes the messages of `queue`, in order.
fn write_queue_exec<D, T: TokenProvider>(queue: &Vec<QueuedMessage>, actions: &mut Vec<ConnectionAction<D, T>>)
    ensures
        final(actions)@ == old(actions)@ + write_queue::<D, T>(queue@),
{
    let ghost a0 = actions@;
    let mut i: usize = 0;
    proof {
        assert(queue@.take(0) =~= Seq::<QueuedMessage>::empty());
        assert(actions@ =~= a0 + write_queue::<D, T>(queue@.take(0)));
    }
    while i < queue.len()
        invariant
            i <= queue@.len(),
            actions@ == a0 + write_queue::<D, T>(queue@.take(i as int)),
        decreases queue@.len() - i,
    {
        proof {
            assert(queue@.take(i + 1).drop_last() =~= queue@.take(i as int));
        }
        actions.push(ConnectionAction::Write { message: queue[i].0.clone(), callback: queue[i].1 });
        proof {
            assert(actions@ =~= a0 + write_queue::<D, T>(queue@.take(i + 1)));
        }
        i += 1;
    }
    proof {
        assert(queue@.take(queue@.len() as int) =~= queue@);
    }
}

impl ConnectionLoopOpenState {
    /// Closes the open connection with `cause`.
    fn transition_to_closed<D, T: TokenProvider>(self, cause: ClientError<T>) -> (r: (ConnectionLoopState<T>, Vec<ConnectionAction<D, T>>))
        ensures
            (r.0.view_of(), r.1@) == close_open::<D, T>(cause),
    {
        let mut actions = Vec::new();
        actions.push(ConnectionAction::Notify(ConnectionLoopMessage::Closed { cause: cause.clone() }));
        actions.push(ConnectionAction::StopTransport);
        proof {
            assert(actions@ =~= close_open::<D, T>(cause).1);
        }
        (ConnectionLoopState::Closed(ConnectionLoopClosedState { cause }), actions)
    }
}

impl ConnectionLoopInitializingState {
    /// Closes the connection that was being set up with `cause`.
    fn transition_to_closed<D, T: TokenProvider>(self, cause: ClientError<T>) -> (r: (ConnectionLoopState<T>, Vec<ConnectionAction<D, T>>))
        ensures
            (r.0.view_of(), r.1@) == close_initializing::<D, T>(self.commands_queue@, cause),
    {
        let mut actions = Vec::new();
        fail_queue_exec(&self.commands_queue, &cause, &mut actions);
        actions.push(ConnectionAction::Notify(ConnectionLoopMessage::Closed { cause: cause.clone() }));
        proof {
            assert(actions@ =~= close_initializing::<D, T>(self.commands_queue@, cause).1);
        }
        (ConnectionLoopState::Closed(ConnectionLoopClosedState { cause }), actions)
    }
}

impl<T: TokenProvider> ConnectionLoopState<T> {
    /// A connection whose transport is being set up, with nothing queued.
    pub fn new() -> (r: Self)
        ensures
            r.view_of() == StateView::<T>::Initializing(seq![]),
    {
        let r = ConnectionLoopState::Initializing(ConnectionLoopInitializingState { commands_queue: Vec::new() });
        assert(r.view_of() =~= StateView::<T>::Initializing(seq![]));
        r
    }

    /// Sends `message` (see `send_message_spec`): queued while the transport is
    /// set up, written while open, refused with the cause once closed.
    pub fn send_message<D>(&mut self, message: String, callback: Option<CallbackId>) -> (actions: Vec<ConnectionAction<D, T>>)
        ensures
            (final(self).view_of(), actions@) == send_message_spec::<D, T>(old(self).view_of(), message, callback),
    {
        let mut actions = Vec::new();
        match self {
            ConnectionLoopState::Initializing(s) => {
                s.commands_queue.push((message, callback));
            },
            ConnectionLoopState::Open(_) => {
                actions.push(ConnectionAction::Write { message, callback });
            },
            ConnectionLoopState::Closed(s) => {
                if let Some(cb) = callback {
                    actions.push(ConnectionAction::Reply { callback: cb, result: Err(s.cause.clone()) });
                }
            },
        }
        proof {
            assert(actions@ =~= send_message_spec::<D, T>(old(self).view_of(), message, callback).1);
        }
        actions
    }

    /// The end of the transport's setup (see `init_finished_spec`).
    pub fn on_transport_init_finished<D>(self, init_result: Result<(), ClientError<T>>) -> (r: (Self, Vec<ConnectionAction<D, T>>))
        requires
            !(self is Open),
        ensures
            (r.0.view_of(), r.1@) == init_finished_spec::<D, T>(self.view_of(), init_result),
    {
        match self {
            ConnectionLoopState::Initializing(s) => match init_result {
                Err(e) => s.transition_to_closed(e),
                Ok(_) => {
                    let mut actions = Vec::new();
                    actions.push(ConnectionAction::StartTransport);
                    actions.push(ConnectionAction::Notify(ConnectionLoopMessage::Open));
                    write_queue_exec(&s.commands_queue, &mut actions);
                    proof {
                        assert(actions@ =~= init_finished_spec::<D, T>(self.view_of(), init_result).1);
                    }
                    (ConnectionLoopState::Open(ConnectionLoopOpenState { pong_received: false }), actions)
                },
            },
            ConnectionLoopState::Closed(s) => (ConnectionLoopState::Closed(s), Vec::new()),
            ConnectionLoopState::Open(s) => (ConnectionLoopState::Open(s), Vec::new()),
        }
    }

    /// A failed send on the transport (see `send_error_spec`).
    pub fn on_send_error<D>(self, error: Arc<async_tungstenite::tungstenite::Error>) -> (r: (Self, Vec<ConnectionAction<D, T>>))
        ensures
            (r.0.view_of(), r.1@) == send_error_spec::<D, T>(self.view_of(), error),
    {
        match self {
            ConnectionLoopState::Initializing(s) => s.transition_to_closed(ClientError::OutgoingError(error)),
            ConnectionLoopState::Open(s) => s.transition_to_closed(ClientError::OutgoingError(error)),
            ConnectionLoopState::Closed(s) => (ConnectionLoopState::Closed(s), Vec::new()),
        }
    }

    /// An item of the transport's stream (see `incoming_spec`).
    pub fn on_incoming_message<D>(self, maybe_message: Incoming<D, T>) -> (r: (Self, Vec<ConnectionAction<D, T>>))
        requires
            !(self is Initializing),
        ensures
            (r.0.view_of(), r.1@) == incoming_spec::<D, T>(self.view_of(), maybe_message),
    {
        match self {
            ConnectionLoopState::Open(mut s) => match maybe_message {
                None => s.transition_to_closed(ClientError::RemoteUnexpectedlyClosedConnection),
                Some(Err(error)) => s.transition_to_closed(error),
                Some(Ok(response)) => {
                    let mut should_reconnect = false;
                    match &response {
                        Ok(Response::Pong) => {
                            s.pong_received = true;
                        },
                        Ok(Response::Reconnect) => should_reconnect = true,
                        _ => {},
                    }
                    let mut actions = Vec::new();
                    actions.push(ConnectionAction::Notify(ConnectionLoopMessage::ServerMessage(response)));
                    if should_reconnect {
                        let (state, mut closing) = s.transition_to_closed(ClientError::ReconnectMessage);
                        actions.append(&mut closing);
                        return (state, actions);
                    }
                    (ConnectionLoopState::Open(s), actions)
                },
            },
            ConnectionLoopState::Closed(s) => (ConnectionLoopState::Closed(s), Vec::new()),
            ConnectionLoopState::Initializing(s) => (ConnectionLoopState::Initializing(s), Vec::new()),
        }
    }

    /// Time to send a ping (see `ping_spec`).
    pub fn send_ping<D>(&mut self) -> (actions: Vec<ConnectionAction<D, T>>)
        requires
            !(*old(self) is Initializing),
        ensures
            exists|ping: String|
                #![trigger ping_spec::<D, T>(old(self).view_of(), ping)]
                ping@ == ping_text() && (final(self).view_of(), actions@) == ping_spec::<D, T>(old(self).view_of(), ping),
    {
        let mut actions = Vec::new();
        let ping = ping_message();
        let ghost p = ping;
        match self {
            ConnectionLoopState::Open(s) => {
                s.pong_received = false;
                actions.push(ConnectionAction::Write { message: ping, callback: None });
            },
            _ => {},
        }
        proof {
            assert(actions@ =~= ping_spec::<D, T>(old(self).view_of(), p).1);
            assert((self.view_of(), actions@) == ping_spec::<D, T>(old(self).view_of(), p));
        }
        actions
    }

    /// Time to check that the pong came (see `check_pong_spec`).
    pub fn check_pong<D>(self) -> (r: (Self, Vec<ConnectionAction<D, T>>))
        requires
            !(self is Initializing),
        ensures
            (r.0.view_of(), r.1@) == check_pong_spec::<D, T>(self.view_of()),
    {
        match self {
            ConnectionLoopState::Open(s) => if !s.pong_received {
                s.transition_to_closed(ClientError::PingTimeout)
            } else {
                (ConnectionLoopState::Open(s), Vec::new())
            },
            ConnectionLoopState::Closed(s) => (ConnectionLoopState::Closed(s), Vec::new()),
            ConnectionLoopState::Initializing(s) => (ConnectionLoopState::Initializing(s), Vec::new()),
        }
    }
}

/// The commands that a connection in state `s` can get: no stream item, ping or
/// pong check before the transport is set up, and no second end of the setup
/// once it is open.
pub open spec fn command_fits<D, T: TokenProvider>(s: StateView<T>, command: ConnectionLoopCommand<D, T>) -> bool {
    match command {
        ConnectionLoopCommand::WsInitFinished(_) => !(s is Open),
        ConnectionLoopCommand::SendPing => !(s is Initializing),
        ConnectionLoopCommand::CheckPong => !(s is Initializing),
        ConnectionLoopCommand::IncomingMessage(_) => !(s is Initializing),
        _ => true,
    }
}

/// The step of a connection in state `s` for `command`: the next state and the
/// actions.
pub open spec fn step<D, T: TokenProvider>(
    s: StateView<T>,
    command: ConnectionLoopCommand<D, T>,
    next: StateView<T>,
    actions: Seq<ConnectionAction<D, T>>,
) -> bool {
    match command {
        ConnectionLoopCommand::SendMessage { message, callback } => (next, actions) == send_message_spec::<D, T>(s, message, callback),
        ConnectionLoopCommand::WsInitFinished(res) => (next, actions) == init_finished_spec::<D, T>(s, res),
        ConnectionLoopCommand::SendPing => exists|ping: String|
            #![trigger ping_spec::<D, T>(s, ping)]
            ping@ == ping_text() && (next, actions) == ping_spec::<D, T>(s, ping),
        ConnectionLoopCommand::CheckPong => (next, actions) == check_pong_spec::<D, T>(s),
        ConnectionLoopCommand::IncomingMessage(item) => (next, actions) == incoming_spec::<D, T>(s, item),
        ConnectionLoopCommand::SendErr(e) => (next, actions) == send_error_spec::<D, T>(s, e),
    }
}

/// The connection loop: the state of one connection.
#[derive(Debug)]
pub struct ConnectionLoopWorker<T: TokenProvider> {
    pub state: ConnectionLoopState<T>,
}

impl<T: TokenProvider> ConnectionLoopWorker<T> {
    /// A connection loop whose transport is being set up.
    pub fn new() -> (r: Self)
        ensures
            r.state.view_of() == StateView::<T>::Initializing(seq![]),
    {
        ConnectionLoopWorker { state: ConnectionLoopState::new() }
    }

    /// Handles one command (see `step`).
    pub fn process_command<D>(&mut self, command: ConnectionLoopCommand<D, T>) -> (actions: Vec<ConnectionAction<D, T>>)
        requires
            command_fits(old(self).state.view_of(), command),
        ensures
            step(old(self).state.view_of(), command, final(self).state.view_of(), actions@),
    {
        let mut state = ConnectionLoopState::new();
        std::mem::swap(&mut state, &mut self.state);
        match command {
            ConnectionLoopCommand::WsInitFinished(res) => {
                let (next, actions) = state.on_transport_init_finished(res);
                self.state = next;
                actions
            },
            ConnectionLoopCommand::SendMessage { message, callback } => {
                self.state = state;
                self.state.send_message(message, callback)
            },
            ConnectionLoopCommand::SendPing => {
                self.state = state;
                self.state.send_ping()
            },
            ConnectionLoopCommand::CheckPong => {
                let (next, actions) = state.check_pong();
                self.state = next;
                actions
            },
            ConnectionLoopCommand::IncomingMessage(msg) => {
                let (next, actions) = state.on_incoming_message(msg);
                self.state = next;
                actions
            },
            ConnectionLoopCommand::SendErr(e) => {
                let (next, actions) = state.on_send_error(e);
                self.state = next;
                actions
            },
        }
    }
}

/// A closed connection stays closed with its cause, whatever comes: a message to
/// send is refused with the cause (its callback, if any, gets it), and nothing
/// else happens.
pub proof fn law_closed_is_final<D, T: TokenProvider>(
    cause: ClientError<T>,
    command: ConnectionLoopCommand<D, T>,
    next: StateView<T>,
    actions: Seq<ConnectionAction<D, T>>,
)
    requires
        step(StateView::Closed(cause), command, next, actions),
    ensures
        next == StateView::<T>::Closed(cause),
        match command {
            ConnectionLoopCommand::SendMessage { message, callback } => actions == match callback {
                Some(cb) => seq![ConnectionAction::<D, T>::Reply { callback: cb, result: Err(cause) }],
                None => seq![],
            },
            _ => actions.len() == 0,
        },
{
}

/// Once the transport is set up, the messages queued meanwhile are written in
/// the order in which they came, after the client loop has heard that the
/// connection is open; if the setup fails, every queued callback gets the error,
/// in that order, and then the client loop hears of the closing.
pub proof fn law_queue_on_setup<D, T: TokenProvider>(queue: Seq<QueuedMessage>, res: Result<(), ClientError<T>>)
    ensures
        ({
            let r = init_finished_spec::<D, T>(StateView::Initializing(queue), res);
            match res {
                Ok(_) => {
                    &&& r.0 == StateView::<T>::Open(false)
                    &&& r.1.len() == queue.len() + 2
                    &&& forall|i: int| 0 <= i < queue.len() ==> #[trigger] r.1[i + 2] == (ConnectionAction::<D, T>::Write {
                        message: queue[i].0,
                        callback: queue[i].1,
                    })
                },
                Err(e) => {
                    &&& r.0 == StateView::<T>::Closed(e)
                    &&& r.1.last() == ConnectionAction::<D, T>::Notify(ConnectionLoopMessage::Closed { cause: e })
                },
            }
        }),
{
    lemma_write_queue::<D, T>(queue);
}

/// An open connection that sends a ping and gets no pong before the check
/// closes for a ping timeout, tells the client loop so and stops its transport;
/// a pong in between keeps it open, with nothing to do at the check.
pub proof fn law_ping_needs_pong<D, T: TokenProvider>(pong: bool, ping: String, reply: Result<Response<D>, ParseError>)
    ensures
        ({
            let p = ping_spec::<D, T>(StateView::Open(pong), ping);
            let c = check_pong_spec::<D, T>(p.0);
            &&& c.0 == StateView::<T>::Closed(ClientError::PingTimeout)
            &&& c.1 == seq![
                ConnectionAction::<D, T>::Notify(ConnectionLoopMessage::Closed { cause: ClientError::PingTimeout }),
                ConnectionAction::StopTransport,
            ]
        }),
        reply is Ok && reply->Ok_0 is Pong ==> ({
            let p = ping_spec::<D, T>(StateView::Open(pong), ping);
            let i = incoming_spec::<D, T>(p.0, Some(Ok(reply)));
            let c = check_pong_spec::<D, T>(i.0);
            c.0 == StateView::<T>::Open(true) && c.1.len() == 0
        }),
{
}

/// The state of a connection after the items of the transport's stream, in order.
pub open spec fn after_items<D, T: TokenProvider>(s: StateView<T>, items: Seq<Incoming<D, T>>) -> StateView<T>
    decreases items.len(),
{
    if items.len() == 0 {
        s
    } else {
        incoming_spec::<D, T>(after_items(s, items.drop_last()), items.last()).0
    }
}

/// One of the items is Twitch's pong.
pub open spec fn pong_in<D, T: TokenProvider>(items: Seq<Incoming<D, T>>) -> bool
    decreases items.len(),
{
    items.len() > 0 && (pong_in(items.drop_last()) || items.last() matches Some(Ok(Ok(Response::Pong))))
}

proof fn lemma_after_items_open<D, T: TokenProvider>(b: bool, items: Seq<Incoming<D, T>>)
    requires
        forall|k: int| 0 <= k <= items.len() ==> (#[trigger] after_items(StateView::<T>::Open(b), items.take(k))) is Open,
    ensures
        after_items(StateView::<T>::Open(b), items) == StateView::<T>::Open(b || pong_in(items)),
    decreases items.len(),
{
    assert(items.take(items.len() as int) =~= items);
    if items.len() > 0 {
        let d = items.drop_last();
        assert forall|k: int| 0 <= k <= d.len() implies (#[trigger] after_items(StateView::<T>::Open(b), d.take(k))) is Open by {
            assert(d.take(k) =~= items.take(k));
        }
        lemma_after_items_open(b, d);
        assert(after_items(StateView::<T>::Open(b), items.take(items.len() as int)) is Open);
    }
}

/// An open connection that sends a ping and then takes any items of the
/// transport's stream that keep it open: at the check it stays open, with
/// nothing to do, exactly where one of the items is a pong; else it closes for
/// a ping timeout, tells the client loop so and stops its transport.
pub proof fn law_pong_between_ping_and_check<D, T: TokenProvider>(pong: bool, ping: String, items: Seq<Incoming<D, T>>)
    requires
        forall|k: int|
            0 <= k <= items.len() ==> (#[trigger] after_items(ping_spec::<D, T>(StateView::Open(pong), ping).0, items.take(k))) is Open,
    ensures
        ({
            let s = after_items(ping_spec::<D, T>(StateView::Open(pong), ping).0, items);
            let c = check_pong_spec::<D, T>(s);
            &&& s == StateView::<T>::Open(pong_in(items))
            &&& pong_in(items) ==> c.0 == s && c.1.len() == 0
            &&& !pong_in(items) ==> c.0 == StateView::<T>::Closed(ClientError::PingTimeout) && c.1 == seq![
                ConnectionAction::<D, T>::Notify(ConnectionLoopMessage::Closed { cause: ClientError::PingTimeout }),
                ConnectionAction::StopTransport,
            ]
        }),
{
    lemma_after_items_open::<D, T>(false, items);
}

/// What an open connection does with an item of the transport's stream: the end
/// of the stream or a transport error closes it with that cause (the remote
/// closing, or the error), tells the client loop and stops the transport, in
/// that order; a message of Twitch goes to the client loop, and a request to
/// reconnect then closes the connection in the same way; any other message
/// keeps it open, a pong marking the pong as received.
pub proof fn law_open_connection_reads<D, T: TokenProvider>(pong: bool, e: ClientError<T>, msg: Result<Response<D>, ParseError>)
    ensures
        incoming_spec::<D, T>(StateView::Open(pong), Some(Err(e))) == (
            StateView::<T>::Closed(e),
            seq![
                ConnectionAction::<D, T>::Notify(ConnectionLoopMessage::Closed { cause: e }),
                ConnectionAction::StopTransport,
            ],
        ),
        incoming_spec::<D, T>(StateView::Open(pong), None) == (
            StateView::<T>::Closed(ClientError::RemoteUnexpectedlyClosedConnection),
            seq![
                ConnectionAction::<D, T>::Notify(ConnectionLoopMessage::Closed { cause: ClientError::RemoteUnexpectedlyClosedConnection }),
                ConnectionAction::StopTransport,
            ],
        ),
        msg matches Ok(Response::Reconnect) ==> incoming_spec::<D, T>(StateView::Open(pong), Some(Ok(msg))) == (
            StateView::<T>::Closed(ClientError::ReconnectMessage),
            seq![
                ConnectionAction::<D, T>::Notify(ConnectionLoopMessage::ServerMessage(msg)),
                ConnectionAction::Notify(ConnectionLoopMessage::Closed { cause: ClientError::ReconnectMessage }),
                ConnectionAction::StopTransport,
            ],
        ),
        !(msg matches Ok(Response::Reconnect)) ==> incoming_spec::<D, T>(StateView::Open(pong), Some(Ok(msg))) == (
            StateView::<T>::Open(pong || msg matches Ok(Response::Pong)),
            seq![ConnectionAction::<D, T>::Notify(ConnectionLoopMessage::ServerMessage(msg))],
        ),
{
    if msg matches Ok(Response::Reconnect) {
        let notify = ConnectionAction::<D, T>::Notify(ConnectionLoopMessage::ServerMessage(msg));
        let c = close_open::<D, T>(ClientError::ReconnectMessage);
        assert(seq![notify] + c.1 =~= seq![
            notify,
            ConnectionAction::Notify(ConnectionLoopMessage::Closed { cause: ClientError::ReconnectMessage }),
            ConnectionAction::StopTransport,
        ]);
    }
}

proof fn lemma_fail_queue<D, T: TokenProvider>(q: Seq<QueuedMessage>, cause: ClientError<T>)
    ensures
        forall|i: int| 0 <= i < q.len() && (#[trigger] q[i]).1 is Some ==> fail_queue::<D, T>(q, cause).contains(
            ConnectionAction::Reply { callback: q[i].1->0, result: Err(cause) },
        ),
        forall|j: int| 0 <= j < fail_queue::<D, T>(q, cause).len() ==> (#[trigger] fail_queue::<D, T>(q, cause)[j] matches ConnectionAction::Reply {
            callback,
            result,
        } && result == Err::<(), ClientError<T>>(cause) && exists|i: int| 0 <= i < q.len() && q[i].1 == Some(callback)),
        fail_queue::<D, T>(q, cause).len() <= q.len(),
    decreases q.len(),
{
    if q.len() > 0 {
        let d = q.drop_last();
        lemma_fail_queue::<D, T>(d, cause);
        let r = fail_queue::<D, T>(d, cause);
        let f = fail_queue::<D, T>(q, cause);
        assert forall|i: int| 0 <= i < q.len() && (#[trigger] q[i]).1 is Some implies f.contains(
            ConnectionAction::Reply { callback: q[i].1->0, result: Err(cause) },
        ) by {
            if i < q.len() - 1 {
                assert(q[i] == d[i]);
                let j = choose|j: int| 0 <= j < r.len() && r[j] == ConnectionAction::<D, T>::Reply { callback: d[i].1->0, result: Err(cause) };
                assert(f[j] == r[j]);
            } else {
                assert(f[f.len() - 1] == ConnectionAction::<D, T>::Reply { callback: q[i].1->0, result: Err(cause) });
            }
        }
        assert forall|j: int| 0 <= j < f.len() implies (#[trigger] f[j] matches ConnectionAction::Reply {
            callback,
            result,
        } && result == Err::<(), ClientError<T>>(cause) && exists|i: int| 0 <= i < q.len() && q[i].1 == Some(callback)) by {
            if j < r.len() {
                assert(f[j] == r[j]);
                if let ConnectionAction::Reply { callback, result } = r[j] {
                    let i = choose|i: int| 0 <= i < d.len() && d[i].1 == Some(callback);
                    assert(q[i] == d[i]);
                }
            } else {
                assert(q[q.len() - 1] == q.last());
            }
        }
    }
}

/// A connection whose setup fails answers every queued message's callback with
/// the error, and no other callback, then tells the client loop that it closed
/// with that error; so does one whose first send fails while it is still being
/// set up. A send that fails on an open connection closes it, tells the client
/// loop and stops the transport.
pub proof fn law_failed_setup_answers_the_queue<D, T: TokenProvider>(
    q: Seq<QueuedMessage>,
    e: ClientError<T>,
    error: Arc<async_tungstenite::tungstenite::Error>,
    pong: bool,
)
    ensures
        ({
            let r = init_finished_spec::<D, T>(StateView::Initializing(q), Err(e));
            &&& r.0 == StateView::<T>::Closed(e)
            &&& r.1.len() >= 1 && r.1.last() == ConnectionAction::<D, T>::Notify(ConnectionLoopMessage::Closed { cause: e })
            &&& forall|i: int| 0 <= i < q.len() && (#[trigger] q[i]).1 is Some ==> r.1.contains(
                ConnectionAction::Reply { callback: q[i].1->0, result: Err(e) },
            )
            &&& forall|j: int| 0 <= j < r.1.len() - 1 ==> (#[trigger] r.1[j] matches ConnectionAction::Reply { callback, result }
                && result == Err::<(), ClientError<T>>(e) && exists|i: int| 0 <= i < q.len() && q[i].1 == Some(callback))
        }),
        send_error_spec::<D, T>(StateView::Initializing(q), error).0 == StateView::<T>::Closed(ClientError::OutgoingError(error)),
        send_error_spec::<D, T>(StateView::Initializing(q), error).1 == init_finished_spec::<D, T>(
            StateView::Initializing(q),
            Err(ClientError::OutgoingError(error)),
        ).1,
        send_error_spec::<D, T>(StateView::Open(pong), error) == (
            StateView::<T>::Closed(ClientError::OutgoingError(error)),
            seq![
                ConnectionAction::<D, T>::Notify(ConnectionLoopMessage::Closed { cause: ClientError::OutgoingError(error) }),
                ConnectionAction::StopTransport,
            ],
        ),
{
    lemma_fail_queue::<D, T>(q, e);
    let f = fail_queue::<D, T>(q, e);
    let r = init_finished_spec::<D, T>(StateView::Initializing(q), Err(e));
    assert forall|i: int| 0 <= i < q.len() && (#[trigger] q[i]).1 is Some implies r.1.contains(
        ConnectionAction::Reply { callback: q[i].1->0, result: Err(e) },
    ) by {
        let j = choose|j: int| 0 <= j < f.len() && f[j] == ConnectionAction::<D, T>::Reply { callback: q[i].1->0, result: Err(e) };
        assert(r.1[j] == f[j]);
    }
    assert forall|j: int| 0 <= j < r.1.len() - 1 implies (#[trigger] r.1[j] matches ConnectionAction::Reply { callback, result }
        && result == Err::<(), ClientError<T>>(e) && exists|i: int| 0 <= i < q.len() && q[i].1 == Some(callback)) by {
        assert(r.1[j] == f[j]);
    }
}

/// A message to send waits in the queue, after the ones before it, while the
/// connection is being set up, and is written at once, with its callback, once
/// it is open.
pub proof fn law_messages_wait_for_setup<D, T: TokenProvider>(q: Seq<QueuedMessage>, pong: bool, message: String, callback: Option<CallbackId>)
    ensures
        send_message_spec::<D, T>(StateView::Initializing(q), message, callback) == (
            StateView::<T>::Initializing(q.push((message, callback))),
            Seq::<ConnectionAction<D, T>>::empty(),
        ),
        send_message_spec::<D, T>(StateView::Open(pong), message, callback) == (
            StateView::<T>::Open(pong),
            seq![ConnectionAction::<D, T>::Write { message, callback }],
        ),
{
}

proof fn lemma_write_queue<D, T: TokenProvider>(queue: Seq<QueuedMessage>)
    ensures
        write_queue::<D, T>(queue).len() == queue.len(),
        forall|i: int| 0 <= i < queue.len() ==> #[trigger] write_queue::<D, T>(queue)[i] == (ConnectionAction::<D, T>::Write {
            message: queue[i].0,
            callback: queue[i].1,
        }),
    decreases queue.len(),
{
    if queue.len() > 0 {
        lemma_write_queue::<D, T>(queue.drop_last());
        assert forall|i: int| 0 <= i < queue.len() - 1 implies queue.drop_last()[i] == queue[i] by {}
    }
}

impl<T: TokenProvider> ConnectionLoopWorker<T> {
    /// Whether the connection can get `command` now (see `command_fits`).
    pub fn fits<D>(&self, command: &ConnectionLoopCommand<D, T>) -> (r: bool)
        ensures
            r == command_fits(self.state.view_of(), *command),
    {
        let initializing = match &self.state {
            ConnectionLoopState::Initializing(_) => true,
            _ => false,
        };
        let open = match &self.state {
            ConnectionLoopState::Open(_) => true,
            _ => false,
        };
        match command {
            ConnectionLoopCommand::WsInitFinished(_) => !open,
            ConnectionLoopCommand::SendPing => !initializing,
            ConnectionLoopCommand::CheckPong => !initializing,
            ConnectionLoopCommand::IncomingMessage(_) => !initializing,
            _ => true,
        }
    }
}

} // verus!
