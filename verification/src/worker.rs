//! The decisions of a worker's connection task: how long a read may take, what
//! a frame read from the socket amounts to, and when the task stops.
use vstd::prelude::*;

use crate::event_loop::EventLoopAction;
use crate::response::Response;
use crate::wire::{message_shape, parse_message, shape_of};
use twitch_api::pubsub::TopicData;
use twitch_api::DeserError;

verus! {

/// Seconds that a read may take before a new connection's first timeout is set.
pub const DEFAULT_TIMEOUT_SECS: u64 = 60;

/// Why a read gave no message.
#[derive(Debug)]
pub enum WsReadError<E> {
    /// The read timed out.
    Timeout,
    /// The WebSocket frame could not be read.
    Parse,
    /// The frame was not text.
    NotText,
    /// The frame was not valid UTF-8.
    NotUtf8,
    /// The text could not be deserialized.
    Deserialize(E),
}

/// What a read of the socket gave.
#[derive(Debug)]
pub enum FrameRead {
    /// Nothing within the timeout.
    TimedOut,
    /// An error instead of a frame.
    Failed,
    /// A frame: whether it is text, and whether its payload is UTF-8.
    Frame { text: bool, utf8: bool },
}

/// What a frame amounts to before its text is deserialized: a timeout, a
/// broken frame, a frame that is not text, or text that is not UTF-8 is an
/// error; else the text goes on to be deserialized.
pub fn frame_verdict<E>(read: &FrameRead) -> (r: Result<(), WsReadError<E>>)
    ensures
        match read {
            FrameRead::TimedOut => r matches Err(WsReadError::Timeout),
            FrameRead::Failed => r matches Err(WsReadError::Parse),
            FrameRead::Frame { text, utf8 } => if !*text {
                r matches Err(WsReadError::NotText)
            } else if !*utf8 {
                r matches Err(WsReadError::NotUtf8)
            } else {
                r is Ok
            },
        },
{
    match read {
        FrameRead::TimedOut => Err(WsReadError::Timeout),
        FrameRead::Failed => Err(WsReadError::Parse),
        FrameRead::Frame { text, utf8 } => if !*text {
            Err(WsReadError::NotText)
        } else if !*utf8 {
            Err(WsReadError::NotUtf8)
        } else {
            Ok(())
        },
    }
}

/// What a read of the socket gives the worker: the verdict on the frame (see
/// `frame_verdict`), then its text `payload` parsed as Twitch's message (see
/// `parse_message`; `None` for a kind that the library does not know), where a
/// text that does not parse is a `Deserialize` error.
pub fn read_message(read: &FrameRead, payload: &String) -> (r: Result<Option<Response<TopicData>>, WsReadError<DeserError>>)
    ensures
        match read {
            FrameRead::TimedOut => r matches Err(WsReadError::Timeout),
            FrameRead::Failed => r matches Err(WsReadError::Parse),
            FrameRead::Frame { text, utf8 } => if !*text {
                r matches Err(WsReadError::NotText)
            } else if !*utf8 {
                r matches Err(WsReadError::NotUtf8)
            } else {
                match r {
                    Ok(m) => message_shape(payload@) == Some(shape_of(m)),
                    Err(e) => e is Deserialize && message_shape(payload@) is None,
                }
            },
        },
{
    match frame_verdict::<DeserError>(read) {
        Err(e) => Err(e),
        Ok(()) => match parse_message(payload) {
            Ok(m) => Ok(m),
            Err(e) => Err(WsReadError::Deserialize(e)),
        },
    }
}

/// Whether the task closes the socket after this read: after a timeout or a
/// broken frame.
pub fn closes_socket(read: &FrameRead) -> (r: bool)
    ensures
        r == (read is TimedOut || read is Failed),
{
    match read {
        FrameRead::TimedOut => true,
        FrameRead::Failed => true,
        FrameRead::Frame { .. } => false,
    }
}

/// How the task goes on after a read that gave no message: a timeout ends it,
/// any other error is skipped.
pub fn after_read_error<E>(err: &WsReadError<E>) -> (r: EventLoopAction)
    ensures
        r == (if err is Timeout { EventLoopAction::Stop } else { EventLoopAction::Continue }),
{
    match err {
        WsReadError::Timeout => EventLoopAction::Stop,
        _ => EventLoopAction::Continue,
    }
}

/// The state of a worker's connection that the task decides on: its id and its
/// read timeout.
#[derive(Debug)]
pub struct WsContext {
    id: usize,
    timeout_secs: u64,
}

impl WsContext {
    /// The connection's id.
    pub closed spec fn id_spec(&self) -> usize {
        self.id
    }

    /// The connection's read timeout, in seconds.
    pub closed spec fn timeout_spec(&self) -> u64 {
        self.timeout_secs
    }

    /// The context of the connection `id`, with the default read timeout.
    pub fn new(id: usize) -> (r: Self)
        ensures
            r.id_spec() == id,
            r.timeout_spec() == DEFAULT_TIMEOUT_SECS,
    {
        WsContext { id, timeout_secs: DEFAULT_TIMEOUT_SECS }
    }

    /// The connection's id.
    pub fn id(&self) -> (r: usize)
        ensures
            r == self.id_spec(),
    {
        self.id
    }

    /// The connection's read timeout, in seconds.
    pub fn timeout(&self) -> (r: u64)
        ensures
            r == self.timeout_spec(),
    {
        self.timeout_secs
    }

    /// Sets the read timeout.
    pub fn set_timeout(&mut self, timeout_secs: u64)
        ensures
            final(self).timeout_spec() == timeout_secs,
            final(self).id_spec() == old(self).id_spec(),
    {
        self.timeout_secs = timeout_secs;
    }
}

} // verus!
