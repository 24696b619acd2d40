//! What Twitch sends on a PubSub connection.
use vstd::prelude::*;

verus! {

/// Twitch's answer to a LISTEN or UNLISTEN request.
#[derive(Debug)]
pub struct TwitchResponse {
    /// The nonce of the request, where it had one.
    pub nonce: Option<String>,
    /// The error message, or an empty string (or nothing) on success.
    pub error: Option<String>,
}

/// The view of a `TwitchResponse`: its nonce and its error.
pub type TwitchResponseView = (Option<Seq<char>>, Option<Seq<char>>);

impl DeepView for TwitchResponse {
    type V = TwitchResponseView;

    open spec fn deep_view(&self) -> TwitchResponseView {
        (self.nonce.deep_view(), self.error.deep_view())
    }
}

/// The error of a response, where it is a non-empty message; an empty message
/// means success.
pub open spec fn failure(error: Option<Seq<char>>) -> Option<Seq<char>> {
    match error {
        Some(e) => if e.len() > 0 {
            Some(e)
        } else {
            None
        },
        None => None,
    }
}

/// The error of a response, where it is a non-empty message.
pub fn take_failure(error: Option<String>) -> (r: Option<String>)
    ensures
        r.deep_view() == failure(error.deep_view()),
{
    match error {
        Some(e) => if e.as_str().is_empty() {
            None
        } else {
            Some(e)
        },
        None => None,
    }
}

/// A message from Twitch's PubSub server; `D` is the data of a topic message.
#[derive(Debug)]
pub enum Response<D> {
    /// The answer to a LISTEN or UNLISTEN request.
    Response(TwitchResponse),
    /// A message on a topic.
    Message(D),
    /// The answer to a ping.
    Pong,
    /// The server asks the client to reconnect.
    Reconnect,
}

} // verus!
