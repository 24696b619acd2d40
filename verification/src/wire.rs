//! Twitch's wire format: the requests that the library sends and the messages
//! that it reads, written and parsed by `twitch_api`.
use vstd::prelude::*;

use crate::response::{Response, TwitchResponse};
use twitch_api::pubsub::Response as Wire;
use twitch_api::pubsub::{TopicData, Topics};

verus! {

/// The text of a LISTEN request for the topics named `topics`, with
/// `auth_token` and `nonce`: each name read as a typed topic by
/// `serde_json::from_value`, then the request written by
/// `twitch_api::pubsub::listen_command`; `None` where either step fails.
pub uninterp spec fn listen_request(topics: Seq<Seq<char>>, auth_token: Option<Seq<char>>, nonce: Seq<char>) -> Option<Seq<char>>;

/// The text of an UNLISTEN request for the topics named `topics`, with
/// `nonce`: each name read as a typed topic by `serde_json::from_value`, then
/// the request written by `twitch_api::pubsub::unlisten_command`; `None` where
/// either step fails.
pub uninterp spec fn unlisten_request(topics: Seq<Seq<char>>, nonce: Seq<char>) -> Option<Seq<char>>;

/// What `twitch_api`'s `Response::parse` reads in `text`; `None` where it fails.
pub uninterp spec fn message_shape(text: Seq<char>) -> Option<MessageShape>;

/// What `serde_json` reads in `text` as a `twitch_api` response; `None` where
/// it fails.
pub uninterp spec fn json_message_shape(text: Seq<char>) -> Option<MessageShape>;

/// What a message of Twitch is, as far as the library decides on it.
pub enum MessageShape {
    /// An answer, with its nonce and its error.
    Answer(Option<Seq<char>>, Option<Seq<char>>),
    /// A message on a topic.
    Data,
    /// The answer to a ping.
    Pong,
    /// A request to reconnect.
    Reconnect,
    /// A kind of message that the library does not know.
    Other,
}

/// The shape of a message read by the library (`None`: one of a kind that it
/// does not know).
pub open spec fn shape_of<D>(m: Option<Response<D>>) -> MessageShape {
    match m {
        Some(Response::Response(r)) => MessageShape::Answer(r.nonce.deep_view(), r.error.deep_view()),
        Some(Response::Message(_)) => MessageShape::Data,
        Some(Response::Pong) => MessageShape::Pong,
        Some(Response::Reconnect) => MessageShape::Reconnect,
        None => MessageShape::Other,
    }
}

/// The result of a writer of requests, against what it is named to write.
pub open spec fn written<E>(r: Result<String, E>, text: Option<Seq<char>>) -> bool {
    match r {
        Ok(t) => text == Some(t@),
        Err(_) => text is None,
    }
}

/// The result of a parser of messages, against what it is named to read.
pub open spec fn parsed<D, E>(r: Result<Option<Response<D>>, E>, shape: Option<MessageShape>) -> bool {
    match r {
        Ok(m) => shape == Some(shape_of(m)),
        Err(_) => shape is None,
    }
}

/// `twitch_api::pubsub::listen_command` for the topics named `topics`, each read
/// from its name by `serde_json::from_value`. Its result depends on its
/// arguments alone, and is named `listen_request`.
#[verifier::external_body]
pub(crate) fn listen_command(topics: &Vec<String>, auth_token: &Option<String>, nonce: &String) -> (r: Result<String, serde_json::Error>)
    ensures
        written(r, listen_request(topics.deep_view(), auth_token.deep_view(), nonce@)),
{
    let typed: Result<Vec<Topics>, serde_json::Error> =
        topics.iter().map(|n| serde_json::from_value(serde_json::Value::String(n.clone()))).collect();
    twitch_api::pubsub::listen_command(&typed?, auth_token.as_deref(), nonce.as_str())
}

/// `twitch_api::pubsub::unlisten_command` for the topics named `topics`, each
/// read from its name by `serde_json::from_value`. Its result depends on its
/// arguments alone, and is named `unlisten_request`.
#[verifier::external_body]
pub(crate) fn unlisten_command(topics: &Vec<String>, nonce: &String) -> (r: Result<String, serde_json::Error>)
    ensures
        written(r, unlisten_request(topics.deep_view(), nonce@)),
{
    let typed: Result<Vec<Topics>, serde_json::Error> =
        topics.iter().map(|n| serde_json::from_value(serde_json::Value::String(n.clone()))).collect();
    twitch_api::pubsub::unlisten_command(&typed?, nonce.as_str())
}

/// `twitch_api::pubsub::Response::parse` of `text`, each kind of message taken
/// to the library's `Response` (a kind that it does not know to `None`). Its
/// result depends on `text` alone; its shape is named `message_shape`. What a
/// topic message holds, and what the error says, is left unsaid.
#[verifier::external_body]
pub(crate) fn parse_message(text: &String) -> (r: Result<Option<Response<TopicData>>, twitch_api::DeserError>)
    ensures
        parsed(r, message_shape(text@)),
{
    match Wire::parse(text.as_str())? {
        Wire::Response(r) => Ok(Some(Response::Response(TwitchResponse { nonce: r.nonce, error: r.error }))),
        Wire::Message { data } => Ok(Some(Response::Message(data))),
        Wire::Pong => Ok(Some(Response::Pong)),
        Wire::Reconnect => Ok(Some(Response::Reconnect)),
        _ => Ok(None),
    }
}

/// `serde_json::from_str` of `text` as a `twitch_api` response, each kind of
/// message taken to the library's `Response` (a kind that it does not know to
/// `None`). Its result depends on `text` alone; its shape is named
/// `json_message_shape`. What a topic message holds, and what the error says,
/// is left unsaid.
#[verifier::external_body]
pub(crate) fn parse_json_message(text: &String) -> (r: Result<Option<Response<TopicData>>, serde_json::Error>)
    ensures
        parsed(r, json_message_shape(text@)),
{
    match serde_json::from_str::<Wire>(text.as_str())? {
        Wire::Response(r) => Ok(Some(Response::Response(TwitchResponse { nonce: r.nonce, error: r.error }))),
        Wire::Message { data } => Ok(Some(Response::Message(data))),
        Wire::Pong => Ok(Some(Response::Pong)),
        Wire::Reconnect => Ok(Some(Response::Reconnect)),
        _ => Ok(None),
    }
}

} // verus!
