//! Messages of the client to its user.
use vstd::prelude::*;

use crate::error::ClientError;
use crate::response::Response;
use crate::token_provider::TokenProvider;

verus! {

/// An error occurred when listening to one or many topics.
#[derive(Debug)]
pub struct ListenError {
    /// The topics requested.
    pub topics: Vec<String>,
    /// The error code returned from Twitch.
    pub error: String,
}

/// A message was received but couldn't be parsed.
#[derive(Debug)]
pub struct ParseError {
    /// The raw message.
    pub raw: String,
    /// The error returned by serde_json.
    pub error: serde_json::Error,
}

/// A connection was closed.
#[derive(Debug)]
pub struct ConnectionClosed<T: TokenProvider> {
    /// The connection id of the connection.
    pub connection_id: usize,
    /// The reason why it was closed.
    pub cause: ClientError<T>,
}

/// A message from Twitch; `D` is the data of a topic message.
#[derive(Debug)]
pub enum ServerMessage<D, T: TokenProvider> {
    /// The main message.
    Data(D),
    /// An error occurred when listening to one or many topics.
    ListenError(ListenError),
    /// A message was received but it could not be parsed.
    ParseError(ParseError),
    /// A connection was closed.
    ConnectionClosed(ConnectionClosed<T>),
}

/// What the user hears of a message of Twitch that the client loop forwards: a
/// topic message as `Data`, a message that could not be parsed as `ParseError`,
/// and nothing of the others.
pub fn to_server_message<D, T: TokenProvider>(message: Result<Response<D>, ParseError>) -> (r: Option<ServerMessage<D, T>>)
    ensures
        match message {
            Ok(Response::Message(d)) => r == Some(ServerMessage::<D, T>::Data(d)),
            Err(p) => r == Some(ServerMessage::<D, T>::ParseError(p)),
            _ => r is None,
        },
{
    match message {
        Ok(Response::Message(d)) => Some(ServerMessage::Data(d)),
        Err(p) => Some(ServerMessage::ParseError(p)),
        _ => None,
    }
}

} // verus!
