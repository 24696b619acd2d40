//! The errors of the client and of its connections.
use vstd::prelude::*;

use std::sync::Arc;

use crate::token_provider::TokenProvider;

verus! {

/// A second handle to the value that `a` points to (`Arc::clone`). The
/// standard library documents it as a new pointer to the same allocation.
#[verifier::external_body]
fn share<T>(a: &Arc<T>) -> (r: Arc<T>)
    ensures
        r == *a,
{
    Arc::clone(a)
}

/// All the errors returned by the client loop and the connection loop.
#[derive(Debug)]
pub enum ClientError<T: TokenProvider> {
    /// Websocket error
    WsError(Arc<async_tungstenite::tungstenite::Error>),
    /// Error in the outgoing connection
    OutgoingError(Arc<async_tungstenite::tungstenite::Error>),
    /// The remote host unexpectedly closed an open connection
    RemoteUnexpectedlyClosedConnection,
    /// Received a reconnect message
    ReconnectMessage,
    /// Connection timed out
    ConnectTimeout,
    /// A ping timed out
    PingTimeout,
    /// Failed listening to some topics (message by twitch)
    ListenError(String),
    /// Error when (de-)serializing
    SerdeError(Arc<serde_json::Error>),
    /// Error from the token provider
    TokenError(Arc<T::Error>),
    /// The client loop died before sending
    ClientLoopDied,
    /// The callback died - Sender dropped without sending anything
    CallbackDied,
    /// An unknown error
    Unknown,
}

impl<T: TokenProvider> Clone for ClientError<T> {
    fn clone(&self) -> (r: Self)
        ensures
            r == *self,
    {
        match self {
            ClientError::WsError(e) => ClientError::WsError(share(e)),
            ClientError::OutgoingError(e) => ClientError::OutgoingError(share(e)),
            ClientError::RemoteUnexpectedlyClosedConnection => ClientError::RemoteUnexpectedlyClosedConnection,
            ClientError::ReconnectMessage => ClientError::ReconnectMessage,
            ClientError::PingTimeout => ClientError::PingTimeout,
            ClientError::ListenError(e) => ClientError::ListenError(e.clone()),
            ClientError::SerdeError(e) => ClientError::SerdeError(share(e)),
            ClientError::TokenError(e) => ClientError::TokenError(share(e)),
            ClientError::ClientLoopDied => ClientError::ClientLoopDied,
            ClientError::CallbackDied => ClientError::CallbackDied,
            ClientError::Unknown => ClientError::Unknown,
            ClientError::ConnectTimeout => ClientError::ConnectTimeout,
        }
    }
}

} // verus!
