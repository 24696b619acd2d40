//! The configuration of the client.
use vstd::prelude::*;

verus! {

/// A configuration for the client.
#[derive(Debug)]
pub struct ClientConfig<T> {
    /// The provider for new tokens.
    pub token_provider: T,
    /// The maximum number of topics for any connection (Twitch's limit: 50).
    pub max_topics_per_connection: usize,
    /// How many connections may be opened at the same time (the permits of the
    /// connection rate limiter).
    pub connection_permits: usize,
    /// Seconds until the permit for a new connection is given back.
    pub new_connection_every_secs: u64,
    /// Seconds until a connection attempt is aborted.
    pub connect_timeout_secs: u64,
}

impl<T> ClientConfig<T> {
    /// Creates a new config with the token provider and the defaults: 50 topics
    /// per connection, one connection opened at a time, a new connection every
    /// 2 s, and a connection timeout of 20 s.
    pub fn new(token_provider: T) -> (r: ClientConfig<T>)
        ensures
            r.token_provider == token_provider,
            r.max_topics_per_connection == 50,
            r.connection_permits == 1,
            r.new_connection_every_secs == 2,
            r.connect_timeout_secs == 20,
    {
        ClientConfig {
            token_provider,
            max_topics_per_connection: 50,
            connection_permits: 1,
            new_connection_every_secs: 2,
            connect_timeout_secs: 20,
        }
    }
}

} // verus!
