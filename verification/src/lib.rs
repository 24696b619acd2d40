//! Connect to Twitch PubSub: the bookkeeping of a connection pool whose
//! decisions are verified, with the I/O around it left to the caller.
pub mod event_loop;
pub mod util;
pub mod seq_util;
pub mod handler;
pub mod response;
pub mod pubsub;
pub mod error;
pub mod external;
pub mod wire;
pub mod message;
pub mod config;
pub mod client;
pub mod connection;
pub mod worker;
pub mod token_provider;
pub mod providers;

pub use event_loop::EventLoopAction;
pub use config::ClientConfig;
pub use error::ClientError;
pub use message::{ConnectionClosed, ListenError, ParseError, ServerMessage};
pub use pubsub::{PubSubCommand, PubSubEvent, PubSubHandler};
pub use token_provider::TokenProvider;
