//! The logic of a server for web resources using the Hypertext Transfer
//! Protocol (HTTP), as described in IETF RFC 7230.
//!
//! * [`receive`] puts requests together from the bytes that clients send, with
//!   what [`request`] knows of them.
//! * [`connection`] leads each connection from a request to the response to it
//!   and on to the next request.
//! * [`response`] adds to responses what the server has to say, with what
//!   [`headers`] and [`text`] know of header fields.
//! * [`accept`], [`processors`], [`messages`] and [`handlers`] keep account of
//!   listeners, connections and resource handlers.
//! * [`conversation`] is all that happens on a connection, and [`laws`] states
//!   what holds of all of it together.
pub mod accept;
pub mod connection;
pub mod conversation;
pub mod error;
pub mod handlers;
pub mod headers;
pub mod laws;
pub mod messages;
pub mod processors;
pub mod receive;
pub mod request;
pub mod response;
pub mod text;

pub use accept::{Accepted, Accepter};
pub use connection::{Handling, Next, Receiving, Reply, Sending, Step, LINGER_SECONDS};
pub use error::Error;
pub use handlers::Handlers;
pub use messages::{handle_message, start_listening, MessageStep, WorkerMessage};
pub use processors::{ProcessorKind, Processors};
pub use receive::{Received, RequestReceiver, RECEIVE_SIZE};
pub use response::Response;
