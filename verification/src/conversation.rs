//! All that happens on a connection, from its beginning.
use crate::connection::{after_read, after_response, after_writing, Waiting};
use crate::receive::{reception, Reception};
use crate::request::asks_to_close;
use crate::response::{Response, SWITCHING_PROTOCOLS};
use vstd::prelude::*;

verus! {

/// What comes to a connection from outside.
pub enum Event {
    /// Bytes which were read from the connection, or none if the client closed
    /// its end.
    Read(Seq<u8>),
    /// A response to the request, be it of a handler or for want of one.
    Response(Response),
    /// The text of the response was written to the connection.
    Written,
    /// The connection could not be read from or written to.
    Broken,
}

/// What has happened on a connection.
pub struct Conversation {
    /// What the server says of itself in responses.
    pub server_info: Seq<char>,
    /// The bytes that were read.
    pub read: Seq<u8>,
    /// The requests that were received, in that order.
    pub requests: Seq<Seq<u8>>,
    /// The responses that were given, in that order.
    pub responses: Seq<Response>,
    /// The texts that were written, in that order.
    pub written: Seq<Seq<u8>>,
    /// What is waited for.
    pub waiting: Waiting,
}

/// Whether a connection is done with when the response to the request has been
/// written.
pub open spec fn is_last(request: Seq<u8>, response: Response) -> bool {
    asks_to_close(request) || response.status_code == SWITCHING_PROTOCOLS
}

impl Conversation {
    /// Nothing has happened yet.
    pub open spec fn new(server_info: Seq<char>) -> Self {
        Conversation {
            server_info,
            read: Seq::empty(),
            requests: Seq::empty(),
            responses: Seq::empty(),
            written: Seq::empty(),
            waiting: Waiting::Request { stream: Seq::empty() },
        }
    }

    /// What has happened after one more event.  One that is not waited for does
    /// not come.
    pub open spec fn after(self, event: Event) -> Self {
        match (self.waiting, event) {
            (Waiting::Request { stream }, Event::Read(bytes)) => Conversation {
                read: self.read + bytes,
                requests: match reception(stream + bytes) {
                    Reception::Complete(length) if bytes.len() > 0 => self.requests.push(
                        (stream + bytes).take(length as int),
                    ),
                    _ => self.requests,
                },
                waiting: after_read(stream, bytes),
                ..self
            },
            (Waiting::Response { close, left_over }, Event::Response(response)) => Conversation {
                responses: self.responses.push(response),
                waiting: after_response(self.server_info, close, left_over, response),
                ..self
            },
            (
                Waiting::Writing { close, status_code, text, left_over },
                Event::Written,
            ) => Conversation {
                written: self.written.push(text),
                waiting: after_writing(close, status_code, left_over),
                ..self
            },
            (Waiting::Request { .. }, Event::Broken) => Conversation {
                waiting: Waiting::Failed,
                ..self
            },
            (Waiting::Writing { .. }, Event::Broken) => Conversation {
                waiting: Waiting::Failed,
                ..self
            },
            _ => self,
        }
    }

    /// What has happened after all the events.
    pub open spec fn after_all(self, events: Seq<Event>) -> Self
        decreases events.len(),
    {
        if events.len() == 0 {
            self
        } else {
            self.after_all(events.drop_last()).after(events.last())
        }
    }
}

} // verus!
