//! What the server does with a connection: receive a request, have it handled,
//! send the response, and begin again or end.
//!
//! Each type here stands for a connection which waits for something from
//! outside, and its methods take what came and say what to do next.
use crate::error::Error;
use crate::handlers::Handlers;
use crate::headers::{check_room, leaves_room, line_limit};
use crate::receive::{reception, Received, Reception, RequestReceiver};
use crate::request::{
    asks_to_close, check_close, is_request, parsed_bytes, request_path, target_path,
};
use crate::response::{Response, SWITCHING_PROTOCOLS};
use rhymuweb::Request;
use vstd::prelude::*;

verus! {

/// The number of seconds for which a connection is held on to after the last
/// response, so that the client receives all of it.
pub const LINGER_SECONDS: u64 = 5;

/// A connection which waits for more of a request.
pub struct Receiving {
    server_info: String,
    receiver: RequestReceiver,
}

/// A connection which waits for the response to a request.
pub struct Handling {
    server_info: String,
    close: bool,
    left_over: Vec<u8>,
}

/// A connection which waits until a response is sent.
pub struct Sending<U> {
    server_info: String,
    close: bool,
    status_code: usize,
    on_upgraded: Option<U>,
    left_over: Vec<u8>,
}

/// What to do when more of a request has come.
pub enum Step<'a, H> {
    /// Read from the connection.
    Receive(Receiving),
    /// Have the handler handle the request.
    Handle(&'a H, Request, Handling),
    /// Respond to the request, which no handler is registered for.
    Respond(Request, Response, Handling),
    /// Panic, as the parser would: the request announces a body whose size is
    /// no number that it can count to.
    Overflow,
}

/// What to do when there is a response.
pub enum Reply<U> {
    /// Write the text to the connection.
    Send(Vec<u8>, Sending<U>),
    /// Panic, as the generator of responses would: the response restricts its
    /// lines to less than what ends a line.
    Overflow,
}

/// What to do when a response has been sent.
pub enum Next<U> {
    /// Hold on to the connection for a while, and close it.
    Linger,
    /// Hand the connection over to the one whom the handler of the request
    /// named for that, or close it if there is none.
    Upgrade(Option<U>),
    /// Read the next request from the connection.
    Receive(Receiving),
}

/// What a connection waits for.
pub enum Waiting {
    /// More of a request, of which the stream is there already.
    Request { stream: Seq<u8> },
    /// The response to a request, after which the connection is to be closed or
    /// not.  The left over bytes came after the request.
    Response { close: bool, left_over: Seq<u8> },
    /// That the text of a response is written.
    Writing { close: bool, status_code: usize, text: Seq<u8>, left_over: Seq<u8> },
    /// Nothing: the connection is done with.
    Ended,
    /// Nothing: something went wrong.
    Failed,
}

/// What a connection waits for when bytes have been read from it after those of
/// the stream.
pub open spec fn after_read(stream: Seq<u8>, bytes: Seq<u8>) -> Waiting {
    let received = stream + bytes;
    if bytes.len() == 0 {
        Waiting::Failed
    } else {
        match reception(received) {
            Reception::Overflow => Waiting::Failed,
            Reception::Invalid(_) => Waiting::Failed,
            Reception::Incomplete => Waiting::Request { stream: received },
            Reception::Complete(length) => Waiting::Response {
                close: asks_to_close(received.take(length as int)),
                left_over: received.skip(length as int),
            },
        }
    }
}

/// What a connection waits for when there is a response to a request.
pub open spec fn after_response(
    server_info: Seq<char>,
    close: bool,
    left_over: Seq<u8>,
    response: Response,
) -> Waiting {
    if !leaves_room(line_limit(response.headers)) {
        Waiting::Failed
    } else {
        match response.text(server_info, close) {
            Ok(text) => Waiting::Writing {
                close,
                status_code: response.status_code,
                text,
                left_over,
            },
            Err(_) => Waiting::Failed,
        }
    }
}

/// What a connection waits for when a response has been written.
pub open spec fn after_writing(close: bool, status_code: usize, left_over: Seq<u8>) -> Waiting {
    if close || status_code == SWITCHING_PROTOCOLS {
        Waiting::Ended
    } else {
        Waiting::Request { stream: left_over }
    }
}

/// What a connection waits for that goes on like that.
pub open spec fn step_waits<'a, H>(step: Result<Step<'a, H>, Error>) -> Waiting {
    match step {
        Ok(Step::Receive(receiving)) => Waiting::Request { stream: receiving.stream() },
        Ok(Step::Handle(_, _, handling)) => Waiting::Response {
            close: handling.close(),
            left_over: handling.left_over(),
        },
        Ok(Step::Respond(_, _, handling)) => Waiting::Response {
            close: handling.close(),
            left_over: handling.left_over(),
        },
        Ok(Step::Overflow) => Waiting::Failed,
        Err(_) => Waiting::Failed,
    }
}

/// What a connection waits for that goes on like that.
pub open spec fn reply_waits<U>(reply: Result<Reply<U>, Error>) -> Waiting {
    match reply {
        Ok(Reply::Send(text, sending)) => Waiting::Writing {
            close: sending.close(),
            status_code: sending.status_code(),
            text: text@,
            left_over: sending.left_over(),
        },
        Ok(Reply::Overflow) => Waiting::Failed,
        Err(_) => Waiting::Failed,
    }
}

/// What a connection waits for that goes on like that.
pub open spec fn next_waits<U>(next: Result<Next<U>, Error>) -> Waiting {
    match next {
        Ok(Next::Linger) => Waiting::Ended,
        Ok(Next::Upgrade(_)) => Waiting::Ended,
        Ok(Next::Receive(receiving)) => Waiting::Request { stream: receiving.stream() },
        Err(_) => Waiting::Failed,
    }
}

impl Receiving {
    /// What the server says of itself in responses.
    pub closed spec fn server_info(&self) -> Seq<char> {
        self.server_info@
    }

    /// The bytes received since the end of the previous request.
    pub closed spec fn stream(&self) -> Seq<u8> {
        self.receiver.stream()
    }

    /// Begins with a new connection.
    pub fn new(server_info: String) -> (receiving: Self)
        ensures
            receiving.server_info() == server_info@,
            receiving.stream() == Seq::<u8>::empty(),
    {
        Receiving { server_info, receiver: RequestReceiver::new(Vec::new()) }
    }

    /// Goes on with what was read from the connection.
    pub fn received<'a, H>(
        self,
        received: Result<Vec<u8>, std::io::Error>,
        handlers: &'a Handlers<H>,
    ) -> (step: Result<Step<'a, H>, Error>)
        ensures
            match received {
                Err(error) => step == Err::<Step<'a, H>, Error>(Error::UnableToReceive(error)),
                Ok(bytes) if bytes@.len() == 0 => step == Err::<Step<'a, H>, Error>(
                    Error::Disconnected,
                ),
                Ok(bytes) => {
                    let stream = self.stream() + bytes@;
                    match reception(stream) {
                        Reception::Overflow => step matches Ok(Step::Overflow),
                        Reception::Invalid(error) => step == Err::<Step<'a, H>, Error>(
                            Error::BadRequest(error),
                        ),
                        Reception::Incomplete => {
                            &&& step matches Ok(Step::Receive(receiving))
                            &&& receiving.server_info() == self.server_info()
                            &&& receiving.stream() == stream
                        },
                        Reception::Complete(length) => {
                            let message = stream.take(length as int);
                            let left_over = stream.skip(length as int);
                            let path = target_path(message);
                            &&& length <= stream.len()
                            &&& is_request(message)
                            &&& if handlers@.contains_key(path) {
                                &&& step matches Ok(Step::Handle(handler, request, handling))
                                &&& *handler == handlers@[path]
                                &&& parsed_bytes(request) == message
                                &&& handling.server_info() == self.server_info()
                                &&& handling.close() == asks_to_close(message)
                                &&& handling.left_over() == left_over
                            } else {
                                &&& step matches Ok(Step::Respond(request, response, handling))
                                &&& response.is_not_found()
                                &&& parsed_bytes(request) == message
                                &&& handling.server_info() == self.server_info()
                                &&& handling.close() == asks_to_close(message)
                                &&& handling.left_over() == left_over
                            }
                        },
                    }
                },
            },
            received matches Ok(bytes) ==> step_waits(step) == after_read(self.stream(), bytes@),
    {
        let Receiving { server_info, receiver } = self;
        match receiver.receive(received) {
            Err(error) => Err(error),
            Ok(Received::Incomplete(receiver)) => {
                Ok(Step::Receive(Receiving { server_info, receiver }))
            },
            Ok(Received::Overflow) => Ok(Step::Overflow),
            Ok(Received::Complete(request, left_over)) => {
                let close = check_close(&request);
                let found = handlers.get(request_path(&request));
                Ok(dispatch(found, request, Handling::new(server_info, close, left_over)))
            },
        }
    }
}

/// Has a request handled by its handler, or responded to where there is none.
pub fn dispatch<'a, H>(handler: Option<&'a H>, request: Request, handling: Handling) -> (step: Step<
    'a,
    H,
>)
    ensures
        match handler {
            Some(handler) => step == Step::Handle(handler, request, handling),
            None => {
                &&& step matches Step::Respond(responded, response, waiting)
                &&& responded == request
                &&& response.is_not_found()
                &&& waiting == handling
            },
        },
{
    match handler {
        Some(handler) => Step::Handle(handler, request, handling),
        None => Step::Respond(request, Response::not_found(), handling),
    }
}

impl Handling {
    /// What the server says of itself in responses.
    pub closed spec fn server_info(&self) -> Seq<char> {
        self.server_info@
    }

    /// Whether the connection is to be closed after the response.
    pub closed spec fn close(&self) -> bool {
        self.close
    }

    /// The bytes received after the end of the request.
    pub closed spec fn left_over(&self) -> Seq<u8> {
        self.left_over@
    }

    /// Begins to wait for the response to a request.
    pub fn new(server_info: String, close: bool, left_over: Vec<u8>) -> (handling: Self)
        ensures
            handling.server_info() == server_info@,
            handling.close() == close,
            handling.left_over() == left_over@,
    {
        Handling { server_info, close, left_over }
    }

    /// Goes on with the response to the request, and with whom to hand the
    /// connection over to if the response upgrades it.
    pub fn respond<U>(self, response: Response, on_upgraded: Option<U>) -> (reply: Result<
        Reply<U>,
        Error,
    >)
        ensures
            if !leaves_room(line_limit(response.headers)) {
                reply matches Ok(Reply::Overflow)
            } else {
                match response.text(self.server_info(), self.close()) {
                    Ok(text) => {
                        &&& reply matches Ok(Reply::Send(sent, sending))
                        &&& sent@ == text
                        &&& sending.server_info() == self.server_info()
                        &&& sending.close() == self.close()
                        &&& sending.status_code() == response.status_code
                        &&& sending.on_upgraded() == on_upgraded
                        &&& sending.left_over() == self.left_over()
                    },
                    Err(error) => reply == Err::<Reply<U>, Error>(Error::BadResponse(error)),
                }
            },
            reply_waits(reply) == after_response(
                self.server_info(),
                self.close(),
                self.left_over(),
                response,
            ),
    {
        let Handling { server_info, close, left_over } = self;
        let Response { status_code, reason_phrase, mut headers, body } = response;
        if !check_room(&mut headers) {
            return Ok(Reply::Overflow);
        }
        let response = Response { status_code, reason_phrase, headers, body };
        match response.into_text(server_info.as_str(), close) {
            Ok(text) => {
                let sending = Sending { server_info, close, status_code, on_upgraded, left_over };
                Ok(Reply::Send(text, sending))
            },
            Err(error) => Err(error),
        }
    }
}

impl<U> Sending<U> {
    /// What the server says of itself in responses.
    pub closed spec fn server_info(&self) -> Seq<char> {
        self.server_info@
    }

    /// Whether the connection is to be closed after the response.
    pub closed spec fn close(&self) -> bool {
        self.close
    }

    /// The status code of the response.
    pub closed spec fn status_code(&self) -> usize {
        self.status_code
    }

    /// Whom to hand the connection over to if the response upgrades it.
    pub closed spec fn on_upgraded(&self) -> Option<U> {
        self.on_upgraded
    }

    /// The bytes received after the end of the request.
    pub closed spec fn left_over(&self) -> Seq<u8> {
        self.left_over@
    }

    /// Goes on when the response has been written to the connection, or could
    /// not be.
    pub fn sent(self, written: Result<(), std::io::Error>) -> (next: Result<Next<U>, Error>)
        ensures
            match written {
                Err(error) => next == Err::<Next<U>, Error>(Error::UnableToSend(error)),
                Ok(()) => if self.close() {
                    next matches Ok(Next::Linger)
                } else if self.status_code() == SWITCHING_PROTOCOLS {
                    next == Ok::<Next<U>, Error>(Next::Upgrade(self.on_upgraded()))
                } else {
                    &&& next matches Ok(Next::Receive(receiving))
                    &&& receiving.server_info() == self.server_info()
                    &&& receiving.stream() == self.left_over()
                },
            },
            written is Ok ==> next_waits(next) == after_writing(
                self.close(),
                self.status_code(),
                self.left_over(),
            ),
    {
        match written {
            Err(error) => Err(Error::UnableToSend(error)),
            Ok(()) => if self.close {
                Ok(Next::Linger)
            } else if self.status_code == SWITCHING_PROTOCOLS {
                Ok(Next::Upgrade(self.on_upgraded))
            } else {
                let Sending { server_info, left_over, .. } = self;
                let receiver = RequestReceiver::new(left_over);
                Ok(Next::Receive(Receiving { server_info, receiver }))
            },
        }
    }
}

} // verus!
