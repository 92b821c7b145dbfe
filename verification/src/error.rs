//! The errors that the server reports.
use rhymuweb::Error as MessageError;
use vstd::prelude::*;

verus! {

/// Declares the errors of input and output, which are passed on unread.
#[verifier::external_type_specification]
#[verifier::external_body]
pub struct ExIoError(std::io::Error);

/// Declares the errors of the parser of requests and of the generator of
/// responses, which are passed on unread.
#[verifier::external_type_specification]
#[verifier::external_body]
pub struct ExMessageError(MessageError);

/// This is the enumeration of all the different kinds of errors which this
/// crate generates.  A function which wraps connections fails with errors of a
/// type of its own.
#[derive(Debug)]
pub enum Error<E = String> {
    /// The server cannot be started because it's already running.
    AlreadyStarted,
    /// The server cannot be stopped because it's not running.
    AlreadyStopped,
    /// The client sent something which is not an HTTP request.
    BadRequest(MessageError),
    /// A resource handler gave a response which cannot be put into text.
    BadResponse(MessageError),
    /// The server could not bind or listen to the transport layer port.
    Bind(std::io::Error),
    /// The function which wraps new connections failed.
    ConnectionWrapper(E),
    /// The client closed its end of the connection.
    Disconnected,
    /// No more of a request could be received.
    UnableToReceive(std::io::Error),
    /// The response could not be sent.
    UnableToSend(std::io::Error),
}

/// What the errors say.
pub open spec fn error_text<E>(error: Error<E>) -> Seq<char> {
    match error {
        Error::AlreadyStarted => "cannot start the server because it's already running"@,
        Error::AlreadyStopped => "cannot stop the server because it's not running"@,
        Error::BadRequest(_) => "bad request received from the client"@,
        Error::BadResponse(_) => "unable to generate the response to the client"@,
        Error::Bind(_) => "unable to bind or listen to the transport layer port"@,
        Error::ConnectionWrapper(_) => "unable to wrap the connection"@,
        Error::Disconnected => "the client disconnected"@,
        Error::UnableToReceive(_) => "unable to receive from the client"@,
        Error::UnableToSend(_) => "unable to send to the client"@,
    }
}

impl<E> Error<E> {
    /// Says what is wrong.
    pub fn to_text(&self) -> (text: String)
        ensures
            text@ == error_text(*self),
    {
        let text: &str = match self {
            Error::AlreadyStarted => "cannot start the server because it's already running",
            Error::AlreadyStopped => "cannot stop the server because it's not running",
            Error::BadRequest(_) => "bad request received from the client",
            Error::BadResponse(_) => "unable to generate the response to the client",
            Error::Bind(_) => "unable to bind or listen to the transport layer port",
            Error::ConnectionWrapper(_) => "unable to wrap the connection",
            Error::Disconnected => "the client disconnected",
            Error::UnableToReceive(_) => "unable to receive from the client",
            Error::UnableToSend(_) => "unable to send to the client",
        };
        text.to_owned()
    }
}

} // verus!
