//! The messages to the worker of a server.
use crate::error::Error;
use crate::handlers::Handlers;
use vstd::prelude::*;

verus! {

/// What the worker of a server is told.
pub enum WorkerMessage<L, S, W, H> {
    /// End.
    Exit,
    /// Accept connections from the listener, wrap them with the wrapper, and
    /// tell the sender when that has begun.
    StartListening { listener: L, result_sender: S, connection_wrapper: W },
    /// Have the handler handle the requests for the resource at the path.
    RegisterHandler { path: Vec<Vec<u8>>, handler: H },
}

/// What to do about a message.
pub enum MessageStep<L, S, W> {
    /// End.
    Exit,
    /// Pass the listener and its wrapper on to where connections are accepted,
    /// and tell the sender.
    Start(L, S, W),
    /// Wait for the next message.
    Done,
}

/// The handlers when the worker has been told something.
pub open spec fn handlers_after<L, S, W, H>(
    handlers: Map<Seq<Seq<u8>>, H>,
    message: WorkerMessage<L, S, W, H>,
) -> Map<Seq<Seq<u8>>, H> {
    match message {
        WorkerMessage::RegisterHandler { path, handler } => handlers.insert(
            path.deep_view(),
            handler,
        ),
        _ => handlers,
    }
}

/// The messages that the worker heeds: those before the first that tells it to
/// end.
pub open spec fn heeded<L, S, W, H>(messages: Seq<WorkerMessage<L, S, W, H>>) -> Seq<
    WorkerMessage<L, S, W, H>,
>
    decreases messages.len(),
{
    if messages.len() == 0 || messages[0] is Exit {
        Seq::empty()
    } else {
        seq![messages[0]] + heeded(messages.skip(1))
    }
}

/// The handlers when the worker has heeded all the messages.
pub open spec fn handlers_after_all<L, S, W, H>(
    handlers: Map<Seq<Seq<u8>>, H>,
    messages: Seq<WorkerMessage<L, S, W, H>>,
) -> Map<Seq<Seq<u8>>, H>
    decreases messages.len(),
{
    if messages.len() == 0 {
        handlers
    } else {
        handlers_after(handlers_after_all(handlers, messages.drop_last()), messages.last())
    }
}

/// Makes the message to begin with a listener, unless there was an error
/// binding it to its port.
pub fn start_listening<L, S, W, H>(
    bound: Result<L, std::io::Error>,
    result_sender: S,
    connection_wrapper: W,
) -> (message: Result<WorkerMessage<L, S, W, H>, Error>)
    ensures
        message == match bound {
            Ok(listener) => Ok::<WorkerMessage<L, S, W, H>, Error>(
                WorkerMessage::StartListening { listener, result_sender, connection_wrapper },
            ),
            Err(error) => Err(Error::Bind(error)),
        },
{
    match bound {
        Ok(listener) => Ok(
            WorkerMessage::StartListening { listener, result_sender, connection_wrapper },
        ),
        Err(error) => Err(Error::Bind(error)),
    }
}

/// Does what a message tells the worker, as far as that concerns the handlers.
pub fn handle_message<L, S, W, H>(
    handlers: &mut Handlers<H>,
    message: WorkerMessage<L, S, W, H>,
) -> (step: MessageStep<L, S, W>)
    ensures
        final(handlers)@ == handlers_after(old(handlers)@, message),
        step == match message {
            WorkerMessage::Exit => MessageStep::<L, S, W>::Exit,
            WorkerMessage::StartListening {
                listener,
                result_sender,
                connection_wrapper,
            } => MessageStep::Start(listener, result_sender, connection_wrapper),
            WorkerMessage::RegisterHandler { path, handler } => MessageStep::Done,
        },
{
    match message {
        WorkerMessage::Exit => MessageStep::Exit,
        WorkerMessage::StartListening { listener, result_sender, connection_wrapper } => {
            MessageStep::Start(listener, result_sender, connection_wrapper)
        },
        WorkerMessage::RegisterHandler { path, handler } => {
            handlers.insert(path, handler);
            MessageStep::Done
        },
    }
}

} // verus!
