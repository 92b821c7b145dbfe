use rhymessage::MessageHeaders;
use rhymuweb_server::accept::{Accepted, Accepter};
use rhymuweb_server::connection::{dispatch, Handling, Next, Receiving, Reply, Step, LINGER_SECONDS};
use rhymuweb_server::error::Error;
use rhymuweb_server::handlers::Handlers;
use rhymuweb_server::messages::{handle_message, start_listening, MessageStep, WorkerMessage};
use rhymuweb_server::processors::{ProcessorKind, Processors};
use rhymuweb_server::response::Response;

fn path(segments: &[&str]) -> Vec<Vec<u8>> {
    segments.iter().map(|segment| segment.as_bytes().to_vec()).collect()
}

fn greeting(status_code: usize) -> Response {
    let mut headers = MessageHeaders::new();
    headers.set_header("Content-Type", "text/plain; charset=utf-8");
    Response {
        status_code,
        reason_phrase: "OK".to_string(),
        headers,
        body: b"Hello, World!".to_vec(),
    }
}

fn handlers() -> Handlers<u32> {
    let mut handlers = Handlers::new();
    handlers.insert(path(&["", "foo"]), 1);
    handlers.insert(path(&["", "bar", ""]), 2);
    handlers
}

fn receiving() -> Receiving {
    Receiving::new("jeeves".to_string())
}

#[test]
fn handlers_are_found_by_path() {
    let mut handlers = handlers();
    assert_eq!(Some(&1), handlers.get(&path(&["", "foo"])));
    assert_eq!(Some(&2), handlers.get(&path(&["", "bar", ""])));
    assert_eq!(None, handlers.get(&path(&["", "bar"])));
    assert_eq!(None, handlers.get(&path(&["foo"])));
    assert_eq!(None, handlers.get(&path(&[])));
    handlers.insert(path(&["", "foo"]), 3);
    handlers.insert(path(&[]), 4);
    assert_eq!(Some(&3), handlers.get(&path(&["", "foo"])));
    assert_eq!(Some(&2), handlers.get(&path(&["", "bar", ""])));
    assert_eq!(Some(&4), handlers.get(&path(&[])));
}

#[test]
fn greeting_is_served() {
    let handlers = handlers();
    let step = receiving().received(Ok(b"GET /foo HTTP/1.1\r\n\r\nGET /b".to_vec()), &handlers);
    let (request, handling) = match step {
        Ok(Step::Handle(handler, request, handling)) => {
            assert_eq!(1, *handler);
            (request, handling)
        },
        _ => panic!("the handler was expected to be called"),
    };
    assert_eq!("GET", request.method);
    let sending = match handling.respond(greeting(200), None::<u8>) {
        Ok(Reply::Send(text, sending)) => {
            assert_eq!(
                b"HTTP/1.1 200 OK\r\nContent-Type: text/plain; charset=utf-8\r\nServer: jeeves\r\nContent-Length: 13\r\n\r\nHello, World!".to_vec(),
                text
            );
            sending
        },
        _ => panic!("the response was expected to be sent"),
    };
    let receiving = match sending.sent(Ok(())) {
        Ok(Next::Receive(receiving)) => receiving,
        _ => panic!("the connection was expected to be used again"),
    };
    match receiving.received(Ok(b"ar/ HTTP/1.1\r\n\r\n".to_vec()), &handlers) {
        Ok(Step::Handle(handler, _, _)) => assert_eq!(2, *handler),
        _ => panic!("the other handler was expected to be called"),
    }
}

#[test]
fn request_comes_in_pieces() {
    let handlers = handlers();
    let receiving = match receiving().received(Ok(b"GET /fo".to_vec()), &handlers) {
        Ok(Step::Receive(receiving)) => receiving,
        _ => panic!("more of the request was expected to be received"),
    };
    assert!(matches!(
        receiving.received(Ok(b"o HTTP/1.1\r\n\r\n".to_vec()), &handlers),
        Ok(Step::Handle(1, _, _))
    ));
}

#[test]
fn unknown_resource_is_not_found() {
    let handlers = handlers();
    match receiving().received(Ok(b"GET /nope HTTP/1.1\r\n\r\nGET /foo".to_vec()), &handlers) {
        Ok(Step::Respond(request, response, handling)) => {
            assert_eq!("/nope", request.target.to_string());
            assert_eq!(404, response.status_code);
            assert_eq!("Not Found", response.reason_phrase);
            assert!(response.headers.headers().is_empty());
            assert!(response.body.is_empty());
            match handling.respond(response, None::<u8>) {
                Ok(Reply::Send(text, sending)) => {
                    assert_eq!(
                        b"HTTP/1.1 404 Not Found\r\nServer: jeeves\r\nContent-Length: 0\r\n\r\n"
                            .to_vec(),
                        text
                    );
                    match sending.sent(Ok(())) {
                        Ok(Next::Receive(receiving)) => assert!(matches!(
                            receiving.received(Ok(b" HTTP/1.1\r\n\r\n".to_vec()), &handlers),
                            Ok(Step::Handle(1, _, _))
                        )),
                        _ => panic!("the connection was expected to be used again"),
                    }
                },
                _ => panic!("the response was expected to be sent"),
            }
        },
        _ => panic!("the request was expected to be responded to"),
    }
}

#[test]
fn connection_is_closed_when_asked_for() {
    let handlers = handlers();
    let request = b"GET /nope HTTP/1.1\r\nConnection: TE, Close\r\n\r\n".to_vec();
    match receiving().received(Ok(request), &handlers) {
        Ok(Step::Respond(_, response, handling)) => match handling.respond(response, Some(9)) {
            Ok(Reply::Send(text, sending)) => {
                assert_eq!(
                    b"HTTP/1.1 404 Not Found\r\nServer: jeeves\r\nConnection: close\r\n\r\n"
                        .to_vec(),
                    text
                );
                assert!(matches!(sending.sent(Ok(())), Ok(Next::Linger)));
            },
            _ => panic!("the response was expected to be sent"),
        },
        _ => panic!("the request was expected to be responded to"),
    }
    assert_eq!(5, LINGER_SECONDS);
}

#[test]
fn requests_are_answered_in_order() {
    let handlers = handlers();
    let mut bytes = b"GET /foo HTTP/1.1\r\n\r\nGET /nope HTTP/1.1\r\n\r\nGET /bar/ HTTP/1.1\r\nConnection: close\r\n\r\nGE".to_vec();
    let last = bytes.split_off(bytes.len() - 3);
    // The next request is taken up with the next read, however little that
    // brings.
    let mut reads = vec![bytes, b"\n".to_vec(), b"G".to_vec(), last].into_iter();
    let mut waiting = Some(receiving());
    let mut answers = vec![];
    while let Some(receiving) = waiting.take() {
        let read = reads.next().expect("the connection was expected to be closed");
        let (response, handling) = match receiving.received(Ok(read), &handlers) {
            Ok(Step::Receive(receiving)) => {
                waiting = Some(receiving);
                continue;
            },
            Ok(Step::Handle(handler, request, handling)) => {
                answers.push((request.target.to_string(), *handler));
                (greeting(200), handling)
            },
            Ok(Step::Respond(request, response, handling)) => {
                answers.push((request.target.to_string(), 0));
                (response, handling)
            },
            _ => panic!("the request was expected to be answered"),
        };
        match handling.respond(response, None::<u8>) {
            Ok(Reply::Send(_, sending)) => match sending.sent(Ok(())) {
                Ok(Next::Receive(receiving)) => waiting = Some(receiving),
                Ok(Next::Linger) => (),
                _ => panic!("the connection was expected to be used again or closed"),
            },
            _ => panic!("the response was expected to be sent"),
        }
    }
    assert_eq!(
        vec![("/foo".to_string(), 1), ("/nope".to_string(), 0), ("/bar/".to_string(), 2)],
        answers
    );
}

#[test]
fn connection_stays_open_when_close_is_named_elsewhere() {
    let handlers = handlers();
    let request = b"GET /foo HTTP/1.1\r\nConnection: closed\r\nX: close\r\n\r\n".to_vec();
    match receiving().received(Ok(request), &handlers) {
        Ok(Step::Handle(_, _, handling)) => match handling.respond(greeting(200), None::<u8>) {
            Ok(Reply::Send(_, sending)) => assert!(matches!(sending.sent(Ok(())), Ok(Next::Receive(_)))),
            _ => panic!("the response was expected to be sent"),
        },
        _ => panic!("the handler was expected to be called"),
    }
}

#[test]
fn connection_is_upgraded() {
    let handling = Handling::new("jeeves".to_string(), false, vec![]);
    match handling.respond(greeting(101), Some(9)) {
        Ok(Reply::Send(_, sending)) => assert!(matches!(sending.sent(Ok(())), Ok(Next::Upgrade(Some(9))))),
        _ => panic!("the response was expected to be sent"),
    }
}

#[test]
fn close_comes_before_upgrade() {
    let handling = Handling::new("jeeves".to_string(), true, vec![]);
    match handling.respond(greeting(101), Some(9)) {
        Ok(Reply::Send(_, sending)) => assert!(matches!(sending.sent(Ok(())), Ok(Next::Linger))),
        _ => panic!("the response was expected to be sent"),
    }
}

#[test]
fn connection_fails() {
    let handlers = handlers();
    let broken = || std::io::Error::new(std::io::ErrorKind::Other, "broken");
    assert!(matches!(
        receiving().received(Err(broken()), &handlers),
        Err(Error::UnableToReceive(_))
    ));
    assert!(matches!(receiving().received(Ok(vec![]), &handlers), Err(Error::Disconnected)));
    assert!(matches!(
        receiving().received(Ok(b"GET\r\n".to_vec()), &handlers),
        Err(Error::BadRequest(_))
    ));
    let handling = Handling::new("jeeves".to_string(), true, vec![]);
    match handling.respond(greeting(200), None::<u8>) {
        Ok(Reply::Send(_, sending)) => match sending.sent(Err(broken())) {
            Err(Error::UnableToSend(error)) => assert_eq!("broken", error.to_string()),
            _ => panic!("the error was expected to be passed on"),
        },
        _ => panic!("the response was expected to be sent"),
    }
}

#[test]
fn response_fails() {
    let mut response = greeting(200);
    response.headers.set_line_limit(Some(10));
    let handling = Handling::new("jeeves".to_string(), false, vec![]);
    assert!(matches!(handling.respond(response, None::<u8>), Err(Error::BadResponse(_))));
}

#[test]
fn lines_of_response_have_no_room() {
    for limit in [0, 1] {
        let mut response = greeting(200);
        response.headers.set_line_limit(Some(limit));
        let handling = Handling::new("jeeves".to_string(), false, vec![]);
        assert!(matches!(handling.respond(response, None::<u8>), Ok(Reply::Overflow)));
    }
    let mut response = greeting(200);
    response.headers.set_line_limit(Some(2));
    let handling = Handling::new("jeeves".to_string(), false, vec![]);
    assert!(matches!(handling.respond(response, None::<u8>), Err(Error::BadResponse(_))));
}

#[test]
fn size_of_request_is_beyond_count() {
    let handlers = handlers();
    let request = format!("POST /foo HTTP/1.1\r\nContent-Length: {}\r\n\r\n", usize::MAX);
    assert!(matches!(
        receiving().received(Ok(request.into_bytes()), &handlers),
        Ok(Step::Overflow)
    ));
}

#[test]
fn request_is_dispatched() {
    let handling = || Handling::new("jeeves".to_string(), false, vec![]);
    let request = rhymuweb::Request::new();
    assert!(matches!(dispatch(Some(&7), request, handling()), Step::Handle(7, _, _)));
    let request = rhymuweb::Request::new();
    match dispatch::<u32>(None, request, handling()) {
        Step::Respond(_, response, _) => assert_eq!(404, response.status_code),
        _ => panic!("the request was expected to be responded to"),
    }
}

#[test]
fn connections_are_accepted_and_wrapped() {
    let mut accepter: Accepter<&str, &str> = Accepter::new();
    assert_eq!(None, accepter.listen());
    accepter.start("listener", "wrapper");
    for connection in 0..3 {
        assert_eq!(Some("listener"), accepter.listen());
        assert_eq!(None, accepter.listen());
        match accepter.accepted("listener", connection) {
            Accepted::Wrap(wrapper, wrapped) => {
                assert_eq!("wrapper", wrapper);
                assert_eq!(connection, wrapped);
            },
            Accepted::Ready(_) => panic!("the connection was expected to be wrapped"),
        }
        assert!(matches!(accepter.wrapped("wrapper", Ok::<_, u8>(connection)), Ok(c) if c == connection));
    }
}

#[test]
fn connection_is_passed_on_without_wrapper() {
    let mut accepter: Accepter<&str, &str> = Accepter::new();
    assert!(matches!(accepter.accepted("listener", 1), Accepted::Ready(1)));
    assert_eq!(Some("listener"), accepter.listen());
}

#[test]
fn wrapper_fails() {
    let mut accepter: Accepter<&str, &str> = Accepter::new();
    accepter.start("listener", "wrapper");
    accepter.listen();
    assert!(matches!(accepter.accepted("listener", 1), Accepted::Wrap("wrapper", 1)));
    let failed: Result<i32, Error> = accepter.wrapped("wrapper", Err("no".to_string()));
    assert!(matches!(failed, Err(Error::ConnectionWrapper(text)) if text == "no"));
    assert_eq!(Some("listener"), accepter.listen());
    assert!(matches!(accepter.accepted("listener", 2), Accepted::Wrap("wrapper", 2)));
    let broken = std::io::Error::new(std::io::ErrorKind::Other, "broken");
    match accepter.wrapped("wrapper", Err::<i32, _>(broken)) {
        Err(Error::ConnectionWrapper(error)) => {
            assert_eq!(std::io::ErrorKind::Other, error.kind());
        },
        _ => panic!("the error was expected to be passed on"),
    }
}

#[test]
fn new_listener_replaces_old() {
    let mut accepter: Accepter<&str, &str> = Accepter::new();
    accepter.start("old", "old wrapper");
    accepter.listen();
    accepter.start("new", "new wrapper");
    assert!(matches!(accepter.accepted("old", 1), Accepted::Wrap("new wrapper", 1)));
    assert_eq!(Some("new"), accepter.listen());
    accepter.start("newer", "newer wrapper");
    assert_eq!(Some("newer"), accepter.listen());
}

#[test]
fn there_is_always_a_processor_for_the_next_connection() {
    let processors = Processors::new("receiver");
    let (receiver, processors) = processors.next_receiver();
    assert_eq!(Some("receiver"), receiver);
    let (connection, processors) = processors.completed(ProcessorKind::Receiver("receiver", 1));
    assert_eq!(Some(1), connection);
    let (receiver, processors) = processors.next_receiver();
    assert_eq!(Some("receiver"), receiver);
    let (connection, processors) = processors.completed::<i32>(ProcessorKind::Connection);
    assert_eq!(None, connection);
    let (receiver, processors) = processors.next_receiver();
    assert_eq!(None, receiver);
    let (connection, processors) = processors.completed(ProcessorKind::Receiver("receiver", 2));
    assert_eq!(Some(2), connection);
    let (receiver, _) = processors.next_receiver();
    assert_eq!(Some("receiver"), receiver);
}

#[test]
fn messages_are_handled() {
    let mut handlers: Handlers<u32> = Handlers::new();
    let register = |handler: u32| WorkerMessage::<&str, &str, &str, u32>::RegisterHandler {
        path: path(&["", "foo"]),
        handler,
    };
    assert!(matches!(handle_message(&mut handlers, register(1)), MessageStep::Done));
    assert!(matches!(handle_message(&mut handlers, register(2)), MessageStep::Done));
    let start = WorkerMessage::StartListening {
        listener: "listener",
        result_sender: "sender",
        connection_wrapper: "wrapper",
    };
    assert!(matches!(
        handle_message(&mut handlers, start),
        MessageStep::Start("listener", "sender", "wrapper")
    ));
    assert_eq!(Some(&2), handlers.get(&path(&["", "foo"])));
    let exit: WorkerMessage<&str, &str, &str, u32> = WorkerMessage::Exit;
    assert!(matches!(handle_message(&mut handlers, exit), MessageStep::Exit));
}

#[test]
fn listener_is_bound_or_not() {
    let message: Result<WorkerMessage<&str, &str, &str, u32>, Error> =
        start_listening(Ok("listener"), "sender", "wrapper");
    assert!(matches!(
        message,
        Ok(WorkerMessage::StartListening {
            listener: "listener",
            result_sender: "sender",
            connection_wrapper: "wrapper",
        })
    ));
    let error = std::io::Error::new(std::io::ErrorKind::AddrInUse, "in use");
    let message: Result<WorkerMessage<&str, &str, &str, u32>, Error> =
        start_listening(Err(error), "sender", "wrapper");
    match message {
        Err(Error::Bind(error)) => assert_eq!("in use", error.to_string()),
        _ => panic!("the error was expected to be passed on"),
    }
}

#[test]
fn errors_say_what_is_wrong() {
    let io = || std::io::Error::new(std::io::ErrorKind::Other, "broken");
    let message = || rhymuweb::Error::MessageTooLong;
    let texts = [
        (Error::AlreadyStarted, "cannot start the server because it's already running"),
        (Error::AlreadyStopped, "cannot stop the server because it's not running"),
        (Error::BadRequest(message()), "bad request received from the client"),
        (Error::BadResponse(message()), "unable to generate the response to the client"),
        (Error::Bind(io()), "unable to bind or listen to the transport layer port"),
        (Error::ConnectionWrapper("x".to_string()), "unable to wrap the connection"),
        (Error::Disconnected, "the client disconnected"),
        (Error::UnableToReceive(io()), "unable to receive from the client"),
        (Error::UnableToSend(io()), "unable to send to the client"),
    ];
    for (error, text) in &texts {
        assert_eq!(*text, error.to_text());
    }
}
