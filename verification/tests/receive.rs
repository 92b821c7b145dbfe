use rhymuweb::Request;
use rhymuweb_server::error::Error;
use rhymuweb_server::receive::{after_parse, Received, RequestReceiver, RECEIVE_SIZE};
use rhymuweb_server::request::exceeds_count;

fn feed(receiver: RequestReceiver, text: &str) -> Result<Received, Error> {
    receiver.receive(Ok(text.as_bytes().to_vec()))
}

fn feed_more(received: Result<Received, Error>, text: &str) -> Result<Received, Error> {
    match received {
        Ok(Received::Incomplete(receiver)) => feed(receiver, text),
        _ => panic!("the request was expected to be incomplete"),
    }
}

fn complete(received: Result<Received, Error>) -> (Request, Vec<u8>) {
    match received {
        Ok(Received::Complete(request, left_over)) => (request, left_over),
        _ => panic!("the request was expected to be complete"),
    }
}

#[test]
fn room_is_made_for_64_kib() {
    assert_eq!(65536, RECEIVE_SIZE);
}

#[test]
fn whole_request_at_once() {
    let receiver = RequestReceiver::new(vec![]);
    let (request, left_over) =
        complete(feed(receiver, "GET /foo HTTP/1.1\r\nHost: example.com\r\n\r\n"));
    assert_eq!("GET", request.method);
    assert_eq!(&vec![b"".to_vec(), b"foo".to_vec()], request.target.path());
    assert_eq!(Some("example.com".to_string()), request.headers.header_value("Host"));
    assert!(left_over.is_empty());
}

#[test]
fn request_byte_by_byte() {
    let text = "POST / HTTP/1.1\r\nContent-Length: 3\r\nX: y\r\n\r\nabc";
    let mut received = Ok(Received::Incomplete(RequestReceiver::new(vec![])));
    for byte in text.bytes() {
        received = match received {
            Ok(Received::Incomplete(receiver)) => receiver.receive(Ok(vec![byte])),
            _ => panic!("the request ended early"),
        };
    }
    let (request, left_over) = complete(received);
    assert_eq!("POST", request.method);
    assert_eq!(b"abc".to_vec(), request.body);
    assert_eq!(Some("y".to_string()), request.headers.header_value("X"));
    assert!(left_over.is_empty());
}

#[test]
fn pieces_do_not_matter() {
    let text = "POST /a/b HTTP/1.1\r\nContent-Length: 3\r\nA: b,\r\n c\r\n\r\nabcGET";
    for middle in 1..text.len() - 5 {
        let receiver = RequestReceiver::new(vec![]);
        let first = feed(receiver, &text[..middle]);
        let (request, left_over) = complete(feed_more(first, &text[middle..]));
        assert_eq!(b"abc".to_vec(), request.body);
        assert_eq!(Some("b, c".to_string()), request.headers.header_value("A"));
        assert_eq!(b"GET".to_vec(), left_over);
    }
}

#[test]
fn cuts_do_not_matter() {
    let request = "POST /a/b HTTP/1.1\r\nContent-Length: 3\r\nA: b,\r\n c\r\n\r\nabc";
    let text = format!("{}GET /next HTTP/1.1\r\n\r\n", request);
    for size in 1..text.len() + 1 {
        let mut received = Ok(Received::Incomplete(RequestReceiver::new(vec![])));
        let mut read = 0;
        while let Ok(Received::Incomplete(receiver)) = received {
            let end = std::cmp::min(read + size, text.len());
            received = feed(receiver, &text[read..end]);
            read = end;
        }
        let (message, left_over) = complete(received);
        assert_eq!("POST", message.method);
        assert_eq!("/a/b", message.target.to_string());
        assert_eq!(b"abc".to_vec(), message.body);
        assert_eq!(Some("b, c".to_string()), message.headers.header_value("A"));
        assert_eq!(text[request.len()..read].as_bytes().to_vec(), left_over);
    }
}

#[test]
fn field_may_go_on_in_next_piece() {
    let first = feed(RequestReceiver::new(vec![]), "GET / HTTP/1.1\r\nA: b\r\nC: d\r\n");
    let (request, left_over) = complete(feed_more(first, " f\r\n\r\n"));
    assert_eq!(Some("b".to_string()), request.headers.header_value("A"));
    assert_eq!(Some("d f".to_string()), request.headers.header_value("C"));
    assert!(left_over.is_empty());
}

#[test]
fn longest_line_is_not_to_be_cut_within_its_end() {
    let line = format!("X: {}", "x".repeat(995));
    let text = format!("GET / HTTP/1.1\r\n{}\r\n\r\n", line);
    let middle = text.len() - 3;
    complete(feed(RequestReceiver::new(vec![]), &text));
    complete(feed_more(
        feed(RequestReceiver::new(vec![]), &text[..middle - 1]),
        &text[middle - 1..],
    ));
    assert!(matches!(
        feed(RequestReceiver::new(vec![]), &text[..middle]),
        Err(Error::BadRequest(rhymuweb::Error::Headers(_)))
    ));
}

#[test]
fn error_is_the_same_in_pieces() {
    let text = "GET / HTTP/1.1\r\nA: b\r\nno field\r\n\r\n";
    let bad_line = |received: Result<Received, Error>| match received {
        Err(Error::BadRequest(rhymuweb::Error::Headers(
            rhymessage::Error::HeaderLineMissingColon(line),
        ))) => line,
        _ => panic!("the line was expected to be refused"),
    };
    assert_eq!("no field", bad_line(feed(RequestReceiver::new(vec![]), text)));
    for middle in 1..text.len() - 4 {
        let first = feed(RequestReceiver::new(vec![]), &text[..middle]);
        assert_eq!("no field", bad_line(feed_more(first, &text[middle..])));
    }
}

#[test]
fn left_over_begins_next_request() {
    let receiver = RequestReceiver::new(vec![]);
    let (first, left_over) =
        complete(feed(receiver, "GET /1 HTTP/1.1\r\n\r\nGET /2 HTTP/1.1\r\n\r"));
    assert_eq!("/1", first.target.to_string());
    assert_eq!(b"GET /2 HTTP/1.1\r\n\r".to_vec(), left_over);
    let (second, left_over) = complete(feed(RequestReceiver::new(left_over), "\nGET"));
    assert_eq!("/2", second.target.to_string());
    assert_eq!(b"GET".to_vec(), left_over);
}

#[test]
fn end_of_connection() {
    let receiver = RequestReceiver::new(b"GET ".to_vec());
    assert!(matches!(receiver.receive(Ok(vec![])), Err(Error::Disconnected)));
}

#[test]
fn error_of_connection() {
    let receiver = RequestReceiver::new(vec![]);
    let error = std::io::Error::new(std::io::ErrorKind::Other, "broken");
    match receiver.receive(Err(error)) {
        Err(Error::UnableToReceive(error)) => assert_eq!("broken", error.to_string()),
        _ => panic!("the error was expected to be passed on"),
    }
}

#[test]
fn no_request() {
    let receiver = RequestReceiver::new(vec![]);
    assert!(matches!(
        feed(receiver, "HELLO\r\n"),
        Err(Error::BadRequest(rhymuweb::Error::RequestLineNoMethodDelimiter(_)))
    ));
    let receiver = RequestReceiver::new(vec![]);
    let first = feed(receiver, "GET / HTTP/1.1\r\nno colon\r\n");
    assert!(matches!(first, Err(Error::BadRequest(rhymuweb::Error::Headers(_)))));
}

#[test]
fn request_too_long() {
    let receiver = RequestReceiver::new(vec![]);
    assert!(matches!(
        feed(receiver, "POST / HTTP/1.1\r\nContent-Length: 10000001\r\n\r\n"),
        Err(Error::BadRequest(rhymuweb::Error::MessageTooLong))
    ));
}

#[test]
fn length_beyond_usize() {
    let receiver = RequestReceiver::new(vec![]);
    assert!(matches!(
        feed(receiver, "POST / HTTP/1.1\r\nContent-Length: 18446744073709551616\r\n\r\n"),
        Err(Error::BadRequest(rhymuweb::Error::InvalidContentLength(_)))
    ));
}

#[test]
fn size_beyond_count() {
    let texts = [
        format!("POST / HTTP/1.1\r\nContent-Length: {}\r\n\r\n", usize::MAX),
        format!("POST / HTTP/1.1\r\ncontent-length: +00{}\r\n\r\nmore", usize::MAX - 50),
        format!("POST / HTTP/1.1\r\nA: b\r\nContent-Length:\r\n {}\r\n\r\n", usize::MAX),
    ];
    for text in &texts {
        for middle in 1..text.len() - 8 {
            let receiver = RequestReceiver::new(vec![]);
            let first = feed(receiver, &text[..middle]);
            assert!(matches!(feed_more(first, &text[middle..]), Ok(Received::Overflow)));
        }
        let receiver = RequestReceiver::new(text[..text.len() - 1].as_bytes().to_vec());
        assert!(matches!(feed(receiver, &text[text.len() - 1..]), Ok(Received::Overflow)));
    }
}

#[test]
fn size_beyond_count_by_one() {
    let head = |length: usize| format!("POST / HTTP/1.1\r\nContent-Length: {}\r\n\r\n", length);
    let size = head(usize::MAX).len();
    assert_eq!(size, head(usize::MAX - size).len());
    assert!(matches!(
        feed(RequestReceiver::new(vec![]), &head(usize::MAX - size)),
        Err(Error::BadRequest(rhymuweb::Error::MessageTooLong))
    ));
    assert!(matches!(
        feed(RequestReceiver::new(vec![]), &head(usize::MAX - size + 1)),
        Ok(Received::Overflow)
    ));
}

#[test]
fn other_faults_come_before_size() {
    let length = format!("Content-Length: {}\r\n", usize::MAX);
    let texts = [
        format!("POST / HTTP/1.0\r\n{}\r\n", length),
        format!("\r\n{}\r\n", length),
        format!("POST / HTTP/1.1\r\n{}no colon\r\n\r\n", length),
        format!("POST / HTTP/1.1\r\n{}{}\r\n", length, length),
        format!("POST / HTTP/1.1\r\n{}X: {}\r\n\r\n", length, "y".repeat(1000)),
    ];
    for text in &texts {
        assert!(matches!(
            feed(RequestReceiver::new(vec![]), text),
            Err(Error::BadRequest(_))
        ));
    }
}

#[test]
fn large_numbers_elsewhere_are_harmless() {
    let text = format!("GET / HTTP/1.1\r\nX-Id: {}\r\n\r\n", usize::MAX);
    let (request, _) = complete(feed(RequestReceiver::new(vec![]), &text));
    assert_eq!(Some(usize::MAX.to_string()), request.headers.header_value("X-Id"));
}

#[test]
fn consumed_bytes_are_dropped() {
    match after_parse(b"abcdef".to_vec(), Ok((false, 2))) {
        Ok((complete, rest)) => {
            assert!(!complete);
            assert_eq!(b"cdef".to_vec(), rest);
        },
        Err(_) => panic!("there was no error"),
    }
    match after_parse(b"abcdef".to_vec(), Ok((true, 6))) {
        Ok((complete, rest)) => {
            assert!(complete);
            assert!(rest.is_empty());
        },
        Err(_) => panic!("there was no error"),
    }
    assert!(matches!(
        after_parse(b"abcdef".to_vec(), Err(rhymuweb::Error::MessageTooLong)),
        Err(Error::BadRequest(rhymuweb::Error::MessageTooLong))
    ));
}

#[test]
fn count_of_size() {
    assert!(!exceeds_count(10, None));
    assert!(!exceeds_count(10, Some("no number".to_string())));
    assert!(!exceeds_count(10, Some((usize::MAX - 10).to_string())));
    assert!(exceeds_count(10, Some((usize::MAX - 9).to_string())));
}
