use rhymessage::{Header, MessageHeaders};
use rhymuweb_server::error::Error;
use rhymuweb_server::response::{after_generate, Response, SWITCHING_PROTOCOLS};

fn response(status_code: usize, fields: &[(&str, &str)], body: &str) -> Response {
    let mut headers = MessageHeaders::new();
    for (name, value) in fields {
        headers.add_header(Header { name: (*name).into(), value: value.to_string() });
    }
    Response {
        status_code,
        reason_phrase: "Reason".to_string(),
        headers,
        body: body.as_bytes().to_vec(),
    }
}

fn fields(response: &Response) -> Vec<(String, String)> {
    response
        .headers
        .headers()
        .iter()
        .map(|field| (field.name.to_string(), field.value.clone()))
        .collect()
}

fn finished(
    status_code: usize,
    before: &[(&str, &str)],
    body: &str,
    close: bool,
) -> Vec<(String, String)> {
    fields(&response(status_code, before, body).finish("jeeves", close))
}

fn owned(fields: &[(&str, &str)]) -> Vec<(String, String)> {
    fields.iter().map(|(name, value)| (name.to_string(), value.to_string())).collect()
}

#[test]
fn server_and_length_are_added() {
    assert_eq!(
        owned(&[("Content-Type", "text/plain"), ("Server", "jeeves"), ("Content-Length", "13")]),
        finished(200, &[("Content-Type", "text/plain")], "Hello, World!", false)
    );
}

#[test]
fn rest_of_response_is_kept() {
    let response = response(201, &[], "abc").finish("jeeves", true);
    assert_eq!(201, response.status_code);
    assert_eq!("Reason", response.reason_phrase);
    assert_eq!(b"abc".to_vec(), response.body);
}

#[test]
fn fields_of_same_name_are_replaced() {
    assert_eq!(
        owned(&[("sErVeR", "jeeves"), ("A", "1"), ("B", "2"), ("content-length", "1"), ("C", "3")]),
        finished(
            200,
            &[
                ("sErVeR", "x"),
                ("A", "1"),
                ("Server", "y"),
                ("B", "2"),
                ("content-length", "77"),
                ("SERVER", "z"),
                ("C", "3"),
            ],
            "a",
            false
        )
    );
}

#[test]
fn length_of_empty_body_is_told_where_connection_is_used_again() {
    assert_eq!(owned(&[("Server", "jeeves"), ("Content-Length", "0")]), finished(200, &[], "", false));
    assert_eq!(
        owned(&[("Server", "jeeves"), ("Connection", "close")]),
        finished(200, &[], "", true)
    );
    assert_eq!(101, SWITCHING_PROTOCOLS);
    assert_eq!(owned(&[("Server", "jeeves")]), finished(101, &[], "", false));
    assert_eq!(
        owned(&[("Server", "jeeves"), ("Content-Length", "2")]),
        finished(101, &[], "ab", false)
    );
}

#[test]
fn length_is_not_told_with_transfer_encoding() {
    assert_eq!(
        owned(&[("transfer-encoding", "chunked"), ("Server", "jeeves")]),
        finished(200, &[("transfer-encoding", "chunked")], "0\r\n\r\n", false)
    );
}

#[test]
fn close_is_told() {
    assert_eq!(
        owned(&[("Server", "jeeves"), ("Content-Length", "1"), ("Connection", "close")]),
        finished(200, &[], "a", true)
    );
    assert_eq!(
        owned(&[("connection", "upgrade, , te, close"), ("Server", "jeeves")]),
        finished(
            200,
            &[("connection", "Upgrade,,"), ("CONNECTION", "\u{2003}TE\t,")],
            "",
            true
        )
    );
}

#[test]
fn close_is_not_told_twice() {
    let before = [("Connection", "keep-alive"), ("Connection", " CLOSE ")];
    let mut expected = owned(&before);
    expected.push(("Server".to_string(), "jeeves".to_string()));
    assert_eq!(expected, finished(200, &before, "", true));
}

#[test]
fn close_is_not_told_where_connection_stays_open() {
    assert_eq!(
        owned(&[("Connection", "keep-alive"), ("Server", "jeeves"), ("Content-Length", "0")]),
        finished(200, &[("Connection", "keep-alive")], "", false)
    );
}

#[test]
fn told_close_is_read_back() {
    let response = response(200, &[("Connection", "a , B")], "").finish("jeeves", true);
    assert_eq!(vec!["a", "b", "close"], response.headers.header_tokens("Connection"));
    assert!(response.headers.has_header_token("Connection", "Close"));
}

#[test]
fn told_length_is_read_back() {
    let response = response(200, &[("Content-Length", "1"), ("Content-Length", "2")], "abcd")
        .finish("jeeves", false);
    let value = response.headers.header_value("Content-Length");
    assert_eq!(Some(4), value.and_then(|value| value.parse::<usize>().ok()));
}

#[test]
fn other_fields_are_kept() {
    let before = [("A", "1"), ("Set-Cookie", "x"), ("set-cookie", "y"), ("Server", "old")];
    let response = response(200, &before, "abcd").finish("jeeves", true);
    assert_eq!(vec!["x", "y"], response.headers.header_multi_value("Set-Cookie"));
    assert_eq!(vec!["1"], response.headers.header_multi_value("a"));
    assert_eq!(vec!["jeeves"], response.headers.header_multi_value("server"));
}

#[test]
fn text_of_response() {
    let text = response(200, &[("Content-Type", "text/plain; charset=utf-8")], "Hello, World!")
        .into_text("jeeves", false);
    assert_eq!(
        Some(
            format!(
                "{}{}{}{}{}{}",
                "HTTP/1.1 200 Reason\r\n",
                "Content-Type: text/plain; charset=utf-8\r\n",
                "Server: jeeves\r\n",
                "Content-Length: 13\r\n",
                "\r\n",
                "Hello, World!"
            )
            .into_bytes()
        ),
        text.ok()
    );
}

#[test]
fn text_beyond_ascii() {
    let mut response = response(7, &[], "");
    response.reason_phrase = "Übel".to_string();
    response.body = vec![0, 255];
    let mut expected =
        "HTTP/1.1 7 Übel\r\nServer: é\r\nContent-Length: 2\r\n\r\n".as_bytes().to_vec();
    expected.extend([0, 255]);
    assert_eq!(Some(expected), response.into_text("é", false).ok());
}

#[test]
fn text_of_not_found() {
    assert_eq!(
        Some(b"HTTP/1.1 404 Not Found\r\nServer: s\r\nContent-Length: 0\r\n\r\n".to_vec()),
        Response::not_found().into_text("s", false).ok()
    );
    assert_eq!(
        Some(b"HTTP/1.1 404 Not Found\r\nServer: s\r\nConnection: close\r\n\r\n".to_vec()),
        Response::not_found().into_text("s", true).ok()
    );
}

#[test]
fn lines_are_folded() {
    let mut response = response(200, &[("A", "bbbb cccc dddd")], "");
    response.headers.set_line_limit(Some(22));
    assert_eq!(
        Some(
            b"HTTP/1.1 200 Reason\r\nA: bbbb cccc dddd\r\nServer: j\r\nContent-Length: 0\r\n\r\n"
                .to_vec()
        ),
        response.into_text("j", false).ok()
    );
    let mut response = self::response(200, &[("A", "bbbb cccc dddd eeee ffff")], "");
    response.headers.set_line_limit(Some(22));
    assert_eq!(
        Some(
            b"HTTP/1.1 200 Reason\r\nA: bbbb cccc dddd\r\n eeee ffff\r\nServer: j\r\nContent-Length: 0\r\n\r\n"
                .to_vec()
        ),
        response.into_text("j", false).ok()
    );
}

#[test]
fn lines_that_cannot_be_folded() {
    let mut response = response(200, &[("A", "bbbbbbbbbbbbbbbbbbbbbbbbbbbbbbbb")], "");
    response.headers.set_line_limit(Some(22));
    assert!(matches!(
        response.into_text("j", false),
        Err(Error::BadResponse(rhymuweb::Error::Headers(
            rhymessage::Error::HeaderLineCouldNotBeFolded(_)
        )))
    ));
}

#[test]
fn result_of_generator() {
    assert!(matches!(after_generate(Ok(vec![1, 2])), Ok(text) if text == vec![1, 2]));
    assert!(matches!(
        after_generate(Err(rhymuweb::Error::MessageTooLong)),
        Err(Error::BadResponse(rhymuweb::Error::MessageTooLong))
    ));
}
