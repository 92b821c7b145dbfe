//! Responses, and what the server adds to those which resource handlers give.
use crate::error::Error;
use crate::headers::{
    field_tokens, has_field, has_header, header_list, header_tokens, leaves_room, line_limit,
    new_headers, set_field, set_header,
};
use crate::text::{contains_text, decimal, decimal_text, join, join_with};
use rhymessage::MessageHeaders;
use vstd::prelude::*;
use vstd::utf8::encode_utf8;

verus! {

/// The status code of a response which upgrades the connection to another
/// protocol.
pub const SWITCHING_PROTOCOLS: usize = 101;

/// An HTTP response.
pub struct Response {
    /// The numeric code of the result.
    pub status_code: usize,
    /// The description of the result.
    pub reason_phrase: String,
    /// The header fields.
    pub headers: MessageHeaders,
    /// The bytes of the body.
    pub body: Vec<u8>,
}

/// The lines of header fields whose length is restricted, each folded where it
/// is longer than that; an error where one cannot be folded.
pub uninterp spec fn folded_lines(
    fields: Seq<(Seq<char>, Seq<char>)>,
    limit: usize,
) -> Result<Seq<u8>, rhymuweb::Error>;

/// The first line of a response.
pub open spec fn status_line(status_code: nat, reason_phrase: Seq<char>) -> Seq<char> {
    "HTTP/1.1 "@ + decimal(status_code) + " "@ + reason_phrase + "\r\n"@
}

/// The lines of header fields, without the empty line after them.
pub open spec fn plain_lines(fields: Seq<(Seq<char>, Seq<char>)>) -> Seq<char>
    decreases fields.len(),
{
    if fields.len() == 0 {
        Seq::empty()
    } else {
        plain_lines(fields.drop_last()) + fields.last().0 + ": "@ + fields.last().1 + "\r\n"@
    }
}

/// The lines of header fields, with the empty line after them.
pub open spec fn field_text(
    fields: Seq<(Seq<char>, Seq<char>)>,
    limit: Option<usize>,
) -> Result<Seq<u8>, rhymuweb::Error> {
    match limit {
        None => Ok(encode_utf8(plain_lines(fields) + "\r\n"@)),
        Some(limit) => folded_lines(fields, limit),
    }
}

/// Whether the response is to tell the length of its body.  It does not if a
/// transfer encoding tells where the body ends.  It does if there is a body, or
/// if the connection will be used for another request.
pub open spec fn tells_length(
    fields: Seq<(Seq<char>, Seq<char>)>,
    status_code: nat,
    body_length: nat,
    close: bool,
) -> bool {
    &&& !has_field(fields, "Transfer-Encoding"@)
    &&& body_length > 0 || (!close && status_code != SWITCHING_PROTOCOLS)
}

/// The fields of a response with the name of the server.
pub open spec fn with_server(
    fields: Seq<(Seq<char>, Seq<char>)>,
    server_info: Seq<char>,
) -> Seq<(Seq<char>, Seq<char>)> {
    set_field(fields, "Server"@, server_info)
}

/// The fields of a response with the length of its body, where it is to tell
/// that.
pub open spec fn with_length(
    fields: Seq<(Seq<char>, Seq<char>)>,
    status_code: nat,
    body_length: nat,
    close: bool,
) -> Seq<(Seq<char>, Seq<char>)> {
    if tells_length(fields, status_code, body_length, close) {
        set_field(fields, "Content-Length"@, decimal(body_length))
    } else {
        fields
    }
}

/// The fields of a response which tells the client, if it does not do so
/// anyway, that the connection will be closed, where that is so.
pub open spec fn with_close(fields: Seq<(Seq<char>, Seq<char>)>, close: bool) -> Seq<
    (Seq<char>, Seq<char>),
> {
    let tokens = field_tokens(fields, "Connection"@);
    if close && !tokens.contains("close"@) {
        set_field(fields, "Connection"@, join_with(tokens.push("close"@), ", "@))
    } else {
        fields
    }
}

/// The fields of a response with all that the server adds to them.
pub open spec fn finished_fields(
    fields: Seq<(Seq<char>, Seq<char>)>,
    status_code: nat,
    body_length: nat,
    server_info: Seq<char>,
    close: bool,
) -> Seq<(Seq<char>, Seq<char>)> {
    with_close(
        with_length(with_server(fields, server_info), status_code, body_length, close),
        close,
    )
}

/// The text of a response with all that the server adds to it; an error where
/// its lines are restricted and cannot be folded.
pub open spec fn response_text(
    status_code: nat,
    reason_phrase: Seq<char>,
    fields: Seq<(Seq<char>, Seq<char>)>,
    limit: Option<usize>,
    body: Seq<u8>,
    server_info: Seq<char>,
    close: bool,
) -> Result<Seq<u8>, rhymuweb::Error> {
    let finished = finished_fields(fields, status_code, body.len(), server_info, close);
    match field_text(finished, limit) {
        Ok(lines) => Ok(encode_utf8(status_line(status_code, reason_phrase)) + lines + body),
        Err(error) => Err(error),
    }
}

/// Calls `generate` of the `Response` of `rhymuweb`, which puts a response
/// into text.  How it folds lines that are longer than a limit, or with which
/// error it fails to, depends on nothing but the fields and the limit.  A limit which does not even leave
/// room for the end of a line makes it overflow.
#[verifier::external_body]
fn generate(response: Response) -> (text: Result<Vec<u8>, rhymuweb::Error>)
    requires
        leaves_room(line_limit(response.headers)),
    ensures
        match line_limit(response.headers) {
            None => text matches Ok(text) && text@ == encode_utf8(
                status_line(response.status_code as nat, response.reason_phrase@),
            ) + encode_utf8(plain_lines(header_list(response.headers)) + "\r\n"@)
                + response.body@,
            Some(limit) => match folded_lines(header_list(response.headers), limit) {
                Ok(lines) => text matches Ok(text) && text@ == encode_utf8(
                    status_line(response.status_code as nat, response.reason_phrase@),
                ) + lines + response.body@,
                Err(error) => text == Err::<Vec<u8>, rhymuweb::Error>(error),
            },
        },
{
    let mut message = rhymuweb::Response::new();
    message.status_code = response.status_code;
    message.reason_phrase = response.reason_phrase.into();
    message.headers = response.headers;
    message.body = response.body;
    message.generate()
}

/// Takes the text of a response, or the error for want of it.
pub fn after_generate(text: Result<Vec<u8>, rhymuweb::Error>) -> (result: Result<Vec<u8>, Error>)
    ensures
        result == match text {
            Ok(text) => Ok::<Vec<u8>, Error>(text),
            Err(error) => Err(Error::BadResponse(error)),
        },
{
    match text {
        Ok(text) => Ok(text),
        Err(error) => Err(Error::BadResponse(error)),
    }
}

impl Response {
    /// Whether this is the response for a resource which no handler is
    /// registered for.
    pub open spec fn is_not_found(&self) -> bool {
        &&& self.status_code == 404
        &&& self.reason_phrase@ == "Not Found"@
        &&& header_list(self.headers) == Seq::<(Seq<char>, Seq<char>)>::empty()
        &&& line_limit(self.headers) is None
        &&& self.body@ == Seq::<u8>::empty()
    }

    /// Makes the response for a resource which no handler is registered for.
    pub fn not_found() -> (response: Self)
        ensures
            response.is_not_found(),
    {
        Response {
            status_code: 404,
            reason_phrase: "Not Found".to_owned(),
            headers: new_headers(),
            body: Vec::new(),
        }
    }

    /// The fields of the response with all that the server adds to them.
    pub open spec fn finished(&self, server_info: Seq<char>, close: bool) -> Seq<
        (Seq<char>, Seq<char>),
    > {
        finished_fields(
            header_list(self.headers),
            self.status_code as nat,
            self.body@.len(),
            server_info,
            close,
        )
    }

    /// The text of the response with all that the server adds to it.
    pub open spec fn text(&self, server_info: Seq<char>, close: bool) -> Result<
        Seq<u8>,
        rhymuweb::Error,
    > {
        response_text(
            self.status_code as nat,
            self.reason_phrase@,
            header_list(self.headers),
            line_limit(self.headers),
            self.body@,
            server_info,
            close,
        )
    }

    /// Adds the name of the server, the length of the body, and that the
    /// connection will be closed.
    pub fn finish(self, server_info: &str, close: bool) -> (response: Self)
        ensures
            response.status_code == self.status_code,
            response.reason_phrase == self.reason_phrase,
            response.body == self.body,
            header_list(response.headers) == self.finished(server_info@, close),
            line_limit(response.headers) == line_limit(self.headers),
    {
        let Response { status_code, reason_phrase, mut headers, body } = self;
        set_header(&mut headers, "Server", server_info.to_owned());
        if !has_header(&headers, "Transfer-Encoding") && (body.len() > 0 || (!close && status_code
            != SWITCHING_PROTOCOLS)) {
            set_header(&mut headers, "Content-Length", decimal_text(body.len()));
        }
        if close {
            let mut tokens = header_tokens(&headers, "Connection");
            if !contains_text(&tokens, "close") {
                let ghost before = tokens.deep_view();
                tokens.push("close".to_owned());
                assert(tokens.deep_view() =~= before.push("close"@));
                set_header(&mut headers, "Connection", join(&tokens, ", "));
            }
        }
        Response { status_code, reason_phrase, headers, body }
    }

    /// Puts the response, with all that the server adds to it, into text.
    pub fn into_text(self, server_info: &str, close: bool) -> (text: Result<Vec<u8>, Error>)
        requires
            leaves_room(line_limit(self.headers)),
        ensures
            match self.text(server_info@, close) {
                Ok(expected) => text matches Ok(text) && text@ == expected,
                Err(error) => text == Err::<Vec<u8>, Error>(Error::BadResponse(error)),
            },
    {
        after_generate(generate(self.finish(server_info, close)))
    }
}

} // verus!
