//! Requests, and how much of them a stream of bytes holds.
use crate::headers::{
    field_tokens, field_value, has_header_token, header_list, header_value, new_headers,
    parse_headers, parsed_fields, set_line_limit,
};
use crate::text::{lower, parse_usize, usize_value};
use rhymessage::MessageHeaders;
use rhymuweb::Request;
use vstd::prelude::*;

verus! {

/// Declares the request, which is filled by parsing it.
#[verifier::external_type_specification]
#[verifier::external_body]
pub struct ExRequest(rhymuweb::Request);

/// The length to which the parser of requests restricts the lines of the
/// header fields.
pub const FIELD_LINE_LIMIT: usize = 1000;

/// The number of bytes to which the parser of requests restricts a request.
pub const REQUEST_SIZE_LIMIT: usize = 10_000_000;

/// The bytes which a request has been parsed from so far.
pub uninterp spec fn parsed_bytes(request: rhymuweb::Request) -> Seq<u8>;

/// The bytes which a request was last given to be parsed from, but which it did
/// not take up.  It has to be given them again, with what comes after them.
pub uninterp spec fn unread_bytes(request: rhymuweb::Request) -> Seq<u8>;

/// What a new request makes of the bytes that a client sent since its previous
/// request, when it is given all of them at once: an error where they cannot
/// begin a request; else whether they begin with a whole request, and how many
/// of them are taken up.
pub uninterp spec fn parse_outcome(stream: Seq<u8>) -> Result<(bool, nat), rhymuweb::Error>;

/// The segments of the path of the resource that a request asks for.
pub uninterp spec fn target_path(message: Seq<u8>) -> Seq<Seq<u8>>;

/// Whether the bytes may be the beginning of a request, but do not begin with
/// a whole one.
pub open spec fn is_partial(stream: Seq<u8>) -> bool {
    parse_outcome(stream) matches Ok((false, _))
}

/// Whether the bytes are one whole request and nothing else.  That they are,
/// whatever follows them, and none of their shorter beginnings is one.
pub open spec fn is_request(message: Seq<u8>) -> bool {
    &&& head_length(message) is Some
    &&& forall|more: Seq<u8>| #[trigger]
        parse_outcome(message + more) == Ok::<(bool, nat), rhymuweb::Error>((true, message.len()))
    &&& forall|count: int|
        0 <= count < message.len() ==> !(#[trigger] parse_outcome(message.take(count)) matches Ok(
            (true, _),
        ))
}

/// The length of the first line without the carriage return and line feed that
/// end it.
pub open spec fn line_length(stream: Seq<u8>) -> Option<nat>
    decreases stream.len(),
{
    if stream.len() < 2 {
        None
    } else if stream[0] == 13 && stream[1] == 10 {
        Some(0)
    } else {
        match line_length(stream.skip(1)) {
            Some(length) => Some(length + 1),
            None => None,
        }
    }
}

/// The length of the head of a request, which is all of it up to the end of
/// the first line that is empty but for the first line.
pub open spec fn head_length(stream: Seq<u8>) -> Option<nat>
    decreases stream.len(),
{
    if stream.len() < 4 {
        None
    } else if stream[0] == 13 && stream[1] == 10 && stream[2] == 13 && stream[3] == 10 {
        Some(4)
    } else {
        match head_length(stream.skip(1)) {
            Some(length) => Some(length + 1),
            None => None,
        }
    }
}

/// The head of a request.
pub open spec fn request_head(stream: Seq<u8>) -> Seq<u8> {
    stream.take(head_length(stream)->0 as int)
}

/// The first line of the head of a request, with what ends it.
pub open spec fn request_line(head: Seq<u8>) -> Seq<u8> {
    head.take((line_length(head)->0 + 2) as int)
}

/// The lines of the head of a request after its first, which hold the header
/// fields.
pub open spec fn field_lines(head: Seq<u8>) -> Seq<u8> {
    head.skip((line_length(head)->0 + 2) as int)
}

/// Whether the head of a request announces a body so long that the length of
/// the head and that of the body together are no `usize`, and nothing before
/// that makes the parser refuse the request.
pub open spec fn head_overflows(head: Seq<u8>) -> bool {
    &&& head.len() <= REQUEST_SIZE_LIMIT
    &&& parse_outcome(request_line(head)) is Ok
    &&& parsed_fields(field_lines(head), Some(FIELD_LINE_LIMIT)) matches Some(fields)
    &&& field_value(fields, "Content-Length"@) matches Some(value)
    &&& usize_value(value) matches Some(length)
    &&& head.len() + length > usize::MAX
}

/// Whether the bytes begin with such a head.
pub open spec fn stream_overflows(stream: Seq<u8>) -> bool {
    head_length(stream) is Some && head_overflows(request_head(stream))
}

/// The header fields of a request.
pub open spec fn request_fields(message: Seq<u8>) -> Seq<(Seq<char>, Seq<char>)> {
    parsed_fields(field_lines(request_head(message)), Some(FIELD_LINE_LIMIT))->0
}

/// Whether a request asks for the connection to be closed after the response
/// to it.
pub open spec fn asks_to_close(message: Seq<u8>) -> bool {
    field_tokens(request_fields(message), "Connection"@).contains("close"@)
}

/// Calls `Request::new`, which gives a request of which nothing is parsed yet.
#[verifier::external_body]
pub(crate) fn new_request() -> (request: Request)
    ensures
        parsed_bytes(request) == Seq::<u8>::empty(),
        unread_bytes(request) == Seq::<u8>::empty(),
        is_partial(parsed_bytes(request)),
{
    Request::new()
}

/// Calls `Request::parse`, which takes up as many of the given bytes as it
/// can, and tells whether the request is whole now and how many bytes that
/// were.  It looks ahead: a header field is taken up only when the whole line
/// after it is there.  So it has to be given the bytes again that it left
/// unread the last time.  Then it makes of the bytes that it has taken up and of
/// these what a new request would make of all of them at once.
///
/// It overflows, and panics, on a head that announces too long a body.
#[verifier::external_body]
pub(crate) fn parse_request(request: &mut Request, input: &Vec<u8>) -> (results: Result<
    (bool, usize),
    rhymuweb::Error,
>)
    requires
        is_partial(parsed_bytes(*old(request))),
        unread_bytes(*old(request)).is_prefix_of(input@),
        !stream_overflows(parsed_bytes(*old(request)) + input@),
    ensures
        parse_outcome(parsed_bytes(*old(request)) + input@) == match results {
            Ok((complete, consumed)) => Ok(
                (complete, parsed_bytes(*old(request)).len() + consumed as nat),
            ),
            Err(error) => Err::<(bool, nat), rhymuweb::Error>(error),
        },
        results matches Ok((complete, consumed)) ==> {
            &&& consumed <= input.len()
            &&& parsed_bytes(*final(request)) == parsed_bytes(*old(request)) + input@.take(
                consumed as int,
            )
            &&& unread_bytes(*final(request)) == input@.skip(consumed as int)
            &&& if complete {
                is_request(parsed_bytes(*final(request)))
            } else {
                is_partial(parsed_bytes(*final(request)))
            }
        },
{
    request.parse(input).map(
        |results|
            (
                match results.status {
                    rhymuweb::RequestParseStatus::Complete => true,
                    rhymuweb::RequestParseStatus::Incomplete => false,
                },
                results.consumed,
            ),
    )
}

/// Reads the header fields of a request.  They are those that
/// `MessageHeaders::parse` reads from the lines of its head after the first,
/// none longer than the parser of requests admits.
#[verifier::external_body]
pub(crate) fn request_headers(request: &Request) -> (headers: &MessageHeaders)
    requires
        is_request(parsed_bytes(*request)),
    ensures
        parsed_fields(field_lines(request_head(parsed_bytes(*request))), Some(FIELD_LINE_LIMIT))
            == Some(header_list(*headers)),
{
    &request.headers
}

/// Calls `Uri::path`, which gives the segments of the path of the resource
/// that a request asks for.
#[verifier::external_body]
pub(crate) fn request_path(request: &Request) -> (path: &Vec<Vec<u8>>)
    requires
        is_request(parsed_bytes(*request)),
    ensures
        path.deep_view() == target_path(parsed_bytes(*request)),
{
    request.target.path()
}

/// A head stays what it is when more follows it.
pub proof fn lemma_head_prefix(stream: Seq<u8>, more: Seq<u8>)
    requires
        head_length(stream) is Some,
    ensures
        4 <= head_length(stream)->0 <= stream.len(),
        head_length(stream + more) == head_length(stream),
        request_head(stream + more) == request_head(stream),
    decreases stream.len(),
{
    if stream[0] == 13 && stream[1] == 10 && stream[2] == 13 && stream[3] == 10 {
    } else {
        lemma_head_prefix(stream.skip(1), more);
        assert((stream + more).skip(1) =~= stream.skip(1) + more);
    }
    assert(request_head(stream + more) =~= request_head(stream));
}

/// The first line of a head ends before the empty line does, and is no head.
pub proof fn lemma_request_line(head: Seq<u8>)
    requires
        head_length(head) is Some,
    ensures
        line_length(head) is Some,
        line_length(head)->0 + 4 <= head.len(),
        head_length(request_line(head)) is None,
    decreases head.len(),
{
    lemma_head_prefix(head, Seq::empty());
    if head[0] == 13 && head[1] == 10 {
    } else {
        let rest = head.skip(1);
        lemma_request_line(rest);
        assert(request_line(head).skip(1) =~= request_line(rest));
    }
}

/// A stream as long as its head is that head.
pub proof fn lemma_head_of_head(stream: Seq<u8>)
    requires
        head_length(stream) is Some,
    ensures
        head_length(request_head(stream)) == Some(request_head(stream).len()),
        request_head(stream).len() == head_length(stream)->0,
    decreases stream.len(),
{
    lemma_head_prefix(stream, Seq::empty());
    if stream[0] == 13 && stream[1] == 10 && stream[2] == 13 && stream[3] == 10 {
    } else {
        lemma_head_of_head(stream.skip(1));
        assert(request_head(stream).skip(1) =~= request_head(stream.skip(1)));
    }
}

/// A request stays what it is when more follows it.
pub proof fn lemma_request_prefix(message: Seq<u8>, more: Seq<u8>)
    requires
        is_request(message),
    ensures
        parse_outcome(message + more) == Ok::<(bool, nat), rhymuweb::Error>((true, message.len())),
        stream_overflows(message + more) == stream_overflows(message),
{
    lemma_head_prefix(message, more);
}

/// Whether a carriage return and a line feed end there.
pub open spec fn ends_line(stream: Seq<u8>, end: int) -> bool {
    2 <= end <= stream.len() && stream[end - 2] == 13 && stream[end - 1] == 10
}

/// Whether the first carriage return with a line feed after it ends there.
pub open spec fn ends_first_line(stream: Seq<u8>, end: int) -> bool {
    ends_line(stream, end) && forall|other: int| other < end ==> !ends_line(stream, other)
}

/// Whether the first two ends of lines without anything between them end
/// there.
pub open spec fn ends_head(stream: Seq<u8>, end: int) -> bool {
    &&& ends_line(stream, end)
    &&& ends_line(stream, end - 2)
    &&& forall|other: int|
        other < end ==> !(#[trigger] ends_line(stream, other) && ends_line(stream, other - 2))
}

/// The length of the first line tells where it ends.
pub proof fn lemma_first_line(stream: Seq<u8>, end: int)
    ensures
        line_length(stream) matches Some(length) ==> ends_first_line(stream, length as int + 2),
        ends_first_line(stream, end) ==> line_length(stream) == Some((end - 2) as nat),
    decreases stream.len(),
{
    let rest = stream.skip(1);
    if stream.len() < 2 {
    } else if stream[0] == 13 && stream[1] == 10 {
        assert(ends_line(stream, 2));
    } else {
        assert(!ends_line(stream, 2));
        lemma_first_line(rest, end - 1);
        assert forall|other: int| other > 2 implies ends_line(stream, other) == #[trigger] ends_line(
            rest,
            other - 1,
        ) by {}
        if line_length(rest) is Some {
            let length = line_length(rest)->0 as int;
            assert(ends_line(stream, length + 3) == ends_line(rest, length + 3 - 1));
            assert forall|other: int| other < length + 3 implies !ends_line(stream, other) by {
                if other > 2 {
                    assert(ends_line(stream, other) == ends_line(rest, other - 1));
                }
            }
        }
        if ends_first_line(stream, end) {
            assert(ends_line(stream, end) == ends_line(rest, end - 1));
            assert forall|other: int| other < end - 1 implies !ends_line(rest, other) by {
                if other >= 2 {
                    assert(ends_line(stream, other + 1) == ends_line(rest, other + 1 - 1));
                }
            }
        }
    }
}

/// The length of the head tells where it ends.
pub proof fn lemma_head_end(stream: Seq<u8>, end: int)
    ensures
        head_length(stream) matches Some(length) ==> ends_head(stream, length as int),
        ends_head(stream, end) ==> head_length(stream) == Some(end as nat),
    decreases stream.len(),
{
    let rest = stream.skip(1);
    if stream.len() < 4 {
    } else if stream[0] == 13 && stream[1] == 10 && stream[2] == 13 && stream[3] == 10 {
        assert(ends_line(stream, 4) && ends_line(stream, 2));
    } else {
        assert(!(ends_line(stream, 4) && ends_line(stream, 2)));
        lemma_head_end(rest, end - 1);
        if head_length(rest) is Some {
            let length = head_length(rest)->0 as int;
            assert(ends_line(rest, length) && ends_line(rest, length - 2));
            assert(ends_line(stream, length + 1) && ends_line(stream, length + 1 - 2));
            assert forall|other: int| other < length + 1 implies !(#[trigger] ends_line(
                stream,
                other,
            ) && ends_line(stream, other - 2)) by {
                if other > 4 {
                    assert(ends_line(stream, other) == ends_line(rest, other - 1));
                    assert(ends_line(stream, other - 2) == ends_line(rest, other - 1 - 2));
                }
            }
        }
        if ends_head(stream, end) {
            assert(end > 4);
            assert(ends_line(stream, end) == ends_line(rest, end - 1));
            assert(ends_line(stream, end - 2) == ends_line(rest, end - 1 - 2));
            assert forall|other: int| other < end - 1 implies !(#[trigger] ends_line(rest, other)
                && ends_line(rest, other - 2)) by {
                if other >= 4 {
                    assert(ends_line(stream, other + 1) == ends_line(rest, other));
                    assert(ends_line(stream, other + 1 - 2) == ends_line(rest, other - 2));
                }
            }
        }
    }
}

/// The parts of a head, by where they end.
pub proof fn lemma_head_parts(stream: Seq<u8>, line_end: int, head_end: int)
    requires
        ends_first_line(stream, line_end),
        ends_head(stream, head_end),
    ensures
        head_length(stream) == Some(head_end as nat),
        line_length(request_head(stream)) == Some((line_end - 2) as nat),
        line_end + 2 <= head_end,
        request_line(request_head(stream)) == stream.take(line_end),
        field_lines(request_head(stream)) == stream.subrange(line_end, head_end),
{
    lemma_head_end(stream, head_end);
    assert(ends_line(stream, head_end - 2));
    let head = request_head(stream);
    assert forall|other: int| other <= head_end implies ends_line(head, other) == ends_line(
        stream,
        other,
    ) by {}
    assert(ends_first_line(head, line_end));
    lemma_first_line(head, line_end);
    assert(request_line(head) =~= stream.take(line_end));
    assert(field_lines(head) =~= stream.subrange(line_end, head_end));
}

/// Finds the end of the first line.
fn find_line_end(stream: &Vec<u8>) -> (end: Option<usize>)
    ensures
        match end {
            Some(end) => line_length(stream@) == Some(end as nat) && end + 2 <= stream.len(),
            None => line_length(stream@) is None,
        },
{
    let mut start: usize = 0;
    assert(stream@.skip(0) =~= stream@);
    while stream.len() - start >= 2
        invariant
            start <= stream.len(),
            line_length(stream@) == match line_length(stream@.skip(start as int)) {
                Some(length) => Some((start + length) as nat),
                None => None,
            },
        decreases stream.len() - start,
    {
        if stream[start] == 13 && stream[start + 1] == 10 {
            return Some(start);
        }
        assert(stream@.skip(start as int).skip(1) =~= stream@.skip(start + 1));
        start = start + 1;
    }
    None
}

/// Finds the end of the head of a request.
pub(crate) fn find_head_end(stream: &Vec<u8>) -> (end: Option<usize>)
    ensures
        match end {
            Some(end) => head_length(stream@) == Some(end as nat) && end <= stream.len(),
            None => head_length(stream@) is None,
        },
{
    let mut start: usize = 0;
    assert(stream@.skip(0) =~= stream@);
    while stream.len() - start >= 4
        invariant
            start <= stream.len(),
            head_length(stream@) == match head_length(stream@.skip(start as int)) {
                Some(length) => Some((start + length) as nat),
                None => None,
            },
        decreases stream.len() - start,
    {
        if stream[start] == 13 && stream[start + 1] == 10 && stream[start + 2] == 13
            && stream[start + 3] == 10 {
            return Some(start + 4);
        }
        assert(stream@.skip(start as int).skip(1) =~= stream@.skip(start + 1));
        start = start + 1;
    }
    None
}

/// Tells whether the "Content-Length" of a request, if it has one, is a number
/// that makes its size with that of its head no `usize`.
pub fn exceeds_count(head_length: usize, content_length: Option<String>) -> (exceeds: bool)
    ensures
        exceeds == (content_length matches Some(text) && usize_value(text@) matches Some(length)
            && head_length + length > usize::MAX),
{
    match content_length {
        Some(text) => match parse_usize(text.as_str()) {
            Some(length) => length > usize::MAX - head_length,
            None => false,
        },
        None => false,
    }
}

/// Tells whether the head of a request announces too long a body.
pub(crate) fn check_head(head: &Vec<u8>) -> (overflows: bool)
    requires
        head_length(head@) == Some(head@.len()),
    ensures
        overflows == head_overflows(head@),
{
    proof {
        lemma_request_line(head@);
    }
    if head.len() > REQUEST_SIZE_LIMIT {
        return false;
    }
    let end: usize = match find_line_end(head) {
        Some(end) => end + 2,
        None => return false,
    };
    let mut headers = new_headers();
    set_line_limit(&mut headers, FIELD_LINE_LIMIT);
    let mut line: Vec<u8> = Vec::new();
    line.extend_from_slice(head.as_slice());
    let lines = line.split_off(end);
    assert(line@ =~= request_line(head@));
    assert(lines@ =~= field_lines(head@));
    if !parse_headers(&mut headers, &lines) {
        return false;
    }
    if !exceeds_count(head.len(), header_value(&headers, "Content-Length")) {
        return false;
    }
    let mut request = new_request();
    assert(parsed_bytes(request) + line@ =~= line@);
    match parse_request(&mut request, &line) {
        Ok(_) => true,
        Err(_) => false,
    }
}

/// Tells whether a request asks for the connection to be closed after the
/// response to it.
pub(crate) fn check_close(request: &Request) -> (close: bool)
    requires
        is_request(parsed_bytes(*request)),
    ensures
        close == asks_to_close(parsed_bytes(*request)),
{
    proof {
        reveal_strlit("close");
    }
    assert(lower("close"@) =~= "close"@);
    has_header_token(request_headers(request), "Connection", "close")
}

} // verus!
