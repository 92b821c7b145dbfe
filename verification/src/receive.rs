//! Receiving requests from a connection, piece by piece.
use crate::error::Error;
use crate::request::{
    check_head, find_head_end, head_length, is_partial, is_request, lemma_head_of_head,
    lemma_head_prefix, lemma_request_prefix, new_request, parse_outcome, parse_request,
    parsed_bytes, request_head, stream_overflows, unread_bytes,
};
use rhymuweb::Request;
use vstd::prelude::*;

verus! {

/// The number of bytes to make room for when more of a request is read from a
/// connection.
pub const RECEIVE_SIZE: usize = 65536;

/// A request of which some may be received, and some not yet.
pub struct RequestReceiver {
    request: Request,
    // The bytes received but not parsed yet.
    buffer: Vec<u8>,
    // All the bytes received, as long as the head of the request is not found
    // to be harmless.
    head: Option<Vec<u8>>,
}

/// What is known of a request when some more of it has been received.
pub enum Received {
    /// There is more of the request to come.
    Incomplete(RequestReceiver),
    /// The request is here.  With it come the bytes received after its end.
    Complete(Request, Vec<u8>),
    /// The request announces a body so long that its size is no number that
    /// the parser can count to.  The parser has not been asked about it,
    /// because it would panic.
    Overflow,
}

/// What a stream of bytes, from the beginning of a request, is.
pub enum Reception {
    /// It announces a body whose size is no number that the parser can count
    /// to.
    Overflow,
    /// It cannot be the beginning of a request, because of that.
    Invalid(rhymuweb::Error),
    /// It may be the beginning of a request.
    Incomplete,
    /// It begins with a request of that many bytes.
    Complete(nat),
}

/// What a stream of bytes, from the beginning of a request, is.
pub open spec fn reception(stream: Seq<u8>) -> Reception {
    if stream_overflows(stream) {
        Reception::Overflow
    } else {
        match parse_outcome(stream) {
            Err(error) => Reception::Invalid(error),
            Ok((true, length)) if length <= stream.len() => Reception::Complete(length),
            Ok(_) => Reception::Incomplete,
        }
    }
}

/// What a stream of bytes is found to be when it is received in pieces, none of
/// them empty, up to the first after which more of the request is not waited
/// for.
pub open spec fn received_in_pieces(stream: Seq<u8>, pieces: Seq<Seq<u8>>) -> Reception
    decreases pieces.len(),
{
    if pieces.len() == 0 {
        Reception::Incomplete
    } else {
        let received = stream + pieces[0];
        if pieces.len() > 1 && reception(received) is Incomplete {
            received_in_pieces(received, pieces.skip(1))
        } else {
            reception(received)
        }
    }
}

/// The bytes that have been received by then.
pub open spec fn bytes_received(stream: Seq<u8>, pieces: Seq<Seq<u8>>) -> Seq<u8>
    decreases pieces.len(),
{
    if pieces.len() == 0 {
        stream
    } else {
        let received = stream + pieces[0];
        if pieces.len() > 1 && reception(received) is Incomplete {
            bytes_received(received, pieces.skip(1))
        } else {
            received
        }
    }
}

/// Whether the pieces, none of them empty, bring the message, after what was
/// received before them, and are not cut, before its end, where the parser refuses what it has so
/// far.
pub open spec fn brings(stream: Seq<u8>, pieces: Seq<Seq<u8>>, message: Seq<u8>) -> bool {
    &&& pieces.len() > 0
    &&& forall|i: int| 0 <= i < pieces.len() ==> (#[trigger] pieces[i]).len() > 0
    &&& message.is_prefix_of(stream + pieces.flatten())
    &&& forall|count: int|
        {
            let received = #[trigger] (stream + pieces.take(count).flatten());
            0 < count < pieces.len() && received.len() < message.len() ==> !(reception(
                received,
            ) is Invalid)
        }
}

/// The requests, up to that many, which a stream of bytes begins with, and the
/// bytes after them.
pub open spec fn requests_taken(stream: Seq<u8>, count: nat) -> (Seq<Seq<u8>>, Seq<u8>)
    decreases count,
{
    if count == 0 {
        (Seq::empty(), stream)
    } else {
        match reception(stream) {
            Reception::Complete(length) => {
                let (later, rest) = requests_taken(stream.skip(length as int), (count - 1) as nat);
                (seq![stream.take(length as int)] + later, rest)
            },
            _ => (Seq::empty(), stream),
        }
    }
}

/// Drops the bytes that a parser has consumed from those which it was given,
/// and tells whether the request is complete.
pub fn after_parse(
    mut buffer: Vec<u8>,
    results: Result<(bool, usize), rhymuweb::Error>,
) -> (status: Result<(bool, Vec<u8>), Error>)
    requires
        results matches Ok((_, consumed)) ==> consumed <= buffer.len(),
    ensures
        match results {
            Ok((complete, consumed)) => {
                status matches Ok((is_complete, rest)) && is_complete == complete && rest@
                    == buffer@.skip(consumed as int)
            },
            Err(error) => status == Err::<(bool, Vec<u8>), Error>(Error::BadRequest(error)),
        },
{
    match results {
        Ok((complete, consumed)) => {
            let rest = buffer.split_off(consumed);
            Ok((complete, rest))
        },
        Err(error) => Err(Error::BadRequest(error)),
    }
}

impl RequestReceiver {
    /// The bytes received so far, from the beginning of the request.
    pub closed spec fn stream(&self) -> Seq<u8> {
        parsed_bytes(self.request) + self.buffer@
    }

    #[verifier::type_invariant]
    closed spec fn wf(&self) -> bool {
        &&& is_partial(parsed_bytes(self.request))
        &&& unread_bytes(self.request).is_prefix_of(self.buffer@)
        &&& match self.head {
            Some(head) => head@ == self.stream(),
            None => head_length(self.stream()) is Some && !stream_overflows(self.stream()),
        }
    }

    /// Begins to receive a request, given the bytes received after the end of
    /// the one before it.
    pub fn new(left_over: Vec<u8>) -> (receiver: Self)
        ensures
            receiver.stream() == left_over@,
    {
        let request = new_request();
        let mut head: Vec<u8> = Vec::new();
        head.extend_from_slice(left_over.as_slice());
        assert(head@ =~= left_over@);
        assert(parsed_bytes(request) + left_over@ =~= left_over@);
        RequestReceiver { request, buffer: left_over, head: Some(head) }
    }

    /// Goes on with what came from the connection: some more bytes, none where
    /// the client has closed its end, or an error.
    pub fn receive(self, received: Result<Vec<u8>, std::io::Error>) -> (status: Result<
        Received,
        Error,
    >)
        ensures
            match received {
                Err(error) => status == Err::<Received, Error>(Error::UnableToReceive(error)),
                Ok(bytes) if bytes@.len() == 0 => status == Err::<Received, Error>(
                    Error::Disconnected,
                ),
                Ok(bytes) => {
                    let stream = self.stream() + bytes@;
                    match reception(stream) {
                        Reception::Overflow => status matches Ok(Received::Overflow),
                        Reception::Invalid(error) => status == Err::<Received, Error>(
                            Error::BadRequest(error),
                        ),
                        Reception::Incomplete => {
                            &&& status matches Ok(Received::Incomplete(receiver))
                            &&& receiver.stream() == stream
                        },
                        Reception::Complete(length) => {
                            &&& status matches Ok(Received::Complete(request, left_over))
                            &&& length <= stream.len()
                            &&& is_request(parsed_bytes(request))
                            &&& parsed_bytes(request) == stream.take(length as int)
                            &&& left_over@ == stream.skip(length as int)
                            &&& forall|more: Seq<u8>|
                                reception(#[trigger] (parsed_bytes(request) + more))
                                    == Reception::Complete(length)
                        },
                    }
                },
            },
    {
        let bytes = match received {
            Ok(bytes) => bytes,
            Err(error) => return Err(Error::UnableToReceive(error)),
        };
        if bytes.len() == 0 {
            return Err(Error::Disconnected);
        }
        proof {
            use_type_invariant(&self);
        }
        let ghost stream = self.stream() + bytes@;
        let RequestReceiver { mut request, mut buffer, head } = self;
        let ghost parsed = parsed_bytes(request);
        let ghost buffered = buffer@;
        buffer.extend_from_slice(bytes.as_slice());
        assert(buffer@ =~= buffered + bytes@);
        assert(parsed + buffer@ =~= stream);
        let head = match head {
            None => {
                proof {
                    lemma_head_prefix(self.stream(), bytes@);
                }
                None
            },
            Some(mut head) => {
                head.extend_from_slice(bytes.as_slice());
                assert(head@ =~= stream);
                match find_head_end(&head) {
                    None => Some(head),
                    Some(end) => {
                        head.truncate(end);
                        proof {
                            lemma_head_of_head(stream);
                            assert(head@ =~= request_head(stream));
                        }
                        if check_head(&head) {
                            return Ok(Received::Overflow);
                        }
                        None
                    },
                }
            },
        };
        let results = parse_request(&mut request, &buffer);
        match after_parse(buffer, results) {
            Err(error) => Err(error),
            Ok((complete, rest)) => {
                let ghost consumed = results->Ok_0.1 as int;
                assert(parsed_bytes(request) =~= stream.take(parsed.len() + consumed));
                assert(rest@ =~= stream.skip(parsed.len() + consumed));
                assert(parsed_bytes(request) + rest@ =~= stream);
                if complete {
                    proof {
                        lemma_request_prefix(parsed_bytes(request), rest@);
                    }
                    assert forall|more: Seq<u8>|
                        reception(#[trigger] (parsed_bytes(request) + more)) == reception(
                            stream,
                        ) by {
                        lemma_request_prefix(parsed_bytes(request), more);
                    }
                    Ok(Received::Complete(request, rest))
                } else {
                    Ok(Received::Incomplete(RequestReceiver { request, buffer: rest, head }))
                }
            },
        }
    }
}

} // verus!
