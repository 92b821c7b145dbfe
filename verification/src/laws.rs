//! What holds of the server as a whole.
use crate::accept::AccepterView;
use crate::connection::{after_read, after_response, after_writing, Waiting};
use crate::conversation::{is_last, Conversation, Event};
use crate::headers::{
    field_names, field_tokens, field_value, field_values, has_field, header_list, is_single,
    leaves_room, lemma_has_field, lemma_names_tell, lemma_set_field, lemma_set_field_names,
    lemma_single_list, lemma_tokens_are_entries, lemma_values_single, line_limit,
    parsed_fields, set_field,
};
use crate::messages::{handlers_after_all, heeded, WorkerMessage};
use crate::receive::{
    brings, bytes_received, received_in_pieces, reception, requests_taken, Reception,
};
use crate::request::{
    asks_to_close, ends_first_line, ends_head, ends_line, head_length, is_request,
    lemma_first_line, lemma_head_end, lemma_head_of_head, lemma_head_parts, lemma_head_prefix,
    lemma_request_line, lemma_request_prefix, line_length, parse_outcome, request_head,
};
use crate::response::{
    finished_fields, folded_lines, plain_lines, status_line, with_length, with_server, Response,
};
use crate::text::{
    decimal, digits_value, is_entry_text, join_with, law_decimal_round_trip, lemma_join_entries, lower,
    same_name, trim, usize_value,
};
use vstd::prelude::*;
use vstd::utf8::encode_utf8;

verus! {

/// The names of the fields that the server sets are different names.
proof fn lemma_names()
    ensures
        !same_name("Server"@, "Content-Length"@),
        !same_name("Server"@, "Connection"@),
        !same_name("Content-Length"@, "Connection"@),
        !same_name("Transfer-Encoding"@, "Server"@),
{
    reveal_strlit("Server");
    reveal_strlit("Content-Length");
    reveal_strlit("Connection");
    reveal_strlit("Transfer-Encoding");
    assert(lower("Server"@).len() == 6);
    assert(lower("Content-Length"@).len() == 14);
    assert(lower("Connection"@).len() == 10);
    assert(lower("Transfer-Encoding"@).len() == 17);
}

/// A number is written with digits only, and with no zero before another digit.
pub proof fn law_decimal_is_plain(value: nat)
    ensures
        decimal(value).len() > 0,
        forall|i: int| 0 <= i < decimal(value).len() ==> '0' <= #[trigger] decimal(value)[i] <= '9',
        decimal(value).len() > 1 ==> decimal(value)[0] != '0',
        value > 0 ==> decimal(value)[0] != '0',
    decreases value,
{
    if value >= 10 {
        law_decimal_is_plain(value / 10);
    }
}

/// Numbers are read digit by digit: one digit is its number, one digit more
/// makes ten times the number and that digit, as long as that is a `usize`, and
/// a plus sign before it makes no difference.
pub proof fn law_number_is_read_by_digits(text: Seq<char>, c: char, value: nat)
    requires
        value < 10,
        c as u32 == 48 + value,
    ensures
        usize_value(seq![c]) == Some(value),
        usize_value(text) matches Some(before) ==> usize_value(text.push(c)) == if before * 10
            + value <= usize::MAX {
            Some(before * 10 + value)
        } else {
            None
        },
        text.len() > 0 && text != seq!['+'] && usize_value(text) is None ==> usize_value(
            text.push(c),
        ) is None,
        text.len() == 0 || text[0] != '+' ==> usize_value(seq!['+'] + text) == usize_value(text),
{
    assert(seq![c].drop_last() =~= Seq::<char>::empty());
    assert(digits_value(seq![c].drop_last()) == Some(0nat));
    assert((seq!['+'] + text).skip(1) =~= text);
    assert(text.push(c).drop_last() =~= text);
    if text.len() > 0 {
        assert(text.push(c)[0] == text[0]);
        assert(text.skip(1).push(c) =~= text.push(c).skip(1));
        assert(text.skip(1).push(c).drop_last() =~= text.skip(1));
        assert(text.len() == 1 && text[0] == '+' ==> text =~= seq!['+']);
    }
}

/// A text with anything in it but digits, and a plus sign before them, is no
/// number, nor is one without digits.
pub proof fn law_number_has_only_digits(text: Seq<char>, c: char, rest: Seq<char>)
    requires
        !('0' <= c <= '9'),
        c != '+' || text.len() > 0,
    ensures
        usize_value(text.push(c) + rest) is None,
        usize_value(Seq::empty()) is None,
        usize_value(seq!['+']) is None,
{
    assert(seq!['+'].skip(1) =~= Seq::<char>::empty());
    let whole = text.push(c) + rest;
    let digits = if whole[0] == '+' {
        whole.skip(1)
    } else {
        whole
    };
    let at = if whole[0] == '+' {
        text.len() - 1
    } else {
        text.len() as int
    };
    assert(whole[text.len() as int] == c);
    lemma_no_digits(digits, at);
}

/// Text with anything in it but digits stands for no number.
proof fn lemma_no_digits(text: Seq<char>, at: int)
    requires
        0 <= at < text.len(),
        !('0' <= text[at] <= '9'),
    ensures
        digits_value(text) is None,
    decreases text.len(),
{
    if at < text.len() - 1 {
        lemma_no_digits(text.drop_last(), at);
    }
}

/// Joining parts puts the separator between what comes first and what comes
/// after that, and nowhere else.
pub proof fn law_parts_are_joined(
    first: Seq<Seq<char>>,
    later: Seq<Seq<char>>,
    part: Seq<char>,
    separator: Seq<char>,
)
    ensures
        join_with(Seq::empty(), separator) == Seq::<char>::empty(),
        join_with(seq![part], separator) == part,
        first.len() > 0 && later.len() > 0 ==> join_with(first + later, separator) == join_with(
            first,
            separator,
        ) + separator + join_with(later, separator),
    decreases later.len(),
{
    if first.len() > 0 && later.len() > 0 {
        assert((first + later).drop_last() =~= first + later.drop_last());
        assert((first + later).last() == later.last());
        if later.len() == 1 {
            assert(first + later.drop_last() =~= first);
        } else {
            law_parts_are_joined(first, later.drop_last(), part, separator);
            assert(join_with(first + later, separator) =~= join_with(first, separator) + separator
                + join_with(later, separator));
        }
    }
}

/// What the server adds to a response changes the values for the names
/// "Server", "Content-Length" and "Connection" only.
pub proof fn law_other_fields_are_kept(
    fields: Seq<(Seq<char>, Seq<char>)>,
    status_code: nat,
    body_length: nat,
    server_info: Seq<char>,
    close: bool,
    name: Seq<char>,
)
    requires
        !same_name(name, "Server"@),
        !same_name(name, "Content-Length"@),
        !same_name(name, "Connection"@),
    ensures
        field_values(
            finished_fields(fields, status_code, body_length, server_info, close),
            name,
        ) == field_values(fields, name),
{
    let named = with_server(fields, server_info);
    let measured = with_length(named, status_code, body_length, close);
    let tokens = field_tokens(measured, "Connection"@);
    lemma_set_field(fields, "Server"@, server_info, name);
    lemma_set_field(named, "Content-Length"@, decimal(body_length), name);
    lemma_set_field(
        measured,
        "Connection"@,
        join_with(tokens.push("close"@), ", "@),
        name,
    );
}

/// Every response names the server, once, and as the server was told to.
pub proof fn law_server_is_named(
    fields: Seq<(Seq<char>, Seq<char>)>,
    status_code: nat,
    body_length: nat,
    server_info: Seq<char>,
    close: bool,
)
    ensures
        field_values(
            finished_fields(fields, status_code, body_length, server_info, close),
            "Server"@,
        ) == seq![server_info],
{
    lemma_names();
    let named = with_server(fields, server_info);
    let measured = with_length(named, status_code, body_length, close);
    let tokens = field_tokens(measured, "Connection"@);
    lemma_set_field(fields, "Server"@, server_info, "Server"@);
    lemma_set_field(named, "Content-Length"@, decimal(body_length), "Server"@);
    lemma_set_field(
        measured,
        "Connection"@,
        join_with(tokens.push("close"@), ", "@),
        "Server"@,
    );
}

/// A response without a transfer encoding tells the length of its body, as long
/// as there is a body or the connection will be used for another request; and
/// reading that number gives the length.  Other responses tell what their
/// handler said, if anything.
pub proof fn law_length_is_told(
    fields: Seq<(Seq<char>, Seq<char>)>,
    status_code: nat,
    body_length: nat,
    server_info: Seq<char>,
    close: bool,
)
    requires
        body_length <= usize::MAX,
    ensures
        ({
            let finished = finished_fields(fields, status_code, body_length, server_info, close);
            if !has_field(fields, "Transfer-Encoding"@) && (body_length > 0 || (!close
                && status_code != 101)) {
                &&& field_values(finished, "Content-Length"@) == seq![decimal(body_length)]
                &&& field_value(finished, "Content-Length"@) matches Some(value)
                &&& usize_value(value) == Some(body_length)
            } else {
                field_values(finished, "Content-Length"@) == field_values(
                    fields,
                    "Content-Length"@,
                )
            }
        }),
{
    lemma_names();
    let named = with_server(fields, server_info);
    let measured = with_length(named, status_code, body_length, close);
    let tokens = field_tokens(measured, "Connection"@);
    lemma_set_field(fields, "Server"@, server_info, "Content-Length"@);
    lemma_set_field(fields, "Server"@, server_info, "Transfer-Encoding"@);
    lemma_has_field(fields, "Transfer-Encoding"@);
    lemma_has_field(named, "Transfer-Encoding"@);
    lemma_set_field(named, "Content-Length"@, decimal(body_length), "Content-Length"@);
    lemma_set_field(
        measured,
        "Connection"@,
        join_with(tokens.push("close"@), ", "@),
        "Content-Length"@,
    );
    law_decimal_round_trip(body_length);
}

/// A response after which the connection is closed says so to the client, with
/// a "close" among what its "Connection" fields list.  That comes after all that
/// the handler listed there, unless the handler listed it.  Other responses list
/// what their handler listed.
pub proof fn law_close_is_told(
    fields: Seq<(Seq<char>, Seq<char>)>,
    status_code: nat,
    body_length: nat,
    server_info: Seq<char>,
    close: bool,
)
    ensures
        ({
            let finished = finished_fields(fields, status_code, body_length, server_info, close);
            let before = field_tokens(fields, "Connection"@);
            let after = field_tokens(finished, "Connection"@);
            &&& close ==> after.contains("close"@)
            &&& after == if close && !before.contains("close"@) {
                before.push("close"@)
            } else {
                before
            }
            &&& field_values(finished, "Connection"@) == if close && !before.contains("close"@) {
                seq![join_with(before.push("close"@), ", "@)]
            } else {
                field_values(fields, "Connection"@)
            }
        }),
{
    lemma_names();
    let named = with_server(fields, server_info);
    let measured = with_length(named, status_code, body_length, close);
    let tokens = field_tokens(measured, "Connection"@);
    lemma_set_field(fields, "Server"@, server_info, "Connection"@);
    lemma_set_field(named, "Content-Length"@, decimal(body_length), "Connection"@);
    assert(tokens == field_tokens(fields, "Connection"@));
    if close && !tokens.contains("close"@) {
        let entries = tokens.push("close"@);
        let value = join_with(entries, ", "@);
        lemma_set_field(measured, "Connection"@, value, "Connection"@);
        lemma_single_list(value);
        lemma_tokens_are_entries(field_values(measured, "Connection"@));
        reveal_strlit("close");
        assert(trim("close"@) == "close"@);
        assert(lower("close"@) =~= "close"@);
        assert forall|i: int| 0 <= i < entries.len() implies is_entry_text(
            #[trigger] entries[i],
        ) by {
            if i < tokens.len() {
                assert(entries[i] == tokens[i]);
            }
        }
        lemma_join_entries(entries);
        assert(entries[tokens.len() as int] == "close"@);
    }
}

/// A request for a resource which no handler is registered for is answered
/// with exactly this text.
pub proof fn law_not_found_answer(response: Response, server_info: Seq<char>, close: bool)
    requires
        response.is_not_found(),
    ensures
        response.text(server_info, close) == Ok::<Seq<u8>, rhymuweb::Error>(
            encode_utf8("HTTP/1.1 404 Not Found\r\n"@) + encode_utf8(
                "Server: "@ + server_info + "\r\n"@ + (if close {
                    "Connection: close\r\n"@
                } else {
                    "Content-Length: 0\r\n"@
                }) + "\r\n"@,
            ),
        ),
{
    let none = Seq::<(Seq<char>, Seq<char>)>::empty();
    let server = ("Server"@, server_info);
    let named = with_server(none, server_info);
    let finished = finished_fields(none, 404, 0, server_info, close);
    lemma_names();
    assert(named =~= seq![server]);
    lemma_values_single(server, "Connection"@);
    assert(field_tokens(named, "Connection"@) =~= Seq::<Seq<char>>::empty());
    assert(!has_field(named, "Transfer-Encoding"@)) by {
        lemma_values_single(server, "Transfer-Encoding"@);
        lemma_has_field(named, "Transfer-Encoding"@);
        assert(!same_name("Server"@, "Transfer-Encoding"@));
    }
    let added = if close {
        ("Connection"@, "close"@)
    } else {
        ("Content-Length"@, decimal(0))
    };
    assert(Seq::<Seq<char>>::empty().push("close"@) =~= seq!["close"@]);
    assert(named.skip(1) =~= none);
    reveal_with_fuel(set_field, 2);
    assert(set_field(named, added.0, added.1) =~= seq![server, added]);
    assert(finished == seq![server, added]);
    assert(seq![server, added].drop_last() =~= seq![server]);
    assert(seq![server].drop_last() =~= none);
    reveal_with_fuel(plain_lines, 3);
    reveal_with_fuel(decimal, 4);
    reveal_strlit("HTTP/1.1 ");
    reveal_strlit(" ");
    reveal_strlit("Not Found");
    reveal_strlit("\r\n");
    reveal_strlit("HTTP/1.1 404 Not Found\r\n");
    reveal_strlit("Server: ");
    reveal_strlit("Server");
    reveal_strlit(": ");
    reveal_strlit("Connection");
    reveal_strlit("close");
    reveal_strlit("Content-Length");
    reveal_strlit("Connection: close\r\n");
    reveal_strlit("Content-Length: 0\r\n");
    assert(status_line(404, "Not Found"@) =~= "HTTP/1.1 404 Not Found\r\n"@);
    assert(plain_lines(finished) + "\r\n"@ =~= "Server: "@ + server_info + "\r\n"@ + (if close {
        "Connection: close\r\n"@
    } else {
        "Content-Length: 0\r\n"@
    }) + "\r\n"@);
    assert(response.text(server_info, close)->Ok_0 =~= encode_utf8(
        status_line(404, "Not Found"@),
    ) + encode_utf8(plain_lines(finished) + "\r\n"@));
}

/// What a finished response says of the server, of the length of its body and of
/// the end of the connection, and that it keeps the rest of what its handler
/// said.  It names the server once.  It tells the length of its body, once, if
/// its handler gave no transfer encoding and there is a body, however long, or
/// the connection stays open and does not switch protocols; else it tells what
/// its handler told.  It lists "close" after all that its handler listed, if the
/// connection is to be closed and the handler did not list that.
pub proof fn law_finished_response(
    response: Response,
    server_info: Seq<char>,
    close: bool,
    name: Seq<char>,
)
    ensures
        ({
            let given = header_list(response.headers);
            let finished = response.finished(server_info, close);
            let length = response.body@.len();
            let listed = field_tokens(given, "Connection"@);
            &&& field_values(finished, "Server"@) == seq![server_info]
            &&& field_values(finished, "Content-Length"@) == if !has_field(
                given,
                "Transfer-Encoding"@,
            ) && (length > 0 || (!close && response.status_code != 101)) {
                seq![decimal(length)]
            } else {
                field_values(given, "Content-Length"@)
            }
            &&& field_values(finished, "Connection"@) == if close && !listed.contains("close"@) {
                seq![join_with(listed.push("close"@), ", "@)]
            } else {
                field_values(given, "Connection"@)
            }
            &&& close ==> field_tokens(finished, "Connection"@).contains("close"@)
            &&& !same_name(name, "Server"@) && !same_name(name, "Content-Length"@) && !same_name(
                name,
                "Connection"@,
            ) ==> field_values(finished, name) == field_values(given, name)
        }),
{
    let given = header_list(response.headers);
    let code = response.status_code as nat;
    let length = response.body@.len();
    assert(length == response.body.len());
    law_server_is_named(given, code, length, server_info, close);
    law_length_is_told(given, code, length, server_info, close);
    law_close_is_told(given, code, length, server_info, close);
    if !same_name(name, "Server"@) && !same_name(name, "Content-Length"@) && !same_name(
        name,
        "Connection"@,
    ) {
        law_other_fields_are_kept(given, code, length, server_info, close, name);
    }
}

/// The fields of a response stay where they are, under the names which its
/// handler gave them, and those that the server adds come after them: first the
/// name of the server, then the length of the body, then the end of the
/// connection.
pub proof fn law_fields_stay_in_place(response: Response, server_info: Seq<char>, close: bool)
    requires
        is_single(header_list(response.headers), "Server"@),
        is_single(header_list(response.headers), "Content-Length"@),
        is_single(header_list(response.headers), "Connection"@),
    ensures
        ({
            let given = header_list(response.headers);
            let none = Seq::<Seq<char>>::empty();
            let tells_length = !has_field(given, "Transfer-Encoding"@) && (response.body@.len() > 0
                || (!close && response.status_code != 101));
            let tells_close = close && !field_tokens(given, "Connection"@).contains("close"@);
            field_names(response.finished(server_info, close)) == field_names(given) + (
            if !has_field(given, "Server"@) {
                seq!["Server"@]
            } else {
                none
            }) + (if tells_length && !has_field(given, "Content-Length"@) {
                seq!["Content-Length"@]
            } else {
                none
            }) + (if tells_close && !has_field(given, "Connection"@) {
                seq!["Connection"@]
            } else {
                none
            })
        }),
{
    let given = header_list(response.headers);
    let code = response.status_code as nat;
    let length = response.body@.len();
    let named = with_server(given, server_info);
    let measured = with_length(named, code, length, close);
    let finished = response.finished(server_info, close);
    lemma_names();
    lemma_set_field_names(given, "Server"@, server_info);
    lemma_names_tell(given, named, "Server"@, "Content-Length"@);
    lemma_names_tell(given, named, "Server"@, "Connection"@);
    assert(!same_name("Server"@, "Transfer-Encoding"@));
    lemma_names_tell(given, named, "Server"@, "Transfer-Encoding"@);
    lemma_set_field_names(named, "Content-Length"@, decimal(length));
    lemma_names_tell(named, measured, "Content-Length"@, "Connection"@);
    let tokens = field_tokens(measured, "Connection"@);
    lemma_set_field(given, "Server"@, server_info, "Connection"@);
    lemma_set_field(named, "Content-Length"@, decimal(length), "Connection"@);
    assert(tokens == field_tokens(given, "Connection"@));
    lemma_set_field_names(measured, "Connection"@, join_with(tokens.push("close"@), ", "@));
    let none = Seq::<Seq<char>>::empty();
    let names = field_names(given);
    let tells_length = !has_field(given, "Transfer-Encoding"@) && (length > 0 || (!close && code
        != 101));
    let after_server = names + (if !has_field(given, "Server"@) {
        seq!["Server"@]
    } else {
        none
    });
    assert(field_names(named) =~= after_server);
    let after_length = after_server + (if tells_length && !has_field(given, "Content-Length"@) {
        seq!["Content-Length"@]
    } else {
        none
    });
    assert(field_names(measured) =~= after_length);
    let tells_close = close && !tokens.contains("close"@);
    assert(field_names(finished) =~= after_length + (if tells_close && !has_field(
        given,
        "Connection"@,
    ) {
        seq!["Connection"@]
    } else {
        none
    }));
}

/// The text of a response begins with its own status code and reason phrase,
/// goes on with the lines of its finished fields, and ends with its whole body.
/// There is no text only where the lines are restricted and cannot be folded.
pub proof fn law_text_is_status_fields_and_body(
    response: Response,
    server_info: Seq<char>,
    close: bool,
)
    ensures
        ({
            let fields = response.finished(server_info, close);
            let status = encode_utf8(
                "HTTP/1.1 "@ + decimal(response.status_code as nat) + " "@ + response.reason_phrase@
                    + "\r\n"@,
            );
            match line_limit(response.headers) {
                None => response.text(server_info, close) == Ok::<Seq<u8>, rhymuweb::Error>(
                    status + encode_utf8(plain_lines(fields) + "\r\n"@) + response.body@,
                ),
                Some(limit) => match folded_lines(fields, limit) {
                    Ok(lines) => response.text(server_info, close) == Ok::<
                        Seq<u8>,
                        rhymuweb::Error,
                    >(status + lines + response.body@),
                    Err(error) => response.text(server_info, close) == Err::<
                        Seq<u8>,
                        rhymuweb::Error,
                    >(error),
                },
            }
        }),
{
}

/// The body of a response, however long it is, is sent whole, at the end of the
/// text.
pub proof fn law_body_is_sent_whole(response: Response, server_info: Seq<char>, close: bool)
    ensures
        response.text(server_info, close) matches Ok(text) ==> {
            &&& text.len() >= response.body@.len()
            &&& text.skip(text.len() - response.body@.len()) == response.body@
        },
{
    if let Ok(text) = response.text(server_info, close) {
        law_text_is_status_fields_and_body(response, server_info, close);
        assert(text.skip(text.len() - response.body@.len()) =~= response.body@);
    }
}

/// Text that follows other text is encoded after it.
proof fn lemma_encode_add(a: Seq<char>, b: Seq<char>)
    ensures
        encode_utf8(a + b) == encode_utf8(a) + encode_utf8(b),
    decreases a.len(),
{
    if a.len() == 0 {
        assert(a + b =~= b);
        assert(encode_utf8(a) + encode_utf8(b) =~= encode_utf8(b));
    } else {
        lemma_encode_add(a.drop_first(), b);
        assert((a + b).drop_first() =~= a.drop_first() + b);
        assert(encode_utf8(a + b) =~= encode_utf8(a) + encode_utf8(b));
    }
}

/// The client is told the status code that the response has, whatever it is,
/// and its reason phrase, before anything else.
pub proof fn law_status_is_told_first(response: Response, server_info: Seq<char>, close: bool)
    ensures
        response.text(server_info, close) matches Ok(text) ==> {
            &&& encode_utf8(
                "HTTP/1.1 "@ + decimal(response.status_code as nat) + " "@ + response.reason_phrase@
                    + "\r\n"@,
            ).is_prefix_of(text)
            &&& encode_utf8(
                "HTTP/1.1 "@ + decimal(response.status_code as nat) + " "@,
            ).is_prefix_of(text)
        },
{
    if let Ok(text) = response.text(server_info, close) {
        law_text_is_status_fields_and_body(response, server_info, close);
        let start = "HTTP/1.1 "@ + decimal(response.status_code as nat) + " "@;
        let rest = response.reason_phrase@ + "\r\n"@;
        lemma_encode_add(start, rest);
        assert(start + rest =~= start + response.reason_phrase@ + "\r\n"@);
    }
}

/// A connection is handed over only after a text that tells the client so: with
/// the status code 101.
pub proof fn law_upgrade_is_told(
    response: Response,
    server_info: Seq<char>,
    close: bool,
    left_over: Seq<u8>,
)
    ensures
        after_response(server_info, close, left_over, response) matches Waiting::Writing {
            close: written_close,
            status_code,
            text,
            left_over: rest,
        } ==> {
            &&& written_close == close
            &&& rest == left_over
            &&& !close && after_writing(close, status_code, rest) is Ended ==> encode_utf8(
                "HTTP/1.1 101 "@,
            ).is_prefix_of(text)
        },
{
    law_status_is_told_first(response, server_info, close);
    reveal_with_fuel(decimal, 4);
    reveal_strlit("HTTP/1.1 ");
    reveal_strlit(" ");
    reveal_strlit("HTTP/1.1 101 ");
    assert("HTTP/1.1 "@ + decimal(101) + " "@ =~= "HTTP/1.1 101 "@);
}

/// A response which does not restrict its lines is always sent, and one which
/// does is sent if its lines have room for their ends and can be folded.  What is
/// written is its text, for the end of the connection as it was asked for.
pub proof fn law_response_is_sent(
    response: Response,
    server_info: Seq<char>,
    close: bool,
    left_over: Seq<u8>,
)
    ensures
        ({
            let sent = match line_limit(response.headers) {
                None => true,
                Some(limit) => limit >= 2 && folded_lines(
                    response.finished(server_info, close),
                    limit,
                ) is Ok,
            };
            after_response(server_info, close, left_over, response) == if sent {
                Waiting::Writing {
                    close,
                    status_code: response.status_code,
                    text: response.text(server_info, close)->Ok_0,
                    left_over,
                }
            } else {
                Waiting::Failed
            }
        }),
{
    law_text_is_status_fields_and_body(response, server_info, close);
}

/// Lines of fields follow each other, and each is the name of its field, a
/// colon, a space and the value.
pub proof fn law_field_lines(
    fields: Seq<(Seq<char>, Seq<char>)>,
    more: Seq<(Seq<char>, Seq<char>)>,
    field: (Seq<char>, Seq<char>),
)
    ensures
        plain_lines(fields + more) == plain_lines(fields) + plain_lines(more),
        plain_lines(seq![field]) == field.0 + ": "@ + field.1 + "\r\n"@,
    decreases more.len(),
{
    let none = Seq::<(Seq<char>, Seq<char>)>::empty();
    assert(seq![field].drop_last() =~= none);
    assert(plain_lines(none) =~= Seq::<char>::empty());
    assert(plain_lines(seq![field]) =~= field.0 + ": "@ + field.1 + "\r\n"@);
    if more.len() == 0 {
        assert(fields + more =~= fields);
        assert(plain_lines(fields) + plain_lines(more) =~= plain_lines(fields));
    } else {
        law_field_lines(fields, more.drop_last(), field);
        assert((fields + more).drop_last() =~= fields + more.drop_last());
        assert((fields + more).last() == more.last());
        assert(plain_lines(fields + more) =~= plain_lines(fields) + plain_lines(more));
    }
}

/// Whether the bytes begin with a head, with its first line ending at the first
/// given place and itself at the second, which announces a body so long that
/// the length of the head and that of the body together are no `usize`, and
/// nothing before that makes the parser refuse the request.
pub open spec fn announces_too_much(stream: Seq<u8>, line_end: int, head_end: int) -> bool {
    &&& ends_first_line(stream, line_end)
    &&& ends_head(stream, head_end)
    &&& head_end <= 10_000_000
    &&& parse_outcome(stream.take(line_end)) is Ok
    &&& parsed_fields(stream.subrange(line_end, head_end), Some(1000usize)) matches Some(fields)
    &&& field_value(fields, "Content-Length"@) matches Some(value)
    &&& usize_value(value) matches Some(length)
    &&& head_end + length > usize::MAX
}

/// What is received is what the parser makes of it, unless the head and the
/// body that it announces are together longer than a `usize` can count.
pub proof fn law_reception_is_what_the_parser_says(stream: Seq<u8>)
    ensures
        if exists|line_end: int, head_end: int| announces_too_much(stream, line_end, head_end) {
            reception(stream) is Overflow
        } else {
            reception(stream) == match parse_outcome(stream) {
                Err(error) => Reception::Invalid(error),
                Ok((complete, length)) => if complete && length <= stream.len() {
                    Reception::Complete(length)
                } else {
                    Reception::Incomplete
                },
            }
        },
{
    if exists|line_end: int, head_end: int| announces_too_much(stream, line_end, head_end) {
        let (line_end, head_end) = choose|line_end: int, head_end: int|
            announces_too_much(stream, line_end, head_end);
        lemma_head_parts(stream, line_end, head_end);
    } else if reception(stream) is Overflow {
        let head = request_head(stream);
        let head_end = head_length(stream)->0 as int;
        lemma_head_end(stream, head_end);
        lemma_head_of_head(stream);
        lemma_request_line(head);
        lemma_first_line(head, 0);
        let line_end = line_length(head)->0 as int + 2;
        assert forall|other: int| other <= head_end implies ends_line(head, other) == ends_line(
            stream,
            other,
        ) by {}
        assert(ends_first_line(stream, line_end));
        lemma_head_parts(stream, line_end, head_end);
        assert(announces_too_much(stream, line_end, head_end));
    }
}

/// A request whose head and announced body are together no longer than a
/// `usize` can count, or which announces none, is received as the parser says.
pub proof fn law_countable_requests_are_received(
    stream: Seq<u8>,
    line_end: int,
    head_end: int,
    fields: Seq<(Seq<char>, Seq<char>)>,
)
    requires
        ends_first_line(stream, line_end),
        ends_head(stream, head_end),
        parsed_fields(stream.subrange(line_end, head_end), Some(1000usize)) == Some(fields),
        field_value(fields, "Content-Length"@) matches Some(value) ==> (usize_value(
            value,
        ) matches Some(length) ==> head_end + length <= usize::MAX),
    ensures
        reception(stream) == match parse_outcome(stream) {
            Err(error) => Reception::Invalid(error),
            Ok((complete, length)) => if complete && length <= stream.len() {
                Reception::Complete(length)
            } else {
                Reception::Incomplete
            },
        },
{
    law_reception_is_what_the_parser_says(stream);
    if exists|line: int, head: int| announces_too_much(stream, line, head) {
        let (line, head) = choose|line: int, head: int| announces_too_much(stream, line, head);
        assert(line == line_end) by {
            lemma_first_line(stream, line);
            lemma_first_line(stream, line_end);
        }
        assert(head == head_end) by {
            lemma_head_end(stream, head);
            lemma_head_end(stream, head_end);
        }
    }
}

/// When a request has been received, the connection is to be closed after the
/// response exactly if "close" is among what the "Connection" fields of the
/// request list, whatever else they list.  The bytes after the request are kept.
pub proof fn law_close_is_by_request(
    stream: Seq<u8>,
    bytes: Seq<u8>,
    line_end: int,
    head_end: int,
    length: nat,
    fields: Seq<(Seq<char>, Seq<char>)>,
)
    requires
        bytes.len() > 0,
        reception(stream + bytes) == Reception::Complete(length),
        ends_first_line(stream + bytes, line_end),
        ends_head(stream + bytes, head_end),
        head_end <= length,
        parsed_fields((stream + bytes).subrange(line_end, head_end), Some(1000usize)) == Some(
            fields,
        ),
    ensures
        after_read(stream, bytes) == (Waiting::Response {
            close: exists|i: int|
                0 <= i < field_tokens(fields, "Connection"@).len() && #[trigger] field_tokens(
                    fields,
                    "Connection"@,
                )[i] == "close"@,
            left_over: (stream + bytes).skip(length as int),
        }),
{
    let received = stream + bytes;
    let message = received.take(length as int);
    lemma_head_parts(received, line_end, head_end);
    assert forall|other: int| other <= head_end implies ends_line(message, other) == ends_line(
        received,
        other,
    ) by {}
    assert(ends_head(message, head_end));
    assert(ends_first_line(message, line_end));
    lemma_head_parts(message, line_end, head_end);
    assert(message.subrange(line_end, head_end) =~= received.subrange(line_end, head_end));
}

/// A request is read, a response to it is given and written: then the connection
/// is at its end exactly if the request lists "close" in its "Connection" fields
/// or the response switches protocols, and else the next request is waited for,
/// of which the bytes after the request are there.
pub proof fn law_connection_ends_only_when_asked_or_upgraded(
    before: Conversation,
    stream: Seq<u8>,
    bytes: Seq<u8>,
    response: Response,
    line_end: int,
    head_end: int,
    length: nat,
    fields: Seq<(Seq<char>, Seq<char>)>,
)
    requires
        before.waiting == (Waiting::Request { stream }),
        bytes.len() > 0,
        reception(stream + bytes) == Reception::Complete(length),
        ends_first_line(stream + bytes, line_end),
        ends_head(stream + bytes, head_end),
        head_end <= length,
        parsed_fields((stream + bytes).subrange(line_end, head_end), Some(1000usize)) == Some(
            fields,
        ),
        leaves_room(line_limit(response.headers)),
        response.text(
            before.server_info,
            field_tokens(fields, "Connection"@).contains("close"@),
        ) is Ok,
    ensures
        ({
            let close = field_tokens(fields, "Connection"@).contains("close"@);
            let after = before.after(Event::Read(bytes)).after(Event::Response(response)).after(
                Event::Written,
            );
            &&& after.requests == before.requests.push((stream + bytes).take(length as int))
            &&& after.responses == before.responses.push(response)
            &&& after.written == before.written.push(
                response.text(before.server_info, close)->Ok_0,
            )
            &&& after.waiting == if close || response.status_code == 101 {
                Waiting::Ended
            } else {
                Waiting::Request { stream: (stream + bytes).skip(length as int) }
            }
        }),
{
    law_close_is_by_request(stream, bytes, line_end, head_end, length, fields);
}

/// It does not matter in which pieces, none of them empty, the bytes of a
/// request are received, as long as it is neither complete nor refused before
/// the last of them.
pub proof fn law_pieces_do_not_matter(stream: Seq<u8>, pieces: Seq<Seq<u8>>)
    requires
        pieces.len() > 0,
        forall|i: int| 0 <= i < pieces.len() ==> (#[trigger] pieces[i]).len() > 0,
        forall|count: int|
            0 < count < pieces.len() ==> reception(
                #[trigger] (stream + pieces.take(count).flatten()),
            ) is Incomplete,
    ensures
        received_in_pieces(stream, pieces) == reception(stream + pieces.flatten()),
    decreases pieces.len(),
{
    let first = stream + pieces[0];
    let rest = pieces.skip(1);
    assert(pieces.drop_first() =~= rest);
    assert(stream + pieces.flatten() =~= first + rest.flatten());
    if rest.len() > 0 {
        assert(pieces.take(1).drop_first() =~= Seq::<Seq<u8>>::empty());
        assert(pieces.take(1).drop_first().flatten() =~= Seq::<u8>::empty());
        assert(stream + pieces.take(1).flatten() =~= first);
        assert forall|count: int| 0 < count < rest.len() implies reception(
            #[trigger] (first + rest.take(count).flatten()),
        ) is Incomplete by {
            let more = pieces.take(count + 1);
            assert(more.drop_first() =~= rest.take(count));
            assert(stream + more.flatten() =~= first + rest.take(count).flatten());
        }
        law_pieces_do_not_matter(first, rest);
    } else {
        assert(rest.flatten() =~= Seq::<u8>::empty());
        assert(first + rest.flatten() =~= first);
    }
}

/// A request is received whole from any pieces that bring it.
proof fn lemma_pieces_bring_request(stream: Seq<u8>, pieces: Seq<Seq<u8>>, message: Seq<u8>)
    requires
        is_request(message),
        reception(message) is Complete,
        brings(stream, pieces, message),
    ensures
        received_in_pieces(stream, pieces) == Reception::Complete(message.len()),
        message.is_prefix_of(bytes_received(stream, pieces)),
        bytes_received(stream, pieces).is_prefix_of(stream + pieces.flatten()),
    decreases pieces.len(),
{
    let first = stream + pieces[0];
    let rest = pieces.skip(1);
    let whole = stream + pieces.flatten();
    assert(pieces.drop_first() =~= rest);
    assert(whole =~= first + rest.flatten());
    if message.len() <= first.len() {
        let more = first.skip(message.len() as int);
        assert(message + more =~= first);
        lemma_request_prefix(message, more);
    } else {
        assert(first =~= message.take(first.len() as int));
        if head_length(first) is Some {
            lemma_head_prefix(first, message.skip(first.len() as int));
            assert(first + message.skip(first.len() as int) =~= message);
        }
        if rest.len() == 0 {
            assert(rest.flatten() =~= Seq::<u8>::empty());
        }
        assert(pieces.take(1).drop_first() =~= Seq::<Seq<u8>>::empty());
        assert(pieces.take(1).drop_first().flatten() =~= Seq::<u8>::empty());
        assert(stream + pieces.take(1).flatten() =~= first);
        assert(reception(first) is Incomplete);
        assert forall|count: int|
            0 < count < rest.len() && #[trigger] (first + rest.take(count).flatten()).len()
                < message.len() implies !(reception(first + rest.take(count).flatten()) is Invalid) by {
            let longer = pieces.take(count + 1);
            assert(longer.drop_first() =~= rest.take(count));
            assert(stream + longer.flatten() =~= first + rest.take(count).flatten());
        }
        lemma_pieces_bring_request(first, rest, message);
    }
}

/// However the bytes of a request are cut into pieces, none of them empty,
/// however many bytes come after it in the last of them, and whatever of it was
/// received before, the same request is received, unless it is cut where the
/// parser refuses what it has so far.  Left over are the bytes received after
/// its end, and no more has been received than was sent.
pub proof fn law_cuts_do_not_matter(
    message: Seq<u8>,
    stream: Seq<u8>,
    pieces: Seq<Seq<u8>>,
    other_stream: Seq<u8>,
    other_pieces: Seq<Seq<u8>>,
)
    requires
        is_request(message),
        reception(message) is Complete,
        brings(stream, pieces, message),
        brings(other_stream, other_pieces, message),
    ensures
        ({
            let length = message.len() as int;
            let received = bytes_received(stream, pieces);
            let other_received = bytes_received(other_stream, other_pieces);
            &&& received_in_pieces(stream, pieces) == Reception::Complete(message.len())
            &&& received_in_pieces(other_stream, other_pieces) == Reception::Complete(
                message.len(),
            )
            &&& received == message + received.skip(length)
            &&& other_received == message + other_received.skip(length)
            &&& received.is_prefix_of(stream + pieces.flatten())
            &&& other_received.is_prefix_of(other_stream + other_pieces.flatten())
        }),
{
    lemma_pieces_bring_request(stream, pieces, message);
    lemma_pieces_bring_request(other_stream, other_pieces, message);
}

/// When requests are taken from the beginning of a stream of bytes, one after
/// the other, no byte is lost and none comes up twice.
pub proof fn law_no_byte_is_lost(stream: Seq<u8>, count: nat)
    ensures
        requests_taken(stream, count).0.flatten() + requests_taken(stream, count).1 == stream,
    decreases count,
{
    let (taken, rest) = requests_taken(stream, count);
    assert(Seq::<Seq<u8>>::empty().flatten() + stream =~= stream);
    if count > 0 {
        if let Reception::Complete(length) = reception(stream) {
            let later = stream.skip(length as int);
            law_no_byte_is_lost(later, (count - 1) as nat);
            assert(taken.drop_first() =~= requests_taken(later, (count - 1) as nat).0);
            assert(taken.flatten() + rest =~= stream.take(length as int) + later);
            assert(stream.take(length as int) + later =~= stream);
        }
    }
}

/// Once the head of a request is found to announce too long a body or not, what
/// follows it makes no difference to that.
pub proof fn law_overflow_is_decided_by_head(stream: Seq<u8>, more: Seq<u8>)
    requires
        head_length(stream) is Some,
    ensures
        reception(stream + more) is Overflow <==> reception(stream) is Overflow,
{
    lemma_head_prefix(stream, more);
}

/// What holds of a connection at any time: the texts written are those of the
/// responses to the requests, one for each and in their order; and what is
/// waited for fits to that.
spec fn is_in_order(conversation: Conversation) -> bool {
    let Conversation { server_info, read, requests, responses, written, waiting } = conversation;
    &&& written.len() <= responses.len() <= requests.len() <= written.len() + 1
    &&& forall|i: int|
        0 <= i < written.len() ==> #[trigger] responses[i].text(
            server_info,
            asks_to_close(requests[i]),
        ) == Ok::<Seq<u8>, rhymuweb::Error>(written[i])
    &&& forall|i: int|
        0 <= i < written.len() && is_last(requests[i], #[trigger] responses[i]) ==> i
            == written.len() - 1 && waiting is Ended
    &&& match waiting {
        Waiting::Request { stream } => {
            &&& requests.len() == written.len()
            &&& requests.flatten() + stream == read
        },
        Waiting::Response { close, left_over } => {
            &&& requests.len() == written.len() + 1
            &&& responses.len() == written.len()
            &&& close == asks_to_close(requests.last())
            &&& requests.flatten() + left_over == read
        },
        Waiting::Writing { close, status_code, text, left_over } => {
            &&& responses.len() == written.len() + 1
            &&& close == asks_to_close(requests.last())
            &&& status_code == responses.last().status_code
            &&& responses.last().text(server_info, close) == Ok::<Seq<u8>, rhymuweb::Error>(text)
            &&& requests.flatten() + left_over == read
        },
        Waiting::Ended => {
            &&& requests.len() == written.len()
            &&& written.len() > 0
            &&& is_last(requests.last(), responses.last())
        },
        Waiting::Failed => true,
    }
    &&& requests.flatten().is_prefix_of(read)
}

/// An event keeps a connection in order.
proof fn lemma_stays_in_order(before: Conversation, event: Event)
    requires
        is_in_order(before),
    ensures
        is_in_order(before.after(event)),
{
    let after = before.after(event);
    match (before.waiting, event) {
        (Waiting::Request { stream }, Event::Read(bytes)) => {
            let received = stream + bytes;
            assert(before.requests.flatten() + received =~= after.read);
            if let Reception::Complete(length) = reception(received) {
                let message = received.take(length as int);
                before.requests.lemma_flatten_push(message);
                assert(message + received.skip(length as int) =~= received);
                assert(before.requests.push(message).flatten() + received.skip(length as int)
                    =~= after.read);
            }
        },
        _ => {},
    }
}

/// A connection is always in order.
proof fn lemma_is_in_order(server_info: Seq<char>, events: Seq<Event>)
    ensures
        is_in_order(Conversation::new(server_info).after_all(events)),
        Conversation::new(server_info).after_all(events).server_info == server_info,
    decreases events.len(),
{
    let start = Conversation::new(server_info);
    if events.len() == 0 {
        assert(Seq::<Seq<u8>>::empty().flatten() =~= Seq::<u8>::empty());
        assert(start.requests.flatten() + start.read =~= start.read);
    } else {
        lemma_is_in_order(server_info, events.drop_last());
        lemma_stays_in_order(start.after_all(events.drop_last()), events.last());
    }
}

/// The requests on a connection are answered one by one, in the order in which
/// they are received, each by exactly one response, which is written before the
/// next request is received.  The connection ends well exactly when the response
/// to the last request has been written and either that request asked for the
/// connection to be closed or the response switches protocols; no request and
/// response before that were so.
pub proof fn law_requests_are_answered_in_order(server_info: Seq<char>, events: Seq<Event>)
    ensures
        ({
            let Conversation { server_info: _, read, requests, responses, written, waiting } =
                Conversation::new(server_info).after_all(events);
            &&& written.len() <= responses.len() <= requests.len() <= written.len() + 1
            &&& forall|i: int|
                0 <= i < written.len() ==> #[trigger] responses[i].text(
                    server_info,
                    asks_to_close(requests[i]),
                ) == Ok::<Seq<u8>, rhymuweb::Error>(written[i])
            &&& waiting is Ended <==> {
                &&& requests.len() == written.len()
                &&& written.len() > 0
                &&& is_last(requests.last(), responses.last())
            }
            &&& forall|i: int|
                0 <= i < written.len() - 1 ==> !is_last(requests[i], #[trigger] responses[i])
            &&& requests.flatten().is_prefix_of(read)
            &&& waiting matches Waiting::Request { stream } ==> {
                &&& requests.len() == written.len()
                &&& requests.flatten() + stream == read
            }
        }),
{
    lemma_is_in_order(server_info, events);
    let now = Conversation::new(server_info).after_all(events);
    if now.requests.len() == now.written.len() && now.written.len() > 0 {
        assert(now.responses[now.written.len() - 1] == now.responses.last());
    }
}

/// As long as no other listener comes, each connection from a listener is
/// wrapped by the wrapper which came with the listener, and when that is done
/// both are there for the next connection.
pub proof fn law_connections_are_wrapped<L, W>(
    before: AccepterView<L, W>,
    listener: L,
    connection_wrapper: W,
)
    ensures
        ({
            let started = before.started(listener, connection_wrapper);
            &&& started.listener == Some(listener)
            &&& started.listening().connection_wrapper == Some(connection_wrapper)
            &&& started.listening().wrapping(listener).wrapped(connection_wrapper) == started
        }),
{
}

/// What an accepter holds after each step.  While a connection is waited for,
/// the listener is in use, and the wrapper is kept.  While a connection is
/// wrapped, the wrapper is in use, and the listener is there again, unless a newer
/// one has come, which then stays.  After that the wrapper is there again.
pub proof fn law_listener_and_wrapper_are_kept<L, W>(
    before: AccepterView<L, W>,
    listener: L,
    connection_wrapper: W,
)
    ensures
        before.listening().listener is None,
        before.listening().connection_wrapper == before.connection_wrapper,
        before.listener is None ==> before.wrapping(listener).listener == Some(listener),
        before.listener is Some ==> before.wrapping(listener).listener == before.listener,
        before.wrapping(listener).connection_wrapper is None,
        before.wrapped(connection_wrapper).listener == before.listener,
        before.wrapped(connection_wrapper).connection_wrapper == Some(connection_wrapper),
{
}

/// A new listener and its wrapper take the place of the old ones wherever these
/// are, in use or not.
pub proof fn law_new_listener_replaces_old<L, W>(
    before: AccepterView<L, W>,
    old_listener: L,
    listener: L,
    connection_wrapper: W,
)
    ensures
        ({
            let started = before.started(listener, connection_wrapper);
            &&& before.listening().started(listener, connection_wrapper) == started
            &&& before.wrapping(old_listener).started(listener, connection_wrapper) == started
            &&& started == (AccepterView {
                listener: Some(listener),
                connection_wrapper: Some(connection_wrapper),
            })
        }),
{
}

/// The worker heeds nothing that comes after it is told to end.
pub proof fn law_nothing_is_heeded_after_exit<L, S, W, H>(
    before: Seq<WorkerMessage<L, S, W, H>>,
    after: Seq<WorkerMessage<L, S, W, H>>,
)
    ensures
        heeded(before.push(WorkerMessage::Exit) + after) == heeded(before),
    decreases before.len(),
{
    let messages = before.push(WorkerMessage::Exit) + after;
    if before.len() == 0 {
        assert(messages[0] is Exit);
    } else {
        let rest = before.skip(1);
        assert(messages[0] == before[0]);
        if !(before[0] is Exit) {
            law_nothing_is_heeded_after_exit(rest, after);
            assert(messages.skip(1) =~= rest.push(WorkerMessage::Exit) + after);
        }
    }
}

/// Messages which are no registration for a path change nothing for that path.
pub proof fn law_only_registrations_count<L, S, W, H>(
    handlers: Map<Seq<Seq<u8>>, H>,
    messages: Seq<WorkerMessage<L, S, W, H>>,
    path: Seq<Seq<u8>>,
)
    requires
        forall|i: int|
            0 <= i < messages.len() ==> !((#[trigger] messages[i]) matches WorkerMessage::RegisterHandler {
                path: other,
                handler: _,
            } && other.deep_view() == path),
    ensures
        ({
            let map = handlers_after_all(handlers, messages);
            &&& map.contains_key(path) == handlers.contains_key(path)
            &&& handlers.contains_key(path) ==> map[path] == handlers[path]
        }),
    decreases messages.len(),
{
    if messages.len() > 0 {
        law_only_registrations_count(handlers, messages.drop_last(), path);
        assert(messages.last() == messages[messages.len() - 1]);
    }
}

/// The handler for a resource is the one that was registered last for its
/// path, and messages which are no registration for that path do not change
/// that.
pub proof fn law_last_registration_counts<L, S, W, H>(
    handlers: Map<Seq<Seq<u8>>, H>,
    before: Seq<WorkerMessage<L, S, W, H>>,
    path: Vec<Vec<u8>>,
    handler: H,
    after: Seq<WorkerMessage<L, S, W, H>>,
)
    requires
        forall|i: int|
            0 <= i < after.len() ==> !((#[trigger] after[i]) matches WorkerMessage::RegisterHandler {
                path: other,
                handler: _,
            } && other.deep_view() == path.deep_view()),
    ensures
        ({
            let messages = before.push(WorkerMessage::RegisterHandler { path, handler }) + after;
            let map = handlers_after_all(handlers, messages);
            map.contains_key(path.deep_view()) && map[path.deep_view()] == handler
        }),
    decreases after.len(),
{
    let registered = before.push(WorkerMessage::RegisterHandler { path, handler });
    let messages = registered + after;
    if after.len() == 0 {
        assert(messages =~= registered);
        assert(registered.drop_last() =~= before);
    } else {
        law_last_registration_counts(handlers, before, path, handler, after.drop_last());
        assert(messages.drop_last() =~= registered + after.drop_last());
        assert(messages.last() == after[after.len() - 1]);
    }
}

} // verus!
