//! The header fields of a message.
//!
//! A field is a name and a value.  Names are compared without regard to ASCII
//! case, and a message may hold several fields of one name.
use crate::text::{
    is_entry_text, join_with, lemma_entries_are_entries, list_entries, lower, same_name,
};
use rhymessage::MessageHeaders;
use vstd::prelude::*;

verus! {

/// Declares the collection of header fields.
#[verifier::external_type_specification]
#[verifier::external_body]
pub struct ExMessageHeaders(rhymessage::MessageHeaders);

/// The fields that a collection of headers holds, in order, each as its name
/// and its value.
pub uninterp spec fn header_list(headers: rhymessage::MessageHeaders) -> Seq<(Seq<char>, Seq<char>)>;

/// The length to which a collection of headers folds and restricts its lines,
/// if it was given one.
pub uninterp spec fn line_limit(headers: rhymessage::MessageHeaders) -> Option<usize>;

/// The fields that a parser reads from the lines of header fields, where it
/// finds the empty line at their end, no error before it, and no line longer
/// than the limit, if there is one.
pub uninterp spec fn parsed_fields(
    lines: Seq<u8>,
    limit: Option<usize>,
) -> Option<Seq<(Seq<char>, Seq<char>)>>;

/// Whether a limit, if there is one, leaves room in a line for what ends it.
pub open spec fn leaves_room(limit: Option<usize>) -> bool {
    limit matches Some(limit) ==> limit >= 2
}

/// Tells the fields of any other name from those of the given name.
pub open spec fn lacks_name(name: Seq<char>) -> spec_fn((Seq<char>, Seq<char>)) -> bool {
    |field: (Seq<char>, Seq<char>)| !same_name(field.0, name)
}

/// Whether there is a field of the given name.
pub open spec fn has_field(fields: Seq<(Seq<char>, Seq<char>)>, name: Seq<char>) -> bool {
    exists|i: int| 0 <= i < fields.len() && same_name(#[trigger] fields[i].0, name)
}

/// The values of the fields of the given name, in order.
pub open spec fn field_values(
    fields: Seq<(Seq<char>, Seq<char>)>,
    name: Seq<char>,
) -> Seq<Seq<char>>
    decreases fields.len(),
{
    if fields.len() == 0 {
        Seq::empty()
    } else {
        let before = field_values(fields.drop_last(), name);
        if same_name(fields.last().0, name) {
            before.push(fields.last().1)
        } else {
            before
        }
    }
}

/// What the fields of the given name say together: their values with commas
/// between them.
pub open spec fn field_value(
    fields: Seq<(Seq<char>, Seq<char>)>,
    name: Seq<char>,
) -> Option<Seq<char>> {
    if field_values(fields, name).len() == 0 {
        None
    } else {
        Some(join_with(field_values(fields, name), seq![',']))
    }
}

/// The entries of lists, one list after the other.
pub open spec fn all_entries(values: Seq<Seq<char>>) -> Seq<Seq<char>>
    decreases values.len(),
{
    if values.len() == 0 {
        Seq::empty()
    } else {
        all_entries(values.drop_last()) + list_entries(values.last())
    }
}

/// The entries of the lists which are the values of the fields of the given
/// name.
pub open spec fn field_tokens(
    fields: Seq<(Seq<char>, Seq<char>)>,
    name: Seq<char>,
) -> Seq<Seq<char>> {
    all_entries(field_values(fields, name))
}

/// The fields with one of the given name and value: in the place of the first
/// field of that name, which keeps its spelling, while the others of that name
/// are gone; or at the end where there was none.
pub open spec fn set_field(
    fields: Seq<(Seq<char>, Seq<char>)>,
    name: Seq<char>,
    value: Seq<char>,
) -> Seq<(Seq<char>, Seq<char>)>
    decreases fields.len(),
{
    if fields.len() == 0 {
        seq![(name, value)]
    } else if same_name(fields[0].0, name) {
        seq![(fields[0].0, value)] + fields.skip(1).filter(lacks_name(name))
    } else {
        seq![fields[0]] + set_field(fields.skip(1), name, value)
    }
}

/// Calls `MessageHeaders::new`, which gives headers that hold no field and
/// restrict no line.
#[verifier::external_body]
pub(crate) fn new_headers() -> (headers: MessageHeaders)
    ensures
        header_list(headers) == Seq::<(Seq<char>, Seq<char>)>::empty(),
        line_limit(headers) is None,
{
    MessageHeaders::new()
}

/// Calls `MessageHeaders::set_line_limit`, which restricts the lengths of the
/// lines.
#[verifier::external_body]
pub(crate) fn set_line_limit(headers: &mut MessageHeaders, limit: usize)
    ensures
        header_list(*final(headers)) == header_list(*old(headers)),
        line_limit(*final(headers)) == Some(limit),
{
    headers.set_line_limit(Some(limit))
}

/// Calls `MessageHeaders::parse`, which adds the fields that it reads from the
/// lines, and tells whether it found the end of the fields.  Where it did not,
/// nothing is said of the fields that it added.  The empty line alone is the
/// end of no fields, unless the limit does not even leave room for that line.
#[verifier::external_body]
pub(crate) fn parse_headers(headers: &mut MessageHeaders, lines: &Vec<u8>) -> (complete: bool)
    ensures
        complete == parsed_fields(lines@, line_limit(*old(headers))) is Some,
        complete ==> header_list(*final(headers)) == header_list(*old(headers)) + parsed_fields(
            lines@,
            line_limit(*old(headers)),
        )->0,
        lines@ == seq![13u8, 10u8] ==> {
            &&& complete == leaves_room(line_limit(*old(headers)))
            &&& complete ==> header_list(*final(headers)) == header_list(*old(headers))
        },
        line_limit(*final(headers)) == line_limit(*old(headers)),
{
    match headers.parse(lines) {
        Ok(results) => match results.status {
            rhymessage::ParseStatus::Complete => true,
            rhymessage::ParseStatus::Incomplete => false,
        },
        Err(_) => false,
    }
}

/// Calls `MessageHeaders::header_value`, which gives the values of the fields
/// of the given name with commas between them, if there is such a field.
#[verifier::external_body]
pub(crate) fn header_value(headers: &MessageHeaders, name: &str) -> (value: Option<String>)
    ensures
        match value {
            Some(value) => field_value(header_list(*headers), name@) == Some(value@),
            None => field_value(header_list(*headers), name@) is None,
        },
{
    headers.header_value(name)
}

/// Calls `MessageHeaders::has_header`, which tells whether there is a field of
/// the given name.
#[verifier::external_body]
pub(crate) fn has_header(headers: &MessageHeaders, name: &str) -> (present: bool)
    ensures
        present == has_field(header_list(*headers), name@),
{
    headers.has_header(name)
}

/// Calls `MessageHeaders::set_header`, which adds a field or puts it in the
/// place of those of the same name.
#[verifier::external_body]
pub(crate) fn set_header(headers: &mut MessageHeaders, name: &str, value: String)
    ensures
        header_list(*final(headers)) == set_field(header_list(*old(headers)), name@, value@),
        line_limit(*final(headers)) == line_limit(*old(headers)),
{
    headers.set_header(name, value)
}

/// Calls `MessageHeaders::header_tokens`, which gives the entries of the lists
/// in the fields of the given name.
#[verifier::external_body]
pub(crate) fn header_tokens(headers: &MessageHeaders, name: &str) -> (tokens: Vec<String>)
    ensures
        tokens.deep_view() == field_tokens(header_list(*headers), name@),
{
    headers.header_tokens(name)
}

/// Calls `MessageHeaders::has_header_token`, which looks a token up, without
/// regard to ASCII case, in the lists in the fields of the given name.
#[verifier::external_body]
pub(crate) fn has_header_token(headers: &MessageHeaders, name: &str, token: &str) -> (present: bool)
    ensures
        present == field_tokens(header_list(*headers), name@).contains(lower(token@)),
{
    headers.has_header_token(name, token)
}

/// Tells whether the limit of headers, if they have one, leaves room in a line
/// for what ends it.  The limit cannot be read, but an empty line tells.
pub(crate) fn check_room(headers: &mut MessageHeaders) -> (room: bool)
    ensures
        room == leaves_room(line_limit(*old(headers))),
        room ==> header_list(*final(headers)) == header_list(*old(headers)),
        line_limit(*final(headers)) == line_limit(*old(headers)),
{
    let mut empty_line: Vec<u8> = Vec::new();
    empty_line.push(13);
    empty_line.push(10);
    assert(empty_line@ =~= seq![13u8, 10u8]);
    parse_headers(headers, &empty_line)
}

/// There is a field of a name exactly if there is a value for it.
pub proof fn lemma_has_field(fields: Seq<(Seq<char>, Seq<char>)>, name: Seq<char>)
    ensures
        has_field(fields, name) <==> field_values(fields, name).len() > 0,
    decreases fields.len(),
{
    if fields.len() > 0 {
        let before = fields.drop_last();
        lemma_has_field(before, name);
        if has_field(before, name) {
            let i = choose|i: int|
                0 <= i < before.len() && same_name(#[trigger] before[i].0, name);
            assert(same_name(fields[i].0, name));
        }
        if has_field(fields, name) && !same_name(fields.last().0, name) {
            let i = choose|i: int|
                0 <= i < fields.len() && same_name(#[trigger] fields[i].0, name);
            assert(same_name(before[i].0, name));
        }
        if same_name(fields.last().0, name) {
            assert(same_name(fields[fields.len() - 1].0, name));
        }
    }
}

/// The values in two lists of fields are those in the first, then those in the
/// second.
proof fn lemma_values_add(
    a: Seq<(Seq<char>, Seq<char>)>,
    b: Seq<(Seq<char>, Seq<char>)>,
    name: Seq<char>,
)
    ensures
        field_values(a + b, name) == field_values(a, name) + field_values(b, name),
    decreases b.len(),
{
    if b.len() == 0 {
        assert(a + b =~= a);
        assert(field_values(b, name) =~= Seq::<Seq<char>>::empty());
    } else {
        lemma_values_add(a, b.drop_last(), name);
        assert((a + b).drop_last() =~= a + b.drop_last());
        assert((a + b).last() == b.last());
        assert(field_values(a + b, name) =~= field_values(a, name) + field_values(b, name));
    }
}

/// The value in a single field.
pub proof fn lemma_values_single(field: (Seq<char>, Seq<char>), name: Seq<char>)
    ensures
        field_values(seq![field], name) == if same_name(field.0, name) {
            seq![field.1]
        } else {
            Seq::empty()
        },
{
    assert(seq![field].drop_last() =~= Seq::<(Seq<char>, Seq<char>)>::empty());
    assert(field_values(seq![field].drop_last(), name) =~= Seq::<Seq<char>>::empty());
    assert(field_values(seq![field], name) =~= if same_name(field.0, name) {
        seq![field.1]
    } else {
        Seq::empty()
    });
}

/// Dropping the fields of a name drops its values and no others.
proof fn lemma_values_filter(
    fields: Seq<(Seq<char>, Seq<char>)>,
    name: Seq<char>,
    other: Seq<char>,
)
    ensures
        field_values(fields.filter(lacks_name(name)), other) == if same_name(other, name) {
            Seq::empty()
        } else {
            field_values(fields, other)
        },
    decreases fields.len(),
{
    reveal(Seq::filter);
    if fields.len() > 0 {
        let before = fields.drop_last();
        let last = fields.last();
        lemma_values_filter(before, name, other);
        if !same_name(last.0, name) {
            let kept = before.filter(lacks_name(name)).push(last);
            assert(fields.filter(lacks_name(name)) == kept);
            assert(kept.drop_last() =~= before.filter(lacks_name(name)));
        } else {
            assert(fields.filter(lacks_name(name)) == before.filter(lacks_name(name)));
        }
    }
}

/// Setting a field sets the value for its name, and for no other.
pub proof fn lemma_set_field(
    fields: Seq<(Seq<char>, Seq<char>)>,
    name: Seq<char>,
    value: Seq<char>,
    other: Seq<char>,
)
    ensures
        field_values(set_field(fields, name, value), other) == if same_name(other, name) {
            seq![value]
        } else {
            field_values(fields, other)
        },
    decreases fields.len(),
{
    if fields.len() == 0 {
        lemma_values_single((name, value), other);
    } else {
        let first = fields[0];
        let rest = fields.skip(1);
        assert(seq![first] + rest =~= fields);
        lemma_values_add(seq![first], rest, other);
        lemma_values_single(first, other);
        if same_name(first.0, name) {
            let changed = (first.0, value);
            let kept = rest.filter(lacks_name(name));
            lemma_values_add(seq![changed], kept, other);
            lemma_values_single(changed, other);
            lemma_values_filter(rest, name, other);
        } else {
            lemma_set_field(rest, name, value, other);
            lemma_values_add(seq![first], set_field(rest, name, value), other);
        }
        assert(field_values(set_field(fields, name, value), other) =~= if same_name(other, name) {
            seq![value]
        } else {
            field_values(fields, other)
        });
    }
}

/// The names of fields.
pub open spec fn field_names(fields: Seq<(Seq<char>, Seq<char>)>) -> Seq<Seq<char>> {
    Seq::new(fields.len(), |i: int| fields[i].0)
}

/// Whether there is at most one field of the given name.
pub open spec fn is_single(fields: Seq<(Seq<char>, Seq<char>)>, name: Seq<char>) -> bool {
    forall|i: int, j: int|
        0 <= i < j < fields.len() ==> !(same_name(#[trigger] fields[i].0, name) && same_name(
            #[trigger] fields[j].0,
            name,
        ))
}

/// Where no field has the name, none is dropped for it.
proof fn lemma_filter_none(fields: Seq<(Seq<char>, Seq<char>)>, name: Seq<char>)
    requires
        !has_field(fields, name),
    ensures
        fields.filter(lacks_name(name)) == fields,
    decreases fields.len(),
{
    reveal(Seq::filter);
    if fields.len() > 0 {
        let before = fields.drop_last();
        assert(!has_field(before, name)) by {
            if has_field(before, name) {
                let i = choose|i: int|
                    0 <= i < before.len() && same_name(#[trigger] before[i].0, name);
                assert(same_name(fields[i].0, name));
            }
        }
        lemma_filter_none(before, name);
        assert(!same_name(fields[fields.len() - 1].0, name));
        assert(before.push(fields.last()) =~= fields);
    }
}

/// Setting a field which is there once changes no name, and setting one which is
/// not there adds its name at the end.
pub proof fn lemma_set_field_names(
    fields: Seq<(Seq<char>, Seq<char>)>,
    name: Seq<char>,
    value: Seq<char>,
)
    requires
        is_single(fields, name),
    ensures
        field_names(set_field(fields, name, value)) == if has_field(fields, name) {
            field_names(fields)
        } else {
            field_names(fields).push(name)
        },
    decreases fields.len(),
{
    let set = set_field(fields, name, value);
    if fields.len() == 0 {
        assert(field_names(set) =~= field_names(fields).push(name));
    } else {
        let rest = fields.skip(1);
        if same_name(fields[0].0, name) {
            assert(!has_field(rest, name)) by {
                if has_field(rest, name) {
                    let i = choose|i: int|
                        0 <= i < rest.len() && same_name(#[trigger] rest[i].0, name);
                    assert(same_name(fields[i + 1].0, name));
                }
            }
            lemma_filter_none(rest, name);
            assert(field_names(set) =~= field_names(fields));
        } else {
            assert(is_single(rest, name)) by {
                assert forall|i: int, j: int| 0 <= i < j < rest.len() implies !(same_name(
                    #[trigger] rest[i].0,
                    name,
                ) && same_name(#[trigger] rest[j].0, name)) by {
                    assert(rest[i] == fields[i + 1] && rest[j] == fields[j + 1]);
                }
            }
            lemma_set_field_names(rest, name, value);
            let later = set_field(rest, name, value);
            if has_field(rest, name) {
                let i = choose|i: int|
                    0 <= i < rest.len() && same_name(#[trigger] rest[i].0, name);
                assert(same_name(fields[i + 1].0, name));
            }
            if has_field(fields, name) {
                let i = choose|i: int|
                    0 <= i < fields.len() && same_name(#[trigger] fields[i].0, name);
                assert(same_name(rest[i - 1].0, name));
            }
            assert forall|i: int| 0 <= i < set.len() implies #[trigger] set[i].0 == if i == 0 {
                fields[0].0
            } else {
                field_names(later)[i - 1]
            } by {}
            assert(field_names(set) =~= seq![fields[0].0] + field_names(later));
            assert(seq![fields[0].0] + field_names(rest) =~= field_names(fields));
            assert(seq![fields[0].0] + field_names(rest).push(name) =~= field_names(fields).push(
                name,
            ));
        }
    }
}

/// Whether there is a field of a name, or at most one, shows in the names.
pub proof fn lemma_names_tell(
    a: Seq<(Seq<char>, Seq<char>)>,
    b: Seq<(Seq<char>, Seq<char>)>,
    added: Seq<char>,
    name: Seq<char>,
)
    requires
        field_names(b) == field_names(a) || field_names(b) == field_names(a).push(added),
        !same_name(added, name),
    ensures
        has_field(b, name) == has_field(a, name),
        is_single(a, name) ==> is_single(b, name),
{
    assert(field_names(a).len() == a.len());
    assert(field_names(b).len() == b.len());
    assert forall|i: int| 0 <= i < a.len() implies #[trigger] b[i].0 == a[i].0 by {
        assert(field_names(b)[i] == field_names(a)[i]);
    }
    if b.len() > a.len() {
        assert(field_names(b)[a.len() as int] == added);
    }
    if has_field(a, name) {
        let i = choose|i: int| 0 <= i < a.len() && same_name(#[trigger] a[i].0, name);
        assert(same_name(b[i].0, name));
    }
    if has_field(b, name) {
        let i = choose|i: int| 0 <= i < b.len() && same_name(#[trigger] b[i].0, name);
        assert(same_name(a[i].0, name));
    }
    if is_single(a, name) {
        assert forall|i: int, j: int| 0 <= i < j < b.len() implies !(same_name(
            #[trigger] b[i].0,
            name,
        ) && same_name(#[trigger] b[j].0, name)) by {
            if j < a.len() {
                assert(a[i].0 == b[i].0 && a[j].0 == b[j].0);
            }
        }
    }
}

/// What is found in lists are entries.
pub proof fn lemma_tokens_are_entries(values: Seq<Seq<char>>)
    ensures
        forall|i: int|
            0 <= i < all_entries(values).len() ==> is_entry_text(#[trigger] all_entries(values)[i]),
    decreases values.len(),
{
    if values.len() > 0 {
        let before = all_entries(values.drop_last());
        let last = list_entries(values.last());
        lemma_tokens_are_entries(values.drop_last());
        lemma_entries_are_entries(values.last());
        assert forall|i: int| 0 <= i < all_entries(values).len() implies is_entry_text(
            #[trigger] all_entries(values)[i],
        ) by {
            if i < before.len() {
                assert(all_entries(values)[i] == before[i]);
            } else {
                assert(all_entries(values)[i] == last[i - before.len()]);
            }
        }
    }
}

/// The entries of a single list.
pub proof fn lemma_single_list(value: Seq<char>)
    ensures
        all_entries(seq![value]) == list_entries(value),
{
    assert(seq![value].drop_last() =~= Seq::<Seq<char>>::empty());
    assert(all_entries(seq![value].drop_last()) =~= Seq::<Seq<char>>::empty());
    assert(all_entries(seq![value]) =~= list_entries(value));
}

} // verus!
