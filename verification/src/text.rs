//! Text as the header fields of a message use it: case-insensitive names,
//! comma-separated lists and decimal numbers.
use vstd::prelude::*;

verus! {

/// The character with an ASCII capital letter turned into its small letter.
pub open spec fn lower_char(c: char) -> char {
    if 'A' <= c && c <= 'Z' {
        ((c as u32) + 32) as char
    } else {
        c
    }
}

/// The text with every ASCII capital letter turned into its small letter.
pub open spec fn lower(text: Seq<char>) -> Seq<char> {
    Seq::new(text.len(), |i: int| lower_char(text[i]))
}

/// Whether two names are the same when ASCII case is ignored.
pub open spec fn same_name(a: Seq<char>, b: Seq<char>) -> bool {
    lower(a) == lower(b)
}

/// Whether Unicode counts the character as white space.
pub open spec fn is_white_space(c: char) -> bool {
    let n = c as u32;
    ||| 0x9 <= n <= 0xd
    ||| n == 0x20
    ||| n == 0x85
    ||| n == 0xa0
    ||| n == 0x1680
    ||| 0x2000 <= n <= 0x200a
    ||| n == 0x2028
    ||| n == 0x2029
    ||| n == 0x202f
    ||| n == 0x205f
    ||| n == 0x3000
}

/// The text without its leading white space.
pub open spec fn trim_start(text: Seq<char>) -> Seq<char>
    decreases text.len(),
{
    if text.len() > 0 && is_white_space(text[0]) {
        trim_start(text.skip(1))
    } else {
        text
    }
}

/// The text without its trailing white space.
pub open spec fn trim_end(text: Seq<char>) -> Seq<char>
    decreases text.len(),
{
    if text.len() > 0 && is_white_space(text.last()) {
        trim_end(text.drop_last())
    } else {
        text
    }
}

/// The text without the white space around it.
pub open spec fn trim(text: Seq<char>) -> Seq<char> {
    trim_end(trim_start(text))
}

/// The pieces between the commas of a text: one more than it has commas.
pub open spec fn comma_pieces(text: Seq<char>) -> Seq<Seq<char>>
    decreases text.len(),
{
    if text.len() == 0 {
        seq![Seq::empty()]
    } else {
        let before = comma_pieces(text.drop_last());
        if text.last() == ',' {
            before.push(Seq::empty())
        } else {
            before.drop_last().push(before.last().push(text.last()))
        }
    }
}

/// The entries of a comma-separated list: the pieces between the commas, but
/// for a last piece that is empty, each trimmed and in small letters.
pub open spec fn list_entries(text: Seq<char>) -> Seq<Seq<char>> {
    let pieces = comma_pieces(text);
    let kept = if pieces.last().len() == 0 {
        pieces.drop_last()
    } else {
        pieces
    };
    Seq::new(kept.len(), |i: int| lower(trim(kept[i])))
}

/// The parts, with the separator between each two of them.
pub open spec fn join_with(parts: Seq<Seq<char>>, separator: Seq<char>) -> Seq<char>
    decreases parts.len(),
{
    if parts.len() == 0 {
        Seq::empty()
    } else if parts.len() == 1 {
        parts[0]
    } else {
        join_with(parts.drop_last(), separator) + separator + parts.last()
    }
}

/// The number which a character stands for as a decimal digit.
pub open spec fn digit_value(c: char) -> Option<nat> {
    if '0' <= c && c <= '9' {
        Some((c as u32 - 48) as nat)
    } else {
        None
    }
}

/// The number which decimal digits stand for, which is zero where there is no
/// digit.
pub open spec fn digits_value(text: Seq<char>) -> Option<nat>
    decreases text.len(),
{
    if text.len() == 0 {
        Some(0)
    } else {
        match (digits_value(text.drop_last()), digit_value(text.last())) {
            (Some(high), Some(low)) => Some(high * 10 + low),
            _ => None,
        }
    }
}

/// The `usize` which a text stands for: one or more decimal digits, with a
/// plus sign before them or not, and no number above the largest `usize`.
pub open spec fn usize_value(text: Seq<char>) -> Option<nat> {
    let digits = if text.len() > 0 && text[0] == '+' {
        text.skip(1)
    } else {
        text
    };
    match digits_value(digits) {
        Some(value) if digits.len() > 0 && value <= usize::MAX => Some(value),
        _ => None,
    }
}

/// A prefix of digits stands for a number that is not larger.
proof fn lemma_digits_prefix(text: Seq<char>, length: int)
    requires
        0 <= length <= text.len(),
        digits_value(text) is Some,
    ensures
        digits_value(text.take(length)) is Some,
        digits_value(text.take(length))->0 <= digits_value(text)->0,
    decreases text.len(),
{
    if length < text.len() {
        lemma_digits_prefix(text.drop_last(), length);
        assert(text.drop_last().take(length) =~= text.take(length));
    } else {
        assert(text.take(length) =~= text);
    }
}

/// Reads a text as a `usize`.
pub fn parse_usize(text: &str) -> (number: Option<usize>)
    ensures
        match number {
            Some(number) => usize_value(text@) == Some(number as nat),
            None => usize_value(text@) is None,
        },
{
    let length: usize = text.unicode_len();
    let start: usize = if length > 0 && text.get_char(0) == '+' {
        1
    } else {
        0
    };
    let ghost digits = text@.skip(start as int);
    assert(start == 0 ==> digits =~= text@);
    if start == length {
        return None;
    }
    let mut value: usize = 0;
    let mut next: usize = start;
    while next < length
        invariant
            start <= next <= length,
            start < length,
            length == text@.len(),
            digits == text@.skip(start as int),
            digits == if text@.len() > 0 && text@[0] == '+' {
                text@.skip(1)
            } else {
                text@
            },
            digits_value(digits.take(next - start)) == Some(value as nat),
        decreases length - next,
    {
        let c = text.get_char(next);
        let ghost before = digits.take(next - start);
        let ghost after = digits.take(next + 1 - start);
        assert(after.drop_last() =~= before);
        assert(after.last() == c);
        proof {
            if digits_value(digits) is Some {
                lemma_digits_prefix(digits, next + 1 - start);
            }
        }
        let low: usize = match c {
            '0' => 0,
            '1' => 1,
            '2' => 2,
            '3' => 3,
            '4' => 4,
            '5' => 5,
            '6' => 6,
            '7' => 7,
            '8' => 8,
            '9' => 9,
            _ => return None,
        };
        if value > usize::MAX / 10 {
            return None;
        }
        if value * 10 > usize::MAX - low {
            return None;
        }
        value = value * 10 + low;
        next = next + 1;
    }
    assert(digits.take(length - start) =~= digits);
    Some(value)
}

/// The decimal digit for a number below ten.
pub open spec fn digit(value: nat) -> char {
    (48 + value) as char
}

/// The number in decimal digits, without leading zeros.
pub open spec fn decimal(value: nat) -> Seq<char>
    decreases value,
{
    if value < 10 {
        seq![digit(value)]
    } else {
        decimal(value / 10).push(digit(value % 10))
    }
}

/// Puts a number into decimal digits.
pub fn decimal_text(value: usize) -> (text: String)
    ensures
        text@ == decimal(value as nat),
    decreases value,
{
    let low: usize = value % 10;
    let low_text: &str = match low {
        0 => "0",
        1 => "1",
        2 => "2",
        3 => "3",
        4 => "4",
        5 => "5",
        6 => "6",
        7 => "7",
        8 => "8",
        _ => "9",
    };
    proof {
        reveal_strlit("0");
        reveal_strlit("1");
        reveal_strlit("2");
        reveal_strlit("3");
        reveal_strlit("4");
        reveal_strlit("5");
        reveal_strlit("6");
        reveal_strlit("7");
        reveal_strlit("8");
        reveal_strlit("9");
    }
    assert(low_text@ =~= seq![digit(low as nat)]);
    let mut text = if value < 10 {
        String::new()
    } else {
        decimal_text(value / 10)
    };
    text.append(low_text);
    assert(text@ =~= decimal(value as nat));
    text
}

/// Tells whether a text is one of a list.
pub fn contains_text(list: &Vec<String>, text: &str) -> (found: bool)
    ensures
        found == list.deep_view().contains(text@),
{
    let wanted = text.to_owned();
    let mut i: usize = 0;
    while i < list.len()
        invariant
            i <= list.len(),
            wanted@ == text@,
            forall|j: int| 0 <= j < i ==> list.deep_view()[j] != text@,
        decreases list.len() - i,
    {
        if list[i] == wanted {
            assert(list.deep_view()[i as int] == text@);
            return true;
        }
        i = i + 1;
    }
    false
}

/// Puts the separator between each two of the parts.
pub fn join(parts: &Vec<String>, separator: &str) -> (text: String)
    ensures
        text@ == join_with(parts.deep_view(), separator@),
{
    let mut text = String::new();
    let mut i: usize = 0;
    while i < parts.len()
        invariant
            i <= parts.len(),
            text@ == join_with(parts.deep_view().take(i as int), separator@),
        decreases parts.len() - i,
    {
        if i > 0 {
            text.append(separator);
        }
        text.append(parts[i].as_str());
        assert(parts.deep_view().take(i + 1).drop_last() =~= parts.deep_view().take(i as int));
        assert(text@ =~= join_with(parts.deep_view().take(i + 1), separator@));
        i = i + 1;
    }
    assert(parts.deep_view().take(i as int) =~= parts.deep_view());
    text
}

/// Reading the decimal digits of a number gives the number back.
pub proof fn law_decimal_round_trip(value: nat)
    requires
        value <= usize::MAX,
    ensures
        usize_value(decimal(value)) == Some(value),
{
    lemma_decimal_digits(value);
}

/// The decimal digits of a number are digits, and stand for it.
proof fn lemma_decimal_digits(value: nat)
    ensures
        digits_value(decimal(value)) == Some(value),
        decimal(value).len() > 0,
        digit_value(decimal(value)[0]) is Some,
    decreases value,
{
    let text = decimal(value);
    if value < 10 {
        assert(text.drop_last() =~= Seq::<char>::empty());
        assert(digits_value(text.drop_last()) == Some(0nat));
    } else {
        lemma_decimal_digits(value / 10);
        assert(text.drop_last() =~= decimal(value / 10));
    }
}

/// Whether a text is what an entry of a list looks like: without a comma,
/// without white space around it, and in small letters.
pub open spec fn is_entry_text(text: Seq<char>) -> bool {
    &&& !text.contains(',')
    &&& trim(text) == text
    &&& lower(text) == text
}

/// The pieces between commas hold no commas.
proof fn lemma_pieces_hold_no_comma(text: Seq<char>)
    ensures
        comma_pieces(text).len() > 0,
        forall|i: int|
            0 <= i < comma_pieces(text).len() ==> !(#[trigger] comma_pieces(text)[i]).contains(','),
    decreases text.len(),
{
    if text.len() > 0 {
        let before = comma_pieces(text.drop_last());
        lemma_pieces_hold_no_comma(text.drop_last());
        if text.last() != ',' {
            let last = before.last().push(text.last());
            if last.contains(',') {
                let k = choose|k: int| 0 <= k < last.len() && last[k] == ',';
                assert(before.last()[k] == ',');
                assert(before[before.len() - 1].contains(','));
            }
        }
    }
}

/// The pieces of a text with a comma at its end and a text without one after
/// that.
proof fn lemma_pieces_append(text: Seq<char>, piece: Seq<char>)
    requires
        !piece.contains(','),
    ensures
        comma_pieces(text.push(',') + piece) == comma_pieces(text).push(piece),
    decreases piece.len(),
{
    let whole = text.push(',') + piece;
    if piece.len() == 0 {
        assert(whole =~= text.push(','));
        assert(whole.drop_last() =~= text);
        assert(piece =~= Seq::<char>::empty());
    } else {
        let shorter = piece.drop_last();
        assert(!shorter.contains(',')) by {
            if shorter.contains(',') {
                let k = choose|k: int| 0 <= k < shorter.len() && shorter[k] == ',';
                assert(piece[k] == ',');
            }
        }
        lemma_pieces_append(text, shorter);
        assert(whole.drop_last() =~= text.push(',') + shorter);
        assert(piece[piece.len() - 1] == piece.last());
        assert(whole.last() != ',');
        let before = comma_pieces(text).push(shorter);
        assert(before.drop_last() =~= comma_pieces(text));
        assert(shorter.push(piece.last()) =~= piece);
    }
}

/// A text without commas is a single piece.
proof fn lemma_pieces_single(piece: Seq<char>)
    requires
        !piece.contains(','),
    ensures
        comma_pieces(piece) == seq![piece],
    decreases piece.len(),
{
    if piece.len() == 0 {
        assert(piece =~= Seq::<char>::empty());
    } else {
        let shorter = piece.drop_last();
        assert(!shorter.contains(',')) by {
            if shorter.contains(',') {
                let k = choose|k: int| 0 <= k < shorter.len() && shorter[k] == ',';
                assert(piece[k] == ',');
            }
        }
        lemma_pieces_single(shorter);
        assert(piece[piece.len() - 1] == piece.last());
        assert(shorter.push(piece.last()) =~= piece);
        assert(seq![shorter].drop_last().push(piece) =~= seq![piece]);
    }
}

/// What is left when white space is dropped from the beginning is the end of
/// the text, and does not begin with white space.
proof fn lemma_trim_start(text: Seq<char>)
    ensures
        trim_start(text).len() <= text.len(),
        trim_start(text) == text.skip(text.len() - trim_start(text).len()),
        trim_start(text).len() > 0 ==> !is_white_space(trim_start(text)[0]),
    decreases text.len(),
{
    if text.len() > 0 && is_white_space(text[0]) {
        lemma_trim_start(text.skip(1));
        let rest = trim_start(text.skip(1));
        assert(text.skip(1).skip(text.len() - 1 - rest.len()) =~= text.skip(
            text.len() - rest.len(),
        ));
    } else {
        assert(text.skip(0) =~= text);
    }
}

/// What is left when white space is dropped from the end is the beginning of
/// the text, and does not end with white space.
proof fn lemma_trim_end(text: Seq<char>)
    ensures
        trim_end(text).len() <= text.len(),
        trim_end(text) == text.take(trim_end(text).len() as int),
        trim_end(text).len() > 0 ==> !is_white_space(trim_end(text).last()),
    decreases text.len(),
{
    if text.len() > 0 && is_white_space(text.last()) {
        lemma_trim_end(text.drop_last());
        let rest = trim_end(text.drop_last());
        assert(text.drop_last().take(rest.len() as int) =~= text.take(rest.len() as int));
    } else {
        assert(text.take(text.len() as int) =~= text);
    }
}

/// An entry of a list is what one looks like.
pub proof fn lemma_entries_are_entries(text: Seq<char>)
    ensures
        forall|i: int|
            0 <= i < list_entries(text).len() ==> is_entry_text(#[trigger] list_entries(text)[i]),
{
    lemma_pieces_hold_no_comma(text);
    let pieces = comma_pieces(text);
    assert forall|i: int| 0 <= i < list_entries(text).len() implies is_entry_text(
        #[trigger] list_entries(text)[i],
    ) by {
        let piece = pieces[i];
        let start = trim_start(piece);
        let trimmed = trim(piece);
        let entry = lower(trimmed);
        assert(list_entries(text)[i] == entry);
        lemma_trim_start(piece);
        lemma_trim_end(start);
        if entry.contains(',') {
            let k = choose|k: int| 0 <= k < entry.len() && entry[k] == ',';
            assert(trimmed[k] == ',');
            assert(piece[piece.len() - start.len() + k] == ',');
            assert(piece.contains(','));
        }
        if entry.len() > 0 {
            assert(trimmed[0] == start[0]);
            assert(!is_white_space(entry[0]));
            assert(!is_white_space(entry.last()));
        }
        assert(lower(entry) =~= entry);
    }
}

/// Lists which are joined with commas and read again are the same, as long as
/// the last entry is not empty.
pub proof fn lemma_join_entries(entries: Seq<Seq<char>>)
    requires
        entries.len() > 0,
        entries.last().len() > 0,
        forall|i: int| 0 <= i < entries.len() ==> is_entry_text(#[trigger] entries[i]),
    ensures
        list_entries(join_with(entries, ", "@)) == entries,
{
    lemma_join_pieces(entries);
    let text = join_with(entries, ", "@);
    let pieces = comma_pieces(text);
    assert forall|i: int| 0 <= i < entries.len() implies lower(trim(#[trigger] pieces[i]))
        == entries[i] by {
        if i > 0 {
            assert(pieces[i].skip(1) =~= entries[i]);
        }
    }
    assert(list_entries(text) =~= entries);
}

/// The pieces of joined entries: the entries, each after a space but for the
/// first.
proof fn lemma_join_pieces(entries: Seq<Seq<char>>)
    requires
        entries.len() > 0,
        forall|i: int| 0 <= i < entries.len() ==> is_entry_text(#[trigger] entries[i]),
    ensures
        comma_pieces(join_with(entries, ", "@)) == Seq::new(
            entries.len(),
            |i: int|
                if i == 0 {
                    entries[0]
                } else {
                    seq![' '] + entries[i]
                },
        ),
    decreases entries.len(),
{
    reveal_strlit(", ");
    let expected = Seq::new(
        entries.len(),
        |i: int|
            if i == 0 {
                entries[0]
            } else {
                seq![' '] + entries[i]
            },
    );
    if entries.len() == 1 {
        lemma_pieces_single(entries[0]);
        assert(seq![entries[0]] =~= expected);
    } else {
        let before = entries.drop_last();
        lemma_join_pieces(before);
        let head = join_with(before, ", "@);
        let last = entries.last();
        let piece = seq![' '] + last;
        assert(is_entry_text(entries[entries.len() - 1]));
        if piece.contains(',') {
            let k = choose|k: int| 0 <= k < piece.len() && piece[k] == ',';
            assert(last[k - 1] == ',');
        }
        lemma_pieces_append(head, piece);
        assert(head + ", "@ + last =~= head.push(',') + piece);
        assert(comma_pieces(head).push(piece) =~= expected);
    }
}

} // verus!
