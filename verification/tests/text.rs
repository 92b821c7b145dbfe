use rhymuweb_server::text::{contains_text, decimal_text, join, parse_usize};

#[test]
fn numbers_from_text() {
    assert_eq!(Some(0), parse_usize("0"));
    assert_eq!(Some(1234567890), parse_usize("1234567890"));
    assert_eq!(Some(7), parse_usize("+007"));
    assert_eq!(Some(usize::MAX), parse_usize(&usize::MAX.to_string()));
    assert_eq!(None, parse_usize("18446744073709551616"));
    assert_eq!(None, parse_usize("99999999999999999999999"));
    for text in ["", "+", "++1", "-1", " 1", "1 ", "1,1", "1_000", "0x10", "\u{664}"] {
        assert_eq!(None, parse_usize(text));
    }
}

#[test]
fn numbers_as_std_reads_them() {
    for text in ["42", "+42", "+", "", "4 2", "00042", "4294967296", "é"] {
        assert_eq!(text.parse::<usize>().ok(), parse_usize(text));
    }
}

#[test]
fn numbers_to_text() {
    for value in [0, 1, 9, 10, 404, 65536, 1234567890, usize::MAX] {
        assert_eq!(value.to_string(), decimal_text(value));
    }
}

#[test]
fn numbers_there_and_back() {
    for value in [0, 5, 10, 99, 100, 1000, usize::MAX - 1, usize::MAX] {
        assert_eq!(Some(value), parse_usize(&decimal_text(value)));
    }
}

#[test]
fn joined_parts() {
    let parts = |texts: &[&str]| texts.iter().map(|text| text.to_string()).collect::<Vec<_>>();
    assert_eq!("", join(&parts(&[]), ", "));
    assert_eq!("a", join(&parts(&["a"]), ", "));
    assert_eq!("a, , close", join(&parts(&["a", "", "close"]), ", "));
    assert!(contains_text(&parts(&["a", "close"]), "close"));
    assert!(!contains_text(&parts(&["a", "Close", "clos"]), "close"));
    assert!(!contains_text(&parts(&[]), ""));
}
