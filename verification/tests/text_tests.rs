use a2o4::strset;
use a2o4::text::{
    parse_i64, parse_u32, parse_u8, push_decimal, push_signed_decimal, remove_separators, split_on,
    split_whitespace, starts_with_str, trimmed, IntErrorKind,
};

#[test]
fn parses_integers_as_str_parse_does() {
    assert_eq!(parse_i64("123"), Ok(123));
    assert_eq!(parse_i64("-5"), Ok(-5));
    assert_eq!(parse_i64("+7"), Ok(7));
    assert_eq!(parse_i64("007"), Ok(7));
    assert_eq!(parse_i64("9223372036854775807"), Ok(i64::MAX));
    assert_eq!(parse_i64("-9223372036854775808"), Ok(i64::MIN));
    assert_eq!(parse_u32("4294967295"), Ok(u32::MAX));
    assert_eq!(parse_u8("255"), Ok(255));
}

#[test]
fn integer_errors_name_their_kind() {
    assert_eq!(parse_i64(""), Err(IntErrorKind::Empty));
    assert_eq!(parse_i64("-"), Err(IntErrorKind::InvalidDigit));
    assert_eq!(parse_i64("+"), Err(IntErrorKind::InvalidDigit));
    assert_eq!(parse_i64("12a"), Err(IntErrorKind::InvalidDigit));
    assert_eq!(parse_i64(" 1"), Err(IntErrorKind::InvalidDigit));
    assert_eq!(parse_i64("9223372036854775808"), Err(IntErrorKind::PosOverflow));
    assert_eq!(parse_i64("-9223372036854775809"), Err(IntErrorKind::NegOverflow));
    assert_eq!(parse_u8("256"), Err(IntErrorKind::PosOverflow));
    assert_eq!(parse_u8("-1"), Err(IntErrorKind::InvalidDigit));
    assert_eq!(parse_u32("1,000"), Err(IntErrorKind::InvalidDigit));
}

#[test]
fn integer_error_messages_match_std() {
    for (text, kind) in [("", IntErrorKind::Empty), ("x", IntErrorKind::InvalidDigit), ("999", IntErrorKind::PosOverflow)] {
        let std_message = text.parse::<u8>().unwrap_err().to_string();
        assert_eq!(kind.message(), std_message);
        assert_eq!(parse_u8(text), Err(kind));
    }
    let std_message = "-129".parse::<i8>().unwrap_err().to_string();
    assert_eq!(IntErrorKind::NegOverflow.message(), std_message);
}

#[test]
fn decimal_text_reads_back() {
    for n in [0i64, 7, 10, 99, 123456, -1, -80, i64::MAX, i64::MIN] {
        let mut s = String::new();
        push_signed_decimal(&mut s, n);
        assert_eq!(s, n.to_string());
        assert_eq!(parse_i64(&s), Ok(n));
    }
    let mut s = String::from("n=");
    push_decimal(&mut s, 0);
    assert_eq!(s, "n=0");
    let mut s = String::new();
    push_decimal(&mut s, u64::MAX);
    assert_eq!(s, u64::MAX.to_string());
}

#[test]
fn splits_like_str_split() {
    assert_eq!(split_on("a/b//c", '/'), vec!["a", "b", "", "c"]);
    assert_eq!(split_on("", '/'), vec![""]);
    assert_eq!(split_on("/x/", '/'), vec!["", "x", ""]);
    assert_eq!(split_whitespace("  a  b\tc\n"), vec!["a", "b", "c"]);
    assert_eq!(split_whitespace("   "), Vec::<String>::new());
}

#[test]
fn trims_and_drops_separators() {
    assert_eq!(trimmed("  x y \n"), "x y");
    assert_eq!(trimmed("\u{3000}wide\u{a0}"), "wide");
    assert_eq!(remove_separators("1,234.5"), "12345");
    assert_eq!(remove_separators("none"), "none");
}

#[test]
fn prefixes() {
    assert!(starts_with_str("DONE ok", "DONE"));
    assert!(starts_with_str("x", ""));
    assert!(!starts_with_str("DON", "DONE"));
}

#[test]
fn string_sets_keep_each_string_once() {
    let mut v: Vec<String> = Vec::new();
    strset::insert(&mut v, &"a".to_owned());
    strset::insert(&mut v, &"b".to_owned());
    strset::insert(&mut v, &"a".to_owned());
    assert_eq!(v, vec!["a", "b"]);
    assert!(strset::contains(&v, &"b".to_owned()));
    assert_eq!(strset::index_of(&v, &"b".to_owned()), Some(1));
    strset::remove(&mut v, &"a".to_owned());
    assert_eq!(v, vec!["b"]);
    assert!(!strset::contains(&v, &"a".to_owned()));
    let d = strset::from_vec(&vec!["x".to_owned(), "y".to_owned(), "x".to_owned()]);
    assert_eq!(d.len(), 2);
    assert!(strset::contains(&d, &"x".to_owned()) && strset::contains(&d, &"y".to_owned()));
}
