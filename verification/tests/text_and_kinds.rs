use promo_report::and_or::{trim_chars, AndOrType};
use promo_report::column_data::{AttribMap, ColumnData};
use promo_report::keyed::{compare_text, TextMap, TextOrder};
use promo_report::text::{
    chars_of, contains_text_in, i64_to_text, parse_i64, parse_usize, starts_with_text, string_from_chars,
    u64_to_text, ParseIntError,
};

#[test]
fn parse_i64_reads_signed_decimal() {
    assert_eq!(parse_i64("42"), Ok(42));
    assert_eq!(parse_i64("-7"), Ok(-7));
    assert_eq!(parse_i64("+5"), Ok(5));
    assert_eq!(parse_i64("007"), Ok(7));
    assert_eq!(parse_i64("9223372036854775807"), Ok(i64::MAX));
    assert_eq!(parse_i64("-9223372036854775808"), Ok(i64::MIN));
}

#[test]
fn parse_i64_errors_match_std() {
    assert_eq!(parse_i64(""), Err(ParseIntError::Empty));
    assert_eq!(parse_i64("-"), Err(ParseIntError::InvalidDigit));
    assert_eq!(parse_i64("+"), Err(ParseIntError::InvalidDigit));
    assert_eq!(parse_i64("12a"), Err(ParseIntError::InvalidDigit));
    assert_eq!(parse_i64(" 1"), Err(ParseIntError::InvalidDigit));
    assert_eq!(parse_i64("9223372036854775808"), Err(ParseIntError::PosOverflow));
    assert_eq!(parse_i64("-9223372036854775809"), Err(ParseIntError::NegOverflow));
    for text in ["", "-", "12a", "9223372036854775808", "-9223372036854775809"] {
        let ours = parse_i64(text).unwrap_err();
        let std_error = text.parse::<i64>().unwrap_err();
        assert_eq!(ours.message(), std_error.to_string());
    }
}

#[test]
fn parse_usize_reads_unsigned_decimal() {
    assert_eq!(parse_usize("17"), Ok(17));
    assert_eq!(parse_usize("+3"), Ok(3));
    assert_eq!(parse_usize("-1"), Err(ParseIntError::InvalidDigit));
    assert_eq!(parse_usize(""), Err(ParseIntError::Empty));
    let too_big = format!("{}0", usize::MAX);
    assert_eq!(parse_usize(&too_big), Err(ParseIntError::PosOverflow));
    assert_eq!(parse_usize(&usize::MAX.to_string()), Ok(usize::MAX));
}

#[test]
fn integers_are_written_in_decimal() {
    assert_eq!(i64_to_text(0), "0");
    assert_eq!(i64_to_text(-123), "-123");
    assert_eq!(i64_to_text(i64::MIN), "-9223372036854775808");
    assert_eq!(i64_to_text(i64::MAX), "9223372036854775807");
    assert_eq!(u64_to_text(u64::MAX), "18446744073709551615");
    assert_eq!(u64_to_text(10), "10");
}

#[test]
fn reading_back_a_written_integer_gives_it_back() {
    for n in [0i64, 1, -1, 9, 10, -10, 12345, i64::MAX, i64::MIN, i64::MIN + 1] {
        assert_eq!(parse_i64(&i64_to_text(n)), Ok(n));
    }
}

#[test]
fn text_helpers() {
    assert_eq!(chars_of("ab"), vec!['a', 'b']);
    assert_eq!(string_from_chars(&['x', 'y']), "xy");
    assert!(starts_with_text("ABCD", "AB"));
    assert!(!starts_with_text("AB", "ABC"));
    assert!(contains_text_in("hello world", "o w"));
    assert!(!contains_text_in("hello", "world"));
    assert!(contains_text_in("hello", ""));
    assert_eq!(trim_chars(&[' ', 'a', '\t', 'b', '\n']), vec!['a', '\t', 'b']);
}

#[test]
fn and_or_kinds_are_written_as_in_promotion_files() {
    assert_eq!(AndOrType::And.to_text(), "And");
    assert_eq!(AndOrType::Or.to_text(), "Or");
    assert_eq!(AndOrType::Any(3).to_text(), "Any(3)");
    assert_eq!(AndOrType::Single.to_text(), "None");
}

#[test]
fn and_or_kinds_are_read_from_promotion_files() {
    assert_eq!(AndOrType::from_promo_text(" or "), Some(AndOrType::Or));
    assert_eq!(AndOrType::from_promo_text("AND"), Some(AndOrType::And));
    assert_eq!(AndOrType::from_promo_text("and"), Some(AndOrType::And));
    assert_eq!(AndOrType::from_promo_text("any#3"), Some(AndOrType::Any(3)));
    assert_eq!(AndOrType::from_promo_text("Any"), Some(AndOrType::Any(1)));
    assert_eq!(AndOrType::from_promo_text("any#x"), Some(AndOrType::Any(1)));
    assert_eq!(AndOrType::from_promo_text("any#4#5"), Some(AndOrType::Any(4)));
    assert_eq!(AndOrType::from_promo_text("none"), Some(AndOrType::Single));
    assert_eq!(AndOrType::from_promo_text("maybe"), None);
    assert_eq!(AndOrType::from_promo_text(""), None);
}

#[test]
fn and_or_text_reads_back_except_for_any() {
    for kind in [AndOrType::And, AndOrType::Or, AndOrType::Single] {
        assert_eq!(AndOrType::from_promo_text(&kind.to_text()), Some(kind));
    }
    assert_eq!(AndOrType::from_promo_text(&AndOrType::Any(2).to_text()), None);
}

#[test]
fn text_order_is_by_characters() {
    assert!(matches!(compare_text(&['a'], &['b']), TextOrder::Less));
    assert!(matches!(compare_text(&['a', 'b'], &['a']), TextOrder::Greater));
    assert!(matches!(compare_text(&['a'], &['a']), TextOrder::Equal));
    assert!(matches!(compare_text(&[], &['a']), TextOrder::Less));
}

#[test]
fn text_map_keeps_keys_sorted_and_replaces_values() {
    let mut m: TextMap<String> = TextMap::new();
    m.insert("pear".to_string(), "1".to_string());
    m.insert("apple".to_string(), "2".to_string());
    m.insert("fig".to_string(), "3".to_string());
    m.insert("apple".to_string(), "4".to_string());
    assert_eq!(m.len(), 3);
    assert_eq!(m.key_at(0), "apple");
    assert_eq!(m.key_at(1), "fig");
    assert_eq!(m.key_at(2), "pear");
    assert_eq!(m.get("apple").map(|s| s.as_str()), Some("4"));
    assert_eq!(m.value_at(2), "1");
    assert!(m.get("plum").is_none());
    assert_eq!(m.search(&['f', 'i', 'g']), Ok(1));
    assert_eq!(m.search(&['b']), Err(1));
    assert!(m.is_wf());
    let copy = m.duplicate();
    assert_eq!(copy.len(), 3);
    assert_eq!(copy.get("fig").map(|s| s.as_str()), Some("3"));
}

#[test]
fn a_cell_keeps_an_attribute_it_already_has() {
    let mut attribs: AttribMap = TextMap::new();
    attribs.insert("t".to_string(), "s".to_string());
    let mut cell = ColumnData::new("12".to_string(), attribs);
    assert_eq!(cell.value, "12");
    assert_eq!(cell.type_of_data, "");
    cell.add_attrib("t".to_string(), "str".to_string());
    cell.add_attrib("r".to_string(), "A1".to_string());
    assert_eq!(cell.saved_attribs.get("t").map(|s| s.as_str()), Some("s"));
    assert_eq!(cell.saved_attribs.get("r").map(|s| s.as_str()), Some("A1"));
    assert_eq!(cell.to_text(), "12");
    let empty = ColumnData::default();
    assert_eq!(empty.value, "");
    assert_eq!(empty.saved_attribs.len(), 0);
    let copy = cell.duplicate();
    assert_eq!(copy.value, "12");
    assert_eq!(copy.saved_attribs.len(), 2);
}
