use iscsi_lib::iscsi::text::{number_text, parse_kv_pairs, parse_number, push_pair, str_eq};

#[test]
fn numbers_survive_the_text() {
    for n in [0, 7, 10, 4096, 1_048_576, u32::MAX] {
        assert_eq!(number_text(n), n.to_string());
        assert_eq!(parse_number(&number_text(n), u32::MAX), Some(n));
    }
}

#[test]
fn numbers_have_a_limit() {
    assert_eq!(parse_number("255", 255), Some(255));
    assert_eq!(parse_number("256", 255), None);
    assert_eq!(parse_number("4294967296", u32::MAX), None);
    assert_eq!(parse_number("+12", 99), Some(12));
    assert_eq!(parse_number("007", 99), Some(7));
    for bad in ["", "+", "-1", "1 ", "0x1", "\u{661}"] {
        assert_eq!(parse_number(bad, u32::MAX), None);
        assert!(bad.parse::<u32>().is_err());
    }
}

#[test]
fn pairs_survive_the_text() {
    let mut text = String::new();
    push_pair(&mut text, "Key", "Value");
    push_pair(&mut text, "Other", "");
    assert_eq!(text, "Key=Value\0Other=\0");
    assert_eq!(
        parse_kv_pairs(text.as_bytes()),
        vec![("Key", "Value"), ("Other", "")]
    );
}

#[test]
fn texts_are_compared_whole() {
    assert!(str_eq("Yes", "Yes"));
    assert!(!str_eq("Yes", "yes"));
    assert!(!str_eq("Yes", "Yess"));
    assert!(str_eq("", ""));
}

#[test]
fn entries_are_read_one_by_one() {
    let first = "A=1\0\u{e9}=2\0junk";
    let second = "=3\0B=4";
    let both = format!("{first}\0{second}");
    let mut pairs = parse_kv_pairs(first.as_bytes());
    pairs.extend(parse_kv_pairs(second.as_bytes()));
    assert_eq!(parse_kv_pairs(both.as_bytes()), pairs);
    assert_eq!(pairs.len(), 4);
}
