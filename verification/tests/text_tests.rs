use battleship::text::{parse_usize, push_decimal, split, str_eq};

#[test]
fn split_matches_str_split() {
    for s in ["", "a", "a/b", "/a", "a/", "//", "battleship/game/3/host/action", "é/ü"] {
        let expected: Vec<&str> = s.split('/').collect();
        assert_eq!(split(s, '/'), expected);
    }
}

#[test]
fn parse_usize_matches_str_parse() {
    let cases = [
        "", "+", "-", "0", "+0", "-0", "42", "+42", "007", "4a", " 4", "18446744073709551615",
        "18446744073709551616", "99999999999999999999999", "١",
    ];
    for s in cases {
        assert_eq!(parse_usize(s), s.parse::<usize>().ok(), "input {s:?}");
    }
}

#[test]
fn push_decimal_writes_digits() {
    let mut out = String::from("id=");
    push_decimal(0, &mut out);
    assert_eq!(out, "id=0");
    let mut out = String::new();
    push_decimal(1234509, &mut out);
    assert_eq!(out, "1234509");
    let mut out = String::new();
    push_decimal(usize::MAX, &mut out);
    assert_eq!(out, usize::MAX.to_string());
    assert_eq!(parse_usize(&out), Some(usize::MAX));
}

#[test]
fn str_eq_compares_characters() {
    assert!(str_eq("abc", "abc"));
    assert!(!str_eq("abc", "abd"));
    assert!(!str_eq("abc", "ab"));
    assert!(str_eq("", ""));
}
