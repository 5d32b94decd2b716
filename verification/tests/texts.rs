use external_tests::text::{
    chars, contains, parse_number, same, skip, split_at_each, starts_with, text_of, trim, unquote,
};

#[test]
fn characters_there_and_back() {
    let cs = chars("a\u{e9}\u{4e16}b");
    assert_eq!(cs, vec!['a', '\u{e9}', '\u{4e16}', 'b']);
    assert_eq!(text_of(&cs, 1, 3), "\u{e9}\u{4e16}");
    assert_eq!(text_of(&cs, 4, 4), "");
}

#[test]
fn finding_text() {
    for (s, n) in [("", ""), ("abc", ""), ("abc", "abc"), ("xxabc", "abc"), ("ababc", "abc"), ("ab", "abc"), ("a\n(gdb) ", "(gdb)")] {
        assert_eq!(contains(s, n), s.contains(n), "{:?} {:?}", s, n);
        assert_eq!(starts_with(s, n), s.starts_with(n), "{:?} {:?}", s, n);
        assert_eq!(same(s, n), s == n, "{:?} {:?}", s, n);
    }
}

#[test]
fn splitting_text() {
    for s in ["", ",", "a", "a,b", ",a,,b,", "a=b,c = d"] {
        let expected: Vec<&str> = s.split(',').collect();
        assert_eq!(split_at_each(s, ','), expected);
    }
    assert_eq!(split_at_each("a=b=c", '='), vec!["a", "b", "c"]);
}

#[test]
fn trimming_text() {
    for s in ["", " ", "a", " a", "a ", "\t\u{a0} a b \u{2003}\n", "\u{200b}a"] {
        assert_eq!(trim(s), s.trim());
    }
    assert_eq!(trim("  x y\r\n"), "x y");
    for n in 0..0x11_0000u32 {
        if let Some(c) = char::from_u32(n) {
            let white = matches!(n, 0x9..=0xd | 0x20 | 0x85 | 0xa0 | 0x1680 | 0x2000..=0x200a | 0x2028 | 0x2029 | 0x202f | 0x205f | 0x3000);
            assert_eq!(c.is_whitespace(), white);
        }
    }
}

#[test]
fn unquoting_text() {
    assert_eq!(unquote("\"a\""), Some("a".to_string()));
    assert_eq!(unquote("\"\""), Some(String::new()));
    assert_eq!(unquote("\""), None);
    assert_eq!(unquote(""), None);
    assert_eq!(unquote("\"a"), None);
    assert_eq!(unquote("a\""), None);
    assert_eq!(unquote("\"a\"b\""), Some("a\"b".to_string()));
}

#[test]
fn skipping_text() {
    assert_eq!(skip("\u{e9}bc", 1), "bc");
    assert_eq!(skip("abc", 3), "");
}

#[test]
fn reading_numbers() {
    for s in ["0", "1", "42", "+7", "007", "", "+", "-1", " 1", "1 ", "1a", "++1", "18446744073709551615", "18446744073709551616", "99999999999999999999999"] {
        assert_eq!(parse_number(s), s.parse::<usize>().ok(), "{:?}", s);
    }
    assert_eq!(parse_number("12"), Some(12));
}
