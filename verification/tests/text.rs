use daftie::html::html_escape;
use daftie::number::{
    decimal, format_thousands, integer, parse_i64, parse_u32, parse_u64, parse_usize, push_decimal,
};
use daftie::text::{
    chars_of, contains, find, is_blank, is_whitespace, join, non_blank, same, split_char,
    starts_with, string_of, trim,
};

#[test]
fn white_space_is_that_of_unicode() {
    for u in 0..=0x10ffffu32 {
        if let Some(c) = char::from_u32(u) {
            assert_eq!(is_whitespace(c), c.is_whitespace(), "{:?}", c);
        }
    }
}

#[test]
fn trim_takes_white_space_off_both_ends() {
    assert_eq!(trim("  a b \n"), "a b");
    assert_eq!(trim("\u{a0}x\u{3000}"), "x");
    assert_eq!(trim(" \t "), "");
    assert_eq!(trim(""), "");
}

#[test]
fn trimming_twice_is_trimming_once() {
    for s in ["  a  ", "", " \n ", "a", " b c\t"] {
        assert_eq!(trim(trim(s).as_str()), trim(s));
        assert_eq!(trim(s), s.trim());
    }
}

#[test]
fn blank_settings_are_none() {
    assert!(is_blank(" \n"));
    assert!(is_blank(""));
    assert!(!is_blank(" x "));
    assert_eq!(non_blank(Some(" key ")), Some("key".to_string()));
    assert_eq!(non_blank(Some("  ")), None);
    assert_eq!(non_blank(None), None);
}

#[test]
fn find_gives_the_first_place() {
    let cs = chars_of("abcabc");
    let p = chars_of("bc");
    assert_eq!(find(&cs, &p, 0), Some(1));
    assert_eq!(find(&cs, &p, 2), Some(4));
    assert_eq!(find(&cs, &p, 5), None);
    assert_eq!(find(&cs, &chars_of(""), 6), Some(6));
}

#[test]
fn contains_and_starts_with_agree_with_std() {
    for (s, p) in [("daft.ie", "ie"), ("daft.ie", "daft"), ("", "x"), ("é", ""), ("aab", "ab")] {
        assert_eq!(contains(s, p), s.contains(p));
        assert_eq!(starts_with(s, p), s.starts_with(p));
    }
}

#[test]
fn split_and_join_are_those_of_std() {
    for s in ["a/b/c", "", "/", "a//b", "x"] {
        let parts = split_char(s, '/');
        let std_parts: Vec<String> = s.split('/').map(String::from).collect();
        assert_eq!(parts, std_parts);
        assert_eq!(join(&parts, "/"), s);
    }
    assert_eq!(join(&vec!["a".to_string(), "b".to_string()], ", "), "a, b");
}

#[test]
fn pieces_of_strings_count_characters() {
    let cs = chars_of("héllo");
    assert_eq!(cs.len(), 5);
    assert_eq!(string_of(&cs, 1, 3), "él");
    assert!(same("é", "é"));
    assert!(!same("a", "ab"));
}

#[test]
fn numbers_are_read_as_std_reads_them() {
    for s in [
        "0", "7", "+7", "-7", "", "+", "-", "007", "18446744073709551615", "18446744073709551616",
        "4294967295", "4294967296", "9223372036854775807", "-9223372036854775808",
        "9223372036854775808", "-9223372036854775809", " 1", "1 ", "1a", "-0",
    ] {
        assert_eq!(parse_u64(s), s.parse::<u64>().ok(), "{s:?}");
        assert_eq!(parse_u32(s), s.parse::<u32>().ok(), "{s:?}");
        assert_eq!(parse_usize(s), s.parse::<usize>().ok(), "{s:?}");
        assert_eq!(parse_i64(s), s.parse::<i64>().ok(), "{s:?}");
    }
}

#[test]
fn numbers_read_back_from_their_text() {
    for n in [0, 1, -1, 10, i64::MAX, i64::MIN, -1001234567890] {
        assert_eq!(integer(n), n.to_string());
        assert_eq!(parse_i64(integer(n).as_str()), Some(n));
    }
    for n in [0, 9, 10, u64::MAX] {
        assert_eq!(decimal(n), n.to_string());
        assert_eq!(parse_u64(decimal(n).as_str()), Some(n));
    }
    let mut out = "n=".to_string();
    push_decimal(&mut out, 42);
    assert_eq!(out, "n=42");
}

#[test]
fn thousands_are_set_off_by_commas() {
    assert_eq!(format_thousands(0), "0");
    assert_eq!(format_thousands(999), "999");
    assert_eq!(format_thousands(1000), "1,000");
    assert_eq!(format_thousands(12345), "12,345");
    assert_eq!(format_thousands(1002003), "1,002,003");
    assert_eq!(format_thousands(u64::MAX), "18,446,744,073,709,551,615");
}

#[test]
fn thousands_without_commas_are_the_number() {
    for n in [5, 1000, 999999, 1000000, 10203040] {
        assert_eq!(format_thousands(n).replace(',', ""), n.to_string());
    }
}

#[test]
fn html_is_escaped() {
    assert_eq!(html_escape("a & b < c > \"d\""), "a &amp; b &lt; c &gt; &quot;d&quot;");
    assert_eq!(html_escape("&lt;"), "&amp;lt;");
    assert_eq!(html_escape("it's"), "it's");
    assert_eq!(html_escape(""), "");
}

#[test]
fn escaping_distributes_and_is_undone() {
    let (a, b) = ("x<&", "\"y>");
    assert_eq!(html_escape("x<&\"y>"), html_escape(a) + &html_escape(b));
    let back = html_escape("x<&\"y>")
        .replace("&quot;", "\"")
        .replace("&gt;", ">")
        .replace("&lt;", "<")
        .replace("&amp;", "&");
    assert_eq!(back, "x<&\"y>");
    assert!(!html_escape("<b>\"").contains('<'));
    assert!(!html_escape("<b>\"").contains('"'));
}
