use komga_api::sorting::{stable_order, TextKey};
use komga_api::text::{
    blank, char_ascii_lower, char_is_digit, char_is_lower, char_is_space, char_is_upper, chars_lt,
    chars_of, contains, copy_texts, eq_ignore_case, find_char, has_text, join, lowered_chars,
    matches_at, parse_digits, parse_i32, parse_i64, push_decimal, push_decimal_i64, push_padded,
    split_at, split_words, string_of, text_eq, trim,
};
use komga_api::url::{
    encode_path, encode_query_param, percent_decode, percent_encode, url_decode, urlencoding,
    UrlPart,
};

fn texts(v: &[&str]) -> Vec<String> {
    v.iter().map(|s| s.to_string()).collect()
}

#[test]
fn characters_are_told_apart() {
    assert!(char_is_space(' ') && char_is_space('\u{a0}') && !char_is_space('a'));
    assert!(char_is_digit('0') && char_is_digit('9') && !char_is_digit('a'));
    assert!(char_is_lower('z') && !char_is_lower('Z'));
    assert!(char_is_upper('Z') && !char_is_upper('z'));
    assert_eq!(char_ascii_lower('Q'), 'q');
    assert_eq!(char_ascii_lower('\u{c9}'), '\u{c9}');
}

#[test]
fn blank_is_what_trims_to_nothing() {
    for s in ["", " ", " \t\n", "\u{2003}", " a ", "a"] {
        assert_eq!(blank(s), s.trim().is_empty());
        assert_eq!(trim(s), s.trim());
    }
}

#[test]
fn texts_are_taken_apart_and_joined() {
    assert_eq!(split_at("a/b//c", '/'), texts(&["a", "b", "", "c"]));
    assert_eq!(split_at("", '/'), texts(&[""]));
    assert_eq!(split_words("  one two\tthree "), texts(&["one", "two", "three"]));
    assert_eq!(split_words("   "), texts(&[]));
    assert_eq!(join(&texts(&["a", "b", "c"]), ", "), "a, b, c");
    assert_eq!(join(&texts(&[]), ", "), "");
    let v = chars_of("h\u{e9}llo");
    assert_eq!(v.len(), 5);
    assert_eq!(string_of(&v, 1, 3), "\u{e9}l");
    assert_eq!(find_char(&v, 0, 'l'), 2);
    assert_eq!(find_char(&v, 0, 'x'), 5);
    assert!(matches_at(&v, &chars_of("ll"), 2));
    assert!(!matches_at(&v, &chars_of("lo!"), 3));
    assert!(contains("berserk", "ser") && !contains("berserk", "x") && contains("a", ""));
    assert!(text_eq("a", "a") && !text_eq("a", "A"));
    assert!(eq_ignore_case("JPEG", "jpeg") && !eq_ignore_case("jpg", "jpeg"));
    assert_eq!(lowered_chars("AbC"), vec!['a', 'b', 'c']);
    assert!(has_text(&texts(&["a", "b"]), "b") && !has_text(&texts(&["a"]), "b"));
    assert_eq!(copy_texts(&texts(&["a", "b"])), texts(&["a", "b"]));
}

#[test]
fn numbers_are_written_and_read() {
    let mut s = String::from("n=");
    push_decimal(&mut s, 18446744073709551615);
    assert_eq!(s, "n=18446744073709551615");
    let mut s = String::new();
    push_decimal_i64(&mut s, i64::MIN);
    assert_eq!(s, "-9223372036854775808");
    let mut s = String::new();
    push_padded(&mut s, 12, 9);
    assert_eq!(s, "000000012");
    assert_eq!(parse_i32("42"), Some(42));
    assert_eq!(parse_i32("+42"), Some(42));
    assert_eq!(parse_i32("-2147483648"), Some(i32::MIN));
    assert_eq!(parse_i32("2147483648"), None);
    for s in ["", "-", "+", "4a", " 4", "--4"] {
        assert_eq!(parse_i32(s), s.parse::<i32>().ok(), "{s}");
        assert_eq!(parse_i64(s), s.parse::<i64>().ok(), "{s}");
    }
    assert_eq!(parse_i64("-9223372036854775808"), Some(i64::MIN));
    assert_eq!(parse_digits(&chars_of("x123y"), 1, 4, 200), Some(123));
    assert_eq!(parse_digits(&chars_of("x123y"), 1, 4, 100), None);
}

#[test]
fn sorting_keeps_equals_in_order() {
    let keys: Vec<TextKey> = ["b", "a", "b", "", "ab"]
        .iter()
        .map(|s| TextKey { chars: chars_of(s) })
        .collect();
    assert_eq!(stable_order(&keys), vec![3, 1, 4, 0, 2]);
    assert!(chars_lt(&chars_of("a"), &chars_of("ab")));
    assert!(!chars_lt(&chars_of("b"), &chars_of("ab")));
}

#[test]
fn urls_are_encoded() {
    assert_eq!(encode_path("/books/b1/file/Berserk v01.cbz"), "/books/b1/file/Berserk%20v01.cbz");
    assert_eq!(urlencoding("user:email a/b"), "user%3Aemail%20a%2Fb");
    assert_eq!(urlencoding("a-b_c.d~e"), "a-b_c.d~e");
    assert_eq!(encode_query_param("a&b=c"), "a%26b%3Dc");
    assert_eq!(percent_encode(UrlPart::Anywhere, "\u{e9}"), "%C3%A9");
}

#[test]
fn decoding_undoes_encoding() {
    for s in ["", "plain", "a b+c&d", "\u{65e5}\u{672c}\u{8a9e}", "100%"] {
        assert_eq!(url_decode(&urlencoding(s)), s);
    }
    assert_eq!(url_decode("a+b"), "a b");
    assert_eq!(url_decode("a%20b"), "a b");
    assert_eq!(url_decode("100%"), "100%");
    assert_eq!(url_decode("%zz"), "%zz");
    assert_eq!(percent_decode(b"%41"), b"A".to_vec());
    // bytes that are no text become the replacement character
    assert_eq!(url_decode("%ff"), "\u{fffd}");
}
