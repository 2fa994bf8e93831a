use doxhtml::text::{
    capitalize_first_letter, count_leading, count_trailing, find_char, find_last,
    from_chars, matches_at, parse_number, replace_all, replace_first, same, to_chars, to_decimal,
    trim, wrapped, CharClass,
};

fn chars(s: &str) -> Vec<char> {
    s.chars().collect()
}

#[test]
fn capitalize_first_letter_of_words() {
    assert_eq!(capitalize_first_letter("abc"), "Abc");
    assert_eq!(capitalize_first_letter("Abc"), "Abc");
    assert_eq!(capitalize_first_letter("a"), "A");
    assert_eq!(capitalize_first_letter("1st"), "1st");
    assert_eq!(capitalize_first_letter(""), "");
}

#[test]
fn capitalize_first_letter_may_grow() {
    assert_eq!(capitalize_first_letter("\u{df}a"), "SSa");
    assert_eq!(capitalize_first_letter("\u{e9}t\u{e9}"), "\u{c9}t\u{e9}");
}

#[test]
fn characters_round_trip() {
    let v = to_chars("h\u{e9}llo");
    assert_eq!(v, vec!['h', '\u{e9}', 'l', 'l', 'o']);
    assert_eq!(from_chars(&v, 0, 5), "h\u{e9}llo");
    assert_eq!(from_chars(&v, 1, 3), "\u{e9}l");
    assert_eq!(from_chars(&v, 2, 2), "");
    assert_eq!(to_chars(""), Vec::<char>::new());
}

#[test]
fn same_compares_content() {
    assert!(same("abc", "abc"));
    assert!(!same("abc", "abd"));
    assert!(!same("abc", "ab"));
    assert!(same("", ""));
}

#[test]
fn wrapped_concatenates() {
    assert_eq!(wrapped("<p>", "x", "</p>"), "<p>x</p>");
    assert_eq!(wrapped("", "", ""), "");
}

#[test]
fn find_char_gives_first_position() {
    let s = chars("a}b}c");
    assert_eq!(find_char(&s, '}', 0), Some(1));
    assert_eq!(find_char(&s, '}', 1), Some(1));
    assert_eq!(find_char(&s, '}', 2), Some(3));
    assert_eq!(find_char(&s, '}', 4), None);
    assert_eq!(find_char(&s, '}', 9), None);
    assert_eq!(find_char(&s, 'x', 0), None);
}

#[test]
fn matches_at_positions() {
    let s = chars("abcabc");
    let p = chars("bc");
    assert!(matches_at(&s, 1, &p));
    assert!(matches_at(&s, 4, &p));
    assert!(!matches_at(&s, 0, &p));
    assert!(!matches_at(&s, 5, &p));
    assert!(!matches_at(&s, 7, &p));
    assert!(matches_at(&s, 6, &chars("")));
}

#[test]
fn find_last_gives_last_occurrence() {
    assert_eq!(find_last(&chars("a::b::c"), &chars("::")), Some(4));
    assert_eq!(find_last(&chars("aaa"), &chars("aa")), Some(1));
    assert_eq!(find_last(&chars("abc"), &chars("x")), None);
    assert_eq!(find_last(&chars(""), &chars("x")), None);
}

#[test]
fn trim_white_space() {
    assert_eq!(trim("  a b \n", CharClass::Space), "a b");
    assert_eq!(trim("a", CharClass::Space), "a");
    assert_eq!(trim(" \t\r\n", CharClass::Space), "");
    assert_eq!(trim("", CharClass::Space), "");
    assert_eq!(trim("\u{a0}x\u{3000}", CharClass::Space), "x");
    assert_eq!(trim("$x$", CharClass::Space), "$x$");
}

#[test]
fn trim_dollars() {
    assert_eq!(trim("$x^2$", CharClass::Dollar), "x^2");
    assert_eq!(trim("$$a$b$$", CharClass::Dollar), "a$b");
    assert_eq!(trim("$", CharClass::Dollar), "");
    assert_eq!(trim(" $x$", CharClass::Dollar), " $x");
}

#[test]
fn count_leading_and_trailing() {
    let s = chars("  ab  c ");
    assert_eq!(count_leading(&s, 0, CharClass::Space), 2);
    assert_eq!(count_leading(&s, 2, CharClass::Space), 0);
    assert_eq!(count_leading(&s, 4, CharClass::Space), 2);
    assert_eq!(count_leading(&s, 8, CharClass::Space), 0);
    assert_eq!(count_trailing(&s, 0, CharClass::Space), 1);
    assert_eq!(count_trailing(&s, 7, CharClass::Space), 1);
    assert_eq!(count_trailing(&s, 8, CharClass::Space), 0);
    assert_eq!(count_trailing(&chars("   "), 1, CharClass::Space), 2);
}

#[test]
fn replace_first_is_limited() {
    assert_eq!(replace_first("aaa", "a", "b", 2), "bba");
    assert_eq!(replace_first("aaa", "a", "b", 0), "aaa");
    assert_eq!(replace_first("aaa", "a", "b", usize::MAX), "bbb");
    assert_eq!(replace_first("&nbsp;&nbsp;x&nbsp;", "&nbsp;", "", 2), "x&nbsp;");
    assert_eq!(replace_first("x&nbsp;", "&nbsp;", "", 5), "x");
}

#[test]
fn replace_does_not_overlap() {
    assert_eq!(replace_all("aaaa", "aa", "x"), "xx");
    assert_eq!(replace_all("aaa", "aa", "x"), "xa");
    assert_eq!(replace_all("abab", "ab", "abab"), "abababab");
}

#[test]
fn replace_all_occurrences() {
    assert_eq!(replace_all("a::b::c", "::", "::&#8203;"), "a::&#8203;b::&#8203;c");
    assert_eq!(replace_all("int *", " *", "*"), "int*");
    assert_eq!(replace_all("abc", "x", "y"), "abc");
    assert_eq!(replace_all("", "x", "y"), "");
    assert_eq!(replace_all("abc", "", "y"), "abc");
    assert_eq!(replace_all("\u{e9}x\u{e9}", "x", "\u{4e2d}"), "\u{e9}\u{4e2d}\u{e9}");
}

#[test]
fn parse_number_reads_decimal() {
    assert_eq!(parse_number("0"), Some(0));
    assert_eq!(parse_number("12"), Some(12));
    assert_eq!(parse_number("+5"), Some(5));
    assert_eq!(parse_number("007"), Some(7));
    assert_eq!(parse_number(&usize::MAX.to_string()), Some(usize::MAX));
}

#[test]
fn parse_number_rejects() {
    assert_eq!(parse_number(""), None);
    assert_eq!(parse_number("+"), None);
    assert_eq!(parse_number("-1"), None);
    assert_eq!(parse_number("1a"), None);
    assert_eq!(parse_number("a1"), None);
    assert_eq!(parse_number(" 1"), None);
    assert_eq!(parse_number("1_000"), None);
    assert_eq!(parse_number("++1"), None);
    assert_eq!(parse_number("\u{663}"), None);
    assert_eq!(parse_number("18446744073709551616"), None);
    assert_eq!(parse_number("99999999999999999999999999x"), None);
}

#[test]
fn to_decimal_spells_numbers() {
    assert_eq!(to_decimal(0), "0");
    assert_eq!(to_decimal(7), "7");
    assert_eq!(to_decimal(10), "10");
    assert_eq!(to_decimal(12345), "12345");
    assert_eq!(to_decimal(usize::MAX), usize::MAX.to_string());
}

#[test]
fn replace_initial_of_words() {
    assert_eq!(doxhtml::text::replace_initial(&chars("XY"), &chars("abc")), "XYbc");
    assert_eq!(doxhtml::text::replace_initial(&chars(""), &chars("abc")), "bc");
    assert_eq!(doxhtml::text::replace_initial(&chars("XY"), &chars("")), "");
    assert_eq!(doxhtml::text::replace_initial(&chars("X"), &chars("a")), "X");
}
