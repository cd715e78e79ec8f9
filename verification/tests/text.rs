use yeet::text::{
    char_is_white_space, chars_of, contains_text, copy_opt_string, copy_string, copy_strings,
    find_char, line_ranges, parse_unsigned_range, push_decimal, same_text, split_text,
    string_of_range, trim_bounds,
};

fn v(s: &str) -> Vec<char> {
    s.chars().collect()
}

fn lines_of(s: &str) -> Vec<String> {
    let chars = chars_of(s);
    line_ranges(&chars).iter().map(|(lo, hi)| string_of_range(&chars, *lo, *hi)).collect()
}

#[test]
fn chars_and_strings_convert_both_ways() {
    assert_eq!(chars_of("añ😀"), vec!['a', 'ñ', '😀']);
    assert_eq!(string_of_range(&v("añ😀"), 0, 3), "añ😀");
    assert_eq!(string_of_range(&v("hello"), 1, 3), "el");
    assert_eq!(string_of_range(&v("hello"), 2, 2), "");
    assert!(chars_of("").is_empty());
}

#[test]
fn copies_are_equal() {
    assert_eq!(copy_string(&"abc".to_string()), "abc");
    assert_eq!(copy_opt_string(&Some("abc".to_string())), Some("abc".to_string()));
    assert_eq!(copy_opt_string(&None), None);
    assert_eq!(copy_strings(&vec!["a".to_string(), "".to_string()]), vec!["a", ""]);
}

#[test]
fn text_equality_and_membership() {
    assert!(same_text(&"abc".to_string(), &"abc".to_string()));
    assert!(!same_text(&"abc".to_string(), &"abd".to_string()));
    let names = vec!["Firefox".to_string(), "Zed".to_string()];
    assert!(contains_text(&names, &"Zed".to_string()));
    assert!(!contains_text(&names, &"zed".to_string()));
    assert!(!contains_text(&Vec::new(), &"Zed".to_string()));
}

#[test]
fn find_char_gives_the_first_position_in_range() {
    let s = v("a\tb\tc");
    assert_eq!(find_char(&s, 0, 5, '\t'), 1);
    assert_eq!(find_char(&s, 2, 5, '\t'), 3);
    assert_eq!(find_char(&s, 4, 5, '\t'), 5);
    assert_eq!(find_char(&s, 0, 1, '\t'), 1);
    assert_eq!(find_char(&s, 2, 2, '\t'), 2);
}

#[test]
fn white_space_is_what_the_standard_library_calls_white_space() {
    for code in 0..=0x3100u32 {
        if let Some(c) = char::from_u32(code) {
            assert_eq!(char_is_white_space(c), c.is_whitespace());
        }
    }
    assert!(!char_is_white_space('\u{feff}'));
    assert!(!char_is_white_space('\u{10ffff}'));
}

#[test]
fn trim_bounds_agree_with_the_standard_library() {
    for s in ["", " ", "a", "  a b  ", "\t\n a", "a \u{a0}", "\u{3000}x\u{2009}y\u{2028}", "   \u{85}"] {
        let chars = v(s);
        let (lo, hi) = trim_bounds(&chars);
        assert_eq!(string_of_range(&chars, lo, hi), s.trim());
    }
}

#[test]
fn unsigned_numbers() {
    let parse = |s: &str| parse_unsigned_range(&v(s), 0, s.chars().count());
    assert_eq!(parse("0"), Some(0));
    assert_eq!(parse("+0"), Some(0));
    assert_eq!(parse("1234567890"), Some(1234567890));
    assert_eq!(parse("00012"), Some(12));
    assert_eq!(parse("18446744073709551615"), Some(u64::MAX));
    assert_eq!(parse("18446744073709551616"), None);
    assert_eq!(parse("18446744073709551620"), None);
    assert_eq!(parse("28446744073709551615"), None);
    assert_eq!(parse(""), None);
    assert_eq!(parse("+"), None);
    assert_eq!(parse("++1"), None);
    assert_eq!(parse("-1"), None);
    assert_eq!(parse("1a"), None);
    assert_eq!(parse("a1"), None);
    assert_eq!(parse(" 1"), None);
    assert_eq!(parse("１"), None);
    assert_eq!(parse_unsigned_range(&v("ab12cd"), 2, 4), Some(12));
}

#[test]
fn decimal_writing() {
    let write = |n: u128| {
        let mut s = String::from(">");
        push_decimal(&mut s, n);
        s
    };
    assert_eq!(write(0), ">0");
    assert_eq!(write(7), ">7");
    assert_eq!(write(10), ">10");
    assert_eq!(write(1234567890), ">1234567890");
    assert_eq!(write(u64::MAX as u128), ">18446744073709551615");
    assert_eq!(write(u128::MAX), format!(">{}", u128::MAX));
}

#[test]
fn lines_agree_with_the_standard_library() {
    for s in [
        "",
        "\n",
        "a",
        "a\n",
        "a\nb",
        "a\n\nb\n",
        "a\r\nb\r\n",
        "a\r",
        "a\r\r\n",
        "\r\n",
        "\n\n",
        "a\rb\n",
        "x\n\r",
    ] {
        let expected: Vec<String> = s.lines().map(|l| l.to_string()).collect();
        assert_eq!(lines_of(s), expected);
    }
    assert_eq!(lines_of("a\r\nb\n\nc"), vec!["a", "b", "", "c"]);
}

#[test]
fn split_agrees_with_the_standard_library() {
    for s in ["", ";", "a", "a;b", "a;b;", ";;", "web;browser;", ";a"] {
        let expected: Vec<String> = s.split(';').map(|p| p.to_string()).collect();
        assert_eq!(split_text(s, ';'), expected);
    }
    assert_eq!(split_text("a;b;", ';'), vec!["a", "b", ""]);
}
