use steam_optionx::text::{
    blank, chars_before, chars_of, contains_chars, same_chars, space_char, trim,
};

#[test]
fn blank_tells_empty_and_white_space_from_text() {
    assert!(blank(""));
    assert!(blank(" "));
    assert!(blank(" \t\r\n"));
    assert!(blank("\u{a0}\u{2003}\u{3000}"));
    assert!(!blank("a"));
    assert!(!blank("  a  "));
    assert!(!blank("\u{200b}"));
}

#[test]
fn space_char_agrees_with_the_standard_library() {
    for code in 0u32..0x3100 {
        if let Some(c) = char::from_u32(code) {
            assert_eq!(space_char(c), c.is_whitespace(), "code {:x}", code);
        }
    }
}

#[test]
fn trim_cuts_both_ends_only() {
    assert_eq!(trim(""), "");
    assert_eq!(trim("   "), "");
    assert_eq!(trim("abc"), "abc");
    assert_eq!(trim("  a b  "), "a b");
    assert_eq!(trim("\t-novid \n"), "-novid");
    assert_eq!(trim("\u{3000}é \u{a0}"), "é");
}

#[test]
fn trim_agrees_with_the_standard_library() {
    for text in ["", " ", "a", " a", "a ", " a b ", "\n\n", "x\ty", "  ñ  "] {
        assert_eq!(trim(text), text.trim());
    }
}

#[test]
fn chars_of_lists_the_characters() {
    assert_eq!(chars_of(""), Vec::<char>::new());
    assert_eq!(chars_of("aé日"), vec!['a', 'é', '日']);
}

#[test]
fn contains_chars_finds_an_unbroken_run() {
    let hay = chars_of("half-life 2");
    assert!(contains_chars(&hay, &chars_of("")));
    assert!(contains_chars(&hay, &chars_of("half")));
    assert!(contains_chars(&hay, &chars_of("life")));
    assert!(contains_chars(&hay, &chars_of(" 2")));
    assert!(contains_chars(&hay, &chars_of("half-life 2")));
    assert!(!contains_chars(&hay, &chars_of("half-life 3")));
    assert!(!contains_chars(&hay, &chars_of("hl")));
    assert!(!contains_chars(&hay, &chars_of("half-life 2 ")));
    assert!(contains_chars(&chars_of(""), &chars_of("")));
    assert!(!contains_chars(&chars_of(""), &chars_of("a")));
}

#[test]
fn chars_before_is_the_order_of_strings() {
    let pairs = [
        ("", ""), ("", "a"), ("a", ""), ("a", "a"), ("a", "b"), ("b", "a"), ("ab", "abc"),
        ("abc", "ab"), ("Z", "a"), ("a", "Z"), ("é", "z"), ("z", "é"), ("日本", "日"),
    ];
    for (a, b) in pairs {
        assert_eq!(chars_before(&chars_of(a), &chars_of(b)), a < b, "{:?} {:?}", a, b);
    }
}

#[test]
fn same_chars_compares_texts() {
    assert!(same_chars(&chars_of(""), &chars_of("")));
    assert!(same_chars(&chars_of("abc"), &chars_of("abc")));
    assert!(!same_chars(&chars_of("abc"), &chars_of("abd")));
    assert!(!same_chars(&chars_of("abc"), &chars_of("ab")));
}
