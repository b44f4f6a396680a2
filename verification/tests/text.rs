use textrollup::text::{chars_of, is_white_space, join, split_words, trim};

#[test]
fn white_space_is_the_unicode_property() {
    for c in (0..=0x10ffffu32).filter_map(char::from_u32) {
        assert_eq!(is_white_space(c), c.is_whitespace(), "{c:?}");
    }
}

#[test]
fn trimming_agrees_with_the_standard_library() {
    for s in [
        "",
        " ",
        "a",
        " a b ",
        "\t\u{2003}é\u{3000}",
        "no trim",
        "\u{200b}zero\u{200b}",
        "你 好\u{0085}",
    ] {
        assert_eq!(trim(s), s.trim(), "{s:?}");
    }
}

#[test]
fn splitting_agrees_with_the_standard_library() {
    for s in [
        "",
        "   ",
        "one",
        " one  two\tthree\n",
        "a\u{00a0}b\u{2028}c",
        "你好 世界",
        "\u{1680}x\u{205f}",
    ] {
        let expected: Vec<&str> = s.split_whitespace().collect();
        assert_eq!(split_words(s), expected, "{s:?}");
    }
}

#[test]
fn joining_puts_the_separator_between() {
    let parts = |list: &[&str]| -> Vec<String> { list.iter().map(|s| s.to_string()).collect() };
    assert_eq!(join(&parts(&[]), " "), "");
    assert_eq!(join(&parts(&["one"]), " "), "one");
    assert_eq!(join(&parts(&["one", "", "two"]), "\n"), "one\n\ntwo");
}

#[test]
fn characters_come_in_order() {
    assert_eq!(chars_of("aé你"), vec!['a', 'é', '你']);
}
