use metricscat::text::{
    char_is_whitespace, chars_of, decimal_string, reconstruct, split_words, trim_end_of, trim_of,
};

#[test]
fn chars_are_decoded_in_order() {
    assert_eq!(chars_of("a\u{e9}z"), vec!['a', '\u{e9}', 'z']);
    assert_eq!(chars_of(""), Vec::<char>::new());
}

#[test]
fn whitespace_agrees_with_unicode_tables() {
    let mut n: u32 = 0;
    while n <= 0x10ffff {
        if let Some(c) = char::from_u32(n) {
            assert_eq!(char_is_whitespace(c), c.is_whitespace(), "U+{:04X}", n);
        }
        n += 1;
    }
}

#[test]
fn words_are_maximal_runs() {
    assert_eq!(split_words("  alpha \t beta\ngamma  "), vec!["alpha", "beta", "gamma"]);
    assert_eq!(split_words(""), Vec::<String>::new());
    assert_eq!(split_words(" \u{3000}\u{a0} "), Vec::<String>::new());
    assert_eq!(split_words("one"), vec!["one"]);
}

#[test]
fn words_agree_with_split_whitespace() {
    let samples = [
        "2024-01-02 12:00:00 ERROR connection refused",
        "\tindented\u{2003}wide  spaces\r\n",
        "x",
        " x",
        "x ",
        "\u{85}a\u{2028}b\u{2029}c\u{202f}d\u{205f}e\u{1680}f",
    ];
    for s in samples {
        let expected: Vec<String> = s.split_whitespace().map(|w| w.to_string()).collect();
        assert_eq!(split_words(s), expected);
    }
}

#[test]
fn trimming_removes_only_outer_whitespace() {
    assert_eq!(trim_end_of("  a b \n\t"), "  a b");
    assert_eq!(trim_end_of("\n"), "");
    assert_eq!(trim_of("  a b \n\t"), "a b");
    assert_eq!(trim_of(" \u{a0} "), "");
    assert_eq!(trim_of("a"), "a");
}

#[test]
fn reconstruct_appends_each_separator() {
    let tokens = vec!["a".to_string(), "b".to_string(), "c".to_string()];
    let seps = vec![" ".to_string(), "--".to_string()];
    assert_eq!(reconstruct(&tokens, &seps), "a b--c");
    assert_eq!(reconstruct(&Vec::new(), &seps), "");
}

#[test]
fn decimal_rendering() {
    assert_eq!(decimal_string(0), "0");
    assert_eq!(decimal_string(7), "7");
    assert_eq!(decimal_string(10), "10");
    assert_eq!(decimal_string(4096), "4096");
    assert_eq!(decimal_string(usize::MAX), usize::MAX.to_string());
}

#[test]
fn find_char_gives_first_position_or_end() {
    let v = chars_of("ab:cd:e");
    assert_eq!(metricscat::text::find_char(&v, 0, v.len(), ':'), 2);
    assert_eq!(metricscat::text::find_char(&v, 3, v.len(), ':'), 5);
    assert_eq!(metricscat::text::find_char(&v, 0, 2, ':'), 2);
    assert_eq!(metricscat::text::find_char(&v, 0, v.len(), '|'), v.len());
}

#[test]
fn string_of_copies_a_range() {
    let v = chars_of("hello");
    assert_eq!(metricscat::text::string_of(&v, 1, 4), "ell");
    assert_eq!(metricscat::text::string_of(&v, 2, 2), "");
}

#[test]
fn trim_bounds_delimit_the_trimmed_text() {
    let v = chars_of("\t  x y \n");
    assert_eq!(metricscat::text::trim_bounds(&v), (3, 6));
    let blank = chars_of("   ");
    let (b, e) = metricscat::text::trim_bounds(&blank);
    assert_eq!(b, e);
}
