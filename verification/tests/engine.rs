use cases::recipes::{Camel, Lower, Title, Upper};
use cases::transform::{fmt_lower, fmt_title, fmt_upper, to_string, transform};

#[test]
fn fmt_lower_appends_the_lowercase_form() {
    let mut buf = String::from("x=");
    fmt_lower(&mut buf, "AbC1Ü");
    assert_eq!(buf, "x=abc1ü");
    fmt_lower(&mut buf, "");
    assert_eq!(buf, "x=abc1ü");
}

#[test]
fn fmt_upper_appends_the_uppercase_form() {
    let mut buf = String::from("x=");
    fmt_upper(&mut buf, "aBc1ß");
    assert_eq!(buf, "x=ABC1SS");
    fmt_upper(&mut buf, "");
    assert_eq!(buf, "x=ABC1SS");
}

#[test]
fn fmt_title_raises_the_first_character_and_lowers_the_rest() {
    let mut buf = String::from("x=");
    fmt_title(&mut buf, "hELLO");
    assert_eq!(buf, "x=Hello");
    fmt_title(&mut buf, "");
    assert_eq!(buf, "x=Hello");
    fmt_title(&mut buf, "é");
    assert_eq!(buf, "x=HelloÉ");
    fmt_title(&mut buf, "ǆA");
    assert_eq!(buf, "x=HelloÉǄa");
}

#[test]
fn transform_appends_to_what_the_buffer_holds() {
    let mut buf = String::from("pre:");
    transform("fooBar baz", &mut buf, Lower, "+");
    assert_eq!(buf, "pre:foo+bar+baz");
    transform("", &mut buf, Lower, "+");
    assert_eq!(buf, "pre:foo+bar+baz");
    transform(" - ", &mut buf, Upper, "+");
    assert_eq!(buf, "pre:foo+bar+baz");
    transform("x", &mut buf, Upper, "+");
    assert_eq!(buf, "pre:foo+bar+bazX");
}

#[test]
fn to_string_takes_any_delimiter() {
    assert_eq!(to_string("fooBar baz", Lower, ""), "foobarbaz");
    assert_eq!(to_string("fooBar baz", Upper, "::"), "FOO::BAR::BAZ");
    assert_eq!(to_string("fooBar baz", Title { acronyms: None }, "é"), "FooéBaréBaz");
    assert_eq!(to_string("fooBar baz", Camel { acronyms: None }, "/"), "foo/Bar/Baz");
}

#[test]
fn the_words_are_cut_where_the_text_says() {
    assert_eq!(to_string("fooBar", Lower, "|"), "foo|bar");
    assert_eq!(to_string("  HTTPServer, v2Beta! ", Lower, "|"), "http|server|v2|beta");
    assert_eq!(to_string("ÉcoleNormale—été", Upper, "|"), "ÉCOLE|NORMALE|ÉTÉ");
    assert_eq!(to_string("a", Lower, "|"), "a");
    assert_eq!(to_string("日本語", Lower, "|"), "日本語");
    assert_eq!(to_string("", Lower, "|"), "");
}

#[test]
fn a_capital_before_a_small_letter_begins_a_word_within_capitals() {
    assert_eq!(to_string("ABCdef", Lower, "|"), "ab|cdef");
    assert_eq!(to_string("ABcDE", Lower, "|"), "a|bc|de");
    assert_eq!(to_string("aBC", Lower, "|"), "a|bc");
    assert_eq!(to_string("AB_cd", Lower, "|"), "ab|cd");
    assert_eq!(to_string("ABC d", Lower, "|"), "abc|d");
    assert_eq!(to_string("ABC", Title { acronyms: None }, "|"), "Abc");
}

#[test]
fn the_formatter_is_told_which_word_is_the_first() {
    assert_eq!(to_string("ONE TWO THREE", Camel { acronyms: None }, " "), "one Two Three");
    assert_eq!(to_string(" - ONE", Camel { acronyms: None }, " "), "one");
}

#[test]
fn a_long_text_is_read_in_one_pass() {
    let word = "fooBar_";
    let text = word.repeat(100_000);
    let out = to_string(&text, Upper, " ");
    assert_eq!(out.len(), 100_000 * 8 - 1);
    assert!(out.starts_with("FOO BAR FOO BAR"));
    assert!(out.ends_with("FOO BAR"));
}
