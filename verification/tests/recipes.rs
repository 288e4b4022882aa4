use cases::{
    to_camel, to_kebab, to_lower, to_pascal, to_screaming_kebab, to_screaming_snake, to_snake,
    to_title, to_train, to_upper,
};

#[test]
fn foo_bar_in_every_convention() {
    assert_eq!(to_camel("fooBar", None), "fooBar");
    assert_eq!(to_pascal("fooBar", None), "FooBar");
    assert_eq!(to_snake("fooBar"), "foo_bar");
    assert_eq!(to_screaming_snake("fooBar"), "FOO_BAR");
    assert_eq!(to_kebab("fooBar"), "foo-bar");
    assert_eq!(to_screaming_kebab("fooBar"), "FOO-BAR");
    assert_eq!(to_train("fooBar", None), "Foo-Bar");
    assert_eq!(to_title("fooBar", None), "Foo Bar");
    assert_eq!(to_upper("fooBar"), "FOO BAR");
    assert_eq!(to_lower("fooBar"), "foo bar");
}

#[test]
fn acronym_is_cut_before_its_last_capital() {
    assert_eq!(to_snake("HTTPServer"), "http_server");
    assert_eq!(to_snake("ABCdef"), "ab_cdef");
    assert_eq!(to_train("parseXMLDocument", None), "Parse-Xml-Document");
}

#[test]
fn runs_of_separators_give_no_empty_word() {
    assert_eq!(to_title("  multiple   spaces  ", None), "Multiple Spaces");
    assert_eq!(to_snake("__a--b..c  "), "a_b_c");
}

#[test]
fn empty_text_gives_empty_text() {
    assert_eq!(to_camel("", None), "");
    assert_eq!(to_pascal("", None), "");
    assert_eq!(to_snake(""), "");
    assert_eq!(to_screaming_snake(""), "");
    assert_eq!(to_kebab(""), "");
    assert_eq!(to_screaming_kebab(""), "");
    assert_eq!(to_train("", None), "");
    assert_eq!(to_lower(""), "");
    assert_eq!(to_title("", None), "");
    assert_eq!(to_upper(""), "");
}

#[test]
fn row_of_capitals_is_one_word() {
    assert_eq!(to_pascal("ABC", None), "Abc");
    assert_eq!(to_snake("ABC"), "abc");
}

#[test]
fn separators_alone_give_empty_text() {
    let s = " \t_-.,;:!?/\\()[]{}<>'\"+*=~ ";
    assert_eq!(to_camel(s, None), "");
    assert_eq!(to_pascal(s, None), "");
    assert_eq!(to_snake(s), "");
    assert_eq!(to_screaming_snake(s), "");
    assert_eq!(to_kebab(s), "");
    assert_eq!(to_screaming_kebab(s), "");
    assert_eq!(to_train(s, None), "");
    assert_eq!(to_lower(s), "");
    assert_eq!(to_title(s, None), "");
    assert_eq!(to_upper(s), "");
}

#[test]
fn a_digit_keeps_the_case_that_came_before_it() {
    assert_eq!(to_snake("foo2Bar"), "foo2_bar");
    assert_eq!(to_snake("v2Beta"), "v2_beta");
    assert_eq!(to_snake("A1B"), "a1b");
    assert_eq!(to_snake("A1Bc"), "a1_bc");
    assert_eq!(to_snake("abc123def"), "abc123def");
    assert_eq!(to_snake("123"), "123");
}

#[test]
fn a_digit_after_a_separator_forgets_the_case() {
    assert_eq!(to_snake("a 1B"), "a_1b");
    assert_eq!(to_snake(" 1A"), "1a");
    assert_eq!(to_snake("a 1Bc"), "a_1bc");
    assert_eq!(to_snake("a1Bc"), "a1_bc");
}

#[test]
fn camel_lowers_the_first_word_only() {
    assert_eq!(to_camel("HTTPServerName", None), "httpServerName");
    assert_eq!(to_camel("foo bar baz", None), "fooBarBaz");
    assert_eq!(to_camel("  Foo", None), "foo");
}

#[test]
fn letters_beyond_ascii_are_word_characters() {
    assert_eq!(to_snake("écoleNormale"), "école_normale");
    assert_eq!(to_screaming_snake("straße haus"), "STRASSE_HAUS");
    assert_eq!(to_title("ÉCOLE normale", None), "École Normale");
    assert_eq!(to_kebab("日本語 テキスト"), "日本語-テキスト");
    assert_eq!(to_snake("привет—мир"), "привет_мир");
}

#[test]
fn a_mapping_to_several_characters_is_written_whole() {
    assert_eq!(to_upper("ﬁn"), "FIN");
    assert_eq!(to_title("ßa", None), "SSa");
    assert_eq!(to_lower("İ"), "i\u{307}");
}

#[test]
fn upper_twice_is_upper_once() {
    for s in ["fooBar", "HTTPServer", "  multiple   spaces  ", "", "straße haus", "a1_bc"] {
        let once = to_upper(s);
        assert_eq!(to_upper(&once), once);
    }
    assert_eq!(to_upper(&to_upper("fooBar")), "FOO BAR");
}

#[test]
fn lower_twice_is_lower_once() {
    for s in ["fooBar", "HTTPServer", "  multiple   spaces  ", "", "ÉCOLE normale", "A1Bc"] {
        let once = to_lower(s);
        assert_eq!(to_lower(&once), once);
    }
    assert_eq!(to_lower(&to_lower("HTTPServer")), "http server");
}

#[test]
fn a_combining_mark_in_a_case_mapping_parts_the_word_on_the_next_pass() {
    // the lowercase form of the dotted capital I ends in a combining dot,
    // which is no word character
    let once = to_lower("İ");
    assert_eq!(once, "i\u{307}");
    assert_eq!(to_lower(&once), "i");
    // the uppercase form of the j with caron ends in a combining caron
    let once = to_upper("\u{1f0}");
    assert_eq!(once, "J\u{30c}");
    assert_eq!(to_upper(&once), "J");
}

#[test]
fn every_convention_finds_the_same_words() {
    let s = "fooBar HTTPServer_x--y2Z";
    let words = to_snake(s).split('_').count();
    assert_eq!(words, 7);
    assert_eq!(to_screaming_snake(s).split('_').count(), words);
    assert_eq!(to_kebab(s).split('-').count(), words);
    assert_eq!(to_screaming_kebab(s).split('-').count(), words);
    assert_eq!(to_train(s, None).split('-').count(), words);
    assert_eq!(to_lower(s).split(' ').count(), words);
    assert_eq!(to_title(s, None).split(' ').count(), words);
    assert_eq!(to_upper(s).split(' ').count(), words);
    assert_eq!(to_pascal(s, None).chars().filter(|c| c.is_uppercase()).count(), words);
    assert_eq!(to_camel(s, None).chars().filter(|c| c.is_uppercase()).count(), words - 1);
}
