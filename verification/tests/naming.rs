use naming::naming_case::{compose_words_to_pascal, extract_words_from, extract_words_from_pascal, to_first_uppercase};
use naming::{from, from_hungarian_notation, which_case, NamingCase};
use naming::{is_camel, is_kebab, is_pascal, is_screaming_snake, is_single_word, is_snake};

#[test]
fn which_case_recognizes_each_convention() {
    assert_eq!(which_case("foo"), NamingCase::SingleWord("foo".to_string()));
    assert_eq!(which_case("foo123"), NamingCase::SingleWord("foo123".to_string()));
    assert_eq!(which_case("FOO_BAR"), NamingCase::ScreamingSnake("FOO_BAR".to_string()));
    assert_eq!(which_case("foo_bar"), NamingCase::Snake("foo_bar".to_string()));
    assert_eq!(which_case("foo-bar"), NamingCase::Kebab("foo-bar".to_string()));
    assert_eq!(which_case("fooBar"), NamingCase::Camel("fooBar".to_string()));
    assert_eq!(which_case("FooBar"), NamingCase::Pascal("FooBar".to_string()));
}

#[test]
fn which_case_rejects_foreign_characters() {
    assert_eq!(which_case("中文"), NamingCase::Invalid("中文".to_string()));
    assert_eq!(which_case("foo@bar"), NamingCase::Invalid("foo@bar".to_string()));
    assert_eq!(which_case("@foobar"), NamingCase::Invalid("@foobar".to_string()));
    assert_eq!(which_case("foobar@"), NamingCase::Invalid("foobar@".to_string()));
    assert_eq!(which_case(""), NamingCase::Invalid("".to_string()));
}

#[test]
fn invalid_tokens_fail_segmentation() {
    let invalid = which_case("foo@bar");
    assert!(extract_words_from(&invalid).is_err());
    assert!(invalid.to_snake().is_err());
    assert!(invalid.to_screaming_snake().is_err());
    assert!(invalid.to_kebab().is_err());
    assert!(invalid.to_camel().is_err());
    assert!(invalid.to_pascal().is_err());
}

#[test]
fn single_word_examples() {
    assert!(is_single_word("aaa"));
    assert!(is_single_word("aaa123"));
    assert!(is_single_word("Aaa"));
    assert!(is_single_word("AAA"));

    assert!(!is_single_word("aAA"));
    assert!(!is_single_word("aAa"));
    assert!(!is_single_word("a1a"));
    assert!(!is_single_word(""));
}

#[test]
fn screaming_snake_examples() {
    assert!(is_screaming_snake("FOO"));
    assert!(is_screaming_snake("FOO_BAR"));
    assert!(is_screaming_snake("FOO123_BAR456"));

    assert!(!is_screaming_snake("FOO__BAR"));
    assert!(!is_screaming_snake("_FOO"));
    assert!(!is_screaming_snake("FOO_"));
    assert!(!is_screaming_snake("FOO1A"));
}

#[test]
fn snake_examples() {
    assert!(is_snake("foo"));
    assert!(is_snake("foo_bar"));
    assert!(is_snake("foo123_bar456"));

    assert!(!is_snake("foo-bar"));
    assert!(!is_snake("foo_bar-baz"));
    assert!(!is_snake("foo1bar"));
}

#[test]
fn kebab_examples() {
    assert!(is_kebab("foo"));
    assert!(is_kebab("foo-bar"));
    assert!(is_kebab("foo123-bar456"));

    assert!(!is_kebab("foo_bar"));
    assert!(!is_kebab("-foo"));
    assert!(!is_kebab("foo-"));
}

#[test]
fn camel_examples() {
    assert!(is_camel("foo"));
    assert!(is_camel("fooBar"));
    assert!(is_camel("foo123Bar456"));
    assert!(is_camel("fooBAR"));

    assert!(!is_camel("FooBar"));
    assert!(!is_camel("foo1bar"));
    assert!(!is_camel("foo_bar"));
}

#[test]
fn pascal_examples() {
    assert!(is_pascal("Foo"));
    assert!(is_pascal("FooBar"));
    assert!(is_pascal("Foo123Bar456"));
    assert!(is_pascal("ABc"));

    assert!(!is_pascal("fooBar"));
    assert!(!is_pascal("Foo_Bar"));
    assert!(!is_pascal("Foo1bar"));
}

#[test]
fn classification_keeps_the_text() {
    for token in ["foo", "FOO_BAR", "foo_bar", "foo-bar", "fooBar", "FooBar", "f@@", ""] {
        assert_eq!(which_case(token).text(), token);
        assert_eq!(from(token).text(), token);
    }
}

#[test]
fn cross_convention_conversions_of_camel_token() {
    let case = which_case("pageSize");
    assert_eq!(case, NamingCase::Camel("pageSize".to_string()));
    let words = extract_words_from(&case).unwrap();
    assert_eq!(words, vec!["page".to_string(), "Size".to_string()]);
    assert_eq!(case.to_screaming_snake().unwrap(), "PAGE_SIZE");
    assert_eq!(case.to_snake().unwrap(), "page_size");
    assert_eq!(case.to_kebab().unwrap(), "page-size");
    assert_eq!(case.to_pascal().unwrap(), "PageSize");
    assert_eq!(case.to_camel().unwrap(), "pageSize");
}

#[test]
fn converting_to_own_convention_reproduces_the_token() {
    assert_eq!(which_case("FOO123_BAR").to_screaming_snake().unwrap(), "FOO123_BAR");
    assert_eq!(which_case("foo123_bar").to_snake().unwrap(), "foo123_bar");
    assert_eq!(which_case("foo123-bar").to_kebab().unwrap(), "foo123-bar");
    assert_eq!(which_case("foo123BarBAZ9").to_camel().unwrap(), "foo123BarBAZ9");
    assert_eq!(which_case("Foo123BarBAZ9").to_pascal().unwrap(), "Foo123BarBAZ9");
    assert_eq!(which_case("foo").text(), "foo");
}

#[test]
fn exactly_one_predicate_matches_each_rendering() {
    // the words "page" and "size9" rendered into each convention
    let renders = [
        ("PAGE_SIZE9", "S"),
        ("page_size9", "s"),
        ("page-size9", "k"),
        ("pageSize9", "c"),
        ("PageSize9", "p"),
    ];
    for (render, tag) in renders {
        let hits = [
            (is_screaming_snake(render), "S"),
            (is_snake(render), "s"),
            (is_kebab(render), "k"),
            (is_camel(render), "c"),
            (is_pascal(render), "p"),
        ];
        assert!(!is_single_word(render));
        for (hit, hit_tag) in hits {
            assert_eq!(hit, hit_tag == tag, "render {} against {}", render, hit_tag);
        }
    }
}

#[test]
fn single_letter_words_render_into_an_ambiguous_pascal_string() {
    // the documented single-word exception: "AB" is the pascal rendering of
    // the words "a" and "b", yet also an all-uppercase single word
    assert!(is_pascal("AB"));
    assert!(is_screaming_snake("AB"));
    assert!(is_single_word("AB"));
}

#[test]
fn hungarian_round_trip() {
    let valid = from_hungarian_notation("iPageSize");
    assert_eq!(valid, NamingCase::Pascal("PageSize".to_string()));
    assert_eq!(valid.text(), "PageSize");

    // A hungarian notation identifier must be recognized as camel case.
    // Even though this is a valid Pascal case, it is still treated as invalid.
    let invalid = from_hungarian_notation("NotACamelCase");
    assert_eq!(invalid, NamingCase::Invalid("NotACamelCase".to_string()));
}

#[test]
fn hungarian_of_single_word_is_invalid() {
    assert_eq!(from_hungarian_notation("i"), NamingCase::Invalid("i".to_string()));
    assert_eq!(from_hungarian_notation("int"), NamingCase::Invalid("int".to_string()));
}

#[test]
fn hungarian_with_one_word_left_is_a_single_word() {
    // after the type prefix is dropped, one word remains, and classifying it
    // anew makes it a single word rather than a pascal token
    assert_eq!(from_hungarian_notation("iPage"), NamingCase::SingleWord("Page".to_string()));
}

#[test]
fn hungarian_of_non_camel_tokens_is_invalid() {
    assert_eq!(from_hungarian_notation("foo_bar"), NamingCase::Invalid("foo_bar".to_string()));
    assert_eq!(from_hungarian_notation("FOO"), NamingCase::Invalid("FOO".to_string()));
    assert_eq!(from_hungarian_notation("a@b"), NamingCase::Invalid("a@b".to_string()));
}

#[test]
fn new_is_an_alias_of_which_case() {
    assert_eq!(NamingCase::new("fooBar"), which_case("fooBar"));
    assert_eq!(NamingCase::new("x@y"), which_case("x@y"));
}

#[test]
fn pascal_segmentation_is_greedy() {
    let words = extract_words_from_pascal("ABc9D");
    assert_eq!(words, vec!["A".to_string(), "Bc9".to_string(), "D".to_string()]);
    assert_eq!(extract_words_from_pascal(""), Vec::<String>::new());
}

#[test]
fn composing_words_title_cases_each() {
    let words = vec!["page".to_string(), "SIZE".to_string(), "x9".to_string()];
    assert_eq!(compose_words_to_pascal(words), "PageSizeX9");
}

#[test]
fn title_casing_one_word() {
    assert_eq!(to_first_uppercase("wORD9".to_string()), "Word9");
    assert_eq!(to_first_uppercase("a".to_string()), "A");
}

#[test]
fn all_uppercase_word_becomes_title_cased_in_pascal() {
    // title-casing is applied per word independently of its original casing
    let case = which_case("FOO_BAR");
    assert_eq!(case.to_pascal().unwrap(), "FooBar");
    assert_eq!(case.to_camel().unwrap(), "fooBar");
}

#[test]
fn segmentation_of_each_convention() {
    let single = which_case("foo123");
    assert_eq!(extract_words_from(&single).unwrap(), vec!["foo123".to_string()]);

    let screaming = which_case("FOO_BAR9");
    assert_eq!(extract_words_from(&screaming).unwrap(), vec!["FOO".to_string(), "BAR9".to_string()]);

    let kebab = which_case("a-b9-c");
    assert_eq!(
        extract_words_from(&kebab).unwrap(),
        vec!["a".to_string(), "b9".to_string(), "c".to_string()]
    );

    let camel = which_case("aB9Cd");
    assert_eq!(
        extract_words_from(&camel).unwrap(),
        vec!["a".to_string(), "B9".to_string(), "Cd".to_string()]
    );
}

#[test]
fn default_options_list_every_convertible_convention() {
    let options = naming::default_options();
    let expect: Vec<String> = vec!["S", "s", "k", "c", "p"].into_iter().map(|s| s.to_string()).collect();
    assert_eq!(options, expect);
}
