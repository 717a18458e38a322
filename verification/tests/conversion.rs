use naming::conversion::{Convertor, Filter};
use naming::to_string_vec;
use naming::NamingCase;

#[test]
fn find_hungarian_camel_conflict() {
    assert!(Filter::has_hungarian_camel_conflict(&vec!["c".to_string(), "h".to_string()]));
}

#[test]
fn filter_words_with_option() {
    let options = to_string_vec(vec!["S", "s", "k", "c", "p"]);
    let filter = Filter::new(Some(options)).unwrap();
    let words: Vec<String> = vec![
        "SCREAMING_SNAKE",
        "snake_case",
        "kebab-case",
        "camelCase",
        "PascalCase",
        "-invalid_",
    ]
    .into_iter()
    .map(|s| s.to_string())
    .collect();

    let mut expect = words.clone();
    // remove the invalid word at tail
    expect.pop();
    let actual = Filter::filter_words_with_options(&filter, words);
    assert_eq!(actual, expect);
}

#[test]
fn convert_words_as_hungarian_notation() {
    let options = vec!["h".to_string()];
    let words: Vec<String> = vec!["intPageSize".to_string()];

    let actual = Filter::new(Some(options)).unwrap().to_naming_cases_from(words);
    assert_eq!(actual, vec![NamingCase::Pascal("PageSize".to_string())]);
}

#[test]
fn convert_words_to_naming_cases() {
    let options = to_string_vec(vec!["S", "s", "k", "c", "p"]);
    let words: Vec<String> = vec![
        "SCREAMING_SNAKE",
        "snake_case",
        "kebab-case",
        "camelCase",
        "PascalCase",
        "-invalid_",
    ]
    .into_iter()
    .map(|s| s.to_string())
    .collect();

    let actual = Filter::new(Some(options)).unwrap().to_naming_cases_from(words);

    let expect = vec![
        NamingCase::ScreamingSnake("SCREAMING_SNAKE".to_string()),
        NamingCase::Snake("snake_case".to_string()),
        NamingCase::Kebab("kebab-case".to_string()),
        NamingCase::Camel("camelCase".to_string()),
        NamingCase::Pascal("PascalCase".to_string()),
    ];

    assert_eq!(actual, expect);
}

#[test]
fn output_to_lines() {
    let options = to_string_vec(vec!["S", "s", "k", "c", "p"]);

    let words = vec![
        "SCREAMING_SNAKE",
        "snake_case",
        "kebab-case",
        "camelCase",
        "PascalCase",
    ];
    let cases = words.into_iter().map(|word| naming::which_case(word)).collect();

    let actual = Convertor::new(Some(options), cases).into_lines();

    let expect = "\
SCREAMING_SNAKE SCREAMING_SNAKE screaming_snake screaming-snake screamingSnake ScreamingSnake
snake_case SNAKE_CASE snake_case snake-case snakeCase SnakeCase
kebab-case KEBAB_CASE kebab_case kebab-case kebabCase KebabCase
camelCase CAMEL_CASE camel_case camel-case camelCase CamelCase
PascalCase PASCAL_CASE pascal_case pascal-case pascalCase PascalCase";

    assert_eq!(actual.as_str(), expect);
}

#[test]
fn output_bases_on_options_order() {
    let options = to_string_vec(vec!["p", "c", "s", "k", "S"]);
    let cases = vec!["a_a"].into_iter().map(|word| naming::which_case(word)).collect();

    let actual = Convertor::new(Some(options), cases).into_lines();
    assert_eq!(actual.as_str(), "a_a AA aA a_a a-a A_A");
}

#[test]
fn output_to_json() {
    let options = to_string_vec(vec!["S", "s", "k", "c", "p"]);
    let words = vec!["snake_case", "kebab-case"];
    let cases = words.into_iter().map(|word| naming::which_case(word)).collect();

    let actual = Convertor::new(Some(options), cases).into_json();

    let expect = r#"{"result":[{"origin":"snake_case","screaming_snake":"SNAKE_CASE","snake":"snake_case","kebab":"snake-case","camel":"snakeCase","pascal":"SnakeCase"},{"origin":"kebab-case","screaming_snake":"KEBAB_CASE","snake":"kebab_case","kebab":"kebab-case","camel":"kebabCase","pascal":"KebabCase"}]}"#;

    assert_eq!(actual.as_str(), expect);
}

#[test]
fn output_to_regex() {
    let options = to_string_vec(vec!["S", "s", "k", "c", "p"]);

    let words = vec!["SCREAMING_SNAKE", "snake_case"];
    let cases = words.into_iter().map(|word| naming::which_case(word)).collect();

    let actual = Convertor::new(Some(options), cases).into_regex();

    let expect = "\
SCREAMING_SNAKE SCREAMING_SNAKE|screaming_snake|screaming-snake|screamingSnake|ScreamingSnake
snake_case SNAKE_CASE|snake_case|snake-case|snakeCase|SnakeCase";

    assert_eq!(actual.as_str(), expect);
}

#[test]
fn output_to_regex_json() {
    let options = to_string_vec(vec!["S", "s", "k", "c", "p"]);
    let words = vec!["SCREAMING_SNAKE", "snake_case"];
    let cases = words.into_iter().map(|word| naming::which_case(word)).collect();

    let actual = Convertor::new(Some(options), cases).into_regex_json();

    let expect = r#"{"result":[{"origin":"SCREAMING_SNAKE","regex":"SCREAMING_SNAKE|screaming_snake|screaming-snake|screamingSnake|ScreamingSnake"},{"origin":"snake_case","regex":"SNAKE_CASE|snake_case|snake-case|snakeCase|SnakeCase"}]}"#;

    assert_eq!(actual.as_str(), expect);
}

#[test]
fn filter_rejects_hungarian_camel_combination() {
    let options = to_string_vec(vec!["c", "h"]);
    match Filter::new(Some(options)) {
        Ok(_) => panic!("asking for hungarian notation and camel case together must fail"),
        Err(msg) => assert!(msg.contains("at most one of the two")),
    }
}

#[test]
fn filter_defaults_keep_every_classifiable_word() {
    let filter = Filter::new(None).unwrap();
    let words = to_string_vec(vec!["FOO_BAR", "foo_bar", "foo-bar", "fooBar", "FooBar", "@nope"]);
    let actual = filter.filter_words_with_options(words);
    let expect = to_string_vec(vec!["FOO_BAR", "foo_bar", "foo-bar", "fooBar", "FooBar"]);
    assert_eq!(actual, expect);
}
