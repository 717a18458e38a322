use naming::convertion::Filter;
use naming::NamingCase;

#[test]
fn can_find_hungarian_camel_conflict() {
    assert!(Filter::has_hungarian_camel_conflict(&vec!["c", "h"]));
}

#[test]
fn can_filter_words_with_option() {
    let options = vec!["S", "s", "k", "c", "p"];
    let filter = Filter::new(&options).unwrap();
    let words: Vec<String> = vec![
        "SCREAMING_SNAKE",
        "snake_case",
        "kebab-case",
        "camelCase",
        "PascalCase",
        "-invalid_",
    ]
    .into_iter()
    .map(|s| s.to_string())
    .collect();

    let mut expect = words.clone();
    // remove the invalid word at tail
    expect.pop();
    let actual = Filter::filter_words_with_options(&filter, words);
    assert_eq!(actual, expect);
}

#[test]
fn can_convert_words_as_hungarian_notation() {
    let options = vec!["h"];
    let words: Vec<String> = vec!["intPageSize".to_string()];

    let actual = Filter::new(&options).unwrap().to_naming_cases_from(words);
    assert_eq!(actual, vec![NamingCase::Pascal("PageSize".to_string())]);
}

#[test]
fn can_convert_words_to_naming_cases() {
    let options = vec!["S", "s", "k", "c", "p"];
    let words: Vec<String> = vec![
        "SCREAMING_SNAKE",
        "snake_case",
        "kebab-case",
        "camelCase",
        "PascalCase",
        "-invalid_",
    ]
    .into_iter()
    .map(|s| s.to_string())
    .collect();

    let actual = Filter::new(&options).unwrap().to_naming_cases_from(words);

    let expect = vec![
        NamingCase::ScreamingSnake("SCREAMING_SNAKE".to_string()),
        NamingCase::Snake("snake_case".to_string()),
        NamingCase::Kebab("kebab-case".to_string()),
        NamingCase::Camel("camelCase".to_string()),
        NamingCase::Pascal("PascalCase".to_string()),
    ];

    assert_eq!(actual, expect);
}
