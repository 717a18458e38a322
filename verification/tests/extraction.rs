use naming::extraction::{apply_eof_on_text, trim_text_with_logical_eof, Captor};
use naming::to_string_vec;

#[test]
fn extraction_read_from_input_without_logical_eof() {
    let input = "before-a end after-a".to_string();
    let actual = apply_eof_on_text(None, input);
    assert_eq!(actual, "before-a end after-a");
}

#[test]
fn extraction_read_from_input_with_logical_eof_exists() {
    let input = "before-a end after-a".to_string();
    let actual = apply_eof_on_text(Some("end"), input);
    assert_eq!(actual, "before-a ");
}

#[test]
fn extraction_take_whole_input_when_logical_eof_not_exists() {
    let input = "before-a end after-a".to_string();
    let actual = apply_eof_on_text(Some("not-exists-eof"), input);
    assert_eq!(actual, "before-a end after-a");
}

#[test]
fn trim_takes_first_occurrence_only() {
    let input = "one stop two stop three".to_string();
    let actual = trim_text_with_logical_eof(Some("stop"), input);
    assert_eq!(actual, "one ");
}

#[test]
fn trim_with_marker_at_the_very_start() {
    let input = "end of it".to_string();
    let actual = trim_text_with_logical_eof(Some("end"), input);
    assert_eq!(actual, "");
}

#[test]
fn return_empty_vec_when_no_match() {
    let text = to_string_vec(vec!["@can@not@be@matched"]);
    let actual = Captor::new(None).unwrap().capture_words(text);
    assert_eq!(actual, Vec::<String>::new())
}

#[test]
fn default_captor_works() {
    let text = to_string_vec(vec!["int i = 1; String s = oneMethod(arg1, arg2);"]);
    let actual = Captor::new(Some(to_string_vec(vec![r"\s \s*=", r"\s \s*;"])))
        .unwrap()
        .capture_words(text);
    let expect: Vec<String> = to_string_vec(vec!["i", "s", "1"]);
    assert_eq!(actual, expect);
}

#[test]
fn custom_captor_works() {
    let text = to_string_vec(vec!["@now#can$be&matched"]);
    // note that "$" is manually escaped.
    let locators: Vec<String> = to_string_vec(vec![r"# \$", "@ #", r"\$ &", r"& \z"]);

    let actual = Captor::new(Some(locators)).unwrap().capture_words(text);
    // notice that the result order is based on option order.
    let expect: Vec<String> = to_string_vec(vec!["can", "now", "be", "matched"]);
    assert_eq!(actual, expect);
}

#[test]
fn duplicating_matches_are_removed() {
    let text = to_string_vec(vec![
        "let a = 1; let b = 2; let c = 3;",
        "let a = 1; let b = 2; let c = 3;",
    ]);
    let actual = Captor::new(Some(to_string_vec(vec![r"\s \s*=", r"\s \s*;"])))
        .unwrap()
        .capture_words(text);
    // notice that the result order is based on option order.
    let expect: Vec<String> = to_string_vec(vec!["a", "b", "c", "1", "2", "3"]);
    assert_eq!(actual, expect);
}

#[test]
fn locator_without_space_is_rejected() {
    let locators: Vec<String> = to_string_vec(vec!["\"a"]);
    match Captor::new(Some(locators)) {
        Ok(_) => panic!("a locator without a space must be rejected"),
        Err(msg) => assert!(msg.contains("locator")),
    }
}

#[test]
fn locator_with_broken_regex_is_rejected() {
    let locators: Vec<String> = to_string_vec(vec![r"( \s"]);
    match Captor::new(Some(locators)) {
        Ok(_) => panic!("a broken locator regex must be rejected"),
        Err(msg) => assert!(msg.contains("locator")),
    }
}
