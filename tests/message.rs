use ts_json::message::{normalize_message, normalize_message_given};

#[test]
fn does_not_normalize_acronyms() {
    let message = "JSON";
    assert_eq!(message, normalize_message(message));

    let message = "  JSON  ";
    assert_eq!("JSON", normalize_message(message));
}

#[test]
fn normalizes_sentences() {
    let message = "Whether";
    assert_eq!("whether", normalize_message(message));

    let message = "  Whether  ";
    assert_eq!("whether", normalize_message(message));
}

#[test]
fn removes_punctuation() {
    let message = "message.,;/";
    assert_eq!("message", normalize_message(message));

    let message = "  message .,;/  ";
    assert_eq!("message", normalize_message(message));
}

#[test]
fn short_messages() {
    assert_eq!("", normalize_message(""));
    assert_eq!("", normalize_message(" \t\n "));
    assert_eq!("A", normalize_message("A"));
    assert_eq!("a", normalize_message("A."));
    assert_eq!("a", normalize_message("a. ."));
    assert_eq!("", normalize_message("?!"));
    assert_eq!("ok", normalize_message("Ok!!"));
}

#[test]
fn case_rule_follows_the_given_capitals() {
    assert_eq!("whether", normalize_message_given("  Whether  ", true, false));
    assert_eq!("JSON", normalize_message_given("JSON", true, true));
    assert_eq!("Xy", normalize_message_given("Xy.", false, false));
    assert_eq!("é", normalize_message_given("é", true, false));
}
