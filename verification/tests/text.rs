use csql::errors::{CommitError, LoadingError, QueryError, TokenizeError};
use csql::utils::{
    clone_value, clone_values, decimal_text, join_texts, split_text, strip_last, text_less,
};

fn s(text: &str) -> String {
    String::from(text)
}

#[test]
fn text_order_is_character_by_character() {
    assert!(text_less("", "a"));
    assert!(!text_less("", ""));
    assert!(!text_less("a", ""));
    assert!(text_less("a", "b"));
    assert!(text_less("ab", "abc"));
    assert!(!text_less("abc", "ab"));
    assert!(!text_less("abc", "abc"));
    assert!(text_less("10", "9"));
    assert!(text_less("Z", "a"));
    assert!(text_less("z", "é"));
    assert!(text_less("é", "日"));
    assert!(!text_less("日本", "日"));
}

#[test]
fn decimal_text_writes_digits() {
    assert_eq!(decimal_text(0), "0");
    assert_eq!(decimal_text(7), "7");
    assert_eq!(decimal_text(10), "10");
    assert_eq!(decimal_text(1234567890), "1234567890");
    assert_eq!(decimal_text(usize::MAX), usize::MAX.to_string());
}

#[test]
fn split_text_has_one_piece_more_than_delimiters() {
    assert_eq!(split_text("", ';'), vec![s("")]);
    assert_eq!(split_text("a", ';'), vec![s("a")]);
    assert_eq!(split_text(";", ';'), vec![s(""), s("")]);
    assert_eq!(split_text("a;;b;", ';'), vec![s("a"), s(""), s("b"), s("")]);
    assert_eq!(split_text("é;日本", ';'), vec![s("é"), s("日本")]);
    assert_eq!(split_text("a;b", '\n'), vec![s("a;b")]);
}

#[test]
fn strip_last_takes_one_character_off() {
    assert_eq!(strip_last("", ';'), "");
    assert_eq!(strip_last(";", ';'), "");
    assert_eq!(strip_last("a;", ';'), "a");
    assert_eq!(strip_last("a;;", ';'), "a;");
    assert_eq!(strip_last(";a", ';'), ";a");
    assert_eq!(strip_last("a;b", ';'), "a;b");
}

#[test]
fn join_texts_puts_the_delimiter_between() {
    assert_eq!(join_texts(&vec![], ';'), "");
    assert_eq!(join_texts(&vec![s("a")], ';'), "a");
    assert_eq!(join_texts(&vec![s("")], ';'), "");
    assert_eq!(join_texts(&vec![s("a"), s(""), s("b")], ';'), "a;;b");
    assert_eq!(join_texts(&vec![s(""), s("")], '\n'), "\n");
}

#[test]
fn clones_are_equal_to_what_they_clone() {
    assert_eq!(clone_value(&Some(s("a"))), Some(s("a")));
    assert_eq!(clone_value(&None), None);
    let values = vec![Some(s("a")), None, Some(s(""))];
    assert_eq!(clone_values(&values), values);
}

#[test]
fn tokenize_errors_are_told_apart_by_their_input() {
    let a = TokenizeError::new("@", Some(s("unknown character")));
    let b = TokenizeError::new("@", None);
    let c = TokenizeError::new("#", Some(s("unknown character")));
    assert!(a == b);
    assert!(a != c);
    assert_eq!(a.input(), "@");
    assert_eq!(a.reason(), &Some(s("unknown character")));
    assert_eq!(
        a.message(),
        "The input \"@\" could not be converted to a token.\n\nDescription : unknown character"
    );
    assert_eq!(b.message(), "The input \"@\" could not be converted to a token.\n\n");
}

#[test]
fn failures_say_what_they_are() {
    assert_eq!(QueryError.message(), "Error while querying...");
    assert_eq!(CommitError.message(), "Error while saving changes in the physical item.");
    assert_eq!(
        LoadingError::SourceNotImplemented.message(),
        "Error while loading data from the physical item."
    );
}
