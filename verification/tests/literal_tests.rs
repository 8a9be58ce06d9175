use newtext::engine::{process_text, ReplacementOutcome};
use newtext::pattern::{compile, SearchMode};

fn literal_mode(term: &str) -> SearchMode {
    compile(term, false, false).unwrap()
}

fn expect_modified(outcome: ReplacementOutcome) -> String {
    match outcome {
        ReplacementOutcome::Modified(s) => s,
        _ => panic!("expected a modified outcome"),
    }
}

#[test]
fn unchanged_without_term() {
    let mode = literal_mode("xyz");
    let outcome = process_text("hello world", &mode, false, "q");
    assert!(matches!(outcome, ReplacementOutcome::Unchanged));
}

#[test]
fn replaces_every_occurrence() {
    let mode = literal_mode("foo");
    let outcome = process_text("foo bar foo", &mode, false, "baz");
    assert_eq!(expect_modified(outcome), "baz bar baz");
}

#[test]
fn unchanged_when_replacement_equals_term() {
    let mode = literal_mode("foo");
    let outcome = process_text("a foo b", &mode, false, "foo");
    assert!(matches!(outcome, ReplacementOutcome::Unchanged));
}

#[test]
fn occurrences_do_not_overlap() {
    let mode = literal_mode("aa");
    let outcome = process_text("aaa", &mode, false, "b");
    assert_eq!(expect_modified(outcome), "ba");
}

#[test]
fn empty_replacement_deletes_term() {
    let mode = literal_mode("ab");
    let outcome = process_text("xaby", &mode, false, "");
    assert_eq!(expect_modified(outcome), "xy");
}

#[test]
fn rerun_after_disjoint_replacement_is_unchanged() {
    let mode = literal_mode("foo");
    let first = expect_modified(process_text("a foo b foo", &mode, false, "bar"));
    assert_eq!(first, "a bar b bar");
    let second = process_text(&first, &mode, false, "bar");
    assert!(matches!(second, ReplacementOutcome::Unchanged));
}

#[test]
fn rerun_doubles_when_replacement_holds_term() {
    // Replacing "a" with "aa" is expectedly not idempotent: every run
    // doubles the text again. This is intended behaviour, not a fault.
    let mode = literal_mode("a");
    let first = expect_modified(process_text("a", &mode, false, "aa"));
    assert_eq!(first, "aa");
    let second = expect_modified(process_text(&first, &mode, false, "aa"));
    assert_eq!(second, "aaaa");
}
