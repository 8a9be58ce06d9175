use newtext::engine::{process_text, ReplacementOutcome};
use newtext::pattern::{compile, CompileError, SearchMode};

fn expect_modified(outcome: ReplacementOutcome) -> String {
    match outcome {
        ReplacementOutcome::Modified(s) => s,
        _ => panic!("expected a modified outcome"),
    }
}

#[test]
fn empty_term_is_rejected() {
    assert!(matches!(compile("", false, false), Err(CompileError::EmptyQuery)));
    assert!(matches!(compile("", true, true), Err(CompileError::EmptyQuery)));
}

#[test]
fn invalid_regex_is_rejected() {
    assert!(matches!(compile("f[", true, false), Err(CompileError::InvalidPattern(_))));
}

#[test]
fn literal_compile_keeps_term() {
    let mode = compile("a.b", false, true).unwrap();
    assert!(matches!(mode, SearchMode::Literal(ref t) if t.as_str() == "a.b"));
}

#[test]
fn regex_replaces_every_match() {
    let mode = compile("f[o]+", true, false).unwrap();
    let outcome = process_text("foo and fooo", &mode, false, "X");
    assert_eq!(expect_modified(outcome), "X and X");
}

#[test]
fn regex_without_match_is_unchanged() {
    let mode = compile("f[o]+", true, false).unwrap();
    let outcome = process_text("bar", &mode, false, "X");
    assert!(matches!(outcome, ReplacementOutcome::Unchanged));
}

#[test]
fn regex_case_insensitivity_is_folded_into_the_pattern() {
    let mode = compile("hello", true, true).unwrap();
    assert!(matches!(mode, SearchMode::Pattern(ref p) if p.as_str() == "(?i)hello"));
    // In pattern mode the replacement is used as it is: no case inference.
    let outcome = process_text("Hello HELLO", &mode, true, "x");
    assert_eq!(expect_modified(outcome), "x x");
}

#[test]
fn case_insensitive_literal_preserves_case() {
    let mode = compile("hello", false, true).unwrap();
    let outcome = process_text("Hello HELLO hello", &mode, true, "world");
    assert_eq!(expect_modified(outcome), "World WORLD world");
}

#[test]
fn case_insensitive_literal_is_not_a_pattern() {
    // The dot must match only a literal dot: the term is escaped before it
    // is handed to the regular-expression engine.
    let mode = compile("a.b", false, true).unwrap();
    let outcome = process_text("a.b axb", &mode, true, "c");
    assert_eq!(expect_modified(outcome), "c axb");
}

#[test]
fn case_insensitive_literal_without_match_is_unchanged() {
    let mode = compile("hello", false, true).unwrap();
    let outcome = process_text("world", &mode, true, "x");
    assert!(matches!(outcome, ReplacementOutcome::Unchanged));
}
