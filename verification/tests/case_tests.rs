use newtext::case_pattern::apply_case_pattern;

#[test]
fn infer_all_upper() {
    assert_eq!(apply_case_pattern("BAR", "foo"), "FOO");
}

#[test]
fn infer_all_lower() {
    assert_eq!(apply_case_pattern("bar", "foo"), "foo");
}

#[test]
fn infer_title() {
    assert_eq!(apply_case_pattern("Bar", "foo"), "Foo");
}

#[test]
fn infer_mixed_positional() {
    assert_eq!(apply_case_pattern("bAr", "foo"), "fOo");
}

#[test]
fn infer_no_letters() {
    assert_eq!(apply_case_pattern("123", "foo"), "foo");
}

#[test]
fn infer_mixed_longer_replacement_keeps_own_case() {
    // The match has three letters; the fourth letter of the replacement and
    // everything after it keep the casing they were written with.
    assert_eq!(apply_case_pattern("bAr", "fooox"), "fOoox");
}

#[test]
fn infer_upper_passes_non_letters_through() {
    assert_eq!(apply_case_pattern("AB", "a-b"), "A-B");
}

#[test]
fn infer_title_skips_non_letters() {
    assert_eq!(apply_case_pattern("Abc", "x1y"), "X1y");
}

#[test]
fn infer_empty_replacement() {
    assert_eq!(apply_case_pattern("BAR", ""), "");
}
