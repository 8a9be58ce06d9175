use newtext::engine::{process_bytes, ReplacementOutcome, RunSummary};
use newtext::pattern::compile;

#[test]
fn binary_bytes_are_skipped() {
    let mode = compile("World", false, false).unwrap();
    let bytes: Vec<u8> = vec![0xff, 0xfe, 0x00];
    let outcome = process_bytes(&bytes, &mode, false, "Rust");
    assert!(matches!(outcome, ReplacementOutcome::Skipped));
}

#[test]
fn valid_bytes_are_processed() {
    let mode = compile("foo", false, false).unwrap();
    let outcome = process_bytes(b"a foo b", &mode, false, "bar");
    assert!(matches!(outcome, ReplacementOutcome::Modified(ref s) if s.as_str() == "a bar b"));
}

#[test]
fn summary_counts_only_scans_for_unchanged() {
    let mut summary = RunSummary::new();
    summary.record(&ReplacementOutcome::Unchanged);
    assert_eq!(summary.scanned, 1);
    assert_eq!(summary.modified, 0);
}

#[test]
fn directory_run_over_text_and_binary_file() {
    // One text file holding "Hello World" and one file of invalid bytes:
    // the text file is rewritten, the binary one is left alone, and the
    // summary reports two files scanned and one modified.
    let mode = compile("World", false, false).unwrap();
    let mut summary = RunSummary::new();

    let a_txt: Vec<u8> = b"Hello World".to_vec();
    let b_bin: Vec<u8> = vec![0xc3, 0x28, 0x9f];

    let outcome_a = process_bytes(&a_txt, &mode, false, "Rust");
    assert!(matches!(outcome_a, ReplacementOutcome::Modified(ref s) if s.as_str() == "Hello Rust"));
    summary.record(&outcome_a);

    let outcome_b = process_bytes(&b_bin, &mode, false, "Rust");
    assert!(matches!(outcome_b, ReplacementOutcome::Skipped));
    summary.record(&outcome_b);

    assert_eq!(summary.scanned, 2);
    assert_eq!(summary.modified, 1);
}
