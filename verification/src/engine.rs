//! The replacement engine: apply a search mode to loaded text, decide
//! whether anything changed, classify non-text content as binary, and keep
//! the run's counters.

use vstd::prelude::*;
use crate::literal::{lit_replaced, replace_literal};
use crate::pattern::{
    SearchMode, ci_replaced, regex_replace_all, regex_replace_case_preserving, regex_replaced,
};
use crate::text::{chars_of, decode_utf8, string_from_chars, utf8_text};

verus! {

/// How one file's content fared: left alone, rewritten to the given new
/// content, or skipped because it is not text.
pub enum ReplacementOutcome {
    Unchanged,
    Modified(String),
    Skipped,
}

/// The candidate new content for a text, before it is compared with the
/// original: the text with every match replaced, as the mode says.
pub open spec fn candidate_of(
    content: Seq<char>,
    mode: SearchMode,
    case_insensitive: bool,
    rep: Seq<char>,
) -> Seq<char> {
    match mode {
        SearchMode::Literal(t) => if case_insensitive {
            ci_replaced(t@, content, rep)
        } else {
            lit_replaced(content, t@, rep)
        },
        SearchMode::Pattern(p) => regex_replaced(p@, content, rep),
    }
}

/// Law: in case-sensitive literal mode, text in which the term does not
/// occur has itself as candidate, so `process_text` leaves it `Unchanged`.
pub proof fn lemma_absent_term_candidate(content: Seq<char>, term: String, rep: Seq<char>)
    requires
        term@.len() > 0,
        !crate::literal::contains_term(content, term@),
    ensures
        candidate_of(content, SearchMode::Literal(term), false, rep) == content,
{
    crate::literal::lemma_absent_unchanged(content, term@, rep);
}

/// Apply the search mode to loaded text: `Unchanged` when the candidate new
/// content equals the original (in particular when nothing matched),
/// `Modified` with the candidate otherwise. Never `Skipped`.
pub fn process_text(
    content: &str,
    mode: &SearchMode,
    case_insensitive: bool,
    replacement: &str,
) -> (r: ReplacementOutcome)
    ensures
        candidate_of(content@, *mode, case_insensitive, replacement@) == content@ ==> r
            is Unchanged,
        candidate_of(content@, *mode, case_insensitive, replacement@) != content@ ==> (r matches
            ReplacementOutcome::Modified(s) && s@ == candidate_of(
            content@,
            *mode,
            case_insensitive,
            replacement@,
        )),
{
    let original: String = content.to_owned();
    let candidate: String = match mode {
        SearchMode::Literal(t) => {
            if case_insensitive {
                regex_replace_case_preserving(t.as_str(), content, replacement)
            } else {
                let cc = chars_of(content);
                let tc = chars_of(t.as_str());
                let rc = chars_of(replacement);
                let out = replace_literal(&cc, &tc, &rc);
                string_from_chars(&out)
            }
        },
        SearchMode::Pattern(p) => regex_replace_all(p.as_str(), content, replacement),
    };
    if candidate == original {
        ReplacementOutcome::Unchanged
    } else {
        ReplacementOutcome::Modified(candidate)
    }
}

/// Process one file's raw bytes: bytes that are not valid text are skipped,
/// valid text goes through `process_text`.
pub fn process_bytes(
    bytes: &[u8],
    mode: &SearchMode,
    case_insensitive: bool,
    replacement: &str,
) -> (r: ReplacementOutcome)
    ensures
        utf8_text(bytes@) is None <==> r is Skipped,
        utf8_text(bytes@) matches Some(c) ==> (candidate_of(c, *mode, case_insensitive, replacement@)
            == c ==> r is Unchanged),
        utf8_text(bytes@) matches Some(c) ==> (candidate_of(c, *mode, case_insensitive, replacement@)
            != c ==> (r matches ReplacementOutcome::Modified(s) && s@ == candidate_of(
            c,
            *mode,
            case_insensitive,
            replacement@,
        ))),
{
    match decode_utf8(bytes) {
        Some(content) => process_text(content.as_str(), mode, case_insensitive, replacement),
        None => ReplacementOutcome::Skipped,
    }
}

/// The run's counters: how many files were looked at, and how many were
/// rewritten.
pub struct RunSummary {
    pub scanned: u64,
    pub modified: u64,
}

impl RunSummary {
    /// A fresh summary with both counters at zero.
    pub fn new() -> (s: RunSummary)
        ensures
            s.scanned == 0,
            s.modified == 0,
    {
        RunSummary { scanned: 0, modified: 0 }
    }

    /// Record one processed file: every outcome counts as scanned, and a
    /// modified one also counts as modified.
    pub fn record(&mut self, outcome: &ReplacementOutcome)
        requires
            old(self).scanned < u64::MAX,
            old(self).modified < u64::MAX,
        ensures
            final(self).scanned == old(self).scanned + 1,
            (*outcome matches ReplacementOutcome::Modified(_)) ==> final(self).modified == old(
                self,
            ).modified + 1,
            !(*outcome matches ReplacementOutcome::Modified(_)) ==> final(self).modified == old(
                self,
            ).modified,
    {
        self.scanned = self.scanned + 1;
        match outcome {
            ReplacementOutcome::Modified(_) => {
                self.modified = self.modified + 1;
            },
            _ => {
            },
        }
    }
}

} // verus!
