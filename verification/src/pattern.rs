//! The pattern compiler and the regular-expression side of matching.
//!
//! Regular-expression semantics are the regex crate's; what its calls return
//! is given a name here (an uninterpreted spec function of the arguments),
//! and the contracts of this crate speak of those names.

use vstd::prelude::*;
use vstd::string::StringExecFns;

verus! {

/// Whether a pattern source is a well-formed regular expression, as
/// regex::Regex::new decides it.
pub uninterp spec fn regex_valid(pat: Seq<char>) -> bool;

/// The content with every non-overlapping match of the pattern replaced
/// through the replacement string; content unchanged when the pattern does
/// not compile.
pub uninterp spec fn regex_replaced(pat: Seq<char>, content: Seq<char>, rep: Seq<char>) -> Seq<
    char,
>;

/// The content with every non-overlapping case-insensitive occurrence of the
/// literal term replaced by the replacement re-cased through case pattern
/// inference.
pub uninterp spec fn ci_replaced(term: Seq<char>, content: Seq<char>, rep: Seq<char>) -> Seq<char>;

/// How matching is done for the whole run: by an exact substring, or by a
/// compiled regular-expression pattern (its validated source is kept).
pub enum SearchMode {
    Literal(String),
    Pattern(String),
}

/// Why compilation of the search term failed.
#[derive(Debug)]
pub enum CompileError {
    /// The search term was empty.
    EmptyQuery,
    /// The term was not a well-formed regular expression; the message says why.
    InvalidPattern(String),
}

/// Relies on regex::Regex::new: compilation succeeds exactly when the source
/// is a well-formed regular expression; the error's message otherwise.
#[verifier::external_body]
fn try_compile(pat: &str) -> (r: Result<(), String>)
    ensures
        r is Ok <==> regex_valid(pat@),
{
    match regex::Regex::new(pat) {
        Ok(_) => Ok(()),
        Err(e) => Err(e.to_string()),
    }
}

/// Relies on regex::Regex::new and regex::Regex::replace_all: every
/// non-overlapping match of the pattern in the content, left to right, is
/// replaced through the replacement string; the result is a function of the
/// three arguments alone. A source that does not compile leaves the content
/// unchanged (the callers only hand over validated sources).
#[verifier::external_body]
pub(crate) fn regex_replace_all(pat: &str, content: &str, rep: &str) -> (r: String)
    ensures
        r@ == regex_replaced(pat@, content@, rep@),
{
    match regex::Regex::new(pat) {
        Ok(re) => re.replace_all(content, rep).to_string(),
        Err(_) => content.to_string(),
    }
}

/// Relies on regex::escape, regex::Regex::new and regex::Regex::replace_all:
/// the escaped term matches itself literally but case-insensitively, and each
/// match is substituted through the verified apply_case_pattern, so the
/// result is a function of the three arguments alone.
#[verifier::external_body]
pub(crate) fn regex_replace_case_preserving(term: &str, content: &str, rep: &str) -> (r: String)
    ensures
        r@ == ci_replaced(term@, content@, rep@),
{
    let source = format!("(?i){}", regex::escape(term));
    match regex::Regex::new(&source) {
        Ok(re) => re.replace_all(
            content,
            |caps: &regex::Captures| crate::case_pattern::apply_case_pattern(
                caps.get(0).unwrap().as_str(),
                rep,
            ),
        ).to_string(),
        Err(_) => content.to_string(),
    }
}

/// The pattern source handed to the regular-expression engine for a search
/// term: the term itself, with the case-insensitivity directive in front of
/// it when asked for.
pub open spec fn pattern_source(term: Seq<char>, case_insensitive: bool) -> Seq<char> {
    if case_insensitive {
        "(?i)"@ + term
    } else {
        term
    }
}

/// Turn the user's search term and mode flags into a `SearchMode`.
///
/// An empty term is rejected before anything else. In literal mode the term
/// is kept as it is; the case-insensitivity flag is consumed later, by the
/// replacement engine. In pattern mode the term must compile as a regular
/// expression (with the case-insensitivity directive folded into its source
/// first, when asked for), and a term that does not is rejected.
pub fn compile(term: &str, use_pattern: bool, case_insensitive: bool) -> (r: Result<
    SearchMode,
    CompileError,
>)
    ensures
        term@.len() == 0 <==> r == Err::<SearchMode, CompileError>(CompileError::EmptyQuery),
        term@.len() > 0 && !use_pattern ==> (r matches Ok(SearchMode::Literal(t)) && t@ == term@),
        term@.len() > 0 && use_pattern && regex_valid(pattern_source(term@, case_insensitive))
            ==> (r matches Ok(SearchMode::Pattern(p)) && p@ == pattern_source(
            term@,
            case_insensitive,
        )),
        term@.len() > 0 && use_pattern && !regex_valid(pattern_source(term@, case_insensitive))
            ==> (r matches Err(CompileError::InvalidPattern(_))),
{
    if term.is_empty() {
        return Err(CompileError::EmptyQuery);
    }
    if use_pattern {
        let source: String = if case_insensitive {
            let mut s: String = "(?i)".to_owned();
            s.append(term);
            s
        } else {
            term.to_owned()
        };
        match try_compile(source.as_str()) {
            Ok(_) => Ok(SearchMode::Pattern(source)),
            Err(msg) => Err(CompileError::InvalidPattern(msg)),
        }
    } else {
        Ok(SearchMode::Literal(term.to_owned()))
    }
}

} // verus!
