//! Character and text primitives.
//!
//! Unicode case mappings, the alphabetic property, and UTF-8 decoding are
//! computed by the standard library. Each such result is given a name here
//! (an uninterpreted spec function), and every contract in this crate speaks
//! of those names.

use vstd::prelude::*;
use vstd::string::StrSliceExecFns;

verus! {

/// Whether a character has the Unicode Alphabetic property.
pub uninterp spec fn ch_is_alpha(c: char) -> bool;

/// Whether a character has the Unicode Uppercase property.
pub uninterp spec fn ch_is_upper(c: char) -> bool;

/// Whether a character has the Unicode Lowercase property.
pub uninterp spec fn ch_is_lower(c: char) -> bool;

/// The Unicode uppercase mapping of one character (one or more characters).
pub uninterp spec fn ch_upper(c: char) -> Seq<char>;

/// The Unicode lowercase mapping of one character (one or more characters).
pub uninterp spec fn ch_lower(c: char) -> Seq<char>;

/// The Unicode uppercase form of a whole string.
pub uninterp spec fn str_upper(s: Seq<char>) -> Seq<char>;

/// The Unicode lowercase form of a whole string.
pub uninterp spec fn str_lower(s: Seq<char>) -> Seq<char>;

/// The characters a byte sequence decodes to, when it is valid UTF-8.
pub uninterp spec fn utf8_text(bytes: Seq<u8>) -> Option<Seq<char>>;

/// Relies on char::is_alphabetic: whether the character is alphabetic.
pub assume_specification[ char::is_alphabetic ](c: char) -> (r: bool)
    ensures
        r == ch_is_alpha(c),
;

/// Relies on char::is_uppercase: whether the character is uppercase.
pub assume_specification[ char::is_uppercase ](c: char) -> (r: bool)
    ensures
        r == ch_is_upper(c),
;

/// Relies on char::is_lowercase: whether the character is lowercase.
pub assume_specification[ char::is_lowercase ](c: char) -> (r: bool)
    ensures
        r == ch_is_lower(c),
;

/// Relies on str::to_uppercase: the uppercase form of the string, a function
/// of its characters alone.
pub assume_specification[ str::to_uppercase ](s: &str) -> (r: String)
    ensures
        r@ == str_upper(s@),
;

/// Relies on str::to_lowercase: the lowercase form of the string, a function
/// of its characters alone.
pub assume_specification[ str::to_lowercase ](s: &str) -> (r: String)
    ensures
        r@ == str_lower(s@),
;

/// Relies on char::to_uppercase: the uppercase mapping of the character,
/// a function of the character alone.
#[verifier::external_body]
pub(crate) fn char_to_upper_chars(c: char) -> (r: Vec<char>)
    ensures
        r@ == ch_upper(c),
{
    c.to_uppercase().collect()
}

/// Relies on char::to_lowercase: the lowercase mapping of the character,
/// a function of the character alone.
#[verifier::external_body]
pub(crate) fn char_to_lower_chars(c: char) -> (r: Vec<char>)
    ensures
        r@ == ch_lower(c),
{
    c.to_lowercase().collect()
}

/// Relies on core::str::from_utf8: it succeeds exactly when the bytes are
/// valid UTF-8, and then yields their decoded characters.
#[verifier::external_body]
pub(crate) fn decode_utf8(bytes: &[u8]) -> (r: Option<String>)
    ensures
        r is Some <==> utf8_text(bytes@) is Some,
        r matches Some(s) ==> utf8_text(bytes@) == Some(s@),
{
    match core::str::from_utf8(bytes) {
        Ok(s) => Some(s.to_string()),
        Err(_) => None,
    }
}

/// Relies on String::from_iter: the string holds exactly the given
/// characters, in order.
#[verifier::external_body]
pub(crate) fn string_from_chars(v: &Vec<char>) -> (s: String)
    ensures
        s@ == v@,
{
    v.iter().collect()
}

/// The characters of a string slice, gathered into a vector.
pub(crate) fn chars_of(s: &str) -> (v: Vec<char>)
    ensures
        v@ == s@,
{
    let n = s.unicode_len();
    let mut v: Vec<char> = Vec::new();
    let mut i: usize = 0;
    while i < n
        invariant
            i <= n,
            n == s@.len(),
            v@ == s@.take(i as int),
        decreases n - i,
    {
        v.push(s.get_char(i));
        proof {
            assert(v@ =~= s@.take(i + 1));
        }
        i = i + 1;
    }
    proof {
        assert(s@.take(n as int) =~= s@);
    }
    v
}

} // verus!
