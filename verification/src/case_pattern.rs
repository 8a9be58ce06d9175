//! Case pattern inference: re-case a replacement fragment so its casing
//! mirrors the casing category of the fragment it replaces.

use vstd::prelude::*;
use crate::text::{
    ch_is_alpha, ch_is_upper, ch_is_lower, ch_upper, ch_lower, str_upper, str_lower,
    char_to_upper_chars, char_to_lower_chars, chars_of, string_from_chars,
};

verus! {

/// The casing category of a matched fragment, judged from its alphabetic
/// characters alone.
#[derive(PartialEq, Eq, Structural, Clone, Copy, Debug)]
pub enum CaseCategory {
    /// No alphabetic character at all.
    NoLetters,
    /// Every alphabetic character is uppercase.
    AllUpper,
    /// Every alphabetic character is lowercase.
    AllLower,
    /// The first alphabetic character is uppercase, all later ones lowercase.
    Title,
    /// Anything else, e.g. camel case.
    Mixed,
}

/// The alphabetic characters of a sequence, in order.
pub open spec fn alpha_of(s: Seq<char>) -> Seq<char>
    decreases s.len(),
{
    if s.len() == 0 {
        Seq::<char>::empty()
    } else if ch_is_alpha(s[0]) {
        seq![s[0]] + alpha_of(s.drop_first())
    } else {
        alpha_of(s.drop_first())
    }
}

/// The casing category of a matched fragment.
pub open spec fn case_category(matched: Seq<char>) -> CaseCategory {
    let a = alpha_of(matched);
    if a.len() == 0 {
        CaseCategory::NoLetters
    } else if forall|i: int| 0 <= i < a.len() ==> ch_is_upper(#[trigger] a[i]) {
        CaseCategory::AllUpper
    } else if forall|i: int| 0 <= i < a.len() ==> ch_is_lower(#[trigger] a[i]) {
        CaseCategory::AllLower
    } else if ch_is_upper(a[0]) && (forall|i: int| 1 <= i < a.len() ==> ch_is_lower(#[trigger] a[i])) {
        CaseCategory::Title
    } else {
        CaseCategory::Mixed
    }
}

/// The replacement re-cased for the title category: the first alphabetic
/// character uppercased, every later one lowercased, other characters kept.
/// `first_done` says whether the first alphabetic character is already past.
pub open spec fn title_applied(rep: Seq<char>, first_done: bool) -> Seq<char>
    decreases rep.len(),
{
    if rep.len() == 0 {
        Seq::<char>::empty()
    } else if ch_is_alpha(rep[0]) {
        if first_done {
            ch_lower(rep[0]) + title_applied(rep.drop_first(), true)
        } else {
            ch_upper(rep[0]) + title_applied(rep.drop_first(), true)
        }
    } else {
        seq![rep[0]] + title_applied(rep.drop_first(), first_done)
    }
}

/// The replacement re-cased for the mixed category: each alphabetic character
/// takes the case of the positionally paired alphabetic character of the
/// match (`pat`); once `pat` is exhausted the character keeps its own case.
pub open spec fn mixed_applied(rep: Seq<char>, pat: Seq<char>) -> Seq<char>
    decreases rep.len(),
{
    if rep.len() == 0 {
        Seq::<char>::empty()
    } else if ch_is_alpha(rep[0]) {
        if pat.len() > 0 {
            let head = if ch_is_upper(pat[0]) {
                ch_upper(rep[0])
            } else {
                ch_lower(rep[0])
            };
            head + mixed_applied(rep.drop_first(), pat.drop_first())
        } else {
            seq![rep[0]] + mixed_applied(rep.drop_first(), pat)
        }
    } else {
        seq![rep[0]] + mixed_applied(rep.drop_first(), pat)
    }
}

/// What case pattern inference yields for a matched fragment and a raw
/// replacement fragment.
pub open spec fn apply_case_spec(matched: Seq<char>, rep: Seq<char>) -> Seq<char> {
    match case_category(matched) {
        CaseCategory::NoLetters => rep,
        CaseCategory::AllUpper => str_upper(rep),
        CaseCategory::AllLower => str_lower(rep),
        CaseCategory::Title => title_applied(rep, false),
        CaseCategory::Mixed => mixed_applied(rep, alpha_of(matched)),
    }
}

/// The alphabetic characters of a character vector, in order.
pub fn alpha_chars(s: &Vec<char>) -> (out: Vec<char>)
    ensures
        out@ == alpha_of(s@),
{
    let mut out: Vec<char> = Vec::new();
    let mut i: usize = 0;
    proof {
        assert(s@.skip(0) =~= s@);
        assert(Seq::<char>::empty() + alpha_of(s@) =~= alpha_of(s@));
    }
    while i < s.len()
        invariant
            i <= s@.len(),
            out@ + alpha_of(s@.skip(i as int)) == alpha_of(s@),
        decreases s@.len() - i,
    {
        proof {
            assert(s@.skip(i as int).drop_first() =~= s@.skip(i + 1));
            assert(s@.skip(i as int)[0] == s@[i as int]);
        }
        if s[i].is_alphabetic() {
            out.push(s[i]);
            proof {
                assert(alpha_of(s@.skip(i as int)) == seq![s@[i as int]] + alpha_of(s@.skip(i + 1)));
                assert(out@ + alpha_of(s@.skip(i + 1)) =~= alpha_of(s@));
            }
        }
        i = i + 1;
    }
    proof {
        assert(s@.skip(s@.len() as int) =~= Seq::<char>::empty());
        assert(out@ + Seq::<char>::empty() =~= out@);
    }
    out
}

/// The casing category of a matched fragment, judged as `case_category` says.
pub fn classify(matched: &Vec<char>) -> (cat: CaseCategory)
    ensures
        cat == case_category(matched@),
{
    let a = alpha_chars(matched);
    if a.len() == 0 {
        return CaseCategory::NoLetters;
    }
    let mut all_upper: bool = true;
    let mut all_lower: bool = true;
    let mut tail_lower: bool = true;
    let mut i: usize = 0;
    while i < a.len()
        invariant
            i <= a@.len(),
            a@ == alpha_of(matched@),
            all_upper == (forall|j: int| 0 <= j < i ==> ch_is_upper(#[trigger] a@[j])),
            all_lower == (forall|j: int| 0 <= j < i ==> ch_is_lower(#[trigger] a@[j])),
            tail_lower == (forall|j: int| 1 <= j < i ==> ch_is_lower(#[trigger] a@[j])),
        decreases a@.len() - i,
    {
        let up = a[i].is_uppercase();
        let lo = a[i].is_lowercase();
        all_upper = all_upper && up;
        all_lower = all_lower && lo;
        if i >= 1 {
            tail_lower = tail_lower && lo;
        }
        i = i + 1;
    }
    if all_upper {
        CaseCategory::AllUpper
    } else if all_lower {
        CaseCategory::AllLower
    } else if a[0].is_uppercase() && tail_lower {
        CaseCategory::Title
    } else {
        CaseCategory::Mixed
    }
}

/// Push every character of `src` onto `dst`.
fn push_all(dst: &mut Vec<char>, src: &Vec<char>)
    ensures
        final(dst)@ == old(dst)@ + src@,
{
    let mut i: usize = 0;
    while i < src.len()
        invariant
            i <= src@.len(),
            dst@ == old(dst)@ + src@.take(i as int),
        decreases src@.len() - i,
    {
        dst.push(src[i]);
        proof {
            assert(old(dst)@ + src@.take(i as int) + seq![src@[i as int]] =~= old(dst)@ + src@.take(
                i + 1,
            ));
        }
        i = i + 1;
    }
    proof {
        assert(src@.take(src@.len() as int) =~= src@);
    }
}

/// Re-case the replacement for the title category, walking its characters.
fn apply_title(rep: &Vec<char>) -> (out: Vec<char>)
    ensures
        out@ == title_applied(rep@, false),
{
    let mut out: Vec<char> = Vec::new();
    let mut first_done: bool = false;
    let mut i: usize = 0;
    proof {
        assert(rep@.skip(0) =~= rep@);
        assert(Seq::<char>::empty() + title_applied(rep@, false) =~= title_applied(rep@, false));
    }
    while i < rep.len()
        invariant
            i <= rep@.len(),
            out@ + title_applied(rep@.skip(i as int), first_done) == title_applied(rep@, false),
        decreases rep@.len() - i,
    {
        proof {
            assert(rep@.skip(i as int).drop_first() =~= rep@.skip(i + 1));
            assert(rep@.skip(i as int)[0] == rep@[i as int]);
        }
        let c = rep[i];
        if c.is_alphabetic() {
            if first_done {
                let mapped = char_to_lower_chars(c);
                push_all(&mut out, &mapped);
            } else {
                let mapped = char_to_upper_chars(c);
                push_all(&mut out, &mapped);
                first_done = true;
            }
        } else {
            out.push(c);
        }
        proof {
            assert(out@ + title_applied(rep@.skip(i + 1), first_done) =~= title_applied(
                rep@,
                false,
            ));
        }
        i = i + 1;
    }
    proof {
        assert(rep@.skip(rep@.len() as int) =~= Seq::<char>::empty());
        assert(out@ + Seq::<char>::empty() =~= out@);
    }
    out
}

/// Re-case the replacement for the mixed category, pairing its alphabetic
/// characters with those of the match.
fn apply_mixed(rep: &Vec<char>, pat: &Vec<char>) -> (out: Vec<char>)
    ensures
        out@ == mixed_applied(rep@, pat@),
{
    let mut out: Vec<char> = Vec::new();
    let mut i: usize = 0;
    let mut j: usize = 0;
    proof {
        assert(rep@.skip(0) =~= rep@);
        assert(pat@.skip(0) =~= pat@);
        assert(Seq::<char>::empty() + mixed_applied(rep@, pat@) =~= mixed_applied(rep@, pat@));
    }
    while i < rep.len()
        invariant
            i <= rep@.len(),
            j <= pat@.len(),
            out@ + mixed_applied(rep@.skip(i as int), pat@.skip(j as int)) == mixed_applied(
                rep@,
                pat@,
            ),
        decreases rep@.len() - i,
    {
        proof {
            assert(rep@.skip(i as int).drop_first() =~= rep@.skip(i + 1));
            assert(rep@.skip(i as int)[0] == rep@[i as int]);
            assert(pat@.skip(j as int).len() == pat@.len() - j);
            if j < pat@.len() {
                assert(pat@.skip(j as int).drop_first() =~= pat@.skip(j + 1));
                assert(pat@.skip(j as int)[0] == pat@[j as int]);
            }
        }
        let c = rep[i];
        if c.is_alphabetic() {
            if j < pat.len() {
                if pat[j].is_uppercase() {
                    let mapped = char_to_upper_chars(c);
                    push_all(&mut out, &mapped);
                } else {
                    let mapped = char_to_lower_chars(c);
                    push_all(&mut out, &mapped);
                }
                j = j + 1;
            } else {
                out.push(c);
            }
        } else {
            out.push(c);
        }
        proof {
            assert(out@ + mixed_applied(rep@.skip(i + 1), pat@.skip(j as int)) =~= mixed_applied(
                rep@,
                pat@,
            ));
        }
        i = i + 1;
    }
    proof {
        assert(rep@.skip(rep@.len() as int) =~= Seq::<char>::empty());
        assert(out@ + Seq::<char>::empty() =~= out@);
    }
    out
}

/// Re-case the raw replacement so its casing mirrors the casing category of
/// the matched fragment: unchanged without letters, fully uppercased or
/// lowercased when the match is, title-cased when the match is, and paired
/// character by character otherwise.
pub fn apply_case_pattern(matched: &str, replacement: &str) -> (out: String)
    ensures
        out@ == apply_case_spec(matched@, replacement@),
{
    let mc = chars_of(matched);
    let cat = classify(&mc);
    match cat {
        CaseCategory::NoLetters => replacement.to_owned(),
        CaseCategory::AllUpper => replacement.to_uppercase(),
        CaseCategory::AllLower => replacement.to_lowercase(),
        CaseCategory::Title => {
            let rc = chars_of(replacement);
            let out = apply_title(&rc);
            string_from_chars(&out)
        },
        CaseCategory::Mixed => {
            let rc = chars_of(replacement);
            let pat = alpha_chars(&mc);
            let out = apply_mixed(&rc, &pat);
            string_from_chars(&out)
        },
    }
}

} // verus!
