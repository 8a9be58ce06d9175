//! Literal, case-sensitive matching and replacement: every non-overlapping
//! occurrence of the term, scanned left to right, is replaced.

use vstd::prelude::*;

verus! {

/// Whether the term `t` occurs in `c` starting at position `i`.
pub open spec fn starts_with_at(c: Seq<char>, t: Seq<char>, i: int) -> bool {
    0 <= i && i + t.len() <= c.len() && c.subrange(i, i + t.len()) == t
}

/// Whether the term `t` occurs anywhere in `c`.
pub open spec fn contains_term(c: Seq<char>, t: Seq<char>) -> bool {
    exists|i: int| starts_with_at(c, t, i)
}

/// Whether `p` is a prefix of `s`.
pub open spec fn starts_with(s: Seq<char>, p: Seq<char>) -> bool {
    p.len() <= s.len() && s.subrange(0, p.len() as int) == p
}

/// `c` with every non-overlapping occurrence of `t`, scanned left to right,
/// replaced by `r`. An empty term replaces nothing.
pub open spec fn lit_replaced(c: Seq<char>, t: Seq<char>, r: Seq<char>) -> Seq<char>
    decreases c.len(),
{
    if t.len() == 0 || c.len() < t.len() {
        c
    } else if c.subrange(0, t.len() as int) == t {
        r + lit_replaced(c.skip(t.len() as int), t, r)
    } else {
        seq![c[0]] + lit_replaced(c.skip(1), t, r)
    }
}

/// Whether no character of `r` occurs in `t`.
pub open spec fn shares_no_chars(r: Seq<char>, t: Seq<char>) -> bool {
    forall|i: int, j: int| 0 <= i < r.len() && 0 <= j < t.len() ==> r[i] != t[j]
}

/// Law: content in which the term does not occur is left exactly as it was.
pub proof fn lemma_absent_unchanged(c: Seq<char>, t: Seq<char>, r: Seq<char>)
    requires
        t.len() > 0,
        !contains_term(c, t),
    ensures
        lit_replaced(c, t, r) == c,
    decreases c.len(),
{
    if c.len() < t.len() {
    } else {
        assert(!starts_with_at(c, t, 0));
        assert(c.subrange(0, t.len() as int) != t);
        assert forall|j: int| !starts_with_at(c.skip(1), t, j) by {
            if starts_with_at(c.skip(1), t, j) {
                assert(c.subrange(j + 1, j + 1 + t.len()) =~= c.skip(1).subrange(j, j + t.len()));
                assert(starts_with_at(c, t, j + 1));
            }
        }
        lemma_absent_unchanged(c.skip(1), t, r);
        assert(seq![c[0]] + c.skip(1) =~= c);
    }
}

/// Law: replacement works left to right. At the first occurrence of the term
/// the content splits into the untouched prefix, the replacement, and the
/// rewritten rest; so every occurrence, taken left to right and without
/// overlap, is replaced.
pub proof fn lemma_first_occurrence(c: Seq<char>, t: Seq<char>, r: Seq<char>, i: int)
    requires
        t.len() > 0,
        starts_with_at(c, t, i),
        forall|j: int| 0 <= j < i ==> !starts_with_at(c, t, j),
    ensures
        lit_replaced(c, t, r) == c.take(i) + r + lit_replaced(c.skip(i + t.len()), t, r),
    decreases i,
{
    if i == 0 {
        assert(c.subrange(0, t.len() as int) =~= c.subrange(0, 0 + t.len() as int));
        assert(c.take(0) + r =~= r);
        assert(r + lit_replaced(c.skip(t.len() as int), t, r) =~= c.take(0) + r + lit_replaced(
            c.skip(0 + t.len() as int),
            t,
            r,
        ));
    } else {
        assert(!starts_with_at(c, t, 0));
        assert(c.len() >= i + t.len());
        assert(c.subrange(0, t.len() as int) != t);
        assert(c.skip(1).subrange(i - 1, i - 1 + t.len()) =~= c.subrange(i, i + t.len()));
        assert(starts_with_at(c.skip(1), t, i - 1));
        assert forall|j: int| 0 <= j < i - 1 implies !starts_with_at(c.skip(1), t, j) by {
            if starts_with_at(c.skip(1), t, j) {
                assert(c.subrange(j + 1, j + 1 + t.len()) =~= c.skip(1).subrange(j, j + t.len()));
                assert(starts_with_at(c, t, j + 1));
            }
        }
        lemma_first_occurrence(c.skip(1), t, r, i - 1);
        assert(c.skip(1).take(i - 1) =~= c.subrange(1, i));
        assert(c.skip(1).skip(i - 1 + t.len()) =~= c.skip(i + t.len()));
        assert(seq![c[0]] + (c.subrange(1, i) + r + lit_replaced(c.skip(i + t.len()), t, r))
            =~= c.take(i) + r + lit_replaced(c.skip(i + t.len()), t, r));
    }
}

/// Law: when the replacement is not empty and shares no character with the
/// term, no occurrence of the term remains after replacement.
///
/// The second conclusion carries the induction: a strict suffix of the term
/// can stand at the front of the result only where it already stood at the
/// front of the content.
pub proof fn lemma_no_term_left(c: Seq<char>, t: Seq<char>, r: Seq<char>)
    requires
        t.len() > 0,
        r.len() > 0,
        shares_no_chars(r, t),
    ensures
        !contains_term(lit_replaced(c, t, r), t),
        forall|j: int|
            1 <= j < t.len() && starts_with(#[trigger] lit_replaced(c, t, r), t.skip(j))
                ==> starts_with(c, t.skip(j)),
    decreases c.len(),
{
    let out = lit_replaced(c, t, r);
    if c.len() < t.len() {
        assert forall|i: int| !starts_with_at(out, t, i) by {}
    } else if c.subrange(0, t.len() as int) == t {
        let rest = lit_replaced(c.skip(t.len() as int), t, r);
        lemma_no_term_left(c.skip(t.len() as int), t, r);
        assert(out == r + rest);
        assert forall|i: int| !starts_with_at(out, t, i) by {
            if starts_with_at(out, t, i) {
                if i + t.len() <= r.len() {
                    assert(out.subrange(i, i + t.len())[0] == r[i]);
                    assert(r[i] == t[0]);
                } else if i < r.len() {
                    assert(out.subrange(i, i + t.len())[0] == r[i]);
                    assert(r[i] == t[0]);
                } else {
                    assert(rest.subrange(i - r.len(), i - r.len() + t.len()) =~= out.subrange(
                        i,
                        i + t.len(),
                    ));
                    assert(starts_with_at(rest, t, i - r.len()));
                }
            }
        }
        assert forall|j: int|
            1 <= j < t.len() && starts_with(out, t.skip(j)) implies starts_with(c, t.skip(j)) by {
            assert(out.subrange(0, t.len() - j)[0] == out[0]);
            assert(out[0] == r[0]);
            assert(t.skip(j)[0] == t[j]);
            assert(r[0] != t[j]);
        }
    } else {
        let rest = lit_replaced(c.skip(1), t, r);
        lemma_no_term_left(c.skip(1), t, r);
        assert(out == seq![c[0]] + rest);
        assert forall|j: int|
            1 <= j < t.len() && starts_with(out, t.skip(j)) implies starts_with(c, t.skip(j)) by {
            assert(out.subrange(0, t.len() - j)[0] == out[0]);
            assert(c[0] == t[j]);
            if j + 1 < t.len() {
                assert(out.len() == 1 + rest.len());
                assert forall|m: int| 0 <= m < t.len() - (j + 1) implies rest[m] == t.skip(j + 1)[m] by {
                    assert(out.subrange(0, t.len() - j)[m + 1] == t.skip(j)[m + 1]);
                    assert(out[m + 1] == rest[m]);
                }
                assert(rest.subrange(0, t.len() - (j + 1)) =~= t.skip(j + 1));
                assert(starts_with(rest, t.skip(j + 1)));
                assert(starts_with(c.skip(1), t.skip(j + 1)));
                assert(c.subrange(0, t.len() - j)[0] == t.skip(j)[0]);
                assert forall|m: int| 0 <= m < t.len() - j implies c.subrange(0, t.len() - j)[m]
                    == t.skip(j)[m] by {
                    if m > 0 {
                        assert(c.skip(1).subrange(0, t.len() - (j + 1))[m - 1] == t.skip(j + 1)[m
                            - 1]);
                    }
                }
                assert(c.subrange(0, t.len() - j) =~= t.skip(j));
            } else {
                assert(t.skip(j).len() == 1);
                assert(c.subrange(0, 1) =~= seq![c[0]]);
                assert(seq![c[0]] =~= t.skip(j));
            }
        }
        assert forall|i: int| !starts_with_at(out, t, i) by {
            if starts_with_at(out, t, i) {
                if i == 0 {
                    assert(out.subrange(0, t.len() as int)[0] == out[0]);
                    assert(c[0] == t[0]);
                    if t.len() == 1 {
                        assert(c.subrange(0, 1) =~= seq![c[0]]);
                        assert(c.subrange(0, t.len() as int) == t);
                    } else {
                        assert(out.len() == 1 + rest.len());
                        assert forall|m: int| 0 <= m < t.len() - 1 implies rest[m] == t.skip(1)[m] by {
                            assert(out.subrange(0, t.len() as int)[m + 1] == t[m + 1]);
                            assert(out[m + 1] == rest[m]);
                        }
                        assert(rest.subrange(0, t.len() - 1) =~= t.skip(1));
                        assert(starts_with(rest, t.skip(1)));
                        assert(starts_with(c.skip(1), t.skip(1)));
                        assert(c.subrange(0, t.len() as int)[0] == t[0]);
                        assert forall|m: int| 0 <= m < t.len() implies c.subrange(
                            0,
                            t.len() as int,
                        )[m] == t[m] by {
                            if m > 0 {
                                assert(c.skip(1).subrange(0, (t.len() - 1) as int)[m - 1] == t.skip(
                                    1,
                                )[m - 1]);
                            }
                        }
                        assert(c.subrange(0, t.len() as int) =~= t);
                    }
                } else {
                    assert(rest.subrange(i - 1, i - 1 + t.len()) =~= out.subrange(i, i + t.len()));
                    assert(starts_with_at(rest, t, i - 1));
                }
            }
        }
    }
}

/// Law: running the same replacement again on its own output changes
/// nothing, when the replacement is not empty and shares no character with
/// the term. (In general a second run is not harmless: replacing a term with
/// text that holds the term again doubles it on every run.)
pub proof fn lemma_rerun_unchanged(c: Seq<char>, t: Seq<char>, r: Seq<char>)
    requires
        t.len() > 0,
        r.len() > 0,
        shares_no_chars(r, t),
    ensures
        lit_replaced(lit_replaced(c, t, r), t, r) == lit_replaced(c, t, r),
{
    lemma_no_term_left(c, t, r);
    lemma_absent_unchanged(lit_replaced(c, t, r), t, r);
}

/// Whether `term` occurs in `content` at position `i`, decided by walking
/// the characters.
fn match_at(content: &Vec<char>, term: &Vec<char>, i: usize) -> (r: bool)
    requires
        i + term@.len() <= content@.len(),
    ensures
        r == starts_with_at(content@, term@, i as int),
{
    let n = content.len();
    let mut j: usize = 0;
    while j < term.len()
        invariant
            j <= term@.len(),
            n == content@.len(),
            i + term@.len() <= content@.len(),
            forall|m: int| 0 <= m < j ==> content@[i + m] == term@[m],
        decreases term@.len() - j,
    {
        if content[i + j] != term[j] {
            proof {
                assert(content@.subrange(i as int, i + term@.len())[j as int] != term@[j as int]);
            }
            return false;
        }
        j = j + 1;
    }
    proof {
        assert(content@.subrange(i as int, i + term@.len()) =~= term@);
    }
    true
}

/// Copy a character vector.
fn copy_chars(src: &Vec<char>) -> (out: Vec<char>)
    ensures
        out@ == src@,
{
    let mut out: Vec<char> = Vec::new();
    let mut i: usize = 0;
    while i < src.len()
        invariant
            i <= src@.len(),
            out@ == src@.take(i as int),
        decreases src@.len() - i,
    {
        out.push(src[i]);
        proof {
            assert(out@ =~= src@.take(i + 1));
        }
        i = i + 1;
    }
    proof {
        assert(src@.take(src@.len() as int) =~= src@);
    }
    out
}

/// Push every character of `src` onto `dst`.
fn append_chars(dst: &mut Vec<char>, src: &Vec<char>)
    ensures
        final(dst)@ == old(dst)@ + src@,
{
    let mut i: usize = 0;
    while i < src.len()
        invariant
            i <= src@.len(),
            dst@ == old(dst)@ + src@.take(i as int),
        decreases src@.len() - i,
    {
        dst.push(src[i]);
        proof {
            assert(old(dst)@ + src@.take(i as int) + seq![src@[i as int]] =~= old(dst)@ + src@.take(
                i + 1,
            ));
        }
        i = i + 1;
    }
    proof {
        assert(src@.take(src@.len() as int) =~= src@);
    }
}

/// Replace every non-overlapping occurrence of `term` in `content`, scanned
/// left to right, by `rep`.
pub fn replace_literal(content: &Vec<char>, term: &Vec<char>, rep: &Vec<char>) -> (out: Vec<char>)
    ensures
        out@ == lit_replaced(content@, term@, rep@),
{
    let k = term.len();
    if k == 0 {
        return copy_chars(content);
    }
    let n = content.len();
    let mut out: Vec<char> = Vec::new();
    let mut i: usize = 0;
    proof {
        assert(content@.skip(0) =~= content@);
        assert(Seq::<char>::empty() + lit_replaced(content@, term@, rep@) =~= lit_replaced(
            content@,
            term@,
            rep@,
        ));
    }
    while i < n
        invariant
            i <= n,
            n == content@.len(),
            k == term@.len(),
            k > 0,
            out@ + lit_replaced(content@.skip(i as int), term@, rep@) == lit_replaced(
                content@,
                term@,
                rep@,
            ),
        decreases n - i,
    {
        proof {
            assert(content@.skip(i as int).len() == n - i);
        }
        if k <= n - i && match_at(content, term, i) {
            proof {
                assert(content@.skip(i as int).subrange(0, k as int) =~= content@.subrange(
                    i as int,
                    i + k,
                ));
                assert(content@.skip(i as int).skip(k as int) =~= content@.skip(i + k));
                assert(lit_replaced(content@.skip(i as int), term@, rep@) == rep@ + lit_replaced(
                    content@.skip(i + k),
                    term@,
                    rep@,
                ));
            }
            append_chars(&mut out, rep);
            proof {
                assert(out@ + lit_replaced(content@.skip(i + k), term@, rep@) =~= lit_replaced(
                    content@,
                    term@,
                    rep@,
                ));
            }
            i = i + k;
        } else {
            proof {
                if i + k <= n {
                    assert(content@.skip(i as int).subrange(0, k as int) =~= content@.subrange(
                        i as int,
                        i + k,
                    ));
                }
                assert(content@.skip(i as int)[0] == content@[i as int]);
                assert(content@.skip(i as int).skip(1) =~= content@.skip(i + 1));
                if i + k > n {
                    assert(content@.skip(i as int) =~= seq![content@[i as int]] + content@.skip(
                        i + 1,
                    ));
                }
                assert(lit_replaced(content@.skip(i as int), term@, rep@) == seq![
                    content@[i as int],
                ] + lit_replaced(content@.skip(i + 1), term@, rep@));
            }
            out.push(content[i]);
            proof {
                assert(out@ + lit_replaced(content@.skip(i + 1), term@, rep@) =~= lit_replaced(
                    content@,
                    term@,
                    rep@,
                ));
            }
            i = i + 1;
        }
    }
    proof {
        assert(content@.skip(n as int) =~= Seq::<char>::empty());
        assert(out@ + Seq::<char>::empty() =~= out@);
    }
    out
}

} // verus!
