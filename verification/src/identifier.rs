//! Identifiers and the reserved words.
//!
//! An identifier is an ASCII letter or `_`, followed by ASCII letters,
//! digits or `_`. The words `true`, `false`, `null` and `undefined` are
//! reserved, compared without regard to ASCII case: they are rejected
//! wherever an identifier is required, in command-name position as well as
//! in square-argument key and value position.

use vstd::prelude::*;

verus! {

/// Whether `c` may start an identifier: an ASCII letter or `_`.
pub open spec fn is_ident_start_char(c: char) -> bool {
    ||| (65 <= (c as u32) && (c as u32) <= 90)
    ||| (97 <= (c as u32) && (c as u32) <= 122)
    ||| c == '_'
}

/// Whether `c` may continue an identifier: an ASCII letter, digit or `_`.
pub open spec fn is_ident_char(c: char) -> bool {
    is_ident_start_char(c) || (48 <= (c as u32) && (c as u32) <= 57)
}

/// Whether `c` may start an identifier.
pub fn ident_start_char(c: char) -> (r: bool)
    ensures
        r == is_ident_start_char(c),
{
    let x = c as u32;
    let r = 65 <= x && x <= 90 || 97 <= x && x <= 122 || x == 95;
    proof {
        assert('_' as u32 == 95);
    }
    r
}

/// Whether `c` may continue an identifier.
pub fn ident_char(c: char) -> (r: bool)
    ensures
        r == is_ident_char(c),
{
    let x = c as u32;
    let r = 65 <= x && x <= 90 || 97 <= x && x <= 122 || 48 <= x && x <= 57 || x == 95;
    proof {
        assert('_' as u32 == 95);
    }
    r
}

/// A well-formed identifier spelling.
pub open spec fn valid_ident(s: Seq<char>) -> bool {
    &&& s.len() >= 1
    &&& is_ident_start_char(s[0])
    &&& forall|i: int| 0 <= i < s.len() ==> is_ident_char(#[trigger] s[i])
}

/// Equality of two characters without regard to ASCII case.
pub open spec fn ci_eq(a: char, b: char) -> bool {
    ||| a == b
    ||| (65 <= (a as u32) && (a as u32) <= 90 && (a as u32) + 32 == (b as u32))
    ||| (65 <= (b as u32) && (b as u32) <= 90 && (b as u32) + 32 == (a as u32))
}

/// Equality of two spellings without regard to ASCII case.
pub open spec fn ci_match(s: Seq<char>, t: Seq<char>) -> bool {
    &&& s.len() == t.len()
    &&& forall|i: int| 0 <= i < s.len() ==> ci_eq(#[trigger] s[i], t[i])
}

/// Whether `s` is one of the reserved words, without regard to ASCII case.
pub open spec fn spec_is_reserved(s: Seq<char>) -> bool {
    ||| ci_match(s, "true"@)
    ||| ci_match(s, "false"@)
    ||| ci_match(s, "null"@)
    ||| ci_match(s, "undefined"@)
}

/// Compares two spellings without regard to ASCII case.
fn str_eq_ci(a: &str, b: &str) -> (r: bool)
    ensures
        r == ci_match(a@, b@),
{
    let an = a.unicode_len();
    let bn = b.unicode_len();
    if an != bn {
        return false;
    }
    let mut i: usize = 0;
    while i < an
        invariant
            0 <= i <= an,
            an == a@.len(),
            an == b@.len(),
            forall|j: int| 0 <= j < i ==> ci_eq(#[trigger] a@[j], b@[j]),
        decreases an - i,
    {
        let x = a.get_char(i) as u32;
        let y = b.get_char(i) as u32;
        let ok = x == y || (65 <= x && x <= 90 && x + 32 == y) || (65 <= y && y <= 90 && y + 32
            == x);
        if !ok {
            return false;
        }
        i = i + 1;
    }
    true
}

/// Whether `candidate` is a reserved word, without regard to ASCII case.
pub fn is_reserved_identifier(candidate: &str) -> (r: bool)
    ensures
        r == spec_is_reserved(candidate@),
{
    str_eq_ci(candidate, "true") || str_eq_ci(candidate, "false") || str_eq_ci(candidate, "null")
        || str_eq_ci(candidate, "undefined")
}

/// Whether `s` is a well-formed identifier spelling (reserved or not).
pub fn is_valid_identifier(s: &str) -> (r: bool)
    ensures
        r == valid_ident(s@),
{
    let n = s.unicode_len();
    if n == 0 {
        return false;
    }
    if !ident_start_char(s.get_char(0)) {
        return false;
    }
    let mut i: usize = 0;
    while i < n
        invariant
            0 <= i <= n,
            n == s@.len(),
            n >= 1,
            is_ident_start_char(s@[0]),
            forall|j: int| 0 <= j < i ==> is_ident_char(#[trigger] s@[j]),
        decreases n - i,
    {
        if !ident_char(s.get_char(i)) {
            return false;
        }
        i = i + 1;
    }
    true
}

/// The end of the identifier run that starts at `p`: the first position at
/// or after `p` holding a character that cannot continue an identifier.
pub open spec fn ident_run_end(s: Seq<char>, p: int) -> int
    decreases s.len() - p,
{
    if p < 0 || p >= s.len() {
        s.len() as int
    } else if !is_ident_char(s[p]) {
        p
    } else {
        ident_run_end(s, p + 1)
    }
}

/// The identifier run that starts at `p` ends between `p` and the end of
/// the text.
pub proof fn lemma_ident_run_end_bounds(s: Seq<char>, p: int)
    requires
        0 <= p <= s.len(),
    ensures
        p <= ident_run_end(s, p) <= s.len(),
    decreases s.len() - p,
{
    if p < s.len() && is_ident_char(s[p]) {
        lemma_ident_run_end_bounds(s, p + 1);
    }
}

/// An identifier is accepted at the front of `i` exactly when the first
/// character can start one and the maximal identifier-character run from
/// there is not a reserved word; what is accepted is that whole run, with
/// its length in characters.
pub fn identifier<'a>(i: &'a str) -> (r: Option<(&'a str, usize)>)
    ensures
        match r {
            Some((m, k)) => {
                &&& i@.len() >= 1
                &&& is_ident_start_char(i@[0])
                &&& k == ident_run_end(i@, 0)
                &&& 1 <= k <= i@.len()
                &&& m@ == i@.subrange(0, k as int)
                &&& valid_ident(m@)
                &&& !spec_is_reserved(m@)
            },
            None => {
                ||| i@.len() == 0
                ||| !is_ident_start_char(i@[0])
                ||| spec_is_reserved(i@.subrange(0, ident_run_end(i@, 0)))
            },
        },
{
    let n = i.unicode_len();
    if n == 0 {
        return None;
    }
    if !ident_start_char(i.get_char(0)) {
        return None;
    }
    let mut k: usize = 0;
    while k < n && ident_char(i.get_char(k))
        invariant
            0 <= k <= n,
            n == i@.len(),
            n >= 1,
            is_ident_start_char(i@[0]),
            forall|j: int| 0 <= j < k ==> is_ident_char(#[trigger] i@[j]),
            ident_run_end(i@, 0) == ident_run_end(i@, k as int),
        decreases n - k,
    {
        k = k + 1;
    }
    proof {
        assert(k == ident_run_end(i@, 0));
        assert(is_ident_char(i@[0]));
        assert(k >= 1);
    }
    let m = i.substring_char(0, k);
    if is_reserved_identifier(m) {
        proof {
            assert(m@ == i@.subrange(0, ident_run_end(i@, 0)));
        }
        None
    } else {
        Some((m, k))
    }
}

} // verus!
