//! The escape/delimiter resolver.
//!
//! An opening brace may be spelled `{`, or `|` followed by escape symbols
//! from `<([` and then `{` (for example `|<{`). The resolver computes, from
//! that exact spelling, the closing sequence that ends the region and the
//! prefix that marks special syntax (commands, comments) inside it: the
//! closing sequence mirrors each escape symbol (`<` to `>`, `(` to `)`,
//! `[` to `]`) in reverse order, then `}`, then a trailing `|` when the
//! opener had one; the special prefix is the opener with its final `{`
//! removed.

use vstd::prelude::*;

verus! {

/// The escape symbols allowed between `|` and `{` in an opening brace form.
pub open spec fn is_escape_symbol(c: char) -> bool {
    c == '<' || c == '(' || c == '['
}

/// The closing counterpart of one escape symbol.
pub open spec fn mirror_char(c: char) -> char {
    if c == '<' {
        '>'
    } else if c == '(' {
        ')'
    } else {
        ']'
    }
}

/// A well-formed opening brace spelling: a bare `{`, or `|`, then zero or
/// more escape symbols, then `{`.
pub open spec fn valid_open_form(s: Seq<char>) -> bool {
    &&& s.len() >= 1
    &&& s.last() == '{'
    &&& (s.len() == 1 || (s[0] == '|' && forall|i: int|
        1 <= i < s.len() - 1 ==> is_escape_symbol(#[trigger] s[i])))
}

/// Each symbol of `t` mirrored, the whole read in reverse.
pub open spec fn mirror_rev(t: Seq<char>) -> Seq<char> {
    Seq::new(t.len(), |i: int| mirror_char(t[t.len() - 1 - i]))
}

/// The closing spelling that matches an opening brace spelling.
pub open spec fn close_of(s: Seq<char>) -> Seq<char> {
    if s.len() == 1 {
        seq!['}']
    } else {
        mirror_rev(s.subrange(1, s.len() - 1)) + seq!['}'] + seq!['|']
    }
}

/// The special-syntax prefix demanded inside the region: the opener with
/// its final `{` removed.
pub open spec fn escape_of(s: Seq<char>) -> Seq<char> {
    s.subrange(0, s.len() - 1)
}

/// Whether `c` is an escape symbol.
pub fn escape_symbol_char(c: char) -> (r: bool)
    ensures
        r == is_escape_symbol(c),
{
    c == '<' || c == '(' || c == '['
}

/// The closing counterpart of one escape symbol.
pub fn escape_matching_char(open_char: char) -> (r: char)
    requires
        is_escape_symbol(open_char),
    ensures
        r == mirror_char(open_char),
{
    match open_char {
        '<' => '>',
        '(' => ')',
        _ => ']',
    }
}

/// Appends one character to a string.
///
/// Relies on `String::push`: appends the given `char` to the end of the
/// string.
#[verifier::external_body]
pub(crate) fn push_char(s: &mut String, c: char)
    ensures
        final(s)@ == old(s)@ + seq![c],
{
    s.push(c);
}

/// The closing spelling that matches `open_curly_form`.
pub fn get_matching_close_curly(open_curly_form: &str) -> (r: String)
    requires
        valid_open_form(open_curly_form@),
    ensures
        r@ == close_of(open_curly_form@),
{
    let n = open_curly_form.unicode_len();
    if n == 1 {
        let mut r = String::new();
        push_char(&mut r, '}');
        proof {
            assert(r@ =~= close_of(open_curly_form@));
        }
        r
    } else {
        let mut r = String::new();
        let ghost syms = open_curly_form@.subrange(1, open_curly_form@.len() - 1);
        let mut i: usize = n - 1;
        while i > 1
            invariant
                1 <= i <= n - 1,
                n == open_curly_form@.len(),
                n >= 2,
                valid_open_form(open_curly_form@),
                syms == open_curly_form@.subrange(1, open_curly_form@.len() - 1),
                r@ =~= mirror_rev(syms).subrange(0, n - 1 - i),
            decreases i,
        {
            let c = open_curly_form.get_char(i - 1);
            let m = escape_matching_char(c);
            push_char(&mut r, m);
            proof {
                assert(syms[i - 2] == open_curly_form@[i - 1]);
                assert(mirror_rev(syms)[n - 1 - i] == mirror_char(syms[syms.len() - 1 - (n - 1 - i)]));
                assert(syms.len() - 1 - (n - 1 - i) == i - 2);
                assert(r@ =~= mirror_rev(syms).subrange(0, n - 1 - (i - 1) as int));
            }
            i = i - 1;
        }
        push_char(&mut r, '}');
        push_char(&mut r, '|');
        proof {
            assert(mirror_rev(syms).subrange(0, syms.len() as int) =~= mirror_rev(syms));
            assert(r@ =~= close_of(open_curly_form@));
        }
        r
    }
}

/// The special-syntax prefix demanded inside the region opened by
/// `open_curly_form`: the opener with its final `{` removed.
pub fn get_matching_escape<'a>(open_curly_form: &'a str) -> (r: &'a str)
    requires
        valid_open_form(open_curly_form@),
    ensures
        r@ == escape_of(open_curly_form@),
{
    let n = open_curly_form.unicode_len();
    open_curly_form.substring_char(0, n - 1)
}

/// The computed closing forms for the plain opener and the escaped opener
/// `|<{` are exactly `}` and `>}|`.
pub proof fn lemma_close_of_exact_forms()
    ensures
        close_of("{"@) =~= "}"@,
        close_of("|<{"@) =~= ">}|"@,
{
    reveal_strlit("{");
    reveal_strlit("}");
    reveal_strlit("|<{");
    reveal_strlit(">}|");
}

} // verus!
