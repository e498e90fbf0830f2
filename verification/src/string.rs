//! Double-quoted string literals in square-argument lists.
//!
//! A string literal is delimited by `"` and may hold the escapes `\"`,
//! `\\`, `\/`, `\n`, `\t` and `\r`; the parse yields the content with the
//! escapes decoded.

use vstd::prelude::*;

use crate::escape::push_char;

verus! {

/// What one escape character decodes to, if it is allowed.
pub open spec fn spec_unescape(c: char) -> Option<char> {
    if c == '"' {
        Some('"')
    } else if c == '\\' {
        Some('\\')
    } else if c == '/' {
        Some('/')
    } else if c == 'n' {
        Some('\n')
    } else if c == 't' {
        Some('\t')
    } else if c == 'r' {
        Some('\r')
    } else {
        None
    }
}

/// Scans the inside of a string literal from position `q` up to the
/// closing quote: the decoded content from `q` on, and the position after
/// the closing quote; nothing when the literal is unterminated or an
/// escape is not allowed.
pub open spec fn qstr_scan(s: Seq<char>, q: int) -> Option<(Seq<char>, int)>
    decreases s.len() - q,
{
    if q < 0 || q >= s.len() {
        None
    } else if s[q] == '"' {
        Some((Seq::<char>::empty(), q + 1))
    } else if s[q] == '\\' {
        if q + 2 > s.len() {
            None
        } else {
            match spec_unescape(s[q + 1]) {
                Some(d) => match qstr_scan(s, q + 2) {
                    Some(p) => Some((seq![d] + p.0, p.1)),
                    None => None,
                },
                None => None,
            }
        }
    } else {
        match qstr_scan(s, q + 1) {
            Some(p) => Some((seq![s[q]] + p.0, p.1)),
            None => None,
        }
    }
}

/// What a string literal at the front of `s` yields: its decoded content
/// and how many characters it spans, quotes included.
pub open spec fn quoted_string_at(s: Seq<char>) -> Option<(Seq<char>, int)> {
    if s.len() > 0 && s[0] == '"' {
        qstr_scan(s, 1)
    } else {
        None
    }
}

/// Parses a string literal at the front of `i`: the decoded content and
/// the number of characters consumed. Yields nothing when no quote opens
/// at the front, when the literal is unterminated, or when an escape is
/// not allowed.
pub fn parse_string(i: &str) -> (r: Option<(String, usize)>)
    ensures
        match r {
            Some(p) => {
                &&& quoted_string_at(i@) matches Some(w)
                &&& p.0@ == w.0
                &&& p.1 == w.1
                &&& 2 <= p.1 <= i@.len()
            },
            None => quoted_string_at(i@) is None,
        },
{
    let n = i.unicode_len();
    if n == 0 || i.get_char(0) != '"' {
        return None;
    }
    let mut acc = String::new();
    let mut q: usize = 1;
    loop
        invariant
            1 <= q <= n,
            n == i@.len(),
            i@[0] == '"',
            match qstr_scan(i@, q as int) {
                Some(p) => {
                    &&& qstr_scan(i@, 1) matches Some(w)
                    &&& w.0 == acc@ + p.0
                    &&& w.1 == p.1
                },
                None => qstr_scan(i@, 1) is None,
            },
        decreases n - q,
    {
        if q >= n {
            return None;
        }
        let c = i.get_char(q);
        if c == '"' {
            proof {
                assert(acc@ + Seq::<char>::empty() =~= acc@);
            }
            return Some((acc, q + 1));
        }
        if c == '\\' {
            if q + 1 >= n {
                return None;
            }
            let d = i.get_char(q + 1);
            let dec: char = if d == '"' {
                '"'
            } else if d == '\\' {
                '\\'
            } else if d == '/' {
                '/'
            } else if d == 'n' {
                '\n'
            } else if d == 't' {
                '\t'
            } else if d == 'r' {
                '\r'
            } else {
                return None;
            };
            proof {
                match qstr_scan(i@, q + 2) {
                    Some(p) => {
                        assert(acc@ + (seq![dec] + p.0) =~= (acc@ + seq![dec]) + p.0);
                    },
                    None => {},
                }
            }
            push_char(&mut acc, dec);
            q = q + 2;
        } else {
            proof {
                match qstr_scan(i@, q + 1) {
                    Some(p) => {
                        assert(acc@ + (seq![i@[q as int]] + p.0) =~= (acc@ + seq![i@[q as int]])
                            + p.0);
                    },
                    None => {},
                }
            }
            push_char(&mut acc, c);
            q = q + 1;
        }
    }
}

} // verus!
