//! Literal matching at the front of the remaining input.
//!
//! A [`MatchInProgress`] is handed the remaining text and tries a series of
//! literal spellings against its front, consuming each one it matches and
//! counting the characters consumed, without committing the tokenizer's own
//! cursor: the tokenizer advances afterwards by the reported count.

use vstd::prelude::*;

use crate::context::is_unicode_ws;
use crate::context::spec_is_unicode_ws;

verus! {

/// Whether `p` is a prefix of `s`.
pub open spec fn is_prefix_of(p: Seq<char>, s: Seq<char>) -> bool {
    p.len() <= s.len() && s.subrange(0, p.len() as int) == p
}

/// Whether `s` starts with `p`.
pub(crate) fn str_starts_with(s: &str, p: &str) -> (r: bool)
    ensures
        r == is_prefix_of(p@, s@),
{
    let sn = s.unicode_len();
    let pn = p.unicode_len();
    if pn > sn {
        proof {
            assert(!is_prefix_of(p@, s@));
        }
        return false;
    }
    let mut i: usize = 0;
    while i < pn
        invariant
            0 <= i <= pn <= sn,
            sn == s@.len(),
            pn == p@.len(),
            forall|j: int| 0 <= j < i ==> s@[j] == p@[j],
        decreases pn - i,
    {
        if s.get_char(i) != p.get_char(i) {
            proof {
                assert(s@.subrange(0, p@.len() as int)[i as int] == s@[i as int]);
                assert(!is_prefix_of(p@, s@));
            }
            return false;
        }
        i = i + 1;
    }
    proof {
        assert(s@.subrange(0, p@.len() as int) =~= p@);
    }
    true
}

/// A literal-matching pass over the front of the remaining input.
pub struct MatchInProgress<'a> {
    source: &'a str,
    chars_matched: usize,
    curr_idx: usize,
    start_idx: usize,
}

impl<'a> MatchInProgress<'a> {
    /// The text still in front of the match position.
    pub closed spec fn remaining(&self) -> Seq<char> {
        self.source@
    }

    /// How many characters the successful matches so far consumed.
    pub closed spec fn matched(&self) -> int {
        self.chars_matched as int
    }

    /// The position, in characters of the whole text, where this pass
    /// began.
    pub closed spec fn start(&self) -> int {
        self.start_idx as int
    }

    /// The counters agree and cannot overflow.
    pub closed spec fn wf(&self) -> bool {
        &&& self.chars_matched == self.curr_idx
        &&& self.start_idx + self.curr_idx + self.source@.len() <= usize::MAX
    }

    /// Begins a pass over `source_text`, which starts `start_idx`
    /// characters into the whole text.
    pub fn new(source_text: &'a str, start_idx: usize) -> (m: Self)
        requires
            start_idx + source_text@.len() <= usize::MAX,
        ensures
            m.wf(),
            m.remaining() == source_text@,
            m.matched() == 0,
            m.start() == start_idx,
    {
        Self { source: source_text, chars_matched: 0, curr_idx: 0, start_idx }
    }

    /// Whether `s` could be matched next.
    pub fn can_match(&self, s: &str) -> (r: bool)
        ensures
            r == is_prefix_of(s@, self.remaining()),
    {
        str_starts_with(self.source, s)
    }

    /// How many characters have been consumed in this pass.
    pub fn curr_relative_idx(&mut self) -> (r: usize)
        requires
            old(self).wf(),
        ensures
            *final(self) == *old(self),
            r == old(self).matched(),
    {
        self.curr_idx
    }

    /// The current position in characters of the whole text.
    pub fn curr_text_idx(&mut self) -> (r: usize)
        requires
            old(self).wf(),
        ensures
            *final(self) == *old(self),
            r == old(self).start() + old(self).matched(),
    {
        self.curr_idx + self.start_idx
    }

    /// Consumes `s` if it is in front; reports whether it was.
    pub fn perform_match(&mut self, s: &str) -> (r: bool)
        requires
            old(self).wf(),
        ensures
            final(self).wf(),
            final(self).start() == old(self).start(),
            r == is_prefix_of(s@, old(self).remaining()),
            r ==> {
                &&& final(self).remaining() == old(self).remaining().skip(s@.len() as int)
                &&& final(self).matched() == old(self).matched() + s@.len()
            },
            !r ==> *final(self) == *old(self),
    {
        if self.can_match(s) {
            let k = s.unicode_len();
            let n = self.source.unicode_len();
            let rest = self.source.substring_char(k, n);
            proof {
                assert(rest@ =~= self.source@.skip(s@.len() as int));
            }
            self.curr_idx = self.curr_idx + k;
            self.chars_matched = self.chars_matched + k;
            self.source = rest;
            true
        } else {
            false
        }
    }

    /// Consumes the one character `c` if it is in front; reports whether
    /// it was.
    pub fn perform_match_char(&mut self, c: &char) -> (r: bool)
        requires
            old(self).wf(),
        ensures
            final(self).wf(),
            final(self).start() == old(self).start(),
            r == (old(self).remaining().len() >= 1 && old(self).remaining()[0] == *c),
            r ==> {
                &&& final(self).remaining() == old(self).remaining().skip(1)
                &&& final(self).matched() == old(self).matched() + 1
            },
            !r ==> *final(self) == *old(self),
    {
        let n = self.source.unicode_len();
        if n >= 1 && self.source.get_char(0) == *c {
            let rest = self.source.substring_char(1, n);
            proof {
                assert(rest@ =~= self.source@.skip(1));
            }
            self.curr_idx = self.curr_idx + 1;
            self.chars_matched = self.chars_matched + 1;
            self.source = rest;
            true
        } else {
            false
        }
    }

    /// Whether the one character `c` is in front.
    pub fn can_match_char(&mut self, c: &char) -> (r: bool)
        ensures
            *final(self) == *old(self),
            r == (old(self).remaining().len() >= 1 && old(self).remaining()[0] == *c),
    {
        let n = self.source.unicode_len();
        n >= 1 && self.source.get_char(0) == *c
    }

    /// How many characters the successful matches so far consumed.
    pub fn num_chars_matched(&self) -> (r: usize)
        ensures
            r == self.matched(),
    {
        self.chars_matched
    }

    /// Consumes the maximal run of white-space characters in front;
    /// reports how many characters it held.
    pub fn match_whitespace(&mut self) -> (r: usize)
        requires
            old(self).wf(),
        ensures
            final(self).wf(),
            final(self).start() == old(self).start(),
            final(self).remaining() == old(self).remaining().skip(r as int),
            final(self).matched() == old(self).matched() + r,
            r <= old(self).remaining().len(),
            forall|j: int| 0 <= j < r ==> spec_is_unicode_ws(#[trigger] old(self).remaining()[j]),
            r < old(self).remaining().len() ==> !spec_is_unicode_ws(old(self).remaining()[r as int]),
    {
        let n = self.source.unicode_len();
        let mut k: usize = 0;
        while k < n && is_unicode_ws(self.source.get_char(k))
            invariant
                0 <= k <= n,
                n == self.source@.len(),
                forall|j: int| 0 <= j < k ==> spec_is_unicode_ws(#[trigger] self.source@[j]),
            decreases n - k,
        {
            k = k + 1;
        }
        let rest = self.source.substring_char(k, n);
        proof {
            assert(rest@ =~= self.source@.skip(k as int));
        }
        self.curr_idx = self.curr_idx + k;
        self.chars_matched = self.chars_matched + k;
        self.source = rest;
        k
    }
}

} // verus!
