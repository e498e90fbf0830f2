//! The context-sensitive tokenizer.
//!
//! A [`Tokenizer`] owns one pass over one source text. It keeps a stack of
//! lexical modes, each paired with the escape scope in force at that
//! nesting level; the parser pushes a mode on entering a nested construct
//! and pops it on leaving. Each call of [`Tokenizer::next`] yields the one
//! token that the top-of-stack mode matches first at the cursor, in a fixed
//! priority order, or a run of plain text up to the next character that
//! could start a token.

use vstd::prelude::*;

use crate::config::TokenizerCfg;
use crate::config::default_tokenizer_cfg;
use crate::config::spec_default_cfg;
use crate::context::EscapeCtx;
use crate::context::TokenizerContext;
use crate::context::escape_ctx_of;
use crate::context::is_scope_of;
use crate::context::spec_interesting;
use crate::context::spec_matches_command_start;
use crate::context::spec_matches_comments;
use crate::context::spec_matches_generic_open;
use crate::context::spec_matches_scope_braces;
use crate::context::wf_escape_ctx;
use crate::escape::is_escape_symbol;
use crate::escape::valid_open_form;
use crate::matching::MatchInProgress;
use crate::matching::is_prefix_of;
use crate::token::Token;

verus! {

/// The one error the tokenizer itself raises.
#[derive(Clone, Copy, Debug, PartialEq, Eq, Structural)]
pub enum TokenizerError {
    /// A carriage return not followed by a line feed.
    BadCarriageReturn,
}

impl TokenizerError {
    /// A description of the error.
    pub fn message(&self) -> &'static str {
        "carriage return ('\\r') followed by anything that is not newline ('\\n')"
    }
}

/// The 1-based line number of the character position `p`: one more than
/// the number of line feeds strictly before `p`.
pub open spec fn line_of(s: Seq<char>, p: int) -> int
    decreases p,
{
    if p <= 0 {
        1
    } else {
        line_of(s, p - 1) + if s[p - 1] == '\n' {
            1int
        } else {
            0int
        }
    }
}

/// The 1-based column number of the character position `p`: one more than
/// the number of characters since the last line feed before `p`.
pub open spec fn col_of(s: Seq<char>, p: int) -> int
    decreases p,
{
    if p <= 0 {
        1
    } else if s[p - 1] == '\n' {
        1
    } else {
        col_of(s, p - 1) + 1
    }
}

/// Line and column numbers lie between 1 and the position plus one.
pub proof fn lemma_pos_bounds(s: Seq<char>, p: int)
    requires
        p >= 0,
    ensures
        1 <= line_of(s, p) <= p + 1,
        1 <= col_of(s, p) <= p + 1,
    decreases p,
{
    if p > 0 {
        lemma_pos_bounds(s, p - 1);
    }
}

/// Whether the text `t` holds exactly `s` starting at position `p`.
pub open spec fn matches_at(t: Seq<char>, p: int, s: Seq<char>) -> bool {
    &&& 0 <= p
    &&& p + s.len() <= t.len()
    &&& t.subrange(p, p + s.len() as int) == s
}

/// A prefix of the text taken from `p` is the same thing as a match at `p`.
pub proof fn lemma_prefix_is_match(t: Seq<char>, p: int, s: Seq<char>)
    requires
        0 <= p <= t.len(),
    ensures
        is_prefix_of(s, t.skip(p)) == matches_at(t, p, s),
{
    if s.len() <= t.len() - p {
        assert(t.skip(p).subrange(0, s.len() as int) =~= t.subrange(p, p + s.len() as int));
    }
}

/// Matching a literal extended by one character is matching the literal
/// and then that character.
pub proof fn lemma_matches_at_snoc(t: Seq<char>, p: int, xs: Seq<char>, c: char)
    requires
        0 <= p <= t.len(),
    ensures
        matches_at(t, p, xs + seq![c]) <==> (matches_at(t, p, xs) && p + xs.len() < t.len() && t[p
            + xs.len()] == c),
{
    if matches_at(t, p, xs + seq![c]) {
        assert(t.subrange(p, p + xs.len() as int) =~= (xs + seq![c]).subrange(
            0,
            xs.len() as int,
        )) by {
            assert(forall|i: int|
                0 <= i < xs.len() ==> t.subrange(p, p + xs.len() as int)[i] == #[trigger] t[p + i]);
            assert(forall|i: int|
                0 <= i < xs.len() ==> t.subrange(p, p + (xs + seq![c]).len() as int)[i]
                    == #[trigger] t[p + i]);
        }
        assert((xs + seq![c]).subrange(0, xs.len() as int) =~= xs);
        assert(t.subrange(p, p + (xs + seq![c]).len() as int)[xs.len() as int] == t[p + xs.len()]);
    }
    if matches_at(t, p, xs) && p + xs.len() < t.len() && t[p + xs.len()] == c {
        assert(t.subrange(p, p + xs.len() + 1) =~= xs + seq![c]);
    }
}

/// The end of the plain text run whose characters begin at `q`: the first
/// position at or after `q` whose character could start a token in mode
/// `ctx`, or the end of the text.
pub open spec fn run_end(
    ctx: TokenizerContext,
    cfg: TokenizerCfg,
    close: Seq<char>,
    t: Seq<char>,
    q: int,
) -> int
    decreases t.len() - q,
{
    if q < 0 || q >= t.len() {
        t.len() as int
    } else if spec_interesting(ctx, t[q], cfg, close) {
        q
    } else {
        run_end(ctx, cfg, close, t, q + 1)
    }
}

/// The run that starts at `q` ends between `q` and the end of the text.
pub proof fn lemma_run_end_bounds(
    ctx: TokenizerContext,
    cfg: TokenizerCfg,
    close: Seq<char>,
    t: Seq<char>,
    q: int,
)
    requires
        0 <= q <= t.len(),
    ensures
        q <= run_end(ctx, cfg, close, t, q) <= t.len(),
    decreases t.len() - q,
{
    if q < t.len() && !spec_interesting(ctx, t[q], cfg, close) {
        lemma_run_end_bounds(ctx, cfg, close, t, q + 1);
    }
}

/// No character strictly inside the run could start a token.
pub proof fn lemma_run_end_chars(
    ctx: TokenizerContext,
    cfg: TokenizerCfg,
    close: Seq<char>,
    t: Seq<char>,
    q: int,
)
    requires
        0 <= q <= t.len(),
    ensures
        forall|i: int|
            q <= i < run_end(ctx, cfg, close, t, q) ==> !spec_interesting(
                ctx,
                #[trigger] t[i],
                cfg,
                close,
            ),
    decreases t.len() - q,
{
    if q < t.len() && !spec_interesting(ctx, t[q], cfg, close) {
        lemma_run_end_chars(ctx, cfg, close, t, q + 1);
    }
}

/// A run that stops before the end of the text stops in front of a
/// character that could start a token.
pub proof fn lemma_run_end_stop(
    ctx: TokenizerContext,
    cfg: TokenizerCfg,
    close: Seq<char>,
    t: Seq<char>,
    q: int,
)
    requires
        0 <= q <= t.len(),
    ensures
        run_end(ctx, cfg, close, t, q) < t.len() ==> spec_interesting(
            ctx,
            t[run_end(ctx, cfg, close, t, q)],
            cfg,
            close,
        ),
    decreases t.len() - q,
{
    if q < t.len() && !spec_interesting(ctx, t[q], cfg, close) {
        lemma_run_end_stop(ctx, cfg, close, t, q + 1);
    }
}

/// When no character from `q` on could start a token, the run reaches the
/// end of the text.
pub proof fn lemma_run_end_all_plain(
    ctx: TokenizerContext,
    cfg: TokenizerCfg,
    close: Seq<char>,
    t: Seq<char>,
    q: int,
)
    requires
        0 <= q <= t.len(),
        forall|i: int| q <= i < t.len() ==> !spec_interesting(ctx, #[trigger] t[i], cfg, close),
    ensures
        run_end(ctx, cfg, close, t, q) == t.len(),
    decreases t.len() - q,
{
    if q < t.len() {
        lemma_run_end_all_plain(ctx, cfg, close, t, q + 1);
    }
}

/// What kind of token the tokenizer yields.
pub enum TokKind {
    /// A line end.
    Newline,
    /// A plain text run.
    Text,
    /// A command start marker.
    CommandStart,
    /// A block comment start marker.
    BlockCommentStart,
    /// A line comment start marker.
    LineCommentStart,
    /// An opening brace spelling.
    OpenCurly,
    /// A closing brace spelling.
    CloseCurly,
}

/// One step of the tokenizer, described mathematically: the end of the
/// input, a carriage-return error, or a token with the range of text it
/// carries and the cursor position after it.
pub enum TokStep {
    /// The cursor stands at the end of the text.
    Eof,
    /// A carriage return not followed by a line feed stands at the cursor.
    BadCr,
    /// A token: its kind, the range `[cstart, cend)` of the text it
    /// carries, and the cursor position after it.
    Tok { kind: TokKind, cstart: int, cend: int, npos: int },
}

/// Whether a comment start marker stands at `p`, and if so whether it opens
/// a block comment (a brace or escaped-brace start follows) rather than a
/// line comment.
pub open spec fn comment_kind_at(t: Seq<char>, p: int, sp: Seq<char>, cfg: TokenizerCfg) -> Option<
    bool,
> {
    if matches_at(t, p, sp + seq![cfg.comment_marker_char]) {
        let q = p + sp.len() + 1;
        Some(q < t.len() && (t[q] == cfg.special_brace_char || t[q] == cfg.open_curly_char))
    } else {
        None
    }
}

/// Whether a command start marker stands at `p`: the scope's special
/// prefix followed by a character that makes it neither a comment nor a
/// brace form, with the end of the text not counting.
pub open spec fn command_start_at(t: Seq<char>, p: int, sp: Seq<char>, cfg: TokenizerCfg) -> bool {
    &&& matches_at(t, p, sp)
    &&& p + sp.len() < t.len()
    &&& t[p + sp.len()] != cfg.comment_marker_char
    &&& t[p + sp.len()] != cfg.special_brace_char
    &&& t[p + sp.len()] != cfg.open_curly_char
}

/// The end of the escape-symbol run that starts at `q`.
pub open spec fn sym_run_end(t: Seq<char>, q: int) -> int
    decreases t.len() - q,
{
    if q < 0 || q >= t.len() {
        t.len() as int
    } else if !is_escape_symbol(t[q]) {
        q
    } else {
        sym_run_end(t, q + 1)
    }
}

/// The symbol run that starts at `q` ends between `q` and the end of the
/// text.
pub proof fn lemma_sym_run_end_bounds(t: Seq<char>, q: int)
    requires
        0 <= q <= t.len(),
    ensures
        q <= sym_run_end(t, q) <= t.len(),
    decreases t.len() - q,
{
    if q < t.len() && is_escape_symbol(t[q]) {
        lemma_sym_run_end_bounds(t, q + 1);
    }
}

/// Every character of the symbol run is an escape symbol.
pub proof fn lemma_sym_run_chars(t: Seq<char>, q: int)
    requires
        0 <= q <= t.len(),
    ensures
        forall|i: int| q <= i < sym_run_end(t, q) ==> is_escape_symbol(#[trigger] t[i]),
    decreases t.len() - q,
{
    if q < t.len() && is_escape_symbol(t[q]) {
        lemma_sym_run_chars(t, q + 1);
    }
}

/// Under the default configuration, the spelling that `generic_open_at`
/// accepts is a well-formed opening brace form.
pub proof fn lemma_generic_open_valid(t: Seq<char>, p: int)
    requires
        generic_open_at(t, p, spec_default_cfg()) is Some,
    ensures
        ({
            let e = generic_open_at(t, p, spec_default_cfg())->Some_0;
            &&& p < e <= t.len()
            &&& valid_open_form(t.subrange(p, e))
        }),
{
    let cfg = spec_default_cfg();
    let e = generic_open_at(t, p, cfg)->Some_0;
    if t[p] == cfg.special_brace_char {
        let j = sym_run_end(t, p + 1);
        lemma_sym_run_end_bounds(t, p + 1);
        lemma_sym_run_chars(t, p + 1);
        let f = t.subrange(p, e);
        assert(f[0] == t[p]);
        assert(f.last() == t[j]);
        assert(forall|i: int|
            1 <= i < f.len() - 1 ==> #[trigger] f[i] == t[p + i] && is_escape_symbol(t[p + i]));
    } else {
        let f = t.subrange(p, e);
        assert(f.len() == 1 && f.last() == t[p]);
    }
}

/// Where the opening brace spelling standing at `p` ends, if one does: a
/// bare open curly, or the escape-brace character, escape symbols, and an
/// open curly.
pub open spec fn generic_open_at(t: Seq<char>, p: int, cfg: TokenizerCfg) -> Option<int> {
    if 0 <= p < t.len() && t[p] == cfg.special_brace_char {
        let j = sym_run_end(t, p + 1);
        if j < t.len() && t[j] == cfg.open_curly_char {
            Some(j + 1)
        } else {
            None
        }
    } else if 0 <= p < t.len() && t[p] == cfg.open_curly_char {
        Some(p + 1)
    } else {
        None
    }
}

/// The one token step that mode `ctx` takes at position `p` of `t`, under
/// the scope (`open`, `close`, `sp`) and configuration `cfg`: the matchers
/// are tried in a fixed priority order, and if none fires, a text run is
/// taken through the first character and all following characters that
/// could not start a token.
pub open spec fn spec_next_step(
    ctx: TokenizerContext,
    open: Seq<char>,
    close: Seq<char>,
    sp: Seq<char>,
    cfg: TokenizerCfg,
    t: Seq<char>,
    p: int,
) -> TokStep {
    if p >= t.len() {
        TokStep::Eof
    } else if matches_at(t, p, seq!['\r', '\n']) {
        TokStep::Tok { kind: TokKind::Newline, cstart: p + 1, cend: p + 2, npos: p + 2 }
    } else if t[p] == '\r' {
        TokStep::BadCr
    } else if t[p] == '\n' {
        TokStep::Tok { kind: TokKind::Newline, cstart: p, cend: p + 1, npos: p + 1 }
    } else if spec_matches_comments(ctx) && comment_kind_at(t, p, sp, cfg) is Some {
        let is_block = comment_kind_at(t, p, sp, cfg)->Some_0;
        let e = p + sp.len() + 1;
        if is_block {
            TokStep::Tok { kind: TokKind::BlockCommentStart, cstart: p, cend: e, npos: e }
        } else {
            TokStep::Tok { kind: TokKind::LineCommentStart, cstart: p, cend: e, npos: e }
        }
    } else if spec_matches_command_start(ctx) && command_start_at(t, p, sp, cfg) {
        TokStep::Tok {
            kind: TokKind::CommandStart,
            cstart: p,
            cend: p + sp.len() as int,
            npos: p + sp.len() as int,
        }
    } else if spec_matches_generic_open(ctx) && generic_open_at(t, p, cfg) is Some {
        let e = generic_open_at(t, p, cfg)->Some_0;
        TokStep::Tok { kind: TokKind::OpenCurly, cstart: p, cend: e, npos: e }
    } else if spec_matches_scope_braces(ctx) && matches_at(t, p, open) {
        let e = p + open.len() as int;
        TokStep::Tok { kind: TokKind::OpenCurly, cstart: p, cend: e, npos: e }
    } else if spec_matches_scope_braces(ctx) && matches_at(t, p, close) {
        let e = p + close.len() as int;
        TokStep::Tok { kind: TokKind::CloseCurly, cstart: p, cend: e, npos: e }
    } else {
        let e = run_end(ctx, cfg, close, t, p + 1);
        TokStep::Tok { kind: TokKind::Text, cstart: p, cend: e, npos: e }
    }
}

/// Whether the token `tok` is of kind `kind` and carries exactly
/// `content`.
pub open spec fn token_is(tok: Token<'_>, kind: TokKind, content: Seq<char>) -> bool {
    match tok {
        Token::Newline(m) => kind == TokKind::Newline && m@ == content,
        Token::Text(m) => kind == TokKind::Text && m@ == content,
        Token::CommandStartMarker(m) => kind == TokKind::CommandStart && m@ == content,
        Token::BlockCommentStartMarker(m) => kind == TokKind::BlockCommentStart && m@ == content,
        Token::LineCommentStartMarker(m) => kind == TokKind::LineCommentStart && m@ == content,
        Token::OpenCurly(m) => kind == TokKind::OpenCurly && m@ == content,
        Token::CloseCurly(m) => kind == TokKind::CloseCurly && m@ == content,
        _ => false,
    }
}

/// One tokenizing pass over one source text.
pub struct Tokenizer<'a> {
    ctx_stack: Vec<TokenizerContext>,
    esc_stack: Vec<EscapeCtx>,
    valid: bool,
    text: &'a str,
    pos: usize,
    n: usize,
    curr_line: usize,
    curr_col: usize,
    tok_cfg: TokenizerCfg,
}

impl<'a> Tokenizer<'a> {
    /// The whole source text.
    pub closed spec fn text(&self) -> Seq<char> {
        self.text@
    }

    /// The cursor, as a character position into the text.
    pub closed spec fn pos(&self) -> int {
        self.pos as int
    }

    /// The stack of lexical modes, bottom first.
    pub closed spec fn contexts(&self) -> Seq<TokenizerContext> {
        self.ctx_stack@
    }

    /// The stack of escape scopes, bottom first, paired with the modes.
    pub closed spec fn scopes(&self) -> Seq<EscapeCtx> {
        self.esc_stack@
    }

    /// The character configuration in force.
    pub closed spec fn cfg(&self) -> TokenizerCfg {
        self.tok_cfg
    }

    /// False once the tokenizer has raised an error.
    pub closed spec fn is_valid(&self) -> bool {
        self.valid
    }

    /// The internal invariant: the cursor is inside the text, the line and
    /// column counters agree with the cursor, the two stacks pair up, and
    /// every scope on the stack has non-empty spellings.
    pub closed spec fn wf(&self) -> bool {
        &&& self.n == self.text@.len()
        &&& self.pos <= self.n
        &&& self.text@.len() < usize::MAX
        &&& self.curr_line == line_of(self.text@, self.pos as int)
        &&& self.curr_col == col_of(self.text@, self.pos as int)
        &&& self.ctx_stack@.len() == self.esc_stack@.len()
        &&& forall|i: int|
            0 <= i < self.esc_stack@.len() ==> wf_escape_ctx(#[trigger] self.esc_stack@[i])
    }

    /// The bounds that well-formedness puts on the cursor, stated where
    /// callers can use them.
    pub proof fn lemma_wf_bounds(&self)
        requires
            self.wf(),
        ensures
            0 <= self.pos() <= self.text().len() < usize::MAX,
            self.contexts().len() == self.scopes().len(),
            forall|i: int|
                0 <= i < self.scopes().len() ==> wf_escape_ctx(#[trigger] self.scopes()[i]),
    {
    }

    /// Everything but the cursor and the validity flag is as in `other`.
    pub open spec fn same_shape(&self, other: &Self) -> bool {
        &&& self.text() == other.text()
        &&& self.contexts() == other.contexts()
        &&& self.scopes() == other.scopes()
        &&& self.cfg() == other.cfg()
    }

    /// Creates a tokenizer over `input`, with the default character
    /// configuration unless one is given. The mode stack starts empty: the
    /// parser pushes the root mode itself. The input must leave one
    /// character position free, a machine limit.
    pub fn new(input: &'a str, tokenizer_cfg: Option<TokenizerCfg>) -> (t: Self)
        requires
            input@.len() < usize::MAX,
        ensures
            t.wf(),
            t.text() == input@,
            t.pos() == 0,
            t.contexts() == Seq::<TokenizerContext>::empty(),
            t.scopes() == Seq::<EscapeCtx>::empty(),
            t.is_valid(),
            t.cfg() == match tokenizer_cfg {
                Some(c) => c,
                None => spec_default_cfg(),
            },
    {
        let n = input.unicode_len();
        let cfg = match tokenizer_cfg {
            Some(x) => x,
            None => default_tokenizer_cfg(),
        };
        let t = Self {
            ctx_stack: Vec::new(),
            esc_stack: Vec::new(),
            valid: true,
            text: input,
            pos: 0,
            n,
            curr_line: 1,
            curr_col: 1,
            tok_cfg: cfg,
        };
        proof {
            assert(t.ctx_stack@ =~= Seq::<TokenizerContext>::empty());
            assert(t.esc_stack@ =~= Seq::<EscapeCtx>::empty());
        }
        t
    }

    /// Pushes a mode and its scope.
    pub fn push_context(&mut self, ctx: TokenizerContext, ec: EscapeCtx)
        requires
            old(self).wf(),
            wf_escape_ctx(ec),
        ensures
            final(self).wf(),
            final(self).contexts() == old(self).contexts().push(ctx),
            final(self).scopes() == old(self).scopes().push(ec),
            final(self).text() == old(self).text(),
            final(self).pos() == old(self).pos(),
            final(self).cfg() == old(self).cfg(),
            final(self).is_valid() == old(self).is_valid(),
    {
        self.ctx_stack.push(ctx);
        self.esc_stack.push(ec);
    }

    /// Pops the top mode and its scope, if any.
    pub fn pop_context(&mut self) -> (r: Option<(TokenizerContext, EscapeCtx)>)
        requires
            old(self).wf(),
        ensures
            final(self).wf(),
            final(self).text() == old(self).text(),
            final(self).pos() == old(self).pos(),
            final(self).cfg() == old(self).cfg(),
            final(self).is_valid() == old(self).is_valid(),
            old(self).contexts().len() == 0 ==> {
                &&& r is None
                &&& final(self).contexts() == old(self).contexts()
                &&& final(self).scopes() == old(self).scopes()
            },
            old(self).contexts().len() > 0 ==> {
                &&& r == Some(
                    (old(self).contexts().last(), old(self).scopes().last()),
                )
                &&& final(self).contexts() == old(self).contexts().drop_last()
                &&& final(self).scopes() == old(self).scopes().drop_last()
            },
    {
        let c = self.ctx_stack.pop();
        match c {
            None => None,
            Some(ctx) => {
                let ec = self.esc_stack.pop();
                match ec {
                    None => None,
                    Some(e) => Some((ctx, e)),
                }
            },
        }
    }

    /// The character position of the character most recently consumed, or
    /// zero when none has been.
    pub fn prev_char_idx(&mut self) -> (r: usize)
        ensures
            *final(self) == *old(self),
            r == if old(self).pos() == 0 {
                0int
            } else {
                old(self).pos() - 1
            },
    {
        if self.pos == 0 {
            0
        } else {
            self.pos - 1
        }
    }

    /// The character position of the character that will be consumed next:
    /// the length of the text when at its end.
    pub fn next_char_idx(&self) -> (r: usize)
        ensures
            r == self.pos(),
    {
        self.pos
    }

    /// Whether the text holds exactly `s` at the cursor.
    pub fn peek_match(&mut self, s: &str) -> (r: bool)
        requires
            old(self).wf(),
        ensures
            *final(self) == *old(self),
            r == matches_at(old(self).text(), old(self).pos(), s@),
    {
        let pn = s.unicode_len();
        if pn > self.n - self.pos {
            return false;
        }
        let mut i: usize = 0;
        while i < pn
            invariant
                0 <= i <= pn,
                pn == s@.len(),
                self.wf(),
                self.pos + pn <= self.n,
                forall|j: int| 0 <= j < i ==> self.text@[self.pos + j] == s@[j],
            decreases pn - i,
        {
            if self.text.get_char(self.pos + i) != s.get_char(i) {
                proof {
                    let t = self.text@;
                    let p = self.pos as int;
                    if matches_at(t, p, s@) {
                        assert(t.subrange(p, p + s@.len() as int)[i as int] == t[p + i]);
                    }
                }
                return false;
            }
            i = i + 1;
        }
        proof {
            assert(self.text@.subrange(self.pos as int, self.pos + s@.len() as int) =~= s@);
        }
        true
    }

    /// Begins a literal-matching pass at the cursor.
    pub fn start_match(&self) -> (m: MatchInProgress<'a>)
        requires
            self.wf(),
        ensures
            m.wf(),
            m.remaining() == self.text().skip(self.pos()),
            m.matched() == 0,
            m.start() == self.pos(),
    {
        let rest = self.text.substring_char(self.pos, self.n);
        proof {
            assert(rest@ =~= self.text@.skip(self.pos as int));
        }
        MatchInProgress::new(rest, self.pos)
    }

    /// The text still in front of the cursor.
    pub(crate) fn remaining_str(&self) -> (r: &'a str)
        requires
            self.wf(),
        ensures
            r@ == self.text().skip(self.pos()),
    {
        let rest = self.text.substring_char(self.pos, self.n);
        proof {
            assert(rest@ =~= self.text@.skip(self.pos as int));
        }
        rest
    }

    /// Consumes one character, keeping the line and column counters right;
    /// all consumption goes through here. Yields the character and its
    /// position, or nothing at the end of the text.
    pub fn char_it_next(&mut self) -> (r: Option<(usize, char)>)
        requires
            old(self).wf(),
        ensures
            final(self).wf(),
            final(self).same_shape(old(self)),
            final(self).is_valid() == old(self).is_valid(),
            old(self).pos() < old(self).text().len() ==> {
                &&& r == Some((old(self).pos() as usize, old(self).text()[old(self).pos()]))
                &&& final(self).pos() == old(self).pos() + 1
            },
            old(self).pos() >= old(self).text().len() ==> {
                &&& r is None
                &&& final(self).pos() == old(self).pos()
            },
    {
        if self.pos < self.n {
            let c = self.text.get_char(self.pos);
            proof {
                lemma_pos_bounds(self.text@, self.pos as int);
            }
            if c == '\n' {
                self.curr_col = 1;
                self.curr_line = self.curr_line + 1;
            } else {
                self.curr_col = self.curr_col + 1;
            }
            let i = self.pos;
            self.pos = self.pos + 1;
            Some((i, c))
        } else {
            None
        }
    }

    /// Consumes `qty` characters, or up to the end of the text if fewer
    /// remain. Yields the last character consumed, as `char_it_next` does.
    pub fn char_it_next_many(&mut self, qty: usize) -> (r: Option<(usize, char)>)
        requires
            old(self).wf(),
        ensures
            final(self).wf(),
            final(self).same_shape(old(self)),
            final(self).is_valid() == old(self).is_valid(),
            final(self).pos() == if old(self).pos() + qty <= old(self).text().len() {
                old(self).pos() + qty
            } else {
                old(self).text().len() as int
            },
    {
        let mut out: Option<(usize, char)> = None;
        let mut i: usize = 0;
        let ghost pre = *self;
        while i < qty
            invariant
                0 <= i <= qty,
                self.wf(),
                self.same_shape(&pre),
                self.is_valid() == pre.is_valid(),
                self.pos() == if pre.pos() + i <= pre.text().len() {
                    pre.pos() + i
                } else {
                    pre.text().len() as int
                },
            decreases qty - i,
        {
            out = self.char_it_next();
            i = i + 1;
        }
        out
    }

    /// The line and column, both 1-based, of the start of the token that
    /// will be yielded next.
    pub fn cursor_pos(&self) -> (r: (usize, usize))
        requires
            self.wf(),
        ensures
            r.0 == line_of(self.text(), self.pos()),
            r.1 == col_of(self.text(), self.pos()),
    {
        (self.curr_line, self.curr_col)
    }

    /// The cursor and its line and column, to come back to after looking
    /// ahead.
    pub(crate) fn checkpoint(&self) -> (cp: (usize, usize, usize))
        requires
            self.wf(),
        ensures
            cp.0 == self.pos(),
            cp.0 <= self.text().len(),
            cp.1 == line_of(self.text(), cp.0 as int),
            cp.2 == col_of(self.text(), cp.0 as int),
    {
        (self.pos, self.curr_line, self.curr_col)
    }

    /// Moves the cursor back to a checkpoint taken on this same pass.
    pub(crate) fn restore(&mut self, cp: (usize, usize, usize))
        requires
            old(self).wf(),
            cp.0 <= old(self).text().len(),
            cp.1 == line_of(old(self).text(), cp.0 as int),
            cp.2 == col_of(old(self).text(), cp.0 as int),
        ensures
            final(self).wf(),
            final(self).same_shape(old(self)),
            final(self).is_valid() == old(self).is_valid(),
            final(self).pos() == cp.0,
    {
        self.pos = cp.0;
        self.curr_line = cp.1;
        self.curr_col = cp.2;
    }

    /// Whether an opening brace spelling, plain or escaped, stands at the
    /// cursor; the cursor does not move.
    pub(crate) fn peek_generic_open(&self) -> (r: bool)
        requires
            self.wf(),
        ensures
            r == (generic_open_at(self.text(), self.pos(), self.cfg()) is Some),
    {
        let ghost t = self.text@;
        let ghost p = self.pos as int;
        if self.pos < self.n && self.text.get_char(self.pos) == self.tok_cfg.special_brace_char {
            let mut j = self.pos + 1;
            while j < self.n && crate::escape::escape_symbol_char(self.text.get_char(j))
                invariant
                    p + 1 <= j <= self.n,
                    self.wf(),
                    self.pos == p,
                    self.text@ == t,
                    sym_run_end(t, p + 1) == sym_run_end(t, j as int),
                decreases self.n - j,
            {
                j = j + 1;
            }
            proof {
                assert(j == sym_run_end(t, p + 1));
            }
            j < self.n && self.text.get_char(j) == self.tok_cfg.open_curly_char
        } else {
            self.pos < self.n && self.text.get_char(self.pos) == self.tok_cfg.open_curly_char
        }
    }

    /// Whether the one character `c` stands at the cursor; the cursor does
    /// not move.
    pub(crate) fn peek_char(&self, c: char) -> (r: bool)
        requires
            self.wf(),
        ensures
            r == (self.pos() < self.text().len() && self.text()[self.pos()] == c),
    {
        self.pos < self.n && self.text.get_char(self.pos) == c
    }

    /// The escape scope in force: the top of the scope stack.
    pub fn curr_escape_ctx(&self) -> (r: &EscapeCtx)
        requires
            self.wf(),
            self.scopes().len() > 0,
        ensures
            *r == self.scopes().last(),
    {
        let i = self.esc_stack.len() - 1;
        &self.esc_stack[i]
    }

    /// Attempts to match a CR-LF pair as one newline token carrying only
    /// the LF; a CR not followed by LF is the one tokenizer error.
    pub fn match_crlf(&mut self) -> (r: Option<Result<Token<'a>, TokenizerError>>)
        requires
            old(self).wf(),
        ensures
            final(self).wf(),
            final(self).same_shape(old(self)),
            final(self).is_valid() == old(self).is_valid(),
            ({
                let t = old(self).text();
                let p = old(self).pos();
                if matches_at(t, p, seq!['\r', '\n']) {
                    &&& r matches Some(x) && x matches Ok(tok) && token_is(
                        tok,
                        TokKind::Newline,
                        t.subrange(p + 1, p + 2),
                    )
                    &&& final(self).pos() == p + 2
                } else if p < t.len() && t[p] == '\r' {
                    &&& r == Some(
                        Result::<Token<'a>, TokenizerError>::Err(TokenizerError::BadCarriageReturn),
                    )
                    &&& final(self).pos() == p
                } else {
                    &&& r is None
                    &&& final(self).pos() == p
                }
            }),
    {
        proof {
            reveal_strlit("\r\n");
            reveal_strlit("\r");
            assert("\r\n"@ =~= seq!['\r', '\n']);
            assert("\r"@ =~= seq!['\r']);
        }
        let ghost t = self.text@;
        let ghost p = self.pos as int;
        if self.peek_match("\r\n") {
            self.char_it_next();
            self.char_it_next();
            let m = self.text.substring_char(self.pos - 1, self.pos);
            proof {
                assert(m@ =~= t.subrange(p + 1, p + 2));
            }
            return Some(Ok(Token::Newline(m)));
        }
        if self.peek_match("\r") {
            proof {
                assert(matches_at(t, p, seq!['\r']));
                assert(t.subrange(p, p + 1)[0] == t[p]);
            }
            return Some(Err(TokenizerError::BadCarriageReturn));
        }
        proof {
            if p < t.len() && t[p] == '\r' {
                assert(t.subrange(p, p + 1) =~= seq!['\r']);
            }
        }
        None
    }

    /// Attempts to match a bare LF as one newline token.
    pub fn match_newline(&mut self) -> (r: Option<Result<Token<'a>, TokenizerError>>)
        requires
            old(self).wf(),
        ensures
            final(self).wf(),
            final(self).same_shape(old(self)),
            final(self).is_valid() == old(self).is_valid(),
            ({
                let t = old(self).text();
                let p = old(self).pos();
                if p < t.len() && t[p] == '\n' {
                    &&& r matches Some(x) && x matches Ok(tok) && token_is(
                        tok,
                        TokKind::Newline,
                        t.subrange(p, p + 1),
                    )
                    &&& final(self).pos() == p + 1
                } else {
                    &&& r is None
                    &&& final(self).pos() == p
                }
            }),
    {
        if self.pos < self.n && self.text.get_char(self.pos) == '\n' {
            let start = self.pos;
            self.char_it_next();
            let m = self.text.substring_char(start, self.pos);
            proof {
                assert(m@ =~= old(self).text().subrange(start as int, start + 1));
            }
            return Some(Ok(Token::Newline(m)));
        }
        None
    }

    /// Attempts to match a comment start marker: the scope's special
    /// prefix and the comment marker character. A brace or escape-brace
    /// start after it makes it a block comment, anything else (the end of
    /// the text included) a line comment.
    pub fn match_start_comment(&mut self) -> (r: Option<Result<Token<'a>, TokenizerError>>)
        requires
            old(self).wf(),
            old(self).scopes().len() > 0,
        ensures
            final(self).wf(),
            final(self).same_shape(old(self)),
            final(self).is_valid() == old(self).is_valid(),
            ({
                let t = old(self).text();
                let p = old(self).pos();
                let sp = old(self).scopes().last().special@;
                match comment_kind_at(t, p, sp, old(self).cfg()) {
                    Some(is_block) => {
                        &&& final(self).pos() == p + sp.len() + 1
                        &&& r matches Some(x) && x matches Ok(tok) && token_is(
                            tok,
                            if is_block {
                                TokKind::BlockCommentStart
                            } else {
                                TokKind::LineCommentStart
                            },
                            t.subrange(p, p + sp.len() + 1),
                        )
                    },
                    None => {
                        &&& r is None
                        &&& final(self).pos() == p
                    },
                }
            }),
    {
        let ghost t = self.text@;
        let ghost p = self.pos as int;
        let ghost sp = self.scopes().last().special@;
        let ghost cm = self.cfg().comment_marker_char;
        proof {
            lemma_matches_at_snoc(t, p, sp, cm);
        }
        let special = self.curr_escape_ctx().special.clone();
        let start_idx = self.next_char_idx();
        let mut m = self.start_match();
        if m.perform_match(special.as_str()) {
            proof {
                lemma_prefix_is_match(t, p, sp);
                assert(m.remaining() =~= t.skip(p + sp.len() as int));
            }
            if m.perform_match_char(&self.tok_cfg.comment_marker_char) {
                proof {
                    assert(t.skip(p + sp.len() as int)[0] == t[p + sp.len() as int]);
                    assert(matches_at(t, p, sp + seq![cm]));
                    assert(m.remaining() =~= t.skip(p + sp.len() + 1));
                    if p + sp.len() + 1 < t.len() {
                        assert(t.skip(p + sp.len() + 1)[0] == t[p + sp.len() + 1]);
                    }
                }
                let is_block = m.can_match_char(&self.tok_cfg.special_brace_char)
                    || m.can_match_char(&self.tok_cfg.open_curly_char);
                let k = m.num_chars_matched();
                self.char_it_next_many(k);
                let tok_str = self.text.substring_char(start_idx, self.pos);
                proof {
                    assert(tok_str@ =~= t.subrange(p, p + sp.len() + 1));
                }
                if is_block {
                    Some(Ok(Token::BlockCommentStartMarker(tok_str)))
                } else {
                    Some(Ok(Token::LineCommentStartMarker(tok_str)))
                }
            } else {
                proof {
                    assert(t.skip(p + sp.len() as int).len() > 0 ==> t.skip(p + sp.len() as int)[0]
                        == t[p + sp.len() as int]);
                    assert(comment_kind_at(t, p, sp, self.cfg()) is None);
                }
                None
            }
        } else {
            proof {
                lemma_prefix_is_match(t, p, sp);
                assert(comment_kind_at(t, p, sp, self.cfg()) is None);
            }
            None
        }
    }

    /// Attempts to match the scope's special prefix as a command start
    /// marker, provided what follows makes it neither a comment nor a
    /// brace form.
    pub fn match_command_start(&mut self) -> (r: Option<Result<Token<'a>, TokenizerError>>)
        requires
            old(self).wf(),
            old(self).scopes().len() > 0,
        ensures
            final(self).wf(),
            final(self).same_shape(old(self)),
            final(self).is_valid() == old(self).is_valid(),
            ({
                let t = old(self).text();
                let p = old(self).pos();
                let sp = old(self).scopes().last().special@;
                if command_start_at(t, p, sp, old(self).cfg()) {
                    &&& final(self).pos() == p + sp.len()
                    &&& r matches Some(x) && x matches Ok(tok) && token_is(
                        tok,
                        TokKind::CommandStart,
                        t.subrange(p, p + sp.len() as int),
                    )
                } else {
                    &&& r is None
                    &&& final(self).pos() == p
                }
            }),
    {
        let ghost t = self.text@;
        let ghost p = self.pos as int;
        let ghost sp = self.scopes().last().special@;
        let special = self.curr_escape_ctx().special.clone();
        let start = self.pos;
        if self.peek_match(special.as_str()) {
            let k = special.as_str().unicode_len();
            let e = start + k;
            if e < self.n {
                let c = self.text.get_char(e);
                if c != self.tok_cfg.comment_marker_char && c != self.tok_cfg.special_brace_char
                    && c != self.tok_cfg.open_curly_char {
                    self.char_it_next_many(k);
                    let m = self.text.substring_char(start, self.pos);
                    proof {
                        assert(m@ =~= t.subrange(p, p + sp.len() as int));
                    }
                    return Some(Ok(Token::CommandStartMarker(m)));
                }
            }
        }
        None
    }

    /// Attempts to match an opening brace of any spelling, plain or
    /// escaped, which will establish a new escape scope.
    pub fn match_generic_open_curly(&mut self) -> (r: Option<Result<Token<'a>, TokenizerError>>)
        requires
            old(self).wf(),
        ensures
            final(self).wf(),
            final(self).same_shape(old(self)),
            final(self).is_valid() == old(self).is_valid(),
            ({
                let t = old(self).text();
                let p = old(self).pos();
                match generic_open_at(t, p, old(self).cfg()) {
                    Some(e) => {
                        &&& p < e <= t.len()
                        &&& final(self).pos() == e
                        &&& r matches Some(x) && x matches Ok(tok) && token_is(
                            tok,
                            TokKind::OpenCurly,
                            t.subrange(p, e),
                        )
                        &&& (old(self).cfg() == spec_default_cfg() ==> valid_open_form(
                            t.subrange(p, e),
                        ))
                    },
                    None => {
                        &&& r is None
                        &&& final(self).pos() == p
                    },
                }
            }),
    {
        let ghost t = self.text@;
        let ghost p = self.pos as int;
        let start = self.pos;
        if self.pos < self.n && self.text.get_char(self.pos) == self.tok_cfg.special_brace_char {
            let mut j = self.pos + 1;
            while j < self.n && crate::escape::escape_symbol_char(self.text.get_char(j))
                invariant
                    p + 1 <= j <= self.n,
                    self.wf(),
                    self.pos == p,
                    self.text@ == t,
                    forall|i: int| p + 1 <= i < j ==> is_escape_symbol(#[trigger] t[i]),
                    sym_run_end(t, p + 1) == sym_run_end(t, j as int),
                decreases self.n - j,
            {
                j = j + 1;
            }
            proof {
                assert(j == sym_run_end(t, p + 1));
            }
            if j < self.n && self.text.get_char(j) == self.tok_cfg.open_curly_char {
                let e = j + 1;
                self.char_it_next_many(e - start);
                let m = self.text.substring_char(start, self.pos);
                proof {
                    assert(m@ =~= t.subrange(p, e as int));
                    if self.cfg() == spec_default_cfg() {
                        let f = t.subrange(p, e as int);
                        assert(f.len() >= 2);
                        assert(f[0] == t[p]);
                        assert(f.last() == t[j as int]);
                        assert(forall|i: int|
                            1 <= i < f.len() - 1 ==> #[trigger] f[i] == t[p + i]
                                && is_escape_symbol(t[p + i]));
                        assert(valid_open_form(f));
                    }
                }
                return Some(Ok(Token::OpenCurly(m)));
            }
            return None;
        }
        if self.pos < self.n && self.text.get_char(self.pos) == self.tok_cfg.open_curly_char {
            self.char_it_next();
            let m = self.text.substring_char(start, self.pos);
            proof {
                assert(m@ =~= t.subrange(p, p + 1));
                if self.cfg() == spec_default_cfg() {
                    let f = t.subrange(p, p + 1);
                    assert(f.len() == 1 && f.last() == t[p]);
                    assert(valid_open_form(f));
                }
            }
            return Some(Ok(Token::OpenCurly(m)));
        }
        None
    }

    /// Attempts to match the current scope's own opening spelling, for
    /// brace-balance tracking inside the scope.
    pub fn match_open_curly(&mut self) -> (r: Option<Result<Token<'a>, TokenizerError>>)
        requires
            old(self).wf(),
            old(self).scopes().len() > 0,
        ensures
            final(self).wf(),
            final(self).same_shape(old(self)),
            final(self).is_valid() == old(self).is_valid(),
            ({
                let t = old(self).text();
                let p = old(self).pos();
                let oc = old(self).scopes().last().open_curly@;
                if matches_at(t, p, oc) {
                    &&& final(self).pos() == p + oc.len()
                    &&& r matches Some(x) && x matches Ok(tok) && token_is(
                        tok,
                        TokKind::OpenCurly,
                        t.subrange(p, p + oc.len() as int),
                    )
                } else {
                    &&& r is None
                    &&& final(self).pos() == p
                }
            }),
    {
        let ghost t = self.text@;
        let ghost p = self.pos as int;
        let oc = self.curr_escape_ctx().open_curly.clone();
        let start = self.pos;
        if self.peek_match(oc.as_str()) {
            let k = oc.as_str().unicode_len();
            self.char_it_next_many(k);
            let m = self.text.substring_char(start, self.pos);
            proof {
                assert(m@ =~= t.subrange(p, p + oc@.len() as int));
            }
            return Some(Ok(Token::OpenCurly(m)));
        }
        None
    }

    /// Attempts to match the current scope's closing spelling.
    pub fn match_close_curly(&mut self) -> (r: Option<Result<Token<'a>, TokenizerError>>)
        requires
            old(self).wf(),
            old(self).scopes().len() > 0,
        ensures
            final(self).wf(),
            final(self).same_shape(old(self)),
            final(self).is_valid() == old(self).is_valid(),
            ({
                let t = old(self).text();
                let p = old(self).pos();
                let cc = old(self).scopes().last().close_curly@;
                if matches_at(t, p, cc) {
                    &&& final(self).pos() == p + cc.len()
                    &&& r matches Some(x) && x matches Ok(tok) && token_is(
                        tok,
                        TokKind::CloseCurly,
                        t.subrange(p, p + cc.len() as int),
                    )
                } else {
                    &&& r is None
                    &&& final(self).pos() == p
                }
            }),
    {
        let ghost t = self.text@;
        let ghost p = self.pos as int;
        let cc = self.curr_escape_ctx().close_curly.clone();
        let start = self.pos;
        if self.peek_match(cc.as_str()) {
            let k = cc.as_str().unicode_len();
            self.char_it_next_many(k);
            let m = self.text.substring_char(start, self.pos);
            proof {
                assert(m@ =~= t.subrange(p, p + cc@.len() as int));
            }
            return Some(Ok(Token::CloseCurly(m)));
        }
        None
    }

    /// Yields the next token of the top-of-stack mode, end of input as
    /// `None`, or the tokenizer error; after an error every later call
    /// yields `None`. At least one mode must have been pushed. Each call
    /// takes exactly the step that [`spec_next_step`] describes at the
    /// cursor.
    pub fn next(&mut self) -> (r: Option<Result<Token<'a>, TokenizerError>>)
        requires
            old(self).wf(),
            old(self).contexts().len() > 0,
        ensures
            final(self).wf(),
            final(self).same_shape(old(self)),
            !old(self).is_valid() ==> {
                &&& r is None
                &&& final(self).pos() == old(self).pos()
                &&& !final(self).is_valid()
            },
            old(self).is_valid() ==> ({
                let step = spec_next_step(
                    old(self).contexts().last(),
                    old(self).scopes().last().open_curly@,
                    old(self).scopes().last().close_curly@,
                    old(self).scopes().last().special@,
                    old(self).cfg(),
                    old(self).text(),
                    old(self).pos(),
                );
                match step {
                    TokStep::Eof => {
                        &&& r is None
                        &&& final(self).pos() == old(self).pos()
                        &&& final(self).is_valid()
                    },
                    TokStep::BadCr => {
                        &&& r == Some(
                            Result::<Token<'a>, TokenizerError>::Err(
                                TokenizerError::BadCarriageReturn,
                            ),
                        )
                        &&& final(self).pos() == old(self).pos()
                        &&& !final(self).is_valid()
                    },
                    TokStep::Tok { kind, cstart, cend, npos } => {
                        &&& r matches Some(x) && x matches Ok(tok) && token_is(
                            tok,
                            kind,
                            old(self).text().subrange(cstart, cend),
                        )
                        &&& final(self).pos() == npos
                        &&& npos > old(self).pos()
                        &&& final(self).is_valid()
                    },
                }
            }),
    {
        if !self.valid {
            return None;
        }
        let ghost t = self.text@;
        let ghost p = self.pos as int;
        let ghost sp = self.scopes().last().special@;
        let ghost sp_close = self.scopes().last().close_curly@;
        let ci = self.ctx_stack.len() - 1;
        let curr_tok_ctx = self.ctx_stack[ci];
        proof {
            assert(curr_tok_ctx == self.contexts().last());
            assert(wf_escape_ctx(self.scopes().last()));
        }

        if curr_tok_ctx.should_match_crlf() {
            let m = self.match_crlf();
            if let Some(res) = m {
                if res.is_err() {
                    self.valid = false;
                }
                return Some(res);
            }
        }

        if curr_tok_ctx.should_match_newline() {
            let m = self.match_newline();
            if let Some(res) = m {
                return Some(res);
            }
        }

        if curr_tok_ctx.should_match_comments() {
            let m = self.match_start_comment();
            if let Some(res) = m {
                return Some(res);
            }
        }

        if curr_tok_ctx.should_match_command_start() {
            let m = self.match_command_start();
            if let Some(res) = m {
                return Some(res);
            }
        }

        if curr_tok_ctx.should_match_generic_open_curly() {
            let m = self.match_generic_open_curly();
            if let Some(res) = m {
                return Some(res);
            }
        }

        if curr_tok_ctx.should_match_open_curly() {
            let m = self.match_open_curly();
            if let Some(res) = m {
                return Some(res);
            }
        }

        if curr_tok_ctx.should_match_close_curly() {
            let m = self.match_close_curly();
            if let Some(res) = m {
                return Some(res);
            }
        }

        let first = self.char_it_next();
        if let Some((start_idx, _)) = first {
            let close_s = self.curr_escape_ctx().close_curly.clone();
            proof {
                assert(close_s@ == sp_close);
            }
            let ghost pre = *self;
            while self.pos < self.n && !curr_tok_ctx.is_interesting_char(
                self.text.get_char(self.pos),
                &self.tok_cfg,
                close_s.as_str(),
            )
                invariant
                    self.wf(),
                    self.same_shape(&pre),
                    self.is_valid() == pre.is_valid(),
                    self.text@ == t,
                    close_s@ == sp_close,
                    p + 1 <= self.pos <= t.len(),
                    run_end(curr_tok_ctx, self.tok_cfg, sp_close, t, p + 1) == run_end(
                        curr_tok_ctx,
                        self.tok_cfg,
                        sp_close,
                        t,
                        self.pos as int,
                    ),
                decreases self.n - self.pos,
            {
                self.char_it_next();
            }
            proof {
                assert(self.pos == run_end(curr_tok_ctx, self.tok_cfg, sp_close, t, p + 1));
            }
            let m = self.text.substring_char(start_idx, self.pos);
            proof {
                assert(m@ =~= t.subrange(
                    p,
                    run_end(curr_tok_ctx, self.tok_cfg, sp_close, t, p + 1),
                ));
            }
            return Some(Ok(Token::Text(m)));
        }

        None
    }

    /// The escape scope that a just-matched opening brace establishes:
    /// computed from the brace's exact spelling, or the plain scope when
    /// there is no brace (at the root, in comments, and in command names).
    pub fn get_escape_match(&self, brace: Option<Token<'a>>) -> (ec: EscapeCtx)
        requires
            match brace {
                None => true,
                Some(tok) => tok matches Token::OpenCurly(x) && valid_open_form(x@),
            },
        ensures
            match brace {
                None => is_scope_of(ec, seq!['{'], self.cfg()),
                Some(tok) => tok matches Token::OpenCurly(x) && is_scope_of(ec, x@, self.cfg()),
            },
    {
        match brace {
            None => crate::context::default_escape_ctx(&self.tok_cfg),
            Some(tok) => match tok {
                Token::OpenCurly(x) => escape_ctx_of(x, &self.tok_cfg),
                _ => unreached(),
            },
        }
    }
}

} // verus!
