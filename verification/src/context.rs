//! Lexical modes and escape scopes.
//!
//! The tokenizer keeps a stack of modes, each paired with the escape scope
//! (exact open/close/special spellings) in force at that nesting level. The
//! mode decides which token classes may be matched and which characters can
//! end a plain text run.

use vstd::prelude::*;

use crate::config::TokenizerCfg;
use crate::escape::close_of;
use crate::escape::escape_of;
use crate::escape::get_matching_escape;
use crate::escape::push_char;
use crate::escape::valid_open_form;

verus! {

/// The lexical mode in force, insofar as it affects the tokenizer.
#[derive(Clone, Copy, Debug, PartialEq, Eq, Structural)]
pub enum TokenizerContext {
    /// Running text: commands, comments, and scope braces all matter.
    Text,
    /// Inside a line comment: only line ends matter.
    LineComment,
    /// Inside a block comment: only line ends and scope braces matter.
    BlockComment,
    /// Expecting exactly one opening brace, plain or escaped, that will
    /// establish a new escape scope.
    GenericCurlyStart,
    /// Reading a command name.
    CommandName,
}

/// The Unicode white-space characters; a white-space character ends a
/// command name.
pub open spec fn spec_is_unicode_ws(c: char) -> bool {
    ||| c == ' '
    ||| c == '\t'
    ||| c == '\n'
    ||| c == '\u{b}'
    ||| c == '\u{c}'
    ||| c == '\r'
    ||| c == '\u{85}'
    ||| c == '\u{a0}'
    ||| c == '\u{1680}'
    ||| (0x2000 <= (c as u32) && (c as u32) <= 0x200a)
    ||| c == '\u{2028}'
    ||| c == '\u{2029}'
    ||| c == '\u{202f}'
    ||| c == '\u{205f}'
    ||| c == '\u{3000}'
}

/// Whether `c` is a Unicode white-space character.
pub fn is_unicode_ws(c: char) -> (r: bool)
    ensures
        r == spec_is_unicode_ws(c),
{
    c == ' ' || c == '\t' || c == '\n' || c == '\u{b}' || c == '\u{c}' || c == '\r'
        || c == '\u{85}' || c == '\u{a0}' || c == '\u{1680}' || (0x2000 <= (c as u32) && (c as u32)
        <= 0x200a) || c == '\u{2028}' || c == '\u{2029}' || c == '\u{202f}' || c == '\u{205f}'
        || c == '\u{3000}'
}

/// Whether `c` may start a non-text token in mode `ctx` under the escape
/// scope whose closing spelling is `close`, so that a plain text run must
/// stop in front of it. In text and block-comment mode the first character
/// of the active closing spelling counts too, so that an escaped close
/// such as `>}|` can end a run; in the plain scope that character is `}`
/// and nothing is added.
pub open spec fn spec_interesting(
    ctx: TokenizerContext,
    c: char,
    cfg: TokenizerCfg,
    close: Seq<char>,
) -> bool {
    match ctx {
        TokenizerContext::Text => {
            ||| c == '\r'
            ||| c == '\n'
            ||| c == cfg.special_char
            ||| c == cfg.comment_marker_char
            ||| c == cfg.open_curly_char
            ||| c == cfg.close_curly_char
            ||| c == cfg.special_brace_char
            ||| (close.len() > 0 && c == close[0])
        },
        TokenizerContext::LineComment => c == '\r' || c == '\n',
        TokenizerContext::BlockComment => {
            ||| c == '\r'
            ||| c == '\n'
            ||| c == cfg.open_curly_char
            ||| c == cfg.close_curly_char
            ||| c == cfg.special_brace_char
            ||| (close.len() > 0 && c == close[0])
        },
        TokenizerContext::GenericCurlyStart => {
            ||| c == '\r'
            ||| c == '\n'
            ||| c == cfg.special_brace_char
            ||| c == cfg.open_curly_char
        },
        TokenizerContext::CommandName => {
            ||| c == '\r'
            ||| c == '\n'
            ||| c == cfg.special_char
            ||| c == cfg.comment_marker_char
            ||| c == cfg.open_curly_char
            ||| c == cfg.close_curly_char
            ||| c == cfg.open_square_char
            ||| c == cfg.close_square_char
            ||| c == cfg.special_brace_char
            ||| c == cfg.command_force_end_char
            ||| spec_is_unicode_ws(c)
        },
    }
}

impl TokenizerContext {
    /// Whether `c` may start a non-text token in this mode, under the
    /// escape scope whose closing spelling is `close_curly`.
    pub fn is_interesting_char(&self, c: char, tok_cfg: &TokenizerCfg, close_curly: &str) -> (r:
        bool)
        ensures
            r == spec_interesting(*self, c, *tok_cfg, close_curly@),
    {
        match self {
            TokenizerContext::Text => {
                c == '\r' || c == '\n' || c == tok_cfg.special_char || c
                    == tok_cfg.comment_marker_char || c == tok_cfg.open_curly_char || c
                    == tok_cfg.close_curly_char || c == tok_cfg.special_brace_char || (
                close_curly.unicode_len() >= 1 && c == close_curly.get_char(0))
            },
            TokenizerContext::LineComment => c == '\r' || c == '\n',
            TokenizerContext::BlockComment => {
                c == '\r' || c == '\n' || c == tok_cfg.open_curly_char || c
                    == tok_cfg.close_curly_char || c == tok_cfg.special_brace_char || (
                close_curly.unicode_len() >= 1 && c == close_curly.get_char(0))
            },
            TokenizerContext::GenericCurlyStart => {
                c == '\r' || c == '\n' || c == tok_cfg.special_brace_char || c
                    == tok_cfg.open_curly_char
            },
            TokenizerContext::CommandName => {
                c == '\r' || c == '\n' || c == tok_cfg.special_char || c
                    == tok_cfg.comment_marker_char || c == tok_cfg.open_curly_char || c
                    == tok_cfg.close_curly_char || c == tok_cfg.open_square_char || c
                    == tok_cfg.close_square_char || c == tok_cfg.special_brace_char || c
                    == tok_cfg.command_force_end_char || is_unicode_ws(c)
            },
        }
    }

    /// Every mode matches a CR-LF pair as a newline.
    pub fn should_match_crlf(&self) -> (r: bool)
        ensures
            r,
    {
        true
    }

    /// Every mode matches a bare LF as a newline.
    pub fn should_match_newline(&self) -> (r: bool)
        ensures
            r,
    {
        true
    }

    /// Whether comment start markers are matched: everywhere but inside a
    /// comment or a command name.
    pub fn should_match_comments(&self) -> (r: bool)
        ensures
            r == spec_matches_comments(*self),
    {
        match self {
            TokenizerContext::Text => true,
            TokenizerContext::LineComment => false,
            TokenizerContext::BlockComment => false,
            TokenizerContext::GenericCurlyStart => true,
            TokenizerContext::CommandName => false,
        }
    }

    /// Whether a command start marker is matched: only in running text.
    pub fn should_match_command_start(&self) -> (r: bool)
        ensures
            r == spec_matches_command_start(*self),
    {
        match self {
            TokenizerContext::Text => true,
            _ => false,
        }
    }

    /// Whether an opening brace of any spelling, establishing a new escape
    /// scope, is matched: only while expecting one.
    pub fn should_match_generic_open_curly(&self) -> (r: bool)
        ensures
            r == spec_matches_generic_open(*self),
    {
        match self {
            TokenizerContext::GenericCurlyStart => true,
            _ => false,
        }
    }

    /// Whether the current scope's own opening spelling is matched, for
    /// brace-balance tracking.
    pub fn should_match_open_curly(&self) -> (r: bool)
        ensures
            r == spec_matches_scope_braces(*self),
    {
        match self {
            TokenizerContext::Text => true,
            TokenizerContext::BlockComment => true,
            _ => false,
        }
    }

    /// Whether the current scope's closing spelling is matched.
    pub fn should_match_close_curly(&self) -> (r: bool)
        ensures
            r == spec_matches_scope_braces(*self),
    {
        match self {
            TokenizerContext::Text => true,
            TokenizerContext::BlockComment => true,
            _ => false,
        }
    }
}

/// Modes in which comment start markers are matched.
pub open spec fn spec_matches_comments(ctx: TokenizerContext) -> bool {
    ctx == TokenizerContext::Text || ctx == TokenizerContext::GenericCurlyStart
}

/// Modes in which a command start marker is matched.
pub open spec fn spec_matches_command_start(ctx: TokenizerContext) -> bool {
    ctx == TokenizerContext::Text
}

/// Modes in which a scope-establishing opening brace is matched.
pub open spec fn spec_matches_generic_open(ctx: TokenizerContext) -> bool {
    ctx == TokenizerContext::GenericCurlyStart
}

/// Modes in which the current scope's own open and close spellings are
/// matched for balance tracking.
pub open spec fn spec_matches_scope_braces(ctx: TokenizerContext) -> bool {
    ctx == TokenizerContext::Text || ctx == TokenizerContext::BlockComment
}

/// The escape scope of one nesting level: the exact spellings that open it,
/// close it, and prefix special syntax inside it.
#[derive(Debug)]
pub struct EscapeCtx {
    /// The spelling that opens a nested brace region of this scope.
    pub open_curly: String,
    /// The spelling that closes this scope.
    pub close_curly: String,
    /// The prefix demanded in front of `@` syntax inside this scope,
    /// `@` itself included.
    pub special: String,
}

/// Whether `ec` is exactly the scope established by the opening spelling
/// `open` under configuration `cfg`.
pub open spec fn is_scope_of(ec: EscapeCtx, open: Seq<char>, cfg: TokenizerCfg) -> bool {
    &&& valid_open_form(open)
    &&& ec.open_curly@ == open
    &&& ec.close_curly@ == close_of(open)
    &&& ec.special@ == escape_of(open) + seq![cfg.special_char]
}

/// The spellings of a scope are never empty.
pub open spec fn wf_escape_ctx(ec: EscapeCtx) -> bool {
    &&& ec.open_curly@.len() >= 1
    &&& ec.close_curly@.len() >= 1
    &&& ec.special@.len() >= 1
}

/// Every scope of a well-formed opening spelling has non-empty spellings.
pub proof fn lemma_scope_of_wf(ec: EscapeCtx, open: Seq<char>, cfg: TokenizerCfg)
    requires
        is_scope_of(ec, open, cfg),
    ensures
        wf_escape_ctx(ec),
{
}

/// The scope in force at the top of a document: plain `{` and `}`, with the
/// special character alone marking commands and comments.
pub fn default_escape_ctx(cfg: &TokenizerCfg) -> (ec: EscapeCtx)
    ensures
        is_scope_of(ec, seq!['{'], *cfg),
        ec.open_curly@ == seq!['{'],
        ec.close_curly@ == seq!['}'],
        ec.special@ == seq![cfg.special_char],
{
    let mut open = String::new();
    push_char(&mut open, '{');
    let mut close = String::new();
    push_char(&mut close, '}');
    let mut special = String::new();
    push_char(&mut special, cfg.special_char);
    proof {
        assert(open@ =~= seq!['{']);
        assert(close@ =~= seq!['}']);
        assert(special@ =~= seq![cfg.special_char]);
        assert(seq!['{'].last() == '{');
        assert(close_of(seq!['{']) =~= seq!['}']);
        assert(escape_of(seq!['{']) + seq![cfg.special_char] =~= seq![cfg.special_char]);
    }
    EscapeCtx { open_curly: open, close_curly: close, special }
}

/// The scope established by the opening spelling `open_form`.
pub fn escape_ctx_of(open_form: &str, cfg: &TokenizerCfg) -> (ec: EscapeCtx)
    requires
        valid_open_form(open_form@),
    ensures
        is_scope_of(ec, open_form@, *cfg),
{
    let close = crate::escape::get_matching_close_curly(open_form);
    let esc = get_matching_escape(open_form);
    let mut special = String::from_str(esc);
    push_char(&mut special, cfg.special_char);
    let open = String::from_str(open_form);
    EscapeCtx { open_curly: open, close_curly: close, special }
}

} // verus!
