//! The set of characters that the tokenizer treats as special.

use vstd::prelude::*;

verus! {

/// Which characters play each special role while tokenizing. The grammar of
/// escaped braces and the parser itself assume the default assignment; the
/// tokenizer reads every special character through this table.
#[derive(Clone, Copy, Debug, PartialEq, Eq, Structural)]
pub struct TokenizerCfg {
    /// Starts commands and comments (`@`).
    pub special_char: char,
    /// After `special_char`, marks a comment (`%`).
    pub comment_marker_char: char,
    /// Opens a brace-delimited region (`{`).
    pub open_curly_char: char,
    /// Closes a brace-delimited region (`}`).
    pub close_curly_char: char,
    /// Opens a square-argument list (`[`).
    pub open_square_char: char,
    /// Closes a square-argument list (`]`).
    pub close_square_char: char,
    /// Starts an escaped brace form (`|`).
    pub special_brace_char: char,
    /// Ends a command early (`;`).
    pub command_force_end_char: char,
}

/// The default character assignment: `@ % { } [ ] | ;`.
pub open spec fn spec_default_cfg() -> TokenizerCfg {
    TokenizerCfg {
        special_char: '@',
        comment_marker_char: '%',
        open_curly_char: '{',
        close_curly_char: '}',
        open_square_char: '[',
        close_square_char: ']',
        special_brace_char: '|',
        command_force_end_char: ';',
    }
}

/// Builds the default configuration.
pub fn default_tokenizer_cfg() -> (cfg: TokenizerCfg)
    ensures
        cfg == spec_default_cfg(),
{
    TokenizerCfg {
        special_char: '@',
        comment_marker_char: '%',
        open_curly_char: '{',
        close_curly_char: '}',
        open_square_char: '[',
        close_square_char: ']',
        special_brace_char: '|',
        command_force_end_char: ';',
    }
}

} // verus!
