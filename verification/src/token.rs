//! Tokens produced by the tokenizer.

use vstd::prelude::*;

verus! {

/// One token. Each variant carries the exact matched substring, a borrowed
/// view into the source, so no spelling information is lost.
#[derive(Clone, Copy, Debug)]
pub enum Token<'a> {
    /// A line end; carries the `\n` (the `\r` of a CR-LF pair is dropped).
    Newline(&'a str),
    /// A run of characters that start no other token in the current mode.
    Text(&'a str),
    /// The spelling that starts a command (the scope's special prefix).
    CommandStartMarker(&'a str),
    /// The spelling that starts a block comment.
    BlockCommentStartMarker(&'a str),
    /// The spelling that starts a line comment.
    LineCommentStartMarker(&'a str),
    /// The spelling that ends a command early.
    CommandForceEndMarker(&'a str),
    /// An opening brace spelling.
    OpenCurly(&'a str),
    /// A closing brace spelling.
    CloseCurly(&'a str),
    /// The spelling that opens a square-argument list.
    OpenSquare(&'a str),
    /// The spelling that closes a square-argument list.
    CloseSquare(&'a str),
}

} // verus!
