//! The concrete syntax tree.
//!
//! All structures are built once by the parser and read-only afterwards.
//! Adjacent text runs of one argument or root list are merged into one
//! node as they are appended, except that a node holding exactly one line
//! feed is never merged with its neighbours: newlines stay discrete
//! boundary markers for line-based diagnostics and layout, and a comment
//! between two runs also keeps them apart.

use vstd::prelude::*;

use crate::identifier::spec_is_reserved;
use crate::identifier::valid_ident;

verus! {

/// A node of the syntax tree.
#[derive(Debug, PartialEq)]
pub enum AstNode {
    /// The root of the tree.
    AstRootNode {
        /// The nodes of the document, in order.
        sub_nodes: Vec<AstNode>,
    },
    /// A command invocation (at-syntax).
    AstCommandNode {
        /// The command's name.
        command_name: String,
        /// The square-bracket argument list, if one was written.
        square_args: Option<Vec<SquareArg>>,
        /// The curly-brace arguments, each a list of nodes.
        curly_args: Vec<Vec<AstNode>>,
    },
    /// A run of text.
    AstTextNode {
        /// The text itself.
        content: String,
        /// The 1-based column where the run began.
        source_start_col: usize,
        /// The 1-based line where the run began.
        source_start_line: usize,
    },
}

/// One argument within the square brackets of a command invocation: a bare
/// value, or a `key=value` pair. A key may be any entry, not only an
/// identifier.
#[derive(Debug, PartialEq)]
pub enum SquareArg {
    /// A bare value.
    Val(SquareEntry),
    /// A `key=value` pair.
    KeyVal(SquareEntry, SquareEntry),
}

/// One component of a square argument.
#[derive(Debug, PartialEq)]
pub enum SquareEntry {
    /// A numeric literal, kept as its exact spelling.
    Num(String),
    /// An identifier.
    Ident(String),
    /// A boolean literal.
    Bool(bool),
    /// A double-quoted string, with its escapes decoded.
    QuotedStr(String),
    /// A nested command invocation.
    AstNode(AstNode),
}

/// Whether `s` holds a line feed anywhere.
pub open spec fn has_newline(s: Seq<char>) -> bool {
    exists|i: int| 0 <= i < s.len() && s[i] == '\n'
}

/// Whether `n` is a text node that could take part in a merge: a text node
/// other than a newline node.
pub open spec fn is_plain_text_node(n: AstNode) -> bool {
    match n {
        AstNode::AstTextNode { content, .. } => content@ != seq!['\n'],
        _ => false,
    }
}

/// Whether `n` is a text node with exactly this content and position.
pub open spec fn is_text_node_with(n: AstNode, s: Seq<char>, line: int, col: int) -> bool {
    match n {
        AstNode::AstTextNode { content, source_start_col, source_start_line } => {
            &&& content@ == s
            &&& source_start_line == line
            &&& source_start_col == col
        },
        _ => false,
    }
}

/// A well-formed node: every command name is a valid, unreserved
/// identifier; every identifier entry likewise; a nested entry node is a
/// command node; and a text node is non-empty and holds either exactly one
/// line feed or no line feed at all.
pub open spec fn wf_node(n: AstNode) -> bool
    decreases n,
{
    match n {
        AstNode::AstRootNode { sub_nodes } => forall|i: int|
            0 <= i < sub_nodes@.len() ==> wf_node(#[trigger] sub_nodes@[i]),
        AstNode::AstCommandNode { command_name, square_args, curly_args } => {
            &&& valid_ident(command_name@)
            &&& !spec_is_reserved(command_name@)
            &&& match square_args {
                Some(args) => forall|i: int|
                    0 <= i < args@.len() ==> wf_square_arg(#[trigger] args@[i]),
                None => true,
            }
            &&& forall|i: int, j: int|
                0 <= i < curly_args@.len() && 0 <= j < curly_args@[i]@.len() ==> wf_node(
                    #[trigger] curly_args@[i]@[j],
                )
        },
        AstNode::AstTextNode { content, .. } => {
            &&& content@.len() >= 1
            &&& (content@ == seq!['\n'] || !has_newline(content@))
        },
    }
}

/// A well-formed square argument.
pub open spec fn wf_square_arg(a: SquareArg) -> bool
    decreases a,
{
    match a {
        SquareArg::Val(e) => wf_square_entry(e),
        SquareArg::KeyVal(k, v) => wf_square_entry(k) && wf_square_entry(v),
    }
}

/// A well-formed square entry: identifiers are valid and unreserved, and a
/// nested node is a well-formed command node.
pub open spec fn wf_square_entry(e: SquareEntry) -> bool
    decreases e,
{
    match e {
        SquareEntry::Num(_) => true,
        SquareEntry::Ident(s) => valid_ident(s@) && !spec_is_reserved(s@),
        SquareEntry::Bool(_) => true,
        SquareEntry::QuotedStr(_) => true,
        SquareEntry::AstNode(n) => wf_node(n) && n is AstCommandNode,
    }
}

/// How appending one node to a list goes: when both the list's last node
/// and the new node are text nodes and neither is a newline node, the new
/// content is glued onto the last node, which keeps its position;
/// otherwise the node is pushed.
pub open spec fn merge_rel(s: Seq<AstNode>, n: AstNode, r: Seq<AstNode>) -> bool {
    if s.len() > 0 && is_plain_text_node(s.last()) && is_plain_text_node(n) {
        &&& r.len() == s.len()
        &&& r.subrange(0, s.len() - 1) == s.subrange(0, s.len() - 1)
        &&& match (s.last(), n, r.last()) {
            (
                AstNode::AstTextNode { content: a, source_start_col: ac, source_start_line: al },
                AstNode::AstTextNode { content: b, .. },
                AstNode::AstTextNode { content: c, source_start_col: cc, source_start_line: cl },
            ) => c@ == a@ + b@ && cc == ac && cl == al,
            _ => false,
        }
    } else {
        r == s.push(n)
    }
}

/// Appends `node`, merging it into the list's last node when the rule
/// allows it and `allow_merge` holds.
pub fn push_merge(contents: &mut Vec<AstNode>, node: AstNode, allow_merge: bool)
    ensures
        allow_merge ==> merge_rel(old(contents)@, node, final(contents)@),
        !allow_merge ==> final(contents)@ == old(contents)@.push(node),
        ((forall|i: int| 0 <= i < old(contents)@.len() ==> wf_node(#[trigger] old(contents)@[i]))
            && wf_node(node)) ==> (forall|i: int|
            0 <= i < final(contents)@.len() ==> wf_node(#[trigger] final(contents)@[i])),
{
    proof {
        let s = old(contents)@;
        let gnode = node;
        if s.len() > 0 && is_plain_text_node(s.last()) && is_plain_text_node(gnode) && (forall|
            i: int,
        | 0 <= i < s.len() ==> wf_node(#[trigger] s[i])) && wf_node(gnode) {
            match (s.last(), gnode) {
                (
                    AstNode::AstTextNode { content: a, .. },
                    AstNode::AstTextNode { content: b, .. },
                ) => {
                    assert(wf_node(s.last()));
                    assert(!has_newline(a@) && !has_newline(b@)) by {
                        assert(a@ != seq!['\n'] && b@ != seq!['\n']);
                    }
                    assert(!has_newline(a@ + b@)) by {
                        if has_newline(a@ + b@) {
                            let i = choose|i: int|
                                0 <= i < (a@ + b@).len() && (a@ + b@)[i] == '\n';
                            if i < a@.len() {
                                assert(a@[i] == '\n');
                            } else {
                                assert(b@[i - a@.len()] == '\n');
                            }
                        }
                    }
                },
                _ => {},
            }
        }
    }
    let len = contents.len();
    if allow_merge && len > 0 {
        let mergeable = match &contents[len - 1] {
            AstNode::AstTextNode { content, .. } => !is_single_newline(content),
            _ => false,
        } && match &node {
            AstNode::AstTextNode { content, .. } => !is_single_newline(content),
            _ => false,
        };
        if mergeable {
            let last = contents.pop().unwrap();
            match (last, node) {
                (
                    AstNode::AstTextNode { content: a, source_start_col, source_start_line },
                    AstNode::AstTextNode { content: b, .. },
                ) => {
                    let mut merged = a;
                    merged.append(b.as_str());
                    contents.push(
                        AstNode::AstTextNode { content: merged, source_start_col, source_start_line },
                    );
                    proof {
                        assert(final(contents)@.subrange(0, old(contents)@.len() - 1) =~= old(
                            contents,
                        )@.subrange(0, old(contents)@.len() - 1));
                    }
                },
                _ => {
                    proof {
                        assert(false);
                    }
                },
            }
            return ;
        }
    }
    contents.push(node);
}

/// Whether `s` is exactly one line feed.
fn is_single_newline(s: &String) -> (r: bool)
    ensures
        r == (s@ == seq!['\n']),
{
    let n = s.as_str().unicode_len();
    if n == 1 {
        let r = s.as_str().get_char(0) == '\n';
        proof {
            if r {
                assert(s@ =~= seq!['\n']);
            }
        }
        r
    } else {
        false
    }
}

} // verus!
