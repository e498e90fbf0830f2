//! The recursive-descent parser.
//!
//! A [`Parser`] owns exactly one fresh [`Tokenizer`] and drives it to
//! completion or to the first error: there is no recovery and no partial
//! result. It pushes a lexical mode for each nested construct, merges
//! adjacent text runs, tracks brace balance per nesting level, and builds
//! the [`AstNode`] tree.

use vstd::prelude::*;

use crate::ast::AstNode;
use crate::ast::SquareArg;
use crate::ast::SquareEntry;
use crate::ast::is_text_node_with;
use crate::ast::push_merge;
use crate::ast::wf_node;
use crate::ast::wf_square_arg;
use crate::ast::wf_square_entry;
use crate::config::spec_default_cfg;
use crate::context::EscapeCtx;
use crate::context::TokenizerContext;
use crate::context::is_scope_of;
use crate::context::lemma_scope_of_wf;
use crate::context::spec_interesting;
use crate::escape::close_of;
use crate::escape::valid_open_form;
use crate::identifier::identifier;
use crate::identifier::valid_ident;
use crate::token::Token;
use crate::tokenizer::TokKind;
use crate::tokenizer::TokStep;
use crate::tokenizer::Tokenizer;
use crate::tokenizer::TokenizerError;
use crate::tokenizer::comment_kind_at;
use crate::tokenizer::lemma_generic_open_valid;
use crate::tokenizer::matches_at;
use crate::tokenizer::spec_next_step;

verus! {

/// The errors a parse can end in. The first error aborts the whole parse.
#[derive(Clone, Copy, Debug, PartialEq, Eq, Structural)]
pub enum ParserError {
    /// The tokenizer raised an error; parsing could not continue.
    TokenizerError(TokenizerError),
    /// A token appeared where the grammar forbids it, at this line and
    /// column.
    UnexpectedToken {
        /// The 1-based source line.
        line: usize,
        /// The 1-based source column.
        col: usize,
    },
    /// The input ended inside an unfinished construct that began at this
    /// line and column.
    UnexpectedEof {
        /// The 1-based source line.
        line: usize,
        /// The 1-based source column.
        col: usize,
    },
    /// A command start was confirmed and its syntax then failed, at this
    /// line and column; a dangling command start is always an error, never
    /// literal text.
    MalformedCommand {
        /// The 1-based source line.
        line: usize,
        /// The 1-based source column.
        col: usize,
    },
}

impl ParserError {
    /// A description of the error.
    pub fn message(&self) -> &'static str {
        match self {
            ParserError::TokenizerError(_) => "tokenizer error, could not continue parsing",
            ParserError::UnexpectedToken { .. } => "unexpected token",
            ParserError::UnexpectedEof { .. } => "unexpected end of input",
            ParserError::MalformedCommand { .. } => "malformed command",
        }
    }
}

/// Whether every character of `s` is plain in running text: none could
/// start a token there.
pub open spec fn all_plain(s: Seq<char>) -> bool {
    forall|i: int|
        0 <= i < s.len() ==> !spec_interesting(
            TokenizerContext::Text,
            #[trigger] s[i],
            spec_default_cfg(),
            seq!['}'],
        )
}

/// Whether `s` holds a carriage return not followed by a line feed; the
/// one tokenizer error reports exactly such a character.
pub open spec fn has_lone_cr(s: Seq<char>) -> bool {
    exists|i: int|
        0 <= i < s.len() && #[trigger] s[i] == '\r' && (i + 1 == s.len() || s[i + 1] != '\n')
}

/// Where a carriage return matches no CR-LF pair, it is a lone one.
proof fn lemma_lone_cr(t: Seq<char>, p: int)
    requires
        0 <= p < t.len(),
        t[p] == '\r',
        !matches_at(t, p, seq!['\r', '\n']),
    ensures
        has_lone_cr(t),
{
    if p + 1 < t.len() && t[p + 1] == '\n' {
        assert(t.subrange(p, p + 2) =~= seq!['\r', '\n']);
    }
}

/// Whether every character of `s` is a line feed or plain in running
/// text: such a document holds no command, comment, brace or carriage
/// return, and parsing it cannot fail.
pub open spec fn simple_doc(s: Seq<char>) -> bool {
    forall|i: int|
        0 <= i < s.len() ==> (s[i] == '\n' || !spec_interesting(
            TokenizerContext::Text,
            #[trigger] s[i],
            spec_default_cfg(),
            seq!['}'],
        ))
}

/// On a document of plain text and line feeds, the one step the tokenizer
/// takes in text mode, whatever the scope, is a newline or a text run.
proof fn lemma_simple_step(t: Seq<char>, p: int, f: Seq<char>)
    requires
        simple_doc(t),
        0 <= p < t.len(),
        f == seq!['{'],
    ensures
        ({
            let step = spec_next_step(
                TokenizerContext::Text,
                f,
                close_of(f),
                crate::escape::escape_of(f) + seq!['@'],
                spec_default_cfg(),
                t,
                p,
            );
            step matches TokStep::Tok { kind, .. } && (kind == TokKind::Newline || kind
                == TokKind::Text)
        }),
{
    let cfg = spec_default_cfg();
    let ctx = TokenizerContext::Text;
    let sp = crate::escape::escape_of(f) + seq!['@'];
    let cm = sp + seq![cfg.comment_marker_char];
    let cl = close_of(f);
    assert(cl =~= seq!['}']);
    assert(t[p] == '\n' || !spec_interesting(ctx, t[p], cfg, cl));
    if t[p] == '\n' {
    } else {
        assert(!matches_at(t, p, cm)) by {
            if matches_at(t, p, cm) {
                assert(t.subrange(p, p + cm.len() as int)[cm.len() - 1] == t[p + cm.len() - 1]);
                assert(t[p + cm.len() - 1] == cfg.comment_marker_char);
            }
        }
        assert(!matches_at(t, p, sp)) by {
            if matches_at(t, p, sp) {
                assert(t.subrange(p, p + sp.len() as int)[sp.len() - 1] == t[p + sp.len() - 1]);
                assert(t[p + sp.len() - 1] == '@');
            }
        }
        assert(!matches_at(t, p, f)) by {
            if matches_at(t, p, f) {
                assert(t.subrange(p, p + f.len() as int)[f.len() - 1] == t[p + f.len() - 1]);
                assert(t[p + f.len() - 1] == '{');
            }
        }
        assert(cl.len() >= 1 && (cl.last() == '}' || cl.last() == '|')) by {
            if f.len() > 1 {
                assert(cl =~= crate::escape::mirror_rev(f.subrange(1, f.len() - 1)) + seq!['}']
                    + seq!['|']);
                assert(cl.last() == '|');
            }
        }
        assert(!matches_at(t, p, cl)) by {
            if matches_at(t, p, cl) {
                assert(t.subrange(p, p + cl.len() as int)[cl.len() - 1] == t[p + cl.len() - 1]);
            }
        }
    }
}

/// On wholly plain text, the one step the tokenizer takes in text mode,
/// whatever the scope, is a text run to the end of the input.
proof fn lemma_plain_step(t: Seq<char>, p: int, f: Seq<char>)
    requires
        all_plain(t),
        0 <= p < t.len(),
        f == seq!['{'],
    ensures
        spec_next_step(
            TokenizerContext::Text,
            f,
            close_of(f),
            crate::escape::escape_of(f) + seq!['@'],
            spec_default_cfg(),
            t,
            p,
        ) == (TokStep::Tok {
            kind: TokKind::Text,
            cstart: p,
            cend: t.len() as int,
            npos: t.len() as int,
        }),
{
    let cfg = spec_default_cfg();
    let ctx = TokenizerContext::Text;
    let sp = crate::escape::escape_of(f) + seq!['@'];
    let cm = sp + seq![cfg.comment_marker_char];
    let cl = close_of(f);
    assert(cl =~= seq!['}']);
    assert(!spec_interesting(ctx, t[p], cfg, cl));
    assert(!matches_at(t, p, seq!['\r', '\n'])) by {
        if matches_at(t, p, seq!['\r', '\n']) {
            assert(t.subrange(p, p + 2)[0] == t[p]);
        }
    }
    assert(!matches_at(t, p, cm)) by {
        if matches_at(t, p, cm) {
            assert(t.subrange(p, p + cm.len() as int)[cm.len() - 1] == t[p + cm.len() - 1]);
            assert(t[p + cm.len() - 1] == cfg.comment_marker_char);
            assert(spec_interesting(ctx, t[p + cm.len() - 1], cfg, cl));
        }
    }
    assert(!matches_at(t, p, sp)) by {
        if matches_at(t, p, sp) {
            assert(t.subrange(p, p + sp.len() as int)[sp.len() - 1] == t[p + sp.len() - 1]);
            assert(t[p + sp.len() - 1] == '@');
            assert(spec_interesting(ctx, t[p + sp.len() - 1], cfg, cl));
        }
    }
    assert(!matches_at(t, p, f)) by {
        if matches_at(t, p, f) {
            assert(t.subrange(p, p + f.len() as int)[f.len() - 1] == t[p + f.len() - 1]);
            assert(t[p + f.len() - 1] == '{');
            assert(spec_interesting(ctx, t[p + f.len() - 1], cfg, cl));
        }
    }
    assert(cl.len() >= 1 && (cl.last() == '}' || cl.last() == '|')) by {
        if f.len() > 1 {
            assert(cl =~= crate::escape::mirror_rev(f.subrange(1, f.len() - 1)) + seq!['}']
                + seq!['|']);
            assert(cl.last() == '|');
        }
    }
    assert(!matches_at(t, p, cl)) by {
        if matches_at(t, p, cl) {
            assert(t.subrange(p, p + cl.len() as int)[cl.len() - 1] == t[p + cl.len() - 1]);
            assert(spec_interesting(ctx, t[p + cl.len() - 1], cfg, cl));
        }
    }
    crate::tokenizer::lemma_run_end_all_plain(ctx, cfg, cl, t, p + 1);
}

/// The first position at or after `p` and before `q` holding a line feed,
/// or `q` when none does.
pub open spec fn nl_end(t: Seq<char>, p: int, q: int) -> int
    decreases q - p,
{
    if p < 0 || p >= q {
        q
    } else if t[p] == '\n' {
        p
    } else {
        nl_end(t, p + 1, q)
    }
}

/// Bounds and meaning of `nl_end`: it lies in the window, no line feed
/// stands before it, and one stands at it unless it is the window's end.
proof fn lemma_nl_end_bounds(t: Seq<char>, p: int, q: int)
    requires
        0 <= p <= q,
    ensures
        p <= nl_end(t, p, q) <= q,
        nl_end(t, p, q) < q ==> t[nl_end(t, p, q)] == '\n',
        forall|j: int| p <= j < nl_end(t, p, q) ==> t[j] != '\n',
    decreases q - p,
{
    if p < q && t[p] != '\n' {
        lemma_nl_end_bounds(t, p + 1, q);
    }
}

/// A line feed found inside a window is still the first one in any longer
/// window.
proof fn lemma_nl_end_extend(t: Seq<char>, p: int, q: int, e: int)
    requires
        0 <= p <= q <= e,
        nl_end(t, p, q) < q,
    ensures
        nl_end(t, p, e) == nl_end(t, p, q),
    decreases q - p,
{
    if p < q && t[p] != '\n' {
        lemma_nl_end_extend(t, p + 1, q, e);
    }
}

/// A window without a line feed has its `nl_end` at its end.
proof fn lemma_nl_end_none(t: Seq<char>, p: int, q: int)
    requires
        0 <= p <= q,
        forall|j: int| p <= j < q ==> t[j] != '\n',
    ensures
        nl_end(t, p, q) == q,
    decreases q - p,
{
    if p < q {
        lemma_nl_end_none(t, p + 1, q);
    }
}

/// Whether `nodes` are exactly the nodes of the window `[p, q)` of `t` in
/// a document of plain text and line feeds: one node per maximal run of
/// characters other than the line feed, one boundary node per line feed,
/// in order, each carrying the line and column where it starts.
pub open spec fn lines_rep(nodes: Seq<AstNode>, t: Seq<char>, p: int, q: int) -> bool
    decreases nodes.len(),
{
    if nodes.len() == 0 {
        p >= q
    } else if 0 <= p < q && t[p] == '\n' {
        &&& is_text_node_with(
            nodes[0],
            seq!['\n'],
            crate::tokenizer::line_of(t, p),
            crate::tokenizer::col_of(t, p),
        )
        &&& lines_rep(nodes.drop_first(), t, p + 1, q)
    } else if 0 <= p < q {
        let e = nl_end(t, p + 1, q);
        &&& is_text_node_with(
            nodes[0],
            t.subrange(p, e),
            crate::tokenizer::line_of(t, p),
            crate::tokenizer::col_of(t, p),
        )
        &&& lines_rep(nodes.drop_first(), t, e, q)
    } else {
        false
    }
}

/// In a window whose last character is a line feed, the last node is its
/// boundary node, never a mergeable text node.
proof fn lemma_lines_rep_last_nl(nodes: Seq<AstNode>, t: Seq<char>, p: int, q: int)
    requires
        lines_rep(nodes, t, p, q),
        0 <= p < q,
        t[q - 1] == '\n',
    ensures
        nodes.len() >= 1,
        !crate::ast::is_plain_text_node(nodes.last()),
    decreases nodes.len(),
{
    if t[p] == '\n' {
        if p + 1 == q {
            assert(lines_rep(nodes.drop_first(), t, p + 1, q));
            assert(nodes.drop_first().len() == 0) by {
                if nodes.drop_first().len() > 0 {
                    assert(!lines_rep(nodes.drop_first(), t, p + 1, q));
                }
            }
            assert(nodes.last() == nodes[0]);
        } else {
            lemma_lines_rep_last_nl(nodes.drop_first(), t, p + 1, q);
            assert(nodes.last() == nodes.drop_first().last());
        }
    } else {
        let e = nl_end(t, p + 1, q);
        lemma_nl_end_bounds(t, p + 1, q);
        assert(e < q) by {
            if e == q {
                assert(t[q - 1] != '\n');
            }
        }
        lemma_lines_rep_last_nl(nodes.drop_first(), t, e, q);
        assert(nodes.last() == nodes.drop_first().last());
    }
}

/// Appending the node of the next run or boundary extends the window.
proof fn lemma_lines_rep_push(
    nodes: Seq<AstNode>,
    t: Seq<char>,
    p: int,
    q: int,
    node: AstNode,
    e: int,
)
    requires
        lines_rep(nodes, t, p, q),
        0 <= p <= q < e <= t.len(),
        ({
            if t[q] == '\n' {
                &&& e == q + 1
                &&& is_text_node_with(
                    node,
                    seq!['\n'],
                    crate::tokenizer::line_of(t, q),
                    crate::tokenizer::col_of(t, q),
                )
            } else {
                &&& (q == p || t[q - 1] == '\n')
                &&& (forall|j: int| q <= j < e ==> t[j] != '\n')
                &&& (e == t.len() || t[e] == '\n')
                &&& is_text_node_with(
                    node,
                    t.subrange(q, e),
                    crate::tokenizer::line_of(t, q),
                    crate::tokenizer::col_of(t, q),
                )
            }
        }),
    ensures
        lines_rep(nodes.push(node), t, p, e),
    decreases nodes.len(),
{
    if nodes.len() == 0 {
        assert(p == q);
        assert(nodes.push(node).drop_first() =~= Seq::<AstNode>::empty());
        assert(nodes.push(node)[0] == node);
        if t[q] != '\n' {
            lemma_nl_end_none(t, q + 1, e);
            assert(nl_end(t, q + 1, e) == e);
            assert(lines_rep(nodes.push(node).drop_first(), t, e, e));
        } else {
            assert(lines_rep(nodes.push(node).drop_first(), t, q + 1, e));
        }
    } else {
        assert(p < q);
        assert(nodes.push(node)[0] == nodes[0]);
        if t[p] == '\n' {
            lemma_lines_rep_push(nodes.drop_first(), t, p + 1, q, node, e);
            assert(nodes.push(node).drop_first() =~= nodes.drop_first().push(node));
        } else {
            let e0 = nl_end(t, p + 1, q);
            lemma_nl_end_bounds(t, p + 1, q);
            if e0 < q {
                lemma_nl_end_extend(t, p + 1, q, e);
                assert(nl_end(t, p + 1, e) == e0);
                lemma_lines_rep_push(nodes.drop_first(), t, e0, q, node, e);
                assert(nodes.push(node).drop_first() =~= nodes.drop_first().push(node));
            } else {
                assert(e0 == q);
                assert(lines_rep(nodes.drop_first(), t, q, q));
                assert(nodes.drop_first().len() == 0) by {
                    if nodes.drop_first().len() > 0 {
                        assert(!lines_rep(nodes.drop_first(), t, q, q));
                    }
                }
                if t[q] == '\n' {
                    assert(nl_end(t, p + 1, e) == q) by {
                        lemma_nl_end_none(t, p + 1, q);
                        assert(forall|j: int| p + 1 <= j < q ==> t[j] != '\n');
                        lemma_nl_end_extend_to_found(t, p + 1, q, e);
                    }
                    lemma_lines_rep_push(nodes.drop_first(), t, q, q, node, e);
                    assert(nodes.push(node).drop_first() =~= nodes.drop_first().push(node));
                } else {
                    assert(t[q - 1] == '\n' ==> false) by {
                        if q - 1 == p {
                            assert(t[p] != '\n');
                        } else {
                            assert(p + 1 <= q - 1 < e0);
                        }
                    }
                    assert(false);
                }
            }
        }
    }
}

/// When no line feed stands in `[p, q)` but one stands at `q`, the first
/// line feed of any window reaching past `q` is at `q`.
proof fn lemma_nl_end_extend_to_found(t: Seq<char>, p: int, q: int, e: int)
    requires
        0 <= p <= q < e,
        forall|j: int| p <= j < q ==> t[j] != '\n',
        t[q] == '\n',
    ensures
        nl_end(t, p, e) == q,
    decreases q - p,
{
    if p < q {
        lemma_nl_end_extend_to_found(t, p + 1, q, e);
    }
}

/// The end of the maximal white-space run that starts at `q`.
pub open spec fn ws_run_end(s: Seq<char>, q: int) -> int
    decreases s.len() - q,
{
    if q < 0 || q >= s.len() {
        s.len() as int
    } else if !crate::context::spec_is_unicode_ws(s[q]) {
        q
    } else {
        ws_run_end(s, q + 1)
    }
}

/// A maximal all-white-space stretch is exactly the white-space run.
proof fn lemma_ws_run_from(t: Seq<char>, p: int, k: int)
    requires
        0 <= p,
        p + k <= t.len(),
        0 <= k,
        forall|j: int| p <= j < p + k ==> crate::context::spec_is_unicode_ws(#[trigger] t[j]),
        p + k == t.len() || !crate::context::spec_is_unicode_ws(t[p + k]),
    ensures
        ws_run_end(t, p) == p + k,
    decreases k,
{
    if k > 0 {
        lemma_ws_run_from(t, p + 1, k - 1);
    }
}

/// Whether the command tail standing at `p` is a name ended by a
/// force-end marker: an identifier run that is valid and unreserved, then
/// white space with no comment, then `;`. Such a tail always parses, to a
/// command with no arguments.
pub open spec fn name_semicolon_tail_at(t: Seq<char>, p: int, sp: Seq<char>) -> bool {
    let ne = crate::tokenizer::run_end(
        TokenizerContext::CommandName,
        spec_default_cfg(),
        seq!['}'],
        t,
        p + 1,
    );
    let nm = t.subrange(p, ne);
    let w = ws_run_end(t, ne);
    &&& p < t.len() && t[p] != '\r' && t[p] != '\n'
    &&& valid_ident(nm) && !crate::identifier::spec_is_reserved(nm)
    &&& comment_kind_at(t, w, sp, spec_default_cfg()) is None
    &&& w < t.len() && t[w] == ';'
}

/// Whether the document opens with a command start whose name is not
/// acceptable: `@`, then a character that makes it a command, then an
/// identifier run that is malformed or a reserved word. Parsing such a
/// document always fails.
pub open spec fn doc_starts_with_bad_command_name(t: Seq<char>) -> bool {
    let ne = crate::tokenizer::run_end(
        TokenizerContext::CommandName,
        spec_default_cfg(),
        seq!['}'],
        t,
        2,
    );
    let nm = t.subrange(1, ne);
    &&& t.len() >= 2
    &&& t[0] == '@'
    &&& t[1] != '%' && t[1] != '|' && t[1] != '{' && t[1] != '\r' && t[1] != '\n'
    &&& !(valid_ident(nm) && !crate::identifier::spec_is_reserved(nm))
}

/// A command start marker stands at the front of such a document.
proof fn lemma_command_start_step(t: Seq<char>)
    requires
        t.len() >= 2,
        t[0] == '@',
        t[1] != '%' && t[1] != '|' && t[1] != '{',
    ensures
        spec_next_step(
            TokenizerContext::Text,
            seq!['{'],
            close_of(seq!['{']),
            crate::escape::escape_of(seq!['{']) + seq!['@'],
            spec_default_cfg(),
            t,
            0,
        ) == (TokStep::Tok { kind: TokKind::CommandStart, cstart: 0, cend: 1, npos: 1 }),
{
    let sp = crate::escape::escape_of(seq!['{']) + seq!['@'];
    let cl = close_of(seq!['{']);
    assert(sp =~= seq!['@']);
    assert(cl =~= seq!['}']);
    assert(!matches_at(t, 0, seq!['\r', '\n'])) by {
        if matches_at(t, 0, seq!['\r', '\n']) {
            assert(t.subrange(0, 2)[0] == t[0]);
        }
    }
    assert(comment_kind_at(t, 0, sp, spec_default_cfg()) is None) by {
        if matches_at(t, 0, sp + seq!['%']) {
            assert(t.subrange(0, 2)[1] == t[1]);
            assert((sp + seq!['%'])[1] == '%');
        }
    }
    assert(crate::tokenizer::command_start_at(t, 0, sp, spec_default_cfg())) by {
        assert(t.subrange(0, 1) =~= seq!['@']);
    }
}

/// The scope's closing brace stands at the front of such a document.
proof fn lemma_close_curly_step(t: Seq<char>)
    requires
        t.len() >= 1,
        t[0] == '}',
    ensures
        spec_next_step(
            TokenizerContext::Text,
            seq!['{'],
            close_of(seq!['{']),
            crate::escape::escape_of(seq!['{']) + seq!['@'],
            spec_default_cfg(),
            t,
            0,
        ) == (TokStep::Tok { kind: TokKind::CloseCurly, cstart: 0, cend: 1, npos: 1 }),
{
    let sp = crate::escape::escape_of(seq!['{']) + seq!['@'];
    let cl = close_of(seq!['{']);
    assert(sp =~= seq!['@']);
    assert(cl =~= seq!['}']);
    assert(!matches_at(t, 0, seq!['\r', '\n'])) by {
        if matches_at(t, 0, seq!['\r', '\n']) {
            assert(t.subrange(0, 2)[0] == t[0]);
        }
    }
    assert(comment_kind_at(t, 0, sp, spec_default_cfg()) is None) by {
        if matches_at(t, 0, sp + seq!['%']) {
            assert(t.subrange(0, 2)[0] == t[0]);
            assert((sp + seq!['%'])[0] == '@');
        }
    }
    assert(!crate::tokenizer::command_start_at(t, 0, sp, spec_default_cfg())) by {
        if matches_at(t, 0, sp) {
            assert(t.subrange(0, 1)[0] == t[0]);
        }
    }
    assert(!matches_at(t, 0, seq!['{'])) by {
        if matches_at(t, 0, seq!['{']) {
            assert(t.subrange(0, 1)[0] == t[0]);
        }
    }
    assert(matches_at(t, 0, cl)) by {
        assert(t.subrange(0, 1) =~= seq!['}']);
    }
}

/// Whether the whole document is one command ended by a force-end marker:
/// `@`, a valid unreserved name, white space with no comment, `;`, and
/// nothing after it. Such a document always parses, to a root holding one
/// command node with no arguments.
pub open spec fn doc_is_lone_command(t: Seq<char>) -> bool {
    &&& t.len() >= 2
    &&& t[0] == '@'
    &&& t[1] != '%' && t[1] != '|' && t[1] != '{'
    &&& name_semicolon_tail_at(t, 1, seq!['@'])
    &&& ws_run_end(
        t,
        crate::tokenizer::run_end(
            TokenizerContext::CommandName,
            spec_default_cfg(),
            seq!['}'],
            t,
            2,
        ),
    ) + 1 == t.len()
}

/// While a command name is read, any character but a line end begins a
/// text run: no other token class is matched in that mode.
proof fn lemma_commandname_step(t: Seq<char>, p: int, o: Seq<char>, c: Seq<char>, sp: Seq<char>)
    requires
        0 <= p < t.len(),
        t[p] != '\r',
        t[p] != '\n',
    ensures
        spec_next_step(TokenizerContext::CommandName, o, c, sp, spec_default_cfg(), t, p) == (
        TokStep::Tok {
            kind: TokKind::Text,
            cstart: p,
            cend: crate::tokenizer::run_end(
                TokenizerContext::CommandName,
                spec_default_cfg(),
                c,
                t,
                p + 1,
            ),
            npos: crate::tokenizer::run_end(
                TokenizerContext::CommandName,
                spec_default_cfg(),
                c,
                t,
                p + 1,
            ),
        }),
{
    assert(!matches_at(t, p, seq!['\r', '\n'])) by {
        if matches_at(t, p, seq!['\r', '\n']) {
            assert(t.subrange(p, p + 2)[0] == t[p]);
        }
    }
}

/// Whether `c` is an ASCII digit.
pub open spec fn is_digit(c: char) -> bool {
    48 <= (c as u32) && (c as u32) <= 57
}

/// The end of the digit run that starts at `q`.
pub open spec fn digit_run_end(s: Seq<char>, q: int) -> int
    decreases s.len() - q,
{
    if q < 0 || q >= s.len() {
        s.len() as int
    } else if !is_digit(s[q]) {
        q
    } else {
        digit_run_end(s, q + 1)
    }
}

/// Whether `c` is an ASCII digit.
fn digit_char(c: char) -> (r: bool)
    ensures
        r == is_digit(c),
{
    let x = c as u32;
    48 <= x && x <= 57
}

/// Scans the digit run of `i` that starts at `from`.
fn digit_run(i: &str, from: usize) -> (r: usize)
    requires
        from <= i@.len(),
    ensures
        r == digit_run_end(i@, from as int),
        from <= r <= i@.len(),
{
    let n = i.unicode_len();
    let mut k: usize = from;
    while k < n && digit_char(i.get_char(k))
        invariant
            from <= k <= n,
            n == i@.len(),
            digit_run_end(i@, from as int) == digit_run_end(i@, k as int),
        decreases n - k,
    {
        k = k + 1;
    }
    k
}

/// Where the exponent part standing at `q` ends: after `e` or `E`, an
/// optional sign and at least one digit; without all of that, the
/// exponent is not taken and `q` stands.
pub open spec fn exp_end(s: Seq<char>, q: int) -> int {
    if 0 <= q < s.len() && (s[q] == 'e' || s[q] == 'E') {
        let k = if q + 1 < s.len() && (s[q + 1] == '+' || s[q + 1] == '-') {
            q + 2
        } else {
            q + 1
        };
        let d = digit_run_end(s, k);
        if d > k {
            d
        } else {
            q
        }
    } else {
        q
    }
}

/// Scans an exponent part standing at `q`.
fn exp_scan(i: &str, q: usize) -> (r: usize)
    requires
        q <= i@.len(),
    ensures
        r == exp_end(i@, q as int),
        q <= r <= i@.len(),
{
    let n = i.unicode_len();
    if q < n && (i.get_char(q) == 'e' || i.get_char(q) == 'E') {
        let k: usize = if q + 1 < n && (i.get_char(q + 1) == '+' || i.get_char(q + 1) == '-') {
            q + 2
        } else {
            q + 1
        };
        let d = digit_run(i, k);
        if d > k {
            d
        } else {
            q
        }
    } else {
        q
    }
}

/// Where the numeric literal at the front of `s` ends, if one stands
/// there: an optional sign, then digits with an optional fraction, or a
/// fraction alone, then an optional exponent.
pub open spec fn num_lit_end(s: Seq<char>) -> Option<int> {
    let j: int = if s.len() > 0 && (s[0] == '+' || s[0] == '-') {
        1
    } else {
        0
    };
    let d1 = digit_run_end(s, j);
    if d1 > j {
        let d2 = if d1 < s.len() && s[d1] == '.' {
            digit_run_end(s, d1 + 1)
        } else {
            d1
        };
        Some(exp_end(s, d2))
    } else if j < s.len() && s[j] == '.' && digit_run_end(s, j + 1) > j + 1 {
        Some(exp_end(s, digit_run_end(s, j + 1)))
    } else {
        None
    }
}

/// Scans the numeric literal at the front of `i`, yielding how many
/// characters it spans.
pub fn scan_number(i: &str) -> (r: Option<usize>)
    ensures
        match r {
            Some(k) => num_lit_end(i@) == Some(k as int) && 1 <= k <= i@.len(),
            None => num_lit_end(i@) is None,
        },
{
    let n = i.unicode_len();
    let j: usize = if n > 0 && (i.get_char(0) == '+' || i.get_char(0) == '-') {
        1
    } else {
        0
    };
    let d1 = digit_run(i, j);
    if d1 > j {
        let d2: usize = if d1 < n && i.get_char(d1) == '.' {
            digit_run(i, d1 + 1)
        } else {
            d1
        };
        Some(exp_scan(i, d2))
    } else if j < n && i.get_char(j) == '.' {
        let d = digit_run(i, j + 1);
        if d > j + 1 {
            Some(exp_scan(i, d))
        } else {
            None
        }
    } else {
        None
    }
}

/// Whether `s` begins with `p`, compared without regard to ASCII case.
fn starts_with_ci(s: &str, p: &str) -> (r: bool)
    ensures
        r == (p@.len() <= s@.len() && crate::identifier::ci_match(
            s@.subrange(0, p@.len() as int),
            p@,
        )),
{
    let sn = s.unicode_len();
    let pn = p.unicode_len();
    if pn > sn {
        return false;
    }
    let mut i: usize = 0;
    while i < pn
        invariant
            0 <= i <= pn <= sn,
            sn == s@.len(),
            pn == p@.len(),
            forall|j: int| 0 <= j < i ==> crate::identifier::ci_eq(#[trigger] s@[j], p@[j]),
        decreases pn - i,
    {
        let x = s.get_char(i) as u32;
        let y = p.get_char(i) as u32;
        let ok = x == y || (65 <= x && x <= 90 && x + 32 == y) || (65 <= y && y <= 90 && y + 32
            == x);
        if !ok {
            proof {
                if crate::identifier::ci_match(s@.subrange(0, p@.len() as int), p@) {
                    assert(s@.subrange(0, p@.len() as int)[i as int] == s@[i as int]);
                }
            }
            return false;
        }
        i = i + 1;
    }
    proof {
        assert(forall|j: int|
            0 <= j < pn ==> s@.subrange(0, p@.len() as int)[j] == #[trigger] s@[j]);
    }
    true
}

/// The boolean literal at the front of `s`, if one stands there: `true`
/// or `false`, without regard to ASCII case, and how many characters it
/// spans. No boundary is demanded after it.
pub open spec fn bool_lit_at(s: Seq<char>) -> Option<(bool, int)> {
    if s.len() >= 4 && crate::identifier::ci_match(s.subrange(0, 4), "true"@) {
        Some((true, 4int))
    } else if s.len() >= 5 && crate::identifier::ci_match(s.subrange(0, 5), "false"@) {
        Some((false, 5int))
    } else {
        None
    }
}

/// Scans the boolean literal at the front of `i`.
pub fn scan_bool(i: &str) -> (r: Option<(bool, usize)>)
    ensures
        match r {
            Some(p) => bool_lit_at(i@) == Some((p.0, p.1 as int)) && 1 <= p.1 <= i@.len(),
            None => bool_lit_at(i@) is None,
        },
{
    proof {
        reveal_strlit("true");
        reveal_strlit("false");
    }
    if starts_with_ci(i, "true") {
        Some((true, 4))
    } else if starts_with_ci(i, "false") {
        Some((false, 5))
    } else {
        None
    }
}

/// The recursive-descent parser; single-use, owning one tokenizer.
pub struct Parser<'a> {
    tokenizer: Tokenizer<'a>,
}

impl<'a> Parser<'a> {
    /// The source text being parsed.
    pub closed spec fn text(&self) -> Seq<char> {
        self.tokenizer.text()
    }

    /// The cursor, as a character position into the text.
    pub closed spec fn pos(&self) -> int {
        self.tokenizer.pos()
    }

    /// The tokenizer's stack of lexical modes.
    pub closed spec fn stack(&self) -> Seq<TokenizerContext> {
        self.tokenizer.contexts()
    }

    /// The tokenizer's stack of escape scopes.
    pub closed spec fn scopes(&self) -> Seq<EscapeCtx> {
        self.tokenizer.scopes()
    }

    /// Whether the tokenizer has not raised an error.
    pub closed spec fn valid(&self) -> bool {
        self.tokenizer.is_valid()
    }

    /// The parser's invariant: a well-formed tokenizer under the default
    /// character configuration.
    pub closed spec fn inv(&self) -> bool {
        &&& self.tokenizer.wf()
        &&& self.tokenizer.cfg() == spec_default_cfg()
    }

    /// A parser that has consumed nothing yet.
    pub open spec fn fresh(&self) -> bool {
        &&& self.inv()
        &&& self.pos() == 0
        &&& self.stack().len() == 0
        &&& self.valid()
    }

    /// Wraps a tokenizer that has not been used yet and runs under the
    /// default character configuration.
    pub fn new(tokenizer: Tokenizer<'a>) -> (p: Self)
        requires
            tokenizer.wf(),
            tokenizer.pos() == 0,
            tokenizer.contexts().len() == 0,
            tokenizer.is_valid(),
            tokenizer.cfg() == spec_default_cfg(),
        ensures
            p.fresh(),
            p.text() == tokenizer.text(),
    {
        Parser { tokenizer }
    }

    /// Consumes a line comment's body: everything up to a newline or to
    /// the end of the input, which both end it. Yields the line and column
    /// of the ending newline when there was one, so that the caller can
    /// keep it as a boundary; produces no node. The start marker has
    /// already been consumed.
    fn parse_line_comment(&mut self) -> (r: Result<Option<(usize, usize)>, ParserError>)
        requires
            old(self).inv(),
            old(self).valid(),
        ensures
            final(self).inv(),
            final(self).text() == old(self).text(),
            final(self).pos() >= old(self).pos(),
            r matches Err(pe) ==> pe is TokenizerError && has_lone_cr(old(self).text()),
            r is Ok ==> {
                &&& final(self).stack() == old(self).stack()
                &&& final(self).scopes() == old(self).scopes()
                &&& final(self).valid()
            },
            (r matches Ok(o) && o is None) ==> {
                &&& final(self).pos() == old(self).text().len()
                &&& forall|j: int|
                    old(self).pos() <= j < old(self).text().len() ==> old(self).text()[j] != '\n'
            },
            r matches Ok(o) ==> (o matches Some(lc) ==> {
                &&& final(self).pos() > old(self).pos()
                &&& old(self).text()[final(self).pos() - 1] == '\n'
                &&& forall|j: int|
                    old(self).pos() <= j < final(self).pos() - 1 ==> old(self).text()[j] != '\n'
                &&& exists|pt: int|
                    {
                        &&& final(self).pos() - 2 <= pt < final(self).pos()
                        &&& lc.0 == crate::tokenizer::line_of(old(self).text(), pt)
                        &&& lc.1 == crate::tokenizer::col_of(old(self).text(), pt)
                    }
            }),
        decreases old(self).text().len() - old(self).pos(), 1int,
    {
        let ec = self.tokenizer.get_escape_match(None);
        proof {
            lemma_scope_of_wf(ec, seq!['{'], spec_default_cfg());
        }
        let ghost gec = ec;
        self.tokenizer.push_context(TokenizerContext::LineComment, ec);
        let ghost pre = *old(self);
        let ghost t = self.text();
        proof {
            self.tokenizer.lemma_wf_bounds();
        }
        loop
            invariant
                pre == *old(self),
                self.inv(),
                self.valid(),
                self.text() == t,
                t == pre.text(),
                self.pos() >= pre.pos(),
                self.pos() <= self.text().len(),
                self.stack() == pre.stack().push(TokenizerContext::LineComment),
                self.scopes() == pre.scopes().push(gec),
                forall|j: int| pre.pos() <= j < self.pos() ==> t[j] != '\n',
            decreases self.text().len() - self.pos(),
        {
            let ghost pcall = self.pos();
            proof {
                self.tokenizer.lemma_wf_bounds();
            }
            let pos_pair = self.tokenizer.cursor_pos();
            let tok = self.tokenizer.next();
            proof {
                self.tokenizer.lemma_wf_bounds();
            }
            match tok {
                None => {
                    self.tokenizer.pop_context();
                    proof {
                        assert(pre.stack().push(TokenizerContext::LineComment).drop_last()
                            =~= pre.stack());
                        assert(pre.scopes().push(gec).drop_last() =~= pre.scopes());
                    }
                    return Ok(None);
                },
                Some(res) => match res {
                    Err(e) => {
                        proof {
                            lemma_lone_cr(self.text(), pcall);
                        }
                        return Err(ParserError::TokenizerError(e));
                    },
                    Ok(tk) => match tk {
                        Token::Newline(_) => {
                            self.tokenizer.pop_context();
                            proof {
                                assert(pre.stack().push(TokenizerContext::LineComment).drop_last()
                                    =~= pre.stack());
                                assert(pre.scopes().push(gec).drop_last() =~= pre.scopes());
                                if matches_at(t, pcall, seq!['\r', '\n']) {
                                    assert(t.subrange(pcall, pcall + 2)[0] == t[pcall]);
                                    assert(t.subrange(pcall, pcall + 2)[1] == t[pcall + 1]);
                                } else {
                                    assert(t[pcall] == '\n');
                                }
                            }
                            return Ok(Some(pos_pair));
                        },
                        Token::Text(_) => {
                            proof {
                                crate::tokenizer::lemma_run_end_chars(
                                    TokenizerContext::LineComment,
                                    spec_default_cfg(),
                                    gec.close_curly@,
                                    t,
                                    pcall + 1,
                                );
                            }
                        },
                        _ => unreached(),
                    },
                },
            }
        }
    }

    /// Consumes a block comment: one opening brace of any spelling, which
    /// establishes its own escape scope, then its body with nested braces
    /// of that spelling balancing independently, up to the matching close.
    /// Produces no node. The start marker has already been consumed; the
    /// end of the input before balance is restored is an error.
    fn parse_block_comment(&mut self) -> (r: Result<(), ParserError>)
        requires
            old(self).inv(),
            old(self).valid(),
        ensures
            final(self).inv(),
            final(self).text() == old(self).text(),
            final(self).pos() >= old(self).pos(),
            (r matches Err(pe) && pe is TokenizerError) ==> has_lone_cr(old(self).text()),
            r is Ok ==> {
                &&& final(self).stack() == old(self).stack()
                &&& final(self).scopes() == old(self).scopes()
                &&& final(self).valid()
            },
            r is Ok ==> exists|f: Seq<char>|
                {
                    &&& valid_open_form(f)
                    &&& matches_at(old(self).text(), old(self).pos(), f)
                    &&& final(self).pos() >= old(self).pos() + f.len() + close_of(f).len()
                    &&& matches_at(
                        old(self).text(),
                        final(self).pos() - close_of(f).len(),
                        close_of(f),
                    )
                },
        decreases old(self).text().len() - old(self).pos(), 1int,
    {
        let ghost t = self.text();
        let ghost p0 = self.pos();
        let ec0 = self.tokenizer.get_escape_match(None);
        proof {
            lemma_scope_of_wf(ec0, seq!['{'], spec_default_cfg());
        }
        self.tokenizer.push_context(TokenizerContext::GenericCurlyStart, ec0);
        let ghost pcall = self.pos();
        proof {
            self.tokenizer.lemma_wf_bounds();
        }
        let start_pair = self.tokenizer.cursor_pos();
        let brace_res = self.tokenizer.next();
        let brace = match brace_res {
            None => {
                return Err(
                    ParserError::UnexpectedEof { line: start_pair.0, col: start_pair.1 },
                );
            },
            Some(res) => match res {
                Err(e) => {
                    proof {
                        lemma_lone_cr(self.text(), pcall);
                    }
                    return Err(ParserError::TokenizerError(e));
                },
                Ok(t) => match t {
                    Token::OpenCurly(_) => t,
                    _ => {
                        return Err(
                            ParserError::UnexpectedToken { line: start_pair.0, col: start_pair.1 },
                        );
                    },
                },
            },
        };
        self.tokenizer.pop_context();
        proof {
            lemma_generic_open_valid(self.text(), old(self).pos());
        }
        let ghost f = t.subrange(p0, self.pos());
        let ec = self.tokenizer.get_escape_match(Some(brace));
        proof {
            lemma_scope_of_wf(ec, f, spec_default_cfg());
        }
        let ghost gec = ec;
        self.tokenizer.push_context(TokenizerContext::BlockComment, ec);
        let ghost pre = *old(self);
        let ghost p1 = self.pos();
        proof {
            self.tokenizer.lemma_wf_bounds();
        }
        let mut curly_bal: usize = 1;
        while curly_bal > 0
            invariant
                pre == *old(self),
                p0 == pre.pos(),
                self.inv(),
                self.valid(),
                self.text() == t,
                t == pre.text(),
                self.text().len() < usize::MAX,
                self.pos() >= pre.pos(),
                0 <= p0 <= p1 <= self.pos() <= self.text().len(),
                curly_bal <= 1 + self.pos() - p1,
                valid_open_form(f),
                matches_at(t, p0, f),
                p1 == p0 + f.len(),
                is_scope_of(gec, f, spec_default_cfg()),
                self.stack() == pre.stack().push(TokenizerContext::BlockComment),
                self.scopes() == pre.scopes().push(gec),
                curly_bal == 0 ==> self.pos() >= p1 + close_of(f).len() && matches_at(
                    t,
                    self.pos() - close_of(f).len(),
                    close_of(f),
                ),
            decreases self.text().len() - self.pos(),
        {
            let ghost pcall = self.pos();
            let pos_pair = self.tokenizer.cursor_pos();
            let tok = self.tokenizer.next();
            proof {
                self.tokenizer.lemma_wf_bounds();
            }
            match tok {
                None => {
                    return Err(
                        ParserError::UnexpectedEof { line: pos_pair.0, col: pos_pair.1 },
                    );
                },
                Some(res) => match res {
                    Err(e) => {
                        proof {
                            lemma_lone_cr(self.text(), pcall);
                        }
                        return Err(ParserError::TokenizerError(e));
                    },
                    Ok(t) => match t {
                        Token::Newline(_) => {},
                        Token::Text(_) => {},
                        Token::OpenCurly(_) => {
                            proof {
                                assert(self.pos() > pcall);
                                assert(curly_bal < usize::MAX);
                            }
                            curly_bal = curly_bal + 1;
                        },
                        Token::CloseCurly(_) => {
                            curly_bal = curly_bal - 1;
                        },
                        _ => {
                            return Err(
                                ParserError::UnexpectedToken {
                                    line: pos_pair.0,
                                    col: pos_pair.1,
                                },
                            );
                        },
                    },
                },
            }
        }
        self.tokenizer.pop_context();
        proof {
            assert(pre.stack().push(TokenizerContext::BlockComment).drop_last() =~= pre.stack());
            assert(pre.scopes().push(gec).drop_last() =~= pre.scopes());
            assert(valid_open_form(f) && matches_at(t, p0, f) && self.pos() >= p0 + f.len()
                + close_of(f).len() && matches_at(t, self.pos() - close_of(f).len(), close_of(f)));
        }
        Ok(())
    }

    /// Consumes the maximal run of white-space characters at the cursor.
    fn skip_ws(&mut self)
        requires
            old(self).inv(),
        ensures
            final(self).inv(),
            final(self).text() == old(self).text(),
            final(self).stack() == old(self).stack(),
            final(self).scopes() == old(self).scopes(),
            final(self).valid() == old(self).valid(),
            old(self).pos() <= final(self).pos() <= final(self).text().len(),
            final(self).pos() == ws_run_end(old(self).text(), old(self).pos()),
    {
        proof {
            self.tokenizer.lemma_wf_bounds();
        }
        let mut m = self.tokenizer.start_match();
        let k = m.match_whitespace();
        proof {
            let t = self.text();
            let p = self.pos();
            assert forall|j: int| p <= j < p + k implies crate::context::spec_is_unicode_ws(
                #[trigger] t[j],
            ) by {
                assert(t.skip(p)[j - p] == t[j]);
                assert(crate::context::spec_is_unicode_ws(t.skip(p)[j - p]));
            }
            if p + k < t.len() {
                assert(t.skip(p)[k as int] == t[p + k]);
                assert(!crate::context::spec_is_unicode_ws(t[p + k]));
            }
            lemma_ws_run_from(t, p, k as int);
        }
        self.tokenizer.char_it_next_many(k);
        proof {
            self.tokenizer.lemma_wf_bounds();
        }
    }

    /// Consumes white space and comments, as much of both as stand at the
    /// cursor, in any order.
    fn skip_ws_comments(&mut self) -> (r: Result<(), ParserError>)
        requires
            old(self).inv(),
            old(self).valid(),
            old(self).stack().len() >= 1,
        ensures
            final(self).inv(),
            final(self).text() == old(self).text(),
            final(self).pos() >= old(self).pos(),
            (r matches Err(pe) && pe is TokenizerError) ==> has_lone_cr(old(self).text()),
            r is Ok ==> {
                &&& final(self).stack() == old(self).stack()
                &&& final(self).scopes() == old(self).scopes()
                &&& final(self).valid()
            },
            comment_kind_at(
                old(self).text(),
                ws_run_end(old(self).text(), old(self).pos()),
                old(self).scopes().last().special@,
                spec_default_cfg(),
            ) is None ==> {
                &&& r is Ok
                &&& final(self).pos() == ws_run_end(old(self).text(), old(self).pos())
            },
        decreases old(self).text().len() - old(self).pos(), 5int,
    {
        let ghost pre = *old(self);
        let ghost t = self.text();
        let ghost sp0 = self.scopes().last().special@;
        proof {
            self.tokenizer.lemma_wf_bounds();
        }
        loop
            invariant
                pre == *old(self),
                self.inv(),
                self.valid(),
                self.text() == t,
                t == pre.text(),
                sp0 == pre.scopes().last().special@,
                pre.pos() <= self.pos() <= self.text().len(),
                self.stack() == pre.stack(),
                self.scopes() == pre.scopes(),
                self.stack().len() >= 1,
                self.pos() == pre.pos() || comment_kind_at(
                    t,
                    ws_run_end(t, pre.pos()),
                    sp0,
                    spec_default_cfg(),
                ) is Some,
            decreases self.text().len() - self.pos(),
        {
            self.skip_ws();
            proof {
                self.tokenizer.lemma_wf_bounds();
            }
            let pos_pair = self.tokenizer.cursor_pos();
            let tok_opt = self.tokenizer.match_start_comment();
            proof {
                self.tokenizer.lemma_wf_bounds();
            }
            match tok_opt {
                None => {
                    return Ok(());
                },
                Some(res) => match res {
                    Err(_) => unreached(),
                    Ok(tk) => match tk {
                        Token::BlockCommentStartMarker(_) => {
                            match self.parse_block_comment() {
                                Ok(()) => {},
                                Err(e) => {
                                    return Err(e);
                                },
                            }
                        },
                        Token::LineCommentStartMarker(_) => {
                            match self.parse_line_comment() {
                                Ok(_) => {},
                                Err(e) => {
                                    return Err(e);
                                },
                            }
                        },
                        _ => {
                            return Err(
                                ParserError::UnexpectedToken {
                                    line: pos_pair.0,
                                    col: pos_pair.1,
                                },
                            );
                        },
                    },
                },
            }
            proof {
                self.tokenizer.lemma_wf_bounds();
            }
        }
    }

    /// Looks for a force-end marker after skippable white space and
    /// comments; consumes through it when found, and comes back to the
    /// starting cursor when not.
    fn juncture_semicolon(&mut self) -> (r: Result<bool, ParserError>)
        requires
            old(self).inv(),
            old(self).valid(),
            old(self).stack().len() >= 1,
        ensures
            final(self).inv(),
            final(self).text() == old(self).text(),
            final(self).pos() >= old(self).pos(),
            (r matches Err(pe) && pe is TokenizerError) ==> has_lone_cr(old(self).text()),
            r is Ok ==> {
                &&& final(self).stack() == old(self).stack()
                &&& final(self).scopes() == old(self).scopes()
                &&& final(self).valid()
            },
            ({
                let t = old(self).text();
                let w = ws_run_end(t, old(self).pos());
                comment_kind_at(t, w, old(self).scopes().last().special@, spec_default_cfg())
                    is None ==> {
                    &&& (w < t.len() && t[w] == ';' ==> r == Result::<
                        bool,
                        ParserError,
                    >::Ok(true) && final(self).pos() == w + 1)
                    &&& (!(w < t.len() && t[w] == ';') ==> r == Result::<
                        bool,
                        ParserError,
                    >::Ok(false) && final(self).pos() == old(self).pos())
                }
            }),
        decreases old(self).text().len() - old(self).pos(), 6int,
    {
        let cp = self.tokenizer.checkpoint();
        match self.skip_ws_comments() {
            Ok(()) => {},
            Err(e) => {
                return Err(e);
            },
        }
        if self.tokenizer.peek_char(';') {
            self.tokenizer.char_it_next();
            Ok(true)
        } else {
            self.tokenizer.restore(cp);
            Ok(false)
        }
    }

    /// Parses one square entry at the cursor, trying in order: a boolean
    /// literal, a numeric literal, an identifier, a quoted string, a
    /// nested command. A reserved word is rejected wherever an identifier
    /// would be read.
    fn parse_square_entry(&mut self) -> (r: Result<SquareEntry, ParserError>)
        requires
            old(self).inv(),
            old(self).valid(),
            old(self).stack().len() >= 1,
        ensures
            final(self).inv(),
            final(self).text() == old(self).text(),
            final(self).pos() >= old(self).pos(),
            (r matches Err(pe) && pe is TokenizerError) ==> has_lone_cr(old(self).text()),
            r matches Ok(e) ==> {
                &&& final(self).stack() == old(self).stack()
                &&& final(self).scopes() == old(self).scopes()
                &&& final(self).valid()
                &&& final(self).pos() > old(self).pos()
                &&& wf_square_entry(e)
            },
            ({
                let rem = old(self).text().skip(old(self).pos());
                let consumed = final(self).pos() - old(self).pos();
                &&& (bool_lit_at(rem) matches Some(bk) ==> r == Result::<
                    SquareEntry,
                    ParserError,
                >::Ok(SquareEntry::Bool(bk.0)) && consumed == bk.1)
                &&& (r matches Ok(e) ==> match e {
                    SquareEntry::Bool(b) => bool_lit_at(rem) == Some((b, consumed)),
                    SquareEntry::Num(s) => {
                        &&& bool_lit_at(rem) is None
                        &&& num_lit_end(rem) == Some(consumed)
                        &&& s@ == rem.subrange(0, consumed)
                    },
                    SquareEntry::Ident(s) => {
                        &&& bool_lit_at(rem) is None
                        &&& num_lit_end(rem) is None
                        &&& consumed == crate::identifier::ident_run_end(rem, 0)
                        &&& s@ == rem.subrange(0, consumed)
                    },
                    SquareEntry::QuotedStr(s) => {
                        &&& bool_lit_at(rem) is None
                        &&& num_lit_end(rem) is None
                        &&& crate::string::quoted_string_at(rem) matches Some(w) && s@ == w.0
                            && consumed == w.1
                    },
                    SquareEntry::AstNode(_) => rem.len() > 0 && rem[0] == '@',
                })
            }),
        decreases old(self).text().len() - old(self).pos(), 2int,
    {
        proof {
            self.tokenizer.lemma_wf_bounds();
        }
        let pos_pair = self.tokenizer.cursor_pos();
        let rem = self.tokenizer.remaining_str();
        proof {
            assert(rem@ == old(self).text().skip(old(self).pos()));
        }
        if let Some((b, k)) = scan_bool(rem) {
            self.tokenizer.char_it_next_many(k);
            return Ok(SquareEntry::Bool(b));
        }
        if let Some(k) = scan_number(rem) {
            let lit = rem.substring_char(0, k);
            let s = String::from_str(lit);
            self.tokenizer.char_it_next_many(k);
            return Ok(SquareEntry::Num(s));
        }
        if let Some((m, k)) = identifier(rem) {
            let s = String::from_str(m);
            self.tokenizer.char_it_next_many(k);
            return Ok(SquareEntry::Ident(s));
        }
        if let Some((sv, k)) = crate::string::parse_string(rem) {
            self.tokenizer.char_it_next_many(k);
            return Ok(SquareEntry::QuotedStr(sv));
        }
        if self.tokenizer.peek_char('@') {
            proof {
                assert(rem@[0] == old(self).text()[old(self).pos()]);
            }
            self.tokenizer.char_it_next();
            if self.tokenizer.peek_char('%') || self.tokenizer.peek_char('|')
                || self.tokenizer.peek_char('{') {
                return Err(
                    ParserError::MalformedCommand { line: pos_pair.0, col: pos_pair.1 },
                );
            }
            let nd = match self.parse_command() {
                Ok(n) => n,
                Err(e) => {
                    return Err(e);
                },
            };
            return Ok(SquareEntry::AstNode(nd));
        }
        Err(ParserError::MalformedCommand { line: pos_pair.0, col: pos_pair.1 })
    }

    /// Parses one square argument: an entry, or a `key=value` pair of
    /// entries around `=`.
    fn parse_square_arg(&mut self) -> (r: Result<SquareArg, ParserError>)
        requires
            old(self).inv(),
            old(self).valid(),
            old(self).stack().len() >= 1,
        ensures
            final(self).inv(),
            final(self).text() == old(self).text(),
            final(self).pos() >= old(self).pos(),
            (r matches Err(pe) && pe is TokenizerError) ==> has_lone_cr(old(self).text()),
            r matches Ok(a) ==> {
                &&& final(self).stack() == old(self).stack()
                &&& final(self).scopes() == old(self).scopes()
                &&& final(self).valid()
                &&& final(self).pos() > old(self).pos()
                &&& wf_square_arg(a)
            },
            r matches Ok(a) ==> (a matches SquareArg::KeyVal(k, v) ==> exists|j: int|
                old(self).pos() <= j < final(self).pos() && old(self).text()[j] == '='),
        decreases old(self).text().len() - old(self).pos(), 3int,
    {
        let e1 = match self.parse_square_entry() {
            Ok(e) => e,
            Err(e) => {
                return Err(e);
            },
        };
        self.skip_ws();
        if self.tokenizer.peek_char('=') {
            let ghost jeq = self.pos();
            proof {
                assert(old(self).text()[jeq] == '=');
            }
            self.tokenizer.char_it_next();
            self.skip_ws();
            let e2 = match self.parse_square_entry() {
                Ok(e) => e,
                Err(e) => {
                    return Err(e);
                },
            };
            Ok(SquareArg::KeyVal(e1, e2))
        } else {
            Ok(SquareArg::Val(e1))
        }
    }

    /// Parses the inside of a square-argument list, the opening bracket
    /// already consumed: comma-separated arguments, a trailing comma
    /// allowed, through the closing bracket.
    fn parse_square_args(&mut self) -> (r: Result<Vec<SquareArg>, ParserError>)
        requires
            old(self).inv(),
            old(self).valid(),
            old(self).stack().len() >= 1,
        ensures
            final(self).inv(),
            final(self).text() == old(self).text(),
            final(self).pos() >= old(self).pos(),
            (r matches Err(pe) && pe is TokenizerError) ==> has_lone_cr(old(self).text()),
            r matches Ok(args) ==> {
                &&& final(self).stack() == old(self).stack()
                &&& final(self).scopes() == old(self).scopes()
                &&& final(self).valid()
                &&& forall|i: int| 0 <= i < args@.len() ==> wf_square_arg(#[trigger] args@[i])
                &&& final(self).pos() > old(self).pos()
                &&& old(self).text()[final(self).pos() - 1] == ']'
            },
        decreases old(self).text().len() - old(self).pos(), 4int,
    {
        let ghost pre = *old(self);
        proof {
            self.tokenizer.lemma_wf_bounds();
        }
        let mut args: Vec<SquareArg> = Vec::new();
        let mut after_separator = false;
        loop
            invariant
                pre == *old(self),
                self.inv(),
                self.valid(),
                self.text() == pre.text(),
                pre.pos() <= self.pos() <= self.text().len(),
                self.stack() == pre.stack(),
                self.scopes() == pre.scopes(),
                self.stack().len() >= 1,
                forall|i: int| 0 <= i < args@.len() ==> wf_square_arg(#[trigger] args@[i]),
            decreases self.text().len() - self.pos(),
        {
            self.skip_ws();
            if self.tokenizer.peek_char(']') {
                self.tokenizer.char_it_next();
                proof {
                    self.tokenizer.lemma_wf_bounds();
                }
                return Ok(args);
            }
            let rem = self.tokenizer.remaining_str();
            if rem.unicode_len() == 0 {
                break;
            }
            let c0 = rem.get_char(0);
            if !(crate::identifier::ident_start_char(c0) || digit_char(c0) || c0 == '+' || c0
                == '-' || c0 == '.' || c0 == '"' || c0 == '@') {
                break;
            }
            let a = match self.parse_square_arg() {
                Ok(a) => a,
                Err(e) => {
                    return Err(e);
                },
            };
            args.push(a);
            after_separator = false;
            self.skip_ws();
            if self.tokenizer.peek_char(',') {
                self.tokenizer.char_it_next();
                after_separator = true;
            } else {
                break;
            }
        }
        // At most one comma may trail the last argument; a comma just
        // consumed as a separator already was that one.
        if !after_separator {
            self.skip_ws();
            if self.tokenizer.peek_char(',') {
                self.tokenizer.char_it_next();
                self.skip_ws();
            }
        }
        if self.tokenizer.peek_char(']') {
            self.tokenizer.char_it_next();
            proof {
                self.tokenizer.lemma_wf_bounds();
            }
            return Ok(args);
        }
        proof {
            self.tokenizer.lemma_wf_bounds();
        }
        let pos_pair = self.tokenizer.cursor_pos();
        Err(ParserError::MalformedCommand { line: pos_pair.0, col: pos_pair.1 })
    }

    /// Parses a command, its start marker already consumed: the name, an
    /// optional square-argument list, any curly arguments, with white
    /// space and comments skippable between the parts, and a force-end
    /// marker allowed to end the command early after the name, after the
    /// square arguments, or after the curly arguments. Once here, any
    /// failure is fatal: a dangling command start never falls back to
    /// literal text.
    fn parse_command(&mut self) -> (r: Result<AstNode, ParserError>)
        requires
            old(self).inv(),
            old(self).valid(),
            old(self).stack().len() >= 1,
        ensures
            final(self).inv(),
            final(self).text() == old(self).text(),
            final(self).pos() >= old(self).pos(),
            (r matches Err(pe) && pe is TokenizerError) ==> has_lone_cr(old(self).text()),
            r matches Ok(nd) ==> {
                &&& final(self).stack() == old(self).stack()
                &&& final(self).scopes() == old(self).scopes()
                &&& final(self).valid()
                &&& final(self).pos() > old(self).pos()
                &&& wf_node(nd)
                &&& nd matches AstNode::AstCommandNode { command_name, .. } && command_name@
                    == old(self).text().subrange(
                    old(self).pos(),
                    crate::tokenizer::run_end(
                        TokenizerContext::CommandName,
                        spec_default_cfg(),
                        seq!['}'],
                        old(self).text(),
                        old(self).pos() + 1,
                    ),
                )
            },
            ({
                let t = old(self).text();
                let p = old(self).pos();
                let ne = crate::tokenizer::run_end(
                    TokenizerContext::CommandName,
                    spec_default_cfg(),
                    seq!['}'],
                    t,
                    p + 1,
                );
                let nm = t.subrange(p, ne);
                &&& ((p < t.len() && t[p] != '\r' && t[p] != '\n' && !(valid_ident(nm)
                    && !crate::identifier::spec_is_reserved(nm))) ==> (r matches Err(pe)
                    && pe is MalformedCommand))
                &&& (name_semicolon_tail_at(t, p, old(self).scopes().last().special@) ==> (
                r matches Ok(nd) && nd matches AstNode::AstCommandNode {
                    command_name,
                    square_args,
                    curly_args,
                } && command_name@ == nm && square_args is None && curly_args@.len() == 0
                    && final(self).pos() == ws_run_end(t, ne) + 1))
            }),
        decreases old(self).text().len() - old(self).pos(), 1int,
    {
        let ghost pre = *old(self);
        let ec0 = self.tokenizer.get_escape_match(None);
        proof {
            lemma_scope_of_wf(ec0, seq!['{'], spec_default_cfg());
        }
        self.tokenizer.push_context(TokenizerContext::CommandName, ec0);
        let ghost pcall = self.pos();
        proof {
            self.tokenizer.lemma_wf_bounds();
            let t = self.text();
            assert(ec0.close_curly@ =~= seq!['}']);
            if pcall < t.len() && t[pcall] != '\r' && t[pcall] != '\n' {
                lemma_commandname_step(
                    t,
                    pcall,
                    ec0.open_curly@,
                    ec0.close_curly@,
                    ec0.special@,
                );
            }
        }
        let pos_pair = self.tokenizer.cursor_pos();
        let name_tok = self.tokenizer.next();
        self.tokenizer.pop_context();
        proof {
            assert(pre.stack().push(TokenizerContext::CommandName).drop_last() =~= pre.stack());
            assert(pre.scopes().push(ec0).drop_last() =~= pre.scopes());
            self.tokenizer.lemma_wf_bounds();
        }
        let name_str = match name_tok {
            Some(res) => match res {
                Err(e) => {
                    proof {
                        lemma_lone_cr(self.text(), pcall);
                    }
                    return Err(ParserError::TokenizerError(e));
                },
                Ok(tk) => match tk {
                    Token::Text(tx) => tx,
                    _ => {
                        return Err(
                            ParserError::MalformedCommand { line: pos_pair.0, col: pos_pair.1 },
                        );
                    },
                },
            },
            None => {
                return Err(ParserError::MalformedCommand { line: pos_pair.0, col: pos_pair.1 });
            },
        };
        if !crate::identifier::is_valid_identifier(name_str) {
            return Err(ParserError::MalformedCommand { line: pos_pair.0, col: pos_pair.1 });
        }
        if crate::identifier::is_reserved_identifier(name_str) {
            return Err(ParserError::MalformedCommand { line: pos_pair.0, col: pos_pair.1 });
        }
        let command_name = String::from_str(name_str);
        match self.juncture_semicolon() {
            Ok(true) => {
                return Ok(
                    AstNode::AstCommandNode {
                        command_name,
                        square_args: None,
                        curly_args: Vec::new(),
                    },
                );
            },
            Ok(false) => {},
            Err(e) => {
                return Err(e);
            },
        }
        proof {
            assert(!name_semicolon_tail_at(
                pre.text(),
                pre.pos(),
                pre.scopes().last().special@,
            ));
        }
        let mut square_args: Option<Vec<SquareArg>> = None;
        let cp = self.tokenizer.checkpoint();
        match self.skip_ws_comments() {
            Ok(()) => {},
            Err(e) => {
                return Err(e);
            },
        }
        if self.tokenizer.peek_char('[') {
            self.tokenizer.char_it_next();
            let args = match self.parse_square_args() {
                Ok(a) => a,
                Err(e) => {
                    return Err(e);
                },
            };
            square_args = Some(args);
        } else {
            self.tokenizer.restore(cp);
        }
        match self.juncture_semicolon() {
            Ok(true) => {
                return Ok(
                    AstNode::AstCommandNode { command_name, square_args, curly_args: Vec::new() },
                );
            },
            Ok(false) => {},
            Err(e) => {
                return Err(e);
            },
        }
        proof {
            self.tokenizer.lemma_wf_bounds();
        }
        let mut curly_args: Vec<Vec<AstNode>> = Vec::new();
        loop
            invariant
                pre == *old(self),
                self.inv(),
                self.valid(),
                self.text() == pre.text(),
                pre.pos() < self.pos() <= self.text().len(),
                self.stack() == pre.stack(),
                self.scopes() == pre.scopes(),
                self.stack().len() >= 1,
                valid_ident(command_name@),
                !crate::identifier::spec_is_reserved(command_name@),
                pre.pos() < pre.text().len() && pre.text()[pre.pos()] != '\r'
                    && pre.text()[pre.pos()] != '\n',
                command_name@ == pre.text().subrange(
                    pre.pos(),
                    crate::tokenizer::run_end(
                        TokenizerContext::CommandName,
                        spec_default_cfg(),
                        seq!['}'],
                        pre.text(),
                        pre.pos() + 1,
                    ),
                ),
                !name_semicolon_tail_at(pre.text(), pre.pos(), pre.scopes().last().special@),
                match square_args {
                    Some(args) => forall|i: int|
                        0 <= i < args@.len() ==> wf_square_arg(#[trigger] args@[i]),
                    None => true,
                },
                forall|i: int, j: int|
                    0 <= i < curly_args@.len() && 0 <= j < curly_args@[i]@.len() ==> wf_node(
                        #[trigger] curly_args@[i]@[j],
                    ),
            decreases self.text().len() - self.pos(),
        {
            let cp2 = self.tokenizer.checkpoint();
            match self.skip_ws_comments() {
                Ok(()) => {},
                Err(e) => {
                    return Err(e);
                },
            }
            if self.tokenizer.peek_generic_open() {
                let nodes = match self.parse_text(false) {
                    Ok(n) => n,
                    Err(e) => {
                        return Err(e);
                    },
                };
                curly_args.push(nodes);
            } else {
                self.tokenizer.restore(cp2);
                break;
            }
        }
        match self.juncture_semicolon() {
            Ok(_) => {},
            Err(e) => {
                return Err(e);
            },
        }
        Ok(AstNode::AstCommandNode { command_name, square_args, curly_args })
    }

    /// Parses a text region. At the root the whole input is the region,
    /// with a pretended opening brace before its start; otherwise exactly
    /// one opening brace, plain or escaped, is consumed first and
    /// establishes the region's escape scope. The loop merges adjacent
    /// text runs, keeps every newline as its own boundary node, strips
    /// comments (a stripped block comment also keeps its neighbours
    /// apart), recurses into commands, and tracks brace balance: the
    /// scope's closing spelling at balance zero ends a non-root region,
    /// and is an error at the root, where only the end of the input ends
    /// the region.
    pub fn parse_text(&mut self, root_context: bool) -> (r: Result<Vec<AstNode>, ParserError>)
        requires
            old(self).inv(),
            old(self).valid(),
        ensures
            final(self).inv(),
            final(self).text() == old(self).text(),
            final(self).pos() >= old(self).pos(),
            (r matches Err(pe) && pe is TokenizerError) ==> has_lone_cr(old(self).text()),
            r matches Ok(nodes) ==> {
                &&& final(self).stack() == old(self).stack()
                &&& final(self).scopes() == old(self).scopes()
                &&& final(self).valid()
                &&& forall|i: int| 0 <= i < nodes@.len() ==> wf_node(#[trigger] nodes@[i])
                &&& (root_context ==> final(self).pos() == final(self).text().len())
                &&& (!root_context ==> final(self).pos() > old(self).pos() && exists|f: Seq<char>|
                    {
                        &&& valid_open_form(f)
                        &&& matches_at(old(self).text(), old(self).pos(), f)
                        &&& final(self).pos() >= old(self).pos() + f.len() + close_of(f).len()
                        &&& matches_at(
                            old(self).text(),
                            final(self).pos() - close_of(f).len(),
                            close_of(f),
                        )
                    })
                &&& (root_context && old(self).pos() == 0 && all_plain(old(self).text())
                    && old(self).text().len() > 0 ==> nodes@.len() == 1 && is_text_node_with(
                    nodes@[0],
                    old(self).text(),
                    1,
                    1,
                ))
                &&& (root_context && old(self).pos() == 0 && old(self).text().len() == 0
                    ==> nodes@.len() == 0)
                &&& (root_context && old(self).pos() == 0 && simple_doc(old(self).text())
                    ==> lines_rep(nodes@, old(self).text(), 0, old(self).text().len() as int))
            },
            r is Err ==> !(root_context && old(self).pos() == 0 && simple_doc(old(self).text())),
            (root_context && old(self).pos() == 0 && old(self).text().len() > 0 && old(
                self,
            ).text()[0] == '}') ==> r is Err,
            (root_context && old(self).pos() == 0 && doc_starts_with_bad_command_name(
                old(self).text(),
            )) ==> (r matches Err(pe) && pe is MalformedCommand),
            (root_context && old(self).pos() == 0 && doc_is_lone_command(old(self).text())) ==> (
            r matches Ok(nodes) && nodes@.len() == 1 && (nodes@[0] matches
            AstNode::AstCommandNode { command_name, square_args, curly_args } && command_name@
                == old(self).text().subrange(
                1,
                crate::tokenizer::run_end(
                    TokenizerContext::CommandName,
                    spec_default_cfg(),
                    seq!['}'],
                    old(self).text(),
                    2,
                ),
            ) && square_args is None && curly_args@.len() == 0)),
        decreases old(self).text().len() - old(self).pos(), 9int,
    {
        let ghost t = self.text();
        let ghost p0 = self.pos();
        proof {
            self.tokenizer.lemma_wf_bounds();
        }
        let ghost mut f: Seq<char> = seq!['{'];
        if !root_context {
            let ec0 = self.tokenizer.get_escape_match(None);
            proof {
                lemma_scope_of_wf(ec0, seq!['{'], spec_default_cfg());
            }
            self.tokenizer.push_context(TokenizerContext::GenericCurlyStart, ec0);
            let ghost pcall = self.pos();
            let start_pair = self.tokenizer.cursor_pos();
            let brace_res = self.tokenizer.next();
            let brace = match brace_res {
                None => {
                    return Err(
                        ParserError::UnexpectedEof { line: start_pair.0, col: start_pair.1 },
                    );
                },
                Some(res) => match res {
                    Err(e) => {
                        proof {
                            lemma_lone_cr(self.text(), pcall);
                        }
                        return Err(ParserError::TokenizerError(e));
                    },
                    Ok(tk) => match tk {
                        Token::OpenCurly(_) => tk,
                        _ => {
                            return Err(
                                ParserError::UnexpectedToken {
                                    line: start_pair.0,
                                    col: start_pair.1,
                                },
                            );
                        },
                    },
                },
            };
            self.tokenizer.pop_context();
            proof {
                lemma_generic_open_valid(t, p0);
                f = t.subrange(p0, self.pos());
                assert(old(self).stack().push(TokenizerContext::GenericCurlyStart).drop_last()
                    =~= old(self).stack());
                assert(old(self).scopes().push(ec0).drop_last() =~= old(self).scopes());
            }
            let ec = self.tokenizer.get_escape_match(Some(brace));
            proof {
                lemma_scope_of_wf(ec, f, spec_default_cfg());
            }
            self.tokenizer.push_context(TokenizerContext::Text, ec);
        } else {
            let ec = self.tokenizer.get_escape_match(None);
            proof {
                lemma_scope_of_wf(ec, seq!['{'], spec_default_cfg());
            }
            self.tokenizer.push_context(TokenizerContext::Text, ec);
        }
        let ghost pre = *old(self);
        let ghost gec = self.tokenizer.scopes().last();
        let ghost p1 = self.pos();
        let ghost close_end: int = 0;
        let mut contents: Vec<AstNode> = Vec::new();
        let mut curly_bal: usize = 1;
        let mut allow_merge = true;
        loop
            invariant_except_break
                1 <= curly_bal <= 1 + self.pos() - p1,
            invariant
                pre == *old(self),
                p0 == pre.pos(),
                self.inv(),
                self.valid(),
                self.text() == t,
                t == pre.text(),
                0 <= p0 <= p1 <= self.pos() <= t.len() < usize::MAX,
                self.stack() == pre.stack().push(TokenizerContext::Text),
                self.scopes() == pre.scopes().push(gec),
                is_scope_of(gec, f, spec_default_cfg()),
                valid_open_form(f),
                !root_context ==> matches_at(t, p0, f) && p1 == p0 + f.len(),
                root_context ==> p1 == p0 && f == seq!['{'],
                forall|i: int| 0 <= i < contents@.len() ==> wf_node(#[trigger] contents@[i]),
                (root_context && p0 == 0 && all_plain(t)) ==> ((self.pos() == 0 && contents@.len()
                    == 0) || (self.pos() == t.len() && t.len() > 0 && contents@.len() == 1
                    && is_text_node_with(contents@[0], t, 1, 1))),
                (root_context && p0 == 0 && simple_doc(t)) ==> (curly_bal == 1 && lines_rep(contents@, t, 0, self.pos())
                    && (self.pos() == 0 || t[self.pos() - 1] == '\n' || self.pos() == t.len()
                    || t[self.pos()] == '\n')),
                (root_context && p0 == 0 && t.len() > 0 && t[0] == '}') ==> self.pos() == 0,
                (root_context && p0 == 0 && doc_starts_with_bad_command_name(t)) ==> self.pos()
                    == 0,
                (root_context && p0 == 0 && doc_is_lone_command(t)) ==> curly_bal == 1 && ((
                self.pos() == 0 && contents@.len() == 0) || (self.pos() == t.len()
                    && contents@.len() == 1
                    && (contents@[0] matches AstNode::AstCommandNode {
                    command_name,
                    square_args,
                    curly_args,
                } && command_name@ == t.subrange(
                    1,
                    crate::tokenizer::run_end(
                        TokenizerContext::CommandName,
                        spec_default_cfg(),
                        seq!['}'],
                        t,
                        2,
                    ),
                ) && square_args is None && curly_args@.len() == 0))),
            ensures
                pre == *old(self),
                p0 == pre.pos(),
                self.inv(),
                self.valid(),
                self.text() == t,
                p0 <= p1 <= self.pos() <= t.len(),
                self.stack() == pre.stack().push(TokenizerContext::Text),
                self.scopes() == pre.scopes().push(gec),
                forall|i: int| 0 <= i < contents@.len() ==> wf_node(#[trigger] contents@[i]),
                root_context ==> self.pos() == t.len(),
                !root_context ==> self.pos() >= p1 + close_of(f).len() && matches_at(
                    t,
                    self.pos() - close_of(f).len(),
                    close_of(f),
                ),
                (root_context && p0 == 0 && all_plain(t)) ==> ((self.pos() == 0 && contents@.len()
                    == 0) || (self.pos() == t.len() && t.len() > 0 && contents@.len() == 1
                    && is_text_node_with(contents@[0], t, 1, 1))),
                (root_context && p0 == 0 && simple_doc(t)) ==> lines_rep(contents@, t, 0, self.pos()),
                (root_context && p0 == 0 && doc_is_lone_command(t)) ==> (contents@.len() == 1
                    && (contents@[0] matches AstNode::AstCommandNode {
                    command_name,
                    square_args,
                    curly_args,
                } && command_name@ == t.subrange(
                    1,
                    crate::tokenizer::run_end(
                        TokenizerContext::CommandName,
                        spec_default_cfg(),
                        seq!['}'],
                        t,
                        2,
                    ),
                ) && square_args is None && curly_args@.len() == 0)),
            decreases t.len() - self.pos(),
        {
            let ghost pos_it = self.pos();
            let ghost pcall = self.pos();
            let pos_pair = self.tokenizer.cursor_pos();
            let tok = self.tokenizer.next();
            proof {
                self.tokenizer.lemma_wf_bounds();
                if root_context && p0 == 0 && pos_it < t.len() {
                    assert(gec.special@ == crate::escape::escape_of(f) + seq!['@']);
                    if all_plain(t) {
                        lemma_plain_step(t, pos_it, f);
                    }
                    if simple_doc(t) {
                        lemma_simple_step(t, pos_it, f);
                    }
                    if pos_it == 0 && t.len() > 0 && t[0] == '}' {
                        lemma_close_curly_step(t);
                    }
                    if pos_it == 0 && (doc_starts_with_bad_command_name(t)
                        || doc_is_lone_command(t)) {
                        lemma_command_start_step(t);
                    }
                }
            }
            match tok {
                None => {
                    if root_context {
                        if curly_bal > 1 {
                            return Err(
                                ParserError::UnexpectedEof { line: pos_pair.0, col: pos_pair.1 },
                            );
                        }
                        break;
                    } else {
                        return Err(
                            ParserError::UnexpectedEof { line: pos_pair.0, col: pos_pair.1 },
                        );
                    }
                },
                Some(res) => match res {
                    Err(e) => {
                        proof {
                            lemma_lone_cr(self.text(), pcall);
                        }
                        return Err(ParserError::TokenizerError(e));
                    },
                    Ok(tk) => match tk {
                        Token::Newline(nl) => {
                            proof {
                                if matches_at(t, pos_it, seq!['\r', '\n']) {
                                    assert(t.subrange(pos_it, pos_it + 2)[1] == t[pos_it + 1]);
                                    assert(t.subrange(pos_it + 1, pos_it + 2) =~= seq!['\n']);
                                } else {
                                    assert(t.subrange(pos_it, pos_it + 1) =~= seq!['\n']);
                                }
                            }
                            let node = AstNode::AstTextNode {
                                content: String::from_str(nl),
                                source_start_col: pos_pair.1,
                                source_start_line: pos_pair.0,
                            };
                            proof {
                                assert(wf_node(node));
                            }
                            let ghost cpre = contents@;
                            push_merge(&mut contents, node, allow_merge);
                            proof {
                                if root_context && p0 == 0 && simple_doc(t) {
                                    assert(t[pos_it] == '\n') by {
                                        if matches_at(t, pos_it, seq!['\r', '\n']) {
                                            assert(t.subrange(pos_it, pos_it + 2)[0] == t[pos_it]);
                                        }
                                    }
                                    assert(contents@ == cpre.push(node));
                                    lemma_lines_rep_push(cpre, t, 0, pos_it, node, pos_it + 1);
                                }
                            }
                            allow_merge = true;
                        },
                        Token::Text(tx) => {
                            proof {
                                crate::tokenizer::lemma_run_end_chars(
                                    TokenizerContext::Text,
                                    spec_default_cfg(),
                                    close_of(f),
                                    t,
                                    pos_it + 1,
                                );
                                crate::tokenizer::lemma_run_end_bounds(
                                    TokenizerContext::Text,
                                    spec_default_cfg(),
                                    close_of(f),
                                    t,
                                    pos_it + 1,
                                );
                                assert(forall|ii: int|
                                    0 <= ii < tx@.len() ==> tx@[ii] == #[trigger] t[pos_it + ii]);
                                assert(!crate::ast::has_newline(tx@));
                            }
                            let node = AstNode::AstTextNode {
                                content: String::from_str(tx),
                                source_start_col: pos_pair.1,
                                source_start_line: pos_pair.0,
                            };
                            proof {
                                assert(wf_node(node));
                                if root_context && p0 == 0 && all_plain(t) {
                                    assert(tx@ =~= t);
                                }
                            }
                            let ghost cpre = contents@;
                            push_merge(&mut contents, node, allow_merge);
                            proof {
                                if root_context && p0 == 0 && simple_doc(t) {
                                    let e = self.pos();
                                    crate::tokenizer::lemma_run_end_stop(
                                        TokenizerContext::Text,
                                        spec_default_cfg(),
                                        close_of(f),
                                        t,
                                        pos_it + 1,
                                    );
                                    assert(close_of(f) =~= seq!['}']);
                                    assert(forall|j: int| pos_it <= j < e ==> t[j] != '\n');
                                    assert(e == t.len() || t[e] == '\n');
                                    assert(pos_it == 0 || t[pos_it - 1] == '\n');
                                    if cpre.len() > 0 {
                                        lemma_lines_rep_last_nl(cpre, t, 0, pos_it);
                                    }
                                    assert(contents@ == cpre.push(node));
                                    lemma_lines_rep_push(cpre, t, 0, pos_it, node, e);
                                }
                            }
                            allow_merge = true;
                        },
                        Token::CommandStartMarker(_) => {
                            let nd = match self.parse_command() {
                                Ok(n) => n,
                                Err(e) => {
                                    return Err(e);
                                },
                            };
                            push_merge(&mut contents, nd, allow_merge);
                            allow_merge = true;
                        },
                        Token::BlockCommentStartMarker(_) => {
                            match self.parse_block_comment() {
                                Ok(()) => {},
                                Err(e) => {
                                    return Err(e);
                                },
                            }
                            allow_merge = false;
                        },
                        Token::LineCommentStartMarker(_) => {
                            match self.parse_line_comment() {
                                Ok(nl_opt) => match nl_opt {
                                    Some(nl_pos) => {
                                        proof {
                                            reveal_strlit("\n");
                                        }
                                        let node = AstNode::AstTextNode {
                                            content: String::from_str("\n"),
                                            source_start_col: nl_pos.1,
                                            source_start_line: nl_pos.0,
                                        };
                                        proof {
                                            assert(node->AstTextNode_content@ =~= seq!['\n']);
                                            assert(wf_node(node));
                                        }
                                        push_merge(&mut contents, node, allow_merge);
                                        allow_merge = true;
                                    },
                                    None => {},
                                },
                                Err(e) => {
                                    return Err(e);
                                },
                            }
                        },
                        Token::OpenCurly(oc) => {
                            proof {
                                assert(self.pos() > pos_it);
                                assert(curly_bal < usize::MAX);
                                assert(oc@ == f);
                                assert(!crate::ast::has_newline(oc@)) by {
                                    if crate::ast::has_newline(f) {
                                        let i = choose|i: int|
                                            0 <= i < f.len() && f[i] == '\n';
                                        if f.len() == 1 {
                                            assert(f[0] == '{');
                                        } else if i == 0 {
                                            assert(f[0] == '|');
                                        } else if i == f.len() - 1 {
                                            assert(f.last() == '{');
                                        } else {
                                            assert(crate::escape::is_escape_symbol(f[i]));
                                        }
                                    }
                                }
                            }
                            curly_bal = curly_bal + 1;
                            let node = AstNode::AstTextNode {
                                content: String::from_str(oc),
                                source_start_col: pos_pair.1,
                                source_start_line: pos_pair.0,
                            };
                            proof {
                                assert(wf_node(node));
                            }
                            push_merge(&mut contents, node, allow_merge);
                            allow_merge = true;
                        },
                        Token::CloseCurly(cc) => {
                            proof {
                                assert(cc@ == close_of(f));
                                assert(!crate::ast::has_newline(cc@)) by {
                                    let cl = close_of(f);
                                    if crate::ast::has_newline(cl) {
                                        let i = choose|i: int|
                                            0 <= i < cl.len() && cl[i] == '\n';
                                        if f.len() == 1 {
                                            assert(cl =~= seq!['}']);
                                        } else {
                                            let mr = crate::escape::mirror_rev(
                                                f.subrange(1, f.len() - 1),
                                            );
                                            assert(cl =~= mr + seq!['}'] + seq!['|']);
                                            if i < mr.len() {
                                                assert(cl[i] == mr[i]);
                                                assert(mr[i] == crate::escape::mirror_char(
                                                    f.subrange(1, f.len() - 1)[mr.len() - 1 - i],
                                                ));
                                            } else if i == mr.len() {
                                                assert(cl[i] == '}');
                                            } else {
                                                assert(cl[i] == '|');
                                            }
                                        }
                                    }
                                }
                            }
                            curly_bal = curly_bal - 1;
                            if curly_bal == 0 {
                                if root_context {
                                    return Err(
                                        ParserError::UnexpectedToken {
                                            line: pos_pair.0,
                                            col: pos_pair.1,
                                        },
                                    );
                                } else {
                                    break;
                                }
                            } else {
                                let node = AstNode::AstTextNode {
                                    content: String::from_str(cc),
                                    source_start_col: pos_pair.1,
                                    source_start_line: pos_pair.0,
                                };
                                proof {
                                    assert(wf_node(node));
                                }
                                push_merge(&mut contents, node, allow_merge);
                                allow_merge = true;
                            }
                        },
                        _ => {
                            return Err(
                                ParserError::UnexpectedToken {
                                    line: pos_pair.0,
                                    col: pos_pair.1,
                                },
                            );
                        },
                    },
                },
            }
            proof {
                self.tokenizer.lemma_wf_bounds();
            }
        }
        self.tokenizer.pop_context();
        proof {
            assert(pre.stack().push(TokenizerContext::Text).drop_last() =~= pre.stack());
            assert(pre.scopes().push(gec).drop_last() =~= pre.scopes());
        }
        Ok(contents)
    }

    /// Parses the whole document into a root node. All input must be
    /// consumed; a parse that returns at all returns either the finished
    /// tree or the first error.
    pub fn parse(&mut self) -> (r: Result<AstNode, ParserError>)
        requires
            old(self).fresh(),
        ensures
            final(self).inv(),
            final(self).text() == old(self).text(),
            (r matches Err(pe) && pe is TokenizerError) ==> has_lone_cr(old(self).text()),
            r matches Ok(nd) ==> {
                &&& nd is AstRootNode
                &&& wf_node(nd)
                &&& final(self).pos() == final(self).text().len()
                &&& final(self).valid()
            },
            simple_doc(old(self).text()) ==> (r matches Ok(nd) && nd matches
                AstNode::AstRootNode { sub_nodes } && lines_rep(
                sub_nodes@,
                old(self).text(),
                0,
                old(self).text().len() as int,
            )),
            old(self).text().len() > 0 && old(self).text()[0] == '}' ==> r is Err,
            doc_starts_with_bad_command_name(old(self).text()) ==> (r matches Err(pe)
                && pe is MalformedCommand),
            doc_is_lone_command(old(self).text()) ==> (r matches Ok(nd) && nd matches
                AstNode::AstRootNode { sub_nodes } && sub_nodes@.len() == 1 && (sub_nodes@[0]
                matches AstNode::AstCommandNode { command_name, square_args, curly_args }
                && command_name@ == old(self).text().subrange(
                1,
                crate::tokenizer::run_end(
                    TokenizerContext::CommandName,
                    spec_default_cfg(),
                    seq!['}'],
                    old(self).text(),
                    2,
                ),
            ) && square_args is None && curly_args@.len() == 0)),
            all_plain(old(self).text()) && old(self).text().len() > 0 ==> (r matches Ok(nd)
                && nd matches AstNode::AstRootNode { sub_nodes } && sub_nodes@.len() == 1
                && is_text_node_with(sub_nodes@[0], old(self).text(), 1, 1)),
            old(self).text().len() == 0 ==> (r matches Ok(nd) && nd matches AstNode::AstRootNode {
                sub_nodes,
            } && sub_nodes@.len() == 0),
    {
        let nodes = match self.parse_text(true) {
            Ok(n) => n,
            Err(e) => {
                return Err(e);
            },
        };
        Ok(AstNode::AstRootNode { sub_nodes: nodes })
    }
}

} // verus!
