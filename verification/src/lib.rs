//! Parser for the LaPoL document markup language.
//!
//! LaPoL source text mixes literal prose with embedded command invocations
//! (`@name[...]{...}`), nested brace-delimited arguments, escapable braces
//! (`|<{ ... >}|`), and line (`@% ...`) and block (`@%{ ... }`) comments.
//! This crate turns such text into a concrete syntax tree.
//!
//! The pipeline is a context-sensitive tokenizer (a stack of lexical modes,
//! each paired with the escape/delimiter set in force) driven by a
//! recursive-descent parser that merges adjacent text runs, tracks brace
//! balance per nesting level, and builds the [`ast::AstNode`] tree.

use vstd::prelude::*;

pub mod ast;
pub mod config;
pub mod context;
pub mod escape;
pub mod identifier;
pub mod matching;
pub mod parser;
pub mod string;
pub mod token;
pub mod tokenizer;

verus! {

/// Parses one LaPoL document into its syntax tree, or reports the first
/// error. The whole input is consumed on success; a document of plain
/// prose without newlines parses to a single merged text node holding the
/// whole input.
pub fn parse(input: &str) -> (r: Result<ast::AstNode, parser::ParserError>)
    requires
        input@.len() < usize::MAX,
    ensures
        r matches Ok(nd) ==> nd is AstRootNode && ast::wf_node(nd),
        (r matches Err(pe) && pe is TokenizerError) ==> parser::has_lone_cr(input@),
        input@.len() > 0 && input@[0] == '}' ==> r is Err,
        parser::doc_starts_with_bad_command_name(input@) ==> (r matches Err(pe)
            && pe is MalformedCommand),
        parser::doc_is_lone_command(input@) ==> (r matches Ok(nd) && nd matches
            ast::AstNode::AstRootNode { sub_nodes } && sub_nodes@.len() == 1 && (sub_nodes@[0]
            matches ast::AstNode::AstCommandNode { command_name, square_args, curly_args }
            && command_name@ == input@.subrange(
            1,
            tokenizer::run_end(
                context::TokenizerContext::CommandName,
                config::spec_default_cfg(),
                seq!['}'],
                input@,
                2,
            ),
        ) && square_args is None && curly_args@.len() == 0)),
        parser::simple_doc(input@) ==> (r matches Ok(nd) && nd matches ast::AstNode::AstRootNode {
            sub_nodes,
        } && parser::lines_rep(sub_nodes@, input@, 0, input@.len() as int)),
        parser::all_plain(input@) && input@.len() > 0 ==> (r matches Ok(nd)
            && nd matches ast::AstNode::AstRootNode { sub_nodes } && sub_nodes@.len() == 1
            && ast::is_text_node_with(sub_nodes@[0], input@, 1, 1)),
        input@.len() == 0 ==> (r matches Ok(nd) && nd matches ast::AstNode::AstRootNode {
            sub_nodes,
        } && sub_nodes@.len() == 0),
{
    let tokenizer = tokenizer::Tokenizer::new(input, None);
    let mut p = parser::Parser::new(tokenizer);
    p.parse()
}

} // verus!
