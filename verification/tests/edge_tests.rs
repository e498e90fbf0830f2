//! Edge cases of the grammar and of the error reporting.

use lapol_parse::ast::AstNode;
use lapol_parse::ast::SquareArg;
use lapol_parse::ast::SquareEntry;
use lapol_parse::parse;
use lapol_parse::parser::ParserError;
use lapol_parse::tokenizer::TokenizerError;

fn text_node(content: &str, line: usize, col: usize) -> AstNode {
    AstNode::AstTextNode {
        content: content.to_string(),
        source_start_col: col,
        source_start_line: line,
    }
}

fn root_of(r: Result<AstNode, ParserError>) -> Vec<AstNode> {
    match r.expect("parse should succeed") {
        AstNode::AstRootNode { sub_nodes } => sub_nodes,
        other => panic!("not a root node: {:?}", other),
    }
}

#[test]
fn empty_curly_arg_is_an_empty_node_list() {
    let nodes = root_of(parse("@c{}"));
    match &nodes[0] {
        AstNode::AstCommandNode { curly_args, .. } => {
            assert_eq!(curly_args, &vec![Vec::<AstNode>::new()]);
        }
        other => panic!("expected a command node: {:?}", other),
    }
}

#[test]
fn command_nested_in_a_curly_arg() {
    let nodes = root_of(parse("@a{@b{x}}"));
    match &nodes[0] {
        AstNode::AstCommandNode { command_name, curly_args, .. } => {
            assert_eq!(command_name, "a");
            assert_eq!(curly_args.len(), 1);
            match &curly_args[0][0] {
                AstNode::AstCommandNode { command_name, curly_args, .. } => {
                    assert_eq!(command_name, "b");
                    assert_eq!(curly_args, &vec![vec![text_node("x", 1, 7)]]);
                }
                other => panic!("expected the inner command: {:?}", other),
            }
        }
        other => panic!("expected a command node: {:?}", other),
    }
}

#[test]
fn line_comment_at_a_juncture_is_skipped_through_its_newline() {
    let nodes = root_of(parse("@cmd @% note\n{x}"));
    assert_eq!(nodes.len(), 1);
    match &nodes[0] {
        AstNode::AstCommandNode { curly_args, .. } => {
            assert_eq!(curly_args, &vec![vec![text_node("x", 2, 2)]]);
        }
        other => panic!("expected a command node: {:?}", other),
    }
}

#[test]
fn crlf_ends_a_line_comment() {
    let nodes = root_of(parse("a @% c\r\nb"));
    assert_eq!(
        nodes,
        vec![text_node("a ", 1, 1), text_node("\n", 1, 7), text_node("b", 2, 1)]
    );
}

#[test]
fn spaces_around_the_equals_sign_are_allowed() {
    let nodes = root_of(parse("@cmd[a = 1];"));
    match &nodes[0] {
        AstNode::AstCommandNode { square_args, .. } => {
            assert_eq!(
                square_args.as_ref().unwrap(),
                &vec![SquareArg::KeyVal(
                    SquareEntry::Ident("a".to_string()),
                    SquareEntry::Num("1".to_string()),
                )]
            );
        }
        other => panic!("expected a command node: {:?}", other),
    }
}

#[test]
fn newlines_inside_the_square_list_are_whitespace() {
    let nodes = root_of(parse("@cmd[\n a,\n b\n];"));
    match &nodes[0] {
        AstNode::AstCommandNode { square_args, .. } => {
            assert_eq!(
                square_args.as_ref().unwrap(),
                &vec![
                    SquareArg::Val(SquareEntry::Ident("a".to_string())),
                    SquareArg::Val(SquareEntry::Ident("b".to_string())),
                ]
            );
        }
        other => panic!("expected a command node: {:?}", other),
    }
}

#[test]
fn pipe_only_escape_form_closes_with_brace_then_pipe() {
    let nodes = root_of(parse("@c|{q}|"));
    match &nodes[0] {
        AstNode::AstCommandNode { curly_args, .. } => {
            assert_eq!(curly_args, &vec![vec![text_node("q", 1, 5)]]);
        }
        other => panic!("expected a command node: {:?}", other),
    }
}

#[test]
fn unmatched_open_brace_at_root_is_an_error() {
    let err = parse("{x").unwrap_err();
    assert!(matches!(err, ParserError::UnexpectedEof { .. }), "got {:?}", err);
}

#[test]
fn rebalanced_braces_at_root_are_literal_text() {
    assert_eq!(root_of(parse("{x}")), vec![text_node("{x}", 1, 1)]);
}

#[test]
fn doubled_comma_in_square_list_is_malformed() {
    let err = parse("@cmd[a,,];").unwrap_err();
    assert!(matches!(err, ParserError::MalformedCommand { .. }), "got {:?}", err);
}

#[test]
fn lone_comma_in_square_list_is_an_empty_list() {
    let nodes = root_of(parse("@cmd[,];"));
    match &nodes[0] {
        AstNode::AstCommandNode { square_args, .. } => {
            assert_eq!(square_args.as_ref().unwrap().len(), 0);
        }
        other => panic!("expected a command node: {:?}", other),
    }
}

#[test]
fn mirror_characters_in_the_plain_scope_are_ordinary_text() {
    assert_eq!(root_of(parse("f(x)[i]<y>")), vec![text_node("f(x)[i]<y>", 1, 1)]);
}

#[test]
fn carriage_return_inside_a_block_comment_is_still_fatal() {
    let err = parse("a @%{ x\ry }").unwrap_err();
    assert!(
        matches!(err, ParserError::TokenizerError(TokenizerError::BadCarriageReturn)),
        "got {:?}",
        err
    );
}

#[test]
fn error_messages_describe_the_error() {
    assert!(!TokenizerError::BadCarriageReturn.message().is_empty());
    assert!(!ParserError::TokenizerError(TokenizerError::BadCarriageReturn).message().is_empty());
    assert!(!ParserError::UnexpectedToken { line: 1, col: 1 }.message().is_empty());
    assert!(!ParserError::UnexpectedEof { line: 1, col: 1 }.message().is_empty());
    assert!(!ParserError::MalformedCommand { line: 1, col: 1 }.message().is_empty());
}

#[test]
fn square_entry_priority_bool_wins_over_identifier_prefix() {
    // `truex` begins with the boolean literal, whose match takes the
    // priority; the left-over `x` then breaks the list.
    let err = parse("@cmd[truex];").unwrap_err();
    assert!(matches!(err, ParserError::MalformedCommand { .. }), "got {:?}", err);
}

#[test]
fn garbage_in_square_list_is_malformed() {
    let err = parse("@cmd[a b];").unwrap_err();
    assert!(matches!(err, ParserError::MalformedCommand { .. }), "got {:?}", err);
}

#[test]
fn command_name_followed_by_dot_is_malformed() {
    let err = parse("@cmd.x;").unwrap_err();
    assert!(matches!(err, ParserError::MalformedCommand { .. }), "got {:?}", err);
}

#[test]
fn block_comment_start_without_a_brace_is_an_error() {
    let err = parse("a @%|x").unwrap_err();
    assert!(matches!(err, ParserError::UnexpectedToken { .. }), "got {:?}", err);
}
