//! End-to-end parses of whole documents.

use lapol_parse::ast::AstNode;
use lapol_parse::ast::SquareArg;
use lapol_parse::ast::SquareEntry;
use lapol_parse::parse;
use lapol_parse::parser::ParserError;
use lapol_parse::tokenizer::TokenizerError;

fn text_node(content: &str, line: usize, col: usize) -> AstNode {
    AstNode::AstTextNode {
        content: content.to_string(),
        source_start_col: col,
        source_start_line: line,
    }
}

fn root_of(r: Result<AstNode, ParserError>) -> Vec<AstNode> {
    match r.expect("parse should succeed") {
        AstNode::AstRootNode { sub_nodes } => sub_nodes,
        other => panic!("not a root node: {:?}", other),
    }
}

#[test]
fn empty_document_parses_to_empty_root() {
    assert_eq!(root_of(parse("")), Vec::<AstNode>::new());
}

#[test]
fn plain_text_is_one_merged_node() {
    assert_eq!(root_of(parse("hello world")), vec![text_node("hello world", 1, 1)]);
}

#[test]
fn braces_in_text_merge_back_into_one_node() {
    assert_eq!(root_of(parse("a{b}c")), vec![text_node("a{b}c", 1, 1)]);
}

#[test]
fn newline_is_its_own_boundary_node() {
    assert_eq!(
        root_of(parse("a\nb")),
        vec![text_node("a", 1, 1), text_node("\n", 1, 2), text_node("b", 2, 1)]
    );
}

#[test]
fn crlf_yields_a_lone_linefeed_node() {
    assert_eq!(
        root_of(parse("a\r\nb")),
        vec![text_node("a", 1, 1), text_node("\n", 1, 2), text_node("b", 2, 1)]
    );
}

#[test]
fn command_with_force_end_has_no_args() {
    let nodes = root_of(parse("@cmd;"));
    assert_eq!(nodes.len(), 1);
    match &nodes[0] {
        AstNode::AstCommandNode { command_name, square_args, curly_args } => {
            assert_eq!(command_name, "cmd");
            assert!(square_args.is_none());
            assert!(curly_args.is_empty());
        }
        other => panic!("expected a command node: {:?}", other),
    }
}

#[test]
fn command_with_two_keyval_square_args() {
    let nodes = root_of(parse("@cmd[a=1, b=true];"));
    assert_eq!(nodes.len(), 1);
    match &nodes[0] {
        AstNode::AstCommandNode { command_name, square_args, curly_args } => {
            assert_eq!(command_name, "cmd");
            assert!(curly_args.is_empty());
            let args = square_args.as_ref().expect("square args expected");
            assert_eq!(
                args,
                &vec![
                    SquareArg::KeyVal(
                        SquareEntry::Ident("a".to_string()),
                        SquareEntry::Num("1".to_string()),
                    ),
                    SquareArg::KeyVal(
                        SquareEntry::Ident("b".to_string()),
                        SquareEntry::Bool(true),
                    ),
                ]
            );
        }
        other => panic!("expected a command node: {:?}", other),
    }
}

#[test]
fn command_with_two_curly_args() {
    let nodes = root_of(parse("@cmd{x}{y}"));
    assert_eq!(nodes.len(), 1);
    match &nodes[0] {
        AstNode::AstCommandNode { command_name, square_args, curly_args } => {
            assert_eq!(command_name, "cmd");
            assert!(square_args.is_none());
            assert_eq!(
                curly_args,
                &vec![vec![text_node("x", 1, 6)], vec![text_node("y", 1, 9)]]
            );
        }
        other => panic!("expected a command node: {:?}", other),
    }
}

#[test]
fn block_comment_contributes_nothing_and_breaks_merging() {
    let nodes = root_of(parse("before @%{ @weird {nested} stuff } after"));
    assert_eq!(nodes, vec![text_node("before ", 1, 1), text_node(" after", 1, 35)]);
}

#[test]
fn line_comment_ends_at_newline_which_stays_a_boundary() {
    let nodes = root_of(parse("a @% comment\nb"));
    assert_eq!(
        nodes,
        vec![text_node("a ", 1, 1), text_node("\n", 1, 13), text_node("b", 2, 1)]
    );
}

#[test]
fn line_comment_at_end_of_input_is_accepted() {
    assert_eq!(root_of(parse("a @% trailing")), vec![text_node("a ", 1, 1)]);
}

#[test]
fn unclosed_square_list_is_a_malformed_command() {
    let err = parse("@cmd[unclosed").unwrap_err();
    assert!(matches!(err, ParserError::MalformedCommand { .. }), "got {:?}", err);
}

#[test]
fn reserved_word_as_command_name_is_rejected() {
    for doc in ["@true;", "@false;", "@null;", "@undefined;", "@TRUE;", "@Null;"] {
        let err = parse(doc).unwrap_err();
        assert!(matches!(err, ParserError::MalformedCommand { .. }), "{}: {:?}", doc, err);
    }
}

#[test]
fn reserved_word_as_square_identifier_is_rejected() {
    for doc in ["@cmd[null]", "@cmd[undefined]", "@cmd[NULL]", "@cmd[a=null]"] {
        let err = parse(doc).unwrap_err();
        assert!(matches!(err, ParserError::MalformedCommand { .. }), "{}: {:?}", doc, err);
    }
}

#[test]
fn true_and_false_are_booleans_not_identifiers() {
    let nodes = root_of(parse("@cmd[true, FALSE];"));
    match &nodes[0] {
        AstNode::AstCommandNode { square_args, .. } => {
            assert_eq!(
                square_args.as_ref().unwrap(),
                &vec![
                    SquareArg::Val(SquareEntry::Bool(true)),
                    SquareArg::Val(SquareEntry::Bool(false)),
                ]
            );
        }
        other => panic!("expected a command node: {:?}", other),
    }
}

#[test]
fn numeric_literals_keep_their_spelling() {
    let nodes = root_of(parse("@cmd[1.5e3, -2, .5, 3.];"));
    match &nodes[0] {
        AstNode::AstCommandNode { square_args, .. } => {
            assert_eq!(
                square_args.as_ref().unwrap(),
                &vec![
                    SquareArg::Val(SquareEntry::Num("1.5e3".to_string())),
                    SquareArg::Val(SquareEntry::Num("-2".to_string())),
                    SquareArg::Val(SquareEntry::Num(".5".to_string())),
                    SquareArg::Val(SquareEntry::Num("3.".to_string())),
                ]
            );
        }
        other => panic!("expected a command node: {:?}", other),
    }
}

#[test]
fn quoted_string_entry_decodes_escapes() {
    let nodes = root_of(parse("@cmd[\"he\\\"l\\nlo\"];"));
    match &nodes[0] {
        AstNode::AstCommandNode { square_args, .. } => {
            assert_eq!(
                square_args.as_ref().unwrap(),
                &vec![SquareArg::Val(SquareEntry::QuotedStr("he\"l\nlo".to_string()))]
            );
        }
        other => panic!("expected a command node: {:?}", other),
    }
}

#[test]
fn nested_command_in_square_entry() {
    let nodes = root_of(parse("@a[k=@b{x}]"));
    match &nodes[0] {
        AstNode::AstCommandNode { command_name, square_args, .. } => {
            assert_eq!(command_name, "a");
            let args = square_args.as_ref().unwrap();
            assert_eq!(args.len(), 1);
            match &args[0] {
                SquareArg::KeyVal(SquareEntry::Ident(k), SquareEntry::AstNode(n)) => {
                    assert_eq!(k, "k");
                    match n {
                        AstNode::AstCommandNode { command_name, curly_args, .. } => {
                            assert_eq!(command_name, "b");
                            assert_eq!(curly_args.len(), 1);
                        }
                        other => panic!("expected a nested command: {:?}", other),
                    }
                }
                other => panic!("expected key=command: {:?}", other),
            }
        }
        other => panic!("expected a command node: {:?}", other),
    }
}

#[test]
fn trailing_comma_in_square_list_is_allowed() {
    let nodes = root_of(parse("@cmd[1,];"));
    match &nodes[0] {
        AstNode::AstCommandNode { square_args, .. } => {
            assert_eq!(
                square_args.as_ref().unwrap(),
                &vec![SquareArg::Val(SquareEntry::Num("1".to_string()))]
            );
        }
        other => panic!("expected a command node: {:?}", other),
    }
}

#[test]
fn empty_square_list_is_allowed() {
    let nodes = root_of(parse("@cmd[];"));
    match &nodes[0] {
        AstNode::AstCommandNode { square_args, .. } => {
            assert_eq!(square_args.as_ref().unwrap().len(), 0);
        }
        other => panic!("expected a command node: {:?}", other),
    }
}

#[test]
fn nested_braces_balance_inside_a_curly_arg() {
    let nodes = root_of(parse("@c{a{b}c}"));
    match &nodes[0] {
        AstNode::AstCommandNode { curly_args, .. } => {
            assert_eq!(curly_args, &vec![vec![text_node("a{b}c", 1, 4)]]);
        }
        other => panic!("expected a command node: {:?}", other),
    }
}

#[test]
fn escaped_brace_arg_lets_plain_braces_through() {
    let nodes = root_of(parse("@c|<{a}b>}|"));
    match &nodes[0] {
        AstNode::AstCommandNode { curly_args, .. } => {
            assert_eq!(curly_args, &vec![vec![text_node("a}b", 1, 6)]]);
        }
        other => panic!("expected a command node: {:?}", other),
    }
}

#[test]
fn command_inside_escaped_scope_needs_the_scope_prefix() {
    let nodes = root_of(parse("@c|<{a |<@d; b>}|"));
    match &nodes[0] {
        AstNode::AstCommandNode { command_name, curly_args, .. } => {
            assert_eq!(command_name, "c");
            assert_eq!(curly_args.len(), 1);
            let arg = &curly_args[0];
            assert_eq!(arg.len(), 3);
            assert_eq!(arg[0], text_node("a ", 1, 6));
            match &arg[1] {
                AstNode::AstCommandNode { command_name, .. } => assert_eq!(command_name, "d"),
                other => panic!("expected the nested command: {:?}", other),
            }
            assert_eq!(arg[2], text_node(" b", 1, 13));
        }
        other => panic!("expected a command node: {:?}", other),
    }
}

#[test]
fn whitespace_before_curly_arg_is_skippable() {
    let nodes = root_of(parse("@cmd {x}"));
    match &nodes[0] {
        AstNode::AstCommandNode { curly_args, .. } => {
            assert_eq!(curly_args, &vec![vec![text_node("x", 1, 7)]]);
        }
        other => panic!("expected a command node: {:?}", other),
    }
}

#[test]
fn comment_between_name_and_curly_arg_is_skippable() {
    let nodes = root_of(parse("@cmd @%{note} {x}"));
    match &nodes[0] {
        AstNode::AstCommandNode { curly_args, .. } => {
            assert_eq!(curly_args, &vec![vec![text_node("x", 1, 16)]]);
        }
        other => panic!("expected a command node: {:?}", other),
    }
}

#[test]
fn text_after_command_without_args_is_kept() {
    let nodes = root_of(parse("@cmd x"));
    assert_eq!(nodes.len(), 2);
    match &nodes[0] {
        AstNode::AstCommandNode { command_name, square_args, curly_args } => {
            assert_eq!(command_name, "cmd");
            assert!(square_args.is_none());
            assert!(curly_args.is_empty());
        }
        other => panic!("expected a command node: {:?}", other),
    }
    assert_eq!(nodes[1], text_node(" x", 1, 5));
}

#[test]
fn force_end_after_square_args_keeps_following_text() {
    let nodes = root_of(parse("@cmd[1];after"));
    assert_eq!(nodes.len(), 2);
    assert_eq!(nodes[1], text_node("after", 1, 9));
}

#[test]
fn trailing_force_end_after_curly_args_is_consumed() {
    let nodes = root_of(parse("@cmd{x};"));
    assert_eq!(nodes.len(), 1);
    assert!(matches!(&nodes[0], AstNode::AstCommandNode { .. }));
}

#[test]
fn close_curly_at_root_is_an_error() {
    let err = parse("}").unwrap_err();
    assert!(matches!(err, ParserError::UnexpectedToken { .. }), "got {:?}", err);
}

#[test]
fn lone_carriage_return_is_the_tokenizer_error() {
    let err = parse("a\rb").unwrap_err();
    assert!(
        matches!(err, ParserError::TokenizerError(TokenizerError::BadCarriageReturn)),
        "got {:?}",
        err
    );
}

#[test]
fn unterminated_block_comment_is_an_error() {
    let err = parse("x @%{ yy").unwrap_err();
    assert!(matches!(err, ParserError::UnexpectedEof { .. }), "got {:?}", err);
}

#[test]
fn unterminated_curly_arg_is_an_error() {
    let err = parse("@c{x").unwrap_err();
    assert!(matches!(err, ParserError::UnexpectedEof { .. }), "got {:?}", err);
}

#[test]
fn bad_identifier_after_command_start_is_malformed() {
    let err = parse("@1abc;").unwrap_err();
    assert!(matches!(err, ParserError::MalformedCommand { .. }), "got {:?}", err);
}

#[test]
fn command_start_before_brace_form_is_plain_text() {
    // `@` directly followed by `{` opens no command; both stay literal.
    assert_eq!(root_of(parse("a@{b}c")), vec![text_node("a@{b}c", 1, 1)]);
}

#[test]
fn line_comment_inside_block_comment_scope_is_just_text() {
    let nodes = root_of(parse("x@%{a@%b}y"));
    assert_eq!(nodes, vec![text_node("x", 1, 1), text_node("y", 1, 10)]);
}

#[test]
fn error_positions_point_at_the_offender() {
    match parse("ab\ncd}").unwrap_err() {
        ParserError::UnexpectedToken { line, col } => {
            assert_eq!((line, col), (2, 3));
        }
        other => panic!("expected an unexpected-token error: {:?}", other),
    }
}
