//! The resolver, identifiers, string literals, matching, and the
//! tokenizer, each exercised on its own.

use lapol_parse::ast::AstNode;
use lapol_parse::config::default_tokenizer_cfg;
use lapol_parse::context::EscapeCtx;
use lapol_parse::context::TokenizerContext;
use lapol_parse::context::default_escape_ctx;
use lapol_parse::escape::escape_matching_char;
use lapol_parse::escape::get_matching_close_curly;
use lapol_parse::escape::get_matching_escape;
use lapol_parse::identifier::identifier;
use lapol_parse::identifier::is_reserved_identifier;
use lapol_parse::identifier::is_valid_identifier;
use lapol_parse::matching::MatchInProgress;
use lapol_parse::parser::Parser;
use lapol_parse::parser::scan_bool;
use lapol_parse::parser::scan_number;
use lapol_parse::string::parse_string;
use lapol_parse::token::Token;
use lapol_parse::tokenizer::Tokenizer;

#[test]
fn close_curly_of_plain_open_is_plain_close() {
    assert_eq!(get_matching_close_curly("{"), "}");
}

#[test]
fn close_curly_of_escaped_opens() {
    assert_eq!(get_matching_close_curly("|{"), "}|");
    assert_eq!(get_matching_close_curly("|<{"), ">}|");
    assert_eq!(get_matching_close_curly("|([{"), "])}|");
    assert_eq!(get_matching_close_curly("|<([{"), "])>}|");
}

#[test]
fn escape_prefix_is_the_opener_without_its_brace() {
    assert_eq!(get_matching_escape("{"), "");
    assert_eq!(get_matching_escape("|{"), "|");
    assert_eq!(get_matching_escape("|<{"), "|<");
    assert_eq!(get_matching_escape("|([{"), "|([");
}

#[test]
fn escape_symbols_mirror() {
    assert_eq!(escape_matching_char('<'), '>');
    assert_eq!(escape_matching_char('('), ')');
    assert_eq!(escape_matching_char('['), ']');
}

#[test]
fn each_escaped_open_form_round_trips_through_a_parse() {
    // The computed closing form, appended after a body free of it,
    // closes the construct that its opening form opened.
    for open in ["{", "|{", "|<{", "|([{", "|<([{"] {
        let close = get_matching_close_curly(open);
        let doc = format!("@c{}body{}", open, close);
        let tokenizer = Tokenizer::new(&doc, None);
        let mut p = Parser::new(tokenizer);
        let root = p.parse().expect("the computed close must close the construct");
        match root {
            AstNode::AstRootNode { sub_nodes } => {
                assert_eq!(sub_nodes.len(), 1, "{}: {:?}", open, sub_nodes);
                match &sub_nodes[0] {
                    AstNode::AstCommandNode { curly_args, .. } => {
                        assert_eq!(curly_args.len(), 1);
                        match &curly_args[0][0] {
                            AstNode::AstTextNode { content, .. } => assert_eq!(content, "body"),
                            other => panic!("expected text: {:?}", other),
                        }
                    }
                    other => panic!("expected a command: {:?}", other),
                }
            }
            other => panic!("expected a root: {:?}", other),
        }
    }
}

#[test]
fn reserved_identifiers_ignore_ascii_case() {
    for w in ["true", "TRUE", "True", "false", "null", "NULL", "undefined", "uNdEfInEd"] {
        assert!(is_reserved_identifier(w), "{}", w);
    }
    for w in ["truth", "nulls", "undefine", "fals", ""] {
        assert!(!is_reserved_identifier(w), "{}", w);
    }
}

#[test]
fn identifier_shapes() {
    assert!(is_valid_identifier("_a1"));
    assert!(is_valid_identifier("Abc_9"));
    assert!(!is_valid_identifier(""));
    assert!(!is_valid_identifier("9x"));
    assert!(!is_valid_identifier("a-b"));
}

#[test]
fn identifier_scans_the_maximal_run() {
    assert_eq!(identifier("abc def"), Some(("abc", 3)));
    assert_eq!(identifier("a1_b,"), Some(("a1_b", 4)));
    assert_eq!(identifier("true "), None);
    assert_eq!(identifier("TRUE "), None);
    assert_eq!(identifier("trueish "), Some(("trueish", 7)));
    assert_eq!(identifier("9x"), None);
    assert_eq!(identifier(""), None);
}

#[test]
fn boolean_literals_scan_by_prefix_without_a_boundary() {
    assert_eq!(scan_bool("true"), Some((true, 4)));
    assert_eq!(scan_bool("FALSEx"), Some((false, 5)));
    assert_eq!(scan_bool("TrUe, 1"), Some((true, 4)));
    assert_eq!(scan_bool("tru"), None);
    assert_eq!(scan_bool("xtrue"), None);
}

#[test]
fn numeric_literals_scan_their_longest_prefix() {
    assert_eq!(scan_number("1"), Some(1));
    assert_eq!(scan_number("-12.5e+3]"), Some(8));
    assert_eq!(scan_number(".5x"), Some(2));
    assert_eq!(scan_number("3."), Some(2));
    assert_eq!(scan_number("1e"), Some(1));
    assert_eq!(scan_number("+"), None);
    assert_eq!(scan_number(".x"), None);
    assert_eq!(scan_number("x1"), None);
}

#[test]
fn quoted_string_parses_and_counts_characters() {
    assert_eq!(parse_string("\"ab\" rest"), Some(("ab".to_string(), 4)));
    assert_eq!(parse_string("\"a\\nb\""), Some(("a\nb".to_string(), 6)));
    assert_eq!(parse_string("\"q\\\"t\\\\u\""), Some(("q\"t\\u".to_string(), 9)));
    assert_eq!(parse_string("\"\""), Some((String::new(), 2)));
}

#[test]
fn quoted_string_rejects_bad_or_missing_literals() {
    assert_eq!(parse_string("x\"a\""), None);
    assert_eq!(parse_string(""), None);
    assert_eq!(parse_string("\"unterminated"), None);
    assert_eq!(parse_string("\"bad\\qescape\""), None);
    assert_eq!(parse_string("\"ends in backslash\\"), None);
}

#[test]
fn match_in_progress_consumes_literals_in_order() {
    let mut m = MatchInProgress::new("abcdef", 10);
    assert!(m.can_match("abc"));
    assert!(!m.can_match("abd"));
    assert!(m.perform_match("ab"));
    assert_eq!(m.num_chars_matched(), 2);
    assert_eq!(m.curr_relative_idx(), 2);
    assert_eq!(m.curr_text_idx(), 12);
    assert!(m.can_match_char(&'c'));
    assert!(m.perform_match_char(&'c'));
    assert!(!m.perform_match_char(&'x'));
    assert_eq!(m.num_chars_matched(), 3);
    assert!(!m.perform_match("zzz"));
    assert_eq!(m.curr_text_idx(), 13);
}

#[test]
fn match_in_progress_whitespace_run() {
    let mut m = MatchInProgress::new(" \t\n x", 0);
    assert_eq!(m.match_whitespace(), 4);
    assert!(m.can_match_char(&'x'));
    let mut none = MatchInProgress::new("x", 0);
    assert_eq!(none.match_whitespace(), 0);
}

#[test]
fn tokenizer_yields_text_braces_and_newlines() {
    let cfg = default_tokenizer_cfg();
    let mut t = Tokenizer::new("ab{c}\nd", None);
    t.push_context(TokenizerContext::Text, default_escape_ctx(&cfg));
    assert_eq!(t.cursor_pos(), (1, 1));
    assert!(matches!(t.next(), Some(Ok(Token::Text("ab")))));
    assert_eq!(t.cursor_pos(), (1, 3));
    assert!(matches!(t.next(), Some(Ok(Token::OpenCurly("{")))));
    assert!(matches!(t.next(), Some(Ok(Token::Text("c")))));
    assert!(matches!(t.next(), Some(Ok(Token::CloseCurly("}")))));
    assert!(matches!(t.next(), Some(Ok(Token::Newline("\n")))));
    assert_eq!(t.cursor_pos(), (2, 1));
    assert!(matches!(t.next(), Some(Ok(Token::Text("d")))));
    assert!(t.next().is_none());
    assert!(t.next().is_none());
}

#[test]
fn mirror_characters_do_not_split_runs_in_the_plain_scope() {
    let cfg = default_tokenizer_cfg();
    let mut t = Tokenizer::new("a>b)c]d", None);
    t.push_context(TokenizerContext::Text, default_escape_ctx(&cfg));
    assert!(matches!(t.next(), Some(Ok(Token::Text("a>b)c]d")))));
    assert!(t.next().is_none());
}

#[test]
fn tokenizer_marks_commands_and_comments() {
    let cfg = default_tokenizer_cfg();
    let mut t = Tokenizer::new("@cmd@%x@%{", None);
    t.push_context(TokenizerContext::Text, default_escape_ctx(&cfg));
    assert!(matches!(t.next(), Some(Ok(Token::CommandStartMarker("@")))));
    assert!(matches!(t.next(), Some(Ok(Token::Text("cmd")))));
    assert!(matches!(t.next(), Some(Ok(Token::LineCommentStartMarker("@%")))));
    assert!(matches!(t.next(), Some(Ok(Token::Text("x")))));
    assert!(matches!(t.next(), Some(Ok(Token::BlockCommentStartMarker("@%")))));
}

#[test]
fn tokenizer_matches_escaped_brace_form_when_expected() {
    let cfg = default_tokenizer_cfg();
    let mut t = Tokenizer::new("|<[{x", None);
    t.push_context(TokenizerContext::GenericCurlyStart, default_escape_ctx(&cfg));
    assert!(matches!(t.next(), Some(Ok(Token::OpenCurly("|<[{")))));
}

#[test]
fn tokenizer_reports_a_lone_carriage_return() {
    let cfg = default_tokenizer_cfg();
    let mut t = Tokenizer::new("a\rb", None);
    t.push_context(TokenizerContext::Text, default_escape_ctx(&cfg));
    assert!(matches!(t.next(), Some(Ok(Token::Text("a")))));
    assert!(matches!(t.next(), Some(Err(_))));
    assert!(t.next().is_none());
}

#[test]
fn default_config_characters() {
    let cfg = default_tokenizer_cfg();
    assert_eq!(cfg.special_char, '@');
    assert_eq!(cfg.comment_marker_char, '%');
    assert_eq!(cfg.open_curly_char, '{');
    assert_eq!(cfg.close_curly_char, '}');
    assert_eq!(cfg.open_square_char, '[');
    assert_eq!(cfg.close_square_char, ']');
    assert_eq!(cfg.special_brace_char, '|');
    assert_eq!(cfg.command_force_end_char, ';');
}

#[test]
fn default_escape_scope_spellings() {
    let cfg = default_tokenizer_cfg();
    let ec: EscapeCtx = default_escape_ctx(&cfg);
    assert_eq!(ec.open_curly, "{");
    assert_eq!(ec.close_curly, "}");
    assert_eq!(ec.special, "@");
}

#[test]
fn tokenizer_cursor_and_context_stack_api() {
    let cfg = default_tokenizer_cfg();
    let mut t = Tokenizer::new("ab", None);
    assert_eq!(t.prev_char_idx(), 0);
    assert_eq!(t.next_char_idx(), 0);
    assert!(t.peek_match("ab"));
    assert!(!t.peek_match("abc"));
    t.push_context(TokenizerContext::Text, default_escape_ctx(&cfg));
    let ec = t.get_escape_match(None);
    assert_eq!(ec.special, "@");
    assert_eq!(t.curr_escape_ctx().open_curly, "{");
    assert_eq!(t.char_it_next(), Some((0, 'a')));
    assert_eq!(t.prev_char_idx(), 0);
    assert_eq!(t.next_char_idx(), 1);
    assert_eq!(t.char_it_next_many(1), Some((1, 'b')));
    assert_eq!(t.char_it_next(), None);
    assert_eq!(t.char_it_next_many(3), None);
    let m = t.start_match();
    assert_eq!(m.num_chars_matched(), 0);
    let popped = t.pop_context();
    assert!(matches!(popped, Some((TokenizerContext::Text, _))));
    assert!(t.pop_context().is_none());
}

#[test]
fn escape_scope_of_an_escaped_open_form() {
    let cfg = default_tokenizer_cfg();
    let t = Tokenizer::new("x", None);
    let ec = t.get_escape_match(Some(Token::OpenCurly("|<{")));
    assert_eq!(ec.open_curly, "|<{");
    assert_eq!(ec.close_curly, ">}|");
    assert_eq!(ec.special, "|<@");
    let _ = cfg;
}

#[test]
fn parse_text_region_consumes_one_brace_form() {
    let tokenizer = Tokenizer::new("{abc}", None);
    let mut p = Parser::new(tokenizer);
    let nodes = p.parse_text(false).expect("the region parses");
    assert_eq!(nodes.len(), 1);
    match &nodes[0] {
        AstNode::AstTextNode { content, .. } => assert_eq!(content, "abc"),
        other => panic!("expected text: {:?}", other),
    }
}
