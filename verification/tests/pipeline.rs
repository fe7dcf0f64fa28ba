//! End-to-end tests of the reformatting pipeline: bytes to tokens to
//! tree to canonical bytes.

use rulefmt::ast::Ast;
use rulefmt::ast::Statement;
use rulefmt::fmt;
use rulefmt::formatter::Formatter;
use rulefmt::lexer::Lexer;
use rulefmt::lexer::LexerFail;
use rulefmt::parser::Parser;
use rulefmt::parser::ParserFail;

fn pipeline(input: &[u8]) -> Vec<u8> {
    let tokens = Lexer::new().lex(input.to_vec()).expect("tokenize");
    let ast = Parser::new().parse(&tokens).expect("parse");
    Formatter::new().format(ast)
}

fn s(bytes: &[u8]) -> String {
    String::from_utf8_lossy(bytes).into_owned()
}

#[test]
fn set_statements_round_trip() {
    let out = pipeline(b"set x 1\nset y 2\n");
    assert_eq!(s(&out), "set x 1\nset y 2\n");
}

#[test]
fn conditional_gets_canonical_indentation() {
    let out = pipeline(b"if { $x > 1 } {\nset y 2\n}\n");
    assert_eq!(s(&out), "if { $x > 1 } {\n    set y 2\n}\n");
}

#[test]
fn reformatting_is_idempotent() {
    let input: &[u8] = b"# setup\nwhen RULE_INIT {\n  set x 1\n\n\n\n  if { $x > 1 } {\n    set y 2\n  } elseif { $x > 0 } {\n    set y 1\n  } else {\n    set y 0\n  }\n  switch $y {\n    \"a\" -\n    \"b\" {\n      node 1.1.1.1 80\n    }\n    default {\n      return\n    }\n  }\n}\n";
    let once = pipeline(input);
    let twice = pipeline(&once);
    assert_eq!(s(&twice), s(&once));
}

#[test]
fn token_texts_keep_every_non_space_byte() {
    let input: &[u8] = b"set   x  [ IP::addr $h ] ;\n";
    let tokens = Lexer::new().lex(input.to_vec()).expect("tokenize");
    let mut text: Vec<u8> = Vec::new();
    for t in &tokens {
        text.extend_from_slice(&t.token.text());
    }
    let strip = |b: &[u8]| -> Vec<u8> {
        b.iter().copied().filter(|&c| c != 32 && c != 9 && c != 59 && c != 13).collect()
    };
    assert_eq!(strip(&text), strip(input));
}

#[test]
fn balanced_braces_parse() {
    let input: &[u8] = b"if { $a } {\nif { $b } {\nset c 1\n}\n}\n";
    let tokens = Lexer::new().lex(input.to_vec()).expect("tokenize");
    assert!(Parser::new().parse(&tokens).is_ok());
}

#[test]
fn unbalanced_braces_report_mismatch() {
    let input: &[u8] = b"if { $a } {\nset c 1\n";
    let tokens = Lexer::new().lex(input.to_vec()).expect("tokenize");
    let err = Parser::new().parse(&tokens).unwrap_err();
    assert!(matches!(err, ParserFail::BracketMismatch));
}

#[test]
fn elseif_chain_flattens_with_else() {
    let input: &[u8] =
        b"if { $a } {\nset x 1\n} elseif { $b } {\nset x 2\n} elseif { $c } {\nset x 3\n} else {\nset x 4\n}\n";
    let tokens = Lexer::new().lex(input.to_vec()).expect("tokenize");
    let ast = Parser::new().parse(&tokens).expect("parse");
    match ast {
        Ast::Block(items) => {
            assert_eq!(items.len(), 1);
            match &items[0] {
                Ast::If { condition_body_clauses, maybe_block_if_false } => {
                    assert_eq!(condition_body_clauses.len(), 3);
                    assert!(maybe_block_if_false.is_some());
                },
                _ => panic!("expected a conditional node"),
            }
        },
        _ => panic!("expected a block"),
    }
}

#[test]
fn elseif_chain_flattens_without_else() {
    let input: &[u8] =
        b"if { $a } {\nset x 1\n} elseif { $b } {\nset x 2\n} elseif { $c } {\nset x 3\n}\n";
    let tokens = Lexer::new().lex(input.to_vec()).expect("tokenize");
    let ast = Parser::new().parse(&tokens).expect("parse");
    match ast {
        Ast::Block(items) => match &items[0] {
            Ast::If { condition_body_clauses, maybe_block_if_false } => {
                assert_eq!(condition_body_clauses.len(), 3);
                assert!(maybe_block_if_false.is_none());
            },
            _ => panic!("expected a conditional node"),
        },
        _ => panic!("expected a block"),
    }
}

#[test]
fn switch_fallthrough_arms_are_preserved_in_order() {
    let input: &[u8] = b"switch $v {\n\"a\" -\n\"b\" {\nset x 1\n}\n}\n";
    let tokens = Lexer::new().lex(input.to_vec()).expect("tokenize");
    let ast = Parser::new().parse(&tokens).expect("parse");
    match &ast {
        Ast::Block(items) => match &items[0] {
            Ast::Switch { condition, value_block_or_fallthrough_vec } => {
                assert_eq!(s(condition), "$v");
                assert_eq!(value_block_or_fallthrough_vec.len(), 2);
                assert_eq!(s(&value_block_or_fallthrough_vec[0].0), "\"a\"");
                assert!(value_block_or_fallthrough_vec[0].1.is_none());
                assert_eq!(s(&value_block_or_fallthrough_vec[1].0), "\"b\"");
                assert!(value_block_or_fallthrough_vec[1].1.is_some());
            },
            _ => panic!("expected a switch node"),
        },
        _ => panic!("expected a block"),
    }
    let out = Formatter::new().format(Parser::new().parse(&tokens).expect("parse"));
    assert_eq!(s(&out), "switch $v {\n    \"a\" -\n    \"b\" {\n        set x 1\n    }\n}\n");
}

#[test]
fn one_blank_line_is_kept() {
    let out = pipeline(b"set x 1\n\nset y 2\n");
    assert_eq!(s(&out), "set x 1\n\nset y 2\n");
}

#[test]
fn two_blank_lines_are_kept() {
    let out = pipeline(b"set x 1\n\n\nset y 2\n");
    assert_eq!(s(&out), "set x 1\n\n\nset y 2\n");
}

#[test]
fn five_blank_lines_compact_to_two() {
    let out = pipeline(b"set x 1\n\n\n\n\n\nset y 2\n");
    assert_eq!(s(&out), "set x 1\n\n\nset y 2\n");
}

#[test]
fn comment_renders_with_single_marker_space() {
    let out = pipeline(b"#   note\n");
    assert_eq!(s(&out), "# note\n");
}

#[test]
fn log_keeps_quoted_value() {
    let out = pipeline(b"log local0 \"hello  world\"\n");
    assert_eq!(s(&out), "log local0 \"hello  world\"\n");
}

#[test]
fn unterminated_log_string_fails() {
    let err = Lexer::new().lex(b"log local0 \"oops\n".to_vec()).unwrap_err();
    assert!(matches!(err, LexerFail::UnterminatedString));
}

#[test]
fn node_takes_substitution_expressions() {
    let out = pipeline(b"node [findclass $ip] 2123\n");
    assert_eq!(s(&out), "node [findclass $ip] 2123\n");
    let out = pipeline(b"snat ${addr} ${port}\n");
    assert_eq!(s(&out), "snat ${addr} ${port}\n");
}

#[test]
fn node_with_one_argument_fails() {
    let tokens = Lexer::new().lex(b"node 1.2.3.4\n".to_vec()).expect("tokenize");
    let err = Parser::new().parse(&tokens).unwrap_err();
    assert!(matches!(err, ParserFail::ExpectedExpression));
}

#[test]
fn malformed_switch_arm_fails() {
    let tokens = Lexer::new().lex(b"switch $x {\nfoo {\n}\n}\n".to_vec()).expect("tokenize");
    let err = Parser::new().parse(&tokens).unwrap_err();
    assert!(matches!(err, ParserFail::SwitchArmShape));
}

#[test]
fn statement_without_newline_in_block_fails() {
    let tokens = Lexer::new().lex(b"if { $a } { set x 1 }\n".to_vec()).expect("tokenize");
    let err = Parser::new().parse(&tokens).unwrap_err();
    assert!(matches!(err, ParserFail::MissingTrailingNewline));
}

#[test]
fn unknown_construct_fails() {
    let tokens = Lexer::new().lex(b"pool mypool\n".to_vec()).expect("tokenize");
    let err = Parser::new().parse(&tokens).unwrap_err();
    assert!(matches!(err, ParserFail::UnrecognizedConstruct));
}

#[test]
fn qualified_call_round_trips_as_opaque_text() {
    let out = pipeline(b"GTP::header set $h\nUDP::respond $payload\n");
    assert_eq!(s(&out), "GTP::header set $h\nUDP::respond $payload\n");
}

#[test]
fn bare_return_round_trips() {
    let out = pipeline(b"when RULE_INIT {\nreturn\n}\n");
    assert_eq!(s(&out), "when RULE_INIT {\n    return\n}\n");
}

#[test]
fn procedure_node_renders_with_parameters() {
    let ast = Ast::Block(vec![Ast::Procedure {
        name: b"twice".to_vec(),
        parameters: vec![b"a".to_vec(), b"b".to_vec()],
        body: Box::new(Ast::Block(vec![Ast::Statement(Statement::Return {
            value: Some(b"$a".to_vec()),
        })])),
    }]);
    let out = Formatter::new().format(ast);
    assert_eq!(s(&out), "proc twice { a b } {\n    return $a\n}\n");
}

#[test]
fn pool_and_snatpool_statements_render() {
    let ast = Ast::Block(vec![
        Ast::Statement(Statement::Pool { identifier: b"web".to_vec() }),
        Ast::Statement(Statement::SnatPool { identifier: b"snats".to_vec() }),
    ]);
    let out = Formatter::new().format(ast);
    assert_eq!(s(&out), "pool web\nsnatpool snats\n");
}

#[test]
fn buffer_holder_returns_its_bytes() {
    let held = fmt::Formatter::new(b"when X {\n}\n".to_vec());
    assert_eq!(held.run(), b"when X {\n}\n".to_vec());
}
