use scriptlet::ast::Node;
use scriptlet::lexer::ParseError;
use scriptlet::lexer::Tok;
use scriptlet::parser::ProgramParser;
use scriptlet::parser::new_builder;
use scriptlet::text::chars_of;
use scriptlet::text::string_of_chars;
use scriptlet::text::strip_quotes;
use scriptlet::text::unescape;

fn parse(src: &str) -> Result<Vec<Node>, ParseError> {
    ProgramParser::new().parse(src)
}

#[test]
fn assignment_parses_to_assign_node() {
    let prog = parse("a = 5;").unwrap();
    assert_eq!(prog.len(), 1);
    match &prog[0] {
        Node::Assign(target, value) => {
            assert!(matches!(&**target, Node::Identifier(s) if s == "a"));
            assert!(matches!(&**value, Node::Num(s) if s == "5"));
        }
        other => panic!("unexpected node {:?}", other),
    }
}

#[test]
fn expression_chains_nest_to_the_right() {
    let prog = parse("print 8 - 2 - 1;").unwrap();
    match &prog[0] {
        Node::Print(e) => match &**e {
            Node::Sub(l, r) => {
                assert!(matches!(&**l, Node::Num(s) if s == "8"));
                assert!(matches!(&**r, Node::Sub(_, _)));
            }
            other => panic!("unexpected node {:?}", other),
        },
        other => panic!("unexpected node {:?}", other),
    }
}

#[test]
fn string_literals_keep_their_quotes_in_the_tree() {
    let prog = parse("print \"hi\";").unwrap();
    match &prog[0] {
        Node::Print(e) => assert!(matches!(&**e, Node::Str(s) if s == "\"hi\"")),
        other => panic!("unexpected node {:?}", other),
    }
}

#[test]
fn if_with_else_parses_to_if_else() {
    let prog = parse("if (1 == 2) { print \"no\"; } else { print \"yes\"; }").unwrap();
    assert!(matches!(&prog[0], Node::IfElse(_, _, _)));
    let prog2 = parse("if (1) { print \"t\"; }").unwrap();
    assert!(matches!(&prog2[0], Node::If(_, _)));
}

#[test]
fn procedure_definition_parses_name_and_block() {
    let prog = parse("proc greet { print \"hi\"; }").unwrap();
    match &prog[0] {
        Node::Proc(name, body) => {
            assert!(matches!(&**name, Node::Identifier(s) if s == "greet"));
            assert!(matches!(&**body, Node::Block(items) if items.len() == 1));
        }
        other => panic!("unexpected node {:?}", other),
    }
}

#[test]
fn empty_block_parses_to_empty_vector() {
    let prog = parse("{ }").unwrap();
    assert!(matches!(&prog[0], Node::Block(items) if items.is_empty()));
}

#[test]
fn comment_parses_with_its_slashes() {
    let prog = parse("// note\n").unwrap();
    assert!(matches!(&prog[0], Node::Comment(s) if s == "// note"));
}

#[test]
fn keywords_win_only_at_equal_length() {
    let prog = parse("printx = 1;").unwrap();
    match &prog[0] {
        Node::Assign(target, _) => {
            assert!(matches!(&**target, Node::Identifier(s) if s == "printx"));
        }
        other => panic!("unexpected node {:?}", other),
    }
}

#[test]
fn parenthesized_expression_cannot_stand_left_of_an_operator() {
    assert!(parse("print (1 + 2) * 3;").is_err());
    assert!(parse("print (7);").is_ok());
}

#[test]
fn stray_point_is_an_invalid_token() {
    match parse("print 1.;") {
        Err(ParseError::InvalidToken { at }) => assert_eq!(at, 7),
        other => panic!("unexpected result {:?}", other),
    }
}

#[test]
fn lone_bang_is_an_invalid_token() {
    assert!(matches!(parse("print 1 ! 2;"), Err(ParseError::InvalidToken { .. })));
}

#[test]
fn unterminated_string_is_an_invalid_token() {
    assert!(matches!(parse("print \"abc;"), Err(ParseError::InvalidToken { .. })));
}

#[test]
fn empty_input_does_not_parse() {
    assert!(matches!(parse(""), Err(ParseError::UnrecognizedEof)));
    assert!(matches!(parse("  \n\t "), Err(ParseError::UnrecognizedEof)));
}

#[test]
fn missing_semicolon_is_unrecognized() {
    assert!(matches!(parse("print 1"), Err(ParseError::UnrecognizedEof)));
    assert!(matches!(parse("a = 1 b = 2;"), Err(ParseError::UnrecognizedToken { .. })));
}

#[test]
fn tokenizer_splits_operators_and_numbers() {
    let src = chars_of("a==1.5<=");
    let toks = new_builder().tokenize(&src).unwrap();
    let kinds: Vec<&Tok> = toks.iter().map(|p| &p.0).collect();
    assert_eq!(toks.len(), 5);
    assert!(matches!(kinds[0], Tok::Ident(s) if s == "a"));
    assert!(matches!(kinds[1], Tok::EqEq));
    assert!(matches!(kinds[2], Tok::Num(s) if s == "1.5"));
    assert!(matches!(kinds[3], Tok::Lt));
    assert!(matches!(kinds[4], Tok::Assign));
}

#[test]
fn string_token_takes_the_longest_closing_quote() {
    let src = chars_of("\"a\\\"b\"");
    let toks = new_builder().tokenize(&src).unwrap();
    assert_eq!(toks.len(), 1);
    assert!(matches!(&toks[0].0, Tok::StrLit(s) if s == "\"a\\\"b\""));
}

#[test]
fn strip_quotes_removes_only_the_outer_pair() {
    assert_eq!(strip_quotes("\"hi\""), "hi");
    assert_eq!(strip_quotes("\"a\\\"b\""), "a\\\"b");
    assert_eq!(strip_quotes("\"\""), "");
}

#[test]
fn unescape_rewrites_backslash_n_pairs() {
    assert_eq!(unescape("a\\nb"), "a\nb");
    assert_eq!(unescape("no escapes"), "no escapes");
    assert_eq!(unescape("\\n\\n"), "\n\n");
}

#[test]
fn characters_round_trip_through_vectors() {
    let v = chars_of("mixed \u{00e9}\u{4e16} text");
    assert_eq!(string_of_chars(&v), "mixed \u{00e9}\u{4e16} text");
}
