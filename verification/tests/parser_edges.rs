use dotty::lexer::{Token, TokenList};
use dotty::parser::{copy_node, Node, ParseError, Parser, Value, DEFAULT_SHELL};

fn parse(source: &str) -> Result<Vec<Node>, ParseError> {
    Parser::new(source).parse()
}

fn lit(s: &str) -> Node {
    Node::Literal(Value::String(s.to_string()))
}

#[test]
fn an_empty_text_has_no_statements() {
    assert_eq!(parse("").unwrap(), vec![]);
    assert_eq!(parse("  # only a comment\n").unwrap(), vec![]);
    assert_eq!(
        Parser::from_stream(TokenList::new(vec![])).parse().unwrap(),
        vec![]
    );
}

#[test]
fn do_with_a_shell() {
    assert_eq!(
        parse("do \"fish\" \"fisher install x\"").unwrap(),
        vec![Node::Do {
            command: "fisher install x".to_string(),
            shell: "fish".to_string(),
        }]
    );
    assert_eq!(
        parse("do \"ls\"").unwrap(),
        vec![Node::Do {
            command: "ls".to_string(),
            shell: DEFAULT_SHELL.to_string(),
        }]
    );
}

#[test]
fn or_and_group_to_the_right() {
    let nodes = parse("if a is \"1\" or b is \"2\" and c is \"3\" {}").unwrap();
    let is = |v: &str, x: &str| Node::Is {
        left: Box::new(Node::Variable(v.to_string())),
        right: Box::new(lit(x)),
    };
    assert_eq!(
        nodes,
        vec![Node::If {
            condition: Box::new(Node::Or {
                left: Box::new(is("a", "1")),
                right: Box::new(Node::And {
                    left: Box::new(is("b", "2")),
                    right: Box::new(is("c", "3")),
                }),
            }),
            true_branch: vec![],
            false_branch: vec![],
        }]
    );
}

#[test]
fn else_if_chains_parse_as_an_error() {
    // `else if` lexes to its own token, which no statement accepts after a block.
    match parse("if os is \"a\" {} else if os is \"b\" {}") {
        Err(ParseError::UnexpectedToken { line: 1, token: Token::ElseIf }) => {}
        other => panic!("unexpected result {:?}", other),
    }
}

#[test]
fn if_else_and_print() {
    let nodes = parse("if not test \"zap\" {\n  print \"no zap\"\n} else {\n  x = \"y\"\n}").unwrap();
    assert_eq!(
        nodes,
        vec![Node::If {
            condition: Box::new(Node::Not(Box::new(Node::Test("zap".to_string())))),
            true_branch: vec![Node::Print(Box::new(lit("no zap")))],
            false_branch: vec![Node::Assign {
                variable: "x".to_string(),
                value: Value::String("y".to_string()),
            }],
        }]
    );
}

#[test]
fn an_unclosed_block_ends_at_the_end_of_the_text() {
    assert_eq!(
        parse("if exists \"a\" { do \"x\"").unwrap(),
        vec![Node::If {
            condition: Box::new(Node::Exists("a".to_string())),
            true_branch: vec![Node::Do {
                command: "x".to_string(),
                shell: DEFAULT_SHELL.to_string(),
            }],
            false_branch: vec![],
        }]
    );
}

#[test]
fn error_unexpected_token() {
    match parse("\n\nto \"x\"") {
        Err(ParseError::UnexpectedToken { line: 3, token: Token::To }) => {}
        other => panic!("unexpected result {:?}", other),
    }
}

#[test]
fn error_unexpected_token_in_block() {
    match parse("if os is \"x\" {\n  \"stray\"\n}") {
        Err(ParseError::UnexpectedTokenInBlock { line: 2, token: Token::String(s) }) => {
            assert_eq!(s, "stray")
        }
        other => panic!("unexpected result {:?}", other),
    }
}

#[test]
fn error_expected_token() {
    match parse("link \"a\" \"b\"") {
        Err(ParseError::ExpectedToken {
            line: 1,
            expected: Token::To,
            found: Some(Token::String(s)),
        }) => assert_eq!(s, "b"),
        other => panic!("unexpected result {:?}", other),
    }
    match parse("x") {
        Err(ParseError::ExpectedToken {
            line: 1,
            expected: Token::Assign,
            found: None,
        }) => {}
        other => panic!("unexpected result {:?}", other),
    }
    match parse("if os is \"x\" do") {
        Err(ParseError::ExpectedToken {
            expected: Token::LeftBrace,
            found: Some(Token::Do),
            ..
        }) => {}
        other => panic!("unexpected result {:?}", other),
    }
}

#[test]
fn error_expected_value() {
    match parse("print") {
        Err(ParseError::ExpectedValue { line: 1, found: None }) => {}
        other => panic!("unexpected result {:?}", other),
    }
    match parse("if { }") {
        Err(ParseError::ExpectedValue {
            line: 1,
            found: Some(Token::LeftBrace),
        }) => {}
        other => panic!("unexpected result {:?}", other),
    }
}

#[test]
fn error_expected_string() {
    match parse("do x") {
        Err(ParseError::ExpectedString {
            line: 1,
            found: Some(Token::Identifier(s)),
        }) => assert_eq!(s, "x"),
        other => panic!("unexpected result {:?}", other),
    }
    match parse("v =") {
        Err(ParseError::ExpectedString { found: None, .. }) => {}
        other => panic!("unexpected result {:?}", other),
    }
}

#[test]
fn error_link_source_not_string() {
    match parse("link src to \"b\"") {
        Err(ParseError::LinkSourceNotString { line: 1, found }) => {
            assert_eq!(found, Node::Variable("src".to_string()))
        }
        other => panic!("unexpected result {:?}", other),
    }
}

#[test]
fn error_link_destination_not_string() {
    match parse("\nlink \"a\" to env \"HOME\"") {
        Err(ParseError::LinkDestinationNotString { line: 2, found }) => {
            assert_eq!(found, Node::Env("HOME".to_string()))
        }
        other => panic!("unexpected result {:?}", other),
    }
}

#[test]
fn host_variables_cannot_be_assigned() {
    for name in ["os", "hostname", "profile"] {
        match parse(&format!("{} = \"x\"", name)) {
            Err(ParseError::AssignToSpecialVariable { line: 1, name: n }) => assert_eq!(n, name),
            other => panic!("unexpected result {:?}", other),
        }
    }
    assert!(parse("osx = \"x\"").is_ok());
}

#[test]
fn parse_block_reads_one_block() {
    let mut parser = Parser::new("{ do \"a\" } do \"b\"");
    assert_eq!(
        parser.parse_block().unwrap(),
        vec![Node::Do {
            command: "a".to_string(),
            shell: DEFAULT_SHELL.to_string(),
        }]
    );
    assert_eq!(
        parser.parse().unwrap(),
        vec![Node::Do {
            command: "b".to_string(),
            shell: DEFAULT_SHELL.to_string(),
        }]
    );
}

#[test]
fn a_stream_that_stalls_is_reported() {
    let mut parser = Parser::start("do \"a\"\u{3000}do \"b\"");
    assert!(!parser.stopped_short());
    let nodes = parser.parse_through().unwrap();
    assert!(parser.stopped_short());
    assert_eq!(nodes.len(), 1);
}

#[test]
fn copies_are_equal() {
    let nodes = parse("if os is \"a\" { link \"x\" to \"y\" } else { print env \"E\" }").unwrap();
    assert_eq!(copy_node(&nodes[0]), nodes[0]);
}

#[test]
fn a_statement_cannot_start_with_to() {
    let mut parser = dotty::parser::Parser::from_stream(dotty::lexer::TokenList::new(vec![Token::To]));
    assert!(matches!(parser.parse(), Err(ParseError::UnexpectedToken { line: 0, token: Token::To })));
}
