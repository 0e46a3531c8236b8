use dotty::lexer::{Token, TokenList};
use dotty::parser::{Node, Parser, Value, DEFAULT_SHELL};

#[test]
fn it_parses_link() {
    let token_stream = TokenList::new(vec![
        Token::Link,
        Token::String("dotfiles/.bashrc".to_string()),
        Token::To,
        Token::String("~/.bashrc".to_string()),
    ]);

    let nodes = Parser::from_stream(token_stream).parse().unwrap();

    assert_eq!(
        nodes,
        vec![Node::Link {
            source: "dotfiles/.bashrc".to_string(),
            destination: "~/.bashrc".to_string(),
        }]
    );
}

#[test]
fn it_parses_do() {
    let token_stream =
        TokenList::new(vec![Token::Do, Token::String("echo 'Hello, world!'".to_string())]);

    let nodes = Parser::from_stream(token_stream).parse().unwrap();

    assert_eq!(
        nodes,
        vec![Node::Do {
            command: "echo 'Hello, world!'".to_string(),
            shell: DEFAULT_SHELL.to_string(),
        }]
    );
}

#[test]
fn it_parses_if() {
    let token_stream = TokenList::new(vec![
        Token::If,
        Token::Identifier("os".to_string()),
        Token::Is,
        Token::String("linux".to_string()),
        Token::LeftBrace,
        Token::Do,
        Token::String("echo 'Linux!'".to_string()),
        Token::RightBrace,
    ]);

    let nodes = Parser::from_stream(token_stream).parse().unwrap();

    assert_eq!(
        nodes,
        vec![Node::If {
            condition: Box::new(Node::Is {
                left: Box::new(Node::Variable("os".to_string())),
                right: Box::new(Node::Literal(Value::String("linux".to_string()))),
            }),
            true_branch: vec![Node::Do {
                command: "echo 'Linux!'".to_string(),
                shell: DEFAULT_SHELL.to_string(),
            }],
            false_branch: Vec::new(),
        }]
    );
}

#[test]
fn it_parses_env() {
    let token_stream = TokenList::new(vec![
        Token::If,
        Token::Env,
        Token::String("SHELL".to_string()),
        Token::Is,
        Token::String("/bin/zsh".to_string()),
        Token::LeftBrace,
        Token::RightBrace,
    ]);

    let nodes = Parser::from_stream(token_stream).parse().unwrap();

    assert_eq!(
        nodes,
        vec![Node::If {
            condition: Box::new(Node::Is {
                left: Box::new(Node::Env("SHELL".to_string())),
                right: Box::new(Node::Literal(Value::String("/bin/zsh".to_string()))),
            }),
            true_branch: Vec::new(),
            false_branch: Vec::new(),
        }]
    )
}

#[test]
fn it_parses_exists() {
    let token_stream = TokenList::new(vec![
        Token::If,
        Token::Exists,
        Token::String("dotfiles/.vimrc".to_string()),
        Token::LeftBrace,
        Token::RightBrace,
    ]);

    let nodes = Parser::from_stream(token_stream).parse().unwrap();

    assert_eq!(
        nodes,
        vec![Node::If {
            condition: Box::new(Node::Exists("dotfiles/.vimrc".to_string())),
            true_branch: Vec::new(),
            false_branch: Vec::new(),
        }]
    );
}

#[test]
fn it_parses_is_not() {
    let token_stream = TokenList::new(vec![
        Token::If,
        Token::Env,
        Token::String("SHELL".to_string()),
        Token::IsNot,
        Token::String("/bin/zsh".to_string()),
        Token::LeftBrace,
        Token::Do,
        Token::String("echo 'Not using zsh!'".to_string()),
        Token::RightBrace,
    ]);

    let nodes = Parser::from_stream(token_stream).parse().unwrap();

    assert_eq!(
        nodes,
        vec![Node::If {
            condition: Box::new(Node::Not(Box::new(Node::Is {
                left: Box::new(Node::Env("SHELL".to_string())),
                right: Box::new(Node::Literal(Value::String("/bin/zsh".to_string()))),
            }))),
            true_branch: vec![Node::Do {
                command: "echo 'Not using zsh!'".to_string(),
                shell: DEFAULT_SHELL.to_string(),
            }],
            false_branch: Vec::new(),
        }]
    );
}

#[test]
fn it_parses_assignments() {
    let token_stream = TokenList::new(vec![
        Token::Identifier("common".to_string()),
        Token::Assign,
        Token::String("hosts/common".to_string()),
        Token::Identifier("mac".to_string()),
        Token::Assign,
        Token::String("hosts/mac".to_string()),
    ]);

    let nodes = Parser::from_stream(token_stream).parse().unwrap();

    assert_eq!(
        nodes,
        vec![
            Node::Assign {
                variable: "common".to_string(),
                value: Value::String("hosts/common".to_string()),
            },
            Node::Assign {
                variable: "mac".to_string(),
                value: Value::String("hosts/mac".to_string()),
            },
        ]
    );
}

#[test]
fn it_parses_if_with_or() {
    let token_stream = TokenList::new(vec![
        Token::If,
        Token::Identifier("os".to_string()),
        Token::Is,
        Token::String("linux".to_string()),
        Token::Or,
        Token::Identifier("os".to_string()),
        Token::Is,
        Token::String("macos".to_string()),
        Token::LeftBrace,
        Token::RightBrace,
    ]);

    let nodes = Parser::from_stream(token_stream).parse().unwrap();

    assert_eq!(
        nodes,
        vec![Node::If {
            condition: Box::new(Node::Or {
                left: Box::new(Node::Is {
                    left: Box::new(Node::Variable("os".to_string())),
                    right: Box::new(Node::Literal(Value::String("linux".to_string()))),
                }),
                right: Box::new(Node::Is {
                    left: Box::new(Node::Variable("os".to_string())),
                    right: Box::new(Node::Literal(Value::String("macos".to_string()))),
                }),
            }),
            true_branch: Vec::new(),
            false_branch: Vec::new(),
        }]
    );
}
