use dotty::lexer::{Lexer, Token, TokenStream};

fn next_tok(lexer: &mut Lexer) -> Option<Token> {
    lexer.next_token().map(|t| t.0)
}

#[test]
fn it_lexes_1() {
    let str = r#"link "dotfiles/.bashrc" to "~/.bashrc""#;

    let mut lexer = Lexer::new(str);
    assert_eq!(next_tok(&mut lexer), Some(Token::Link));
    assert_eq!(
        next_tok(&mut lexer),
        Some(Token::String("dotfiles/.bashrc".to_string()))
    );
    assert_eq!(next_tok(&mut lexer), Some(Token::To));
    assert_eq!(
        next_tok(&mut lexer),
        Some(Token::String("~/.bashrc".to_string()))
    );
    assert_eq!(next_tok(&mut lexer), None);
}

#[test]
fn it_lexes_2() {
    let str = r#"do "echo 'Hello, world!'" "#;

    let mut lexer = Lexer::new(str);
    assert_eq!(next_tok(&mut lexer), Some(Token::Do));
    assert_eq!(
        next_tok(&mut lexer),
        Some(Token::String("echo 'Hello, world!'".to_string()))
    );
    assert_eq!(next_tok(&mut lexer), None);
}

#[test]
fn it_lexes_3() {
    let str = r#"if os is "linux" {
            do "echo 'Linux!'"
        } else if os is "windows" {
            do "echo 'Windows!'"
        } else {
            do "echo 'Other OS!'"
        }
        "#;

    let mut lexer = Lexer::new(str);
    assert_eq!(next_tok(&mut lexer), Some(Token::If));
    assert_eq!(next_tok(&mut lexer), Some(Token::Identifier("os".to_string())));
    assert_eq!(next_tok(&mut lexer), Some(Token::Is));
    assert_eq!(next_tok(&mut lexer), Some(Token::String("linux".to_string())));
    assert_eq!(next_tok(&mut lexer), Some(Token::LeftBrace));
    assert_eq!(next_tok(&mut lexer), Some(Token::Do));
    assert_eq!(
        next_tok(&mut lexer),
        Some(Token::String("echo 'Linux!'".to_string()))
    );
    assert_eq!(next_tok(&mut lexer), Some(Token::RightBrace));
    assert_eq!(next_tok(&mut lexer), Some(Token::ElseIf));
    assert_eq!(next_tok(&mut lexer), Some(Token::Identifier("os".to_string())));
    assert_eq!(next_tok(&mut lexer), Some(Token::Is));
    assert_eq!(next_tok(&mut lexer), Some(Token::String("windows".to_string())));
    assert_eq!(next_tok(&mut lexer), Some(Token::LeftBrace));
    assert_eq!(next_tok(&mut lexer), Some(Token::Do));
    assert_eq!(
        next_tok(&mut lexer),
        Some(Token::String("echo 'Windows!'".to_string()))
    );
    assert_eq!(next_tok(&mut lexer), Some(Token::RightBrace));
    assert_eq!(next_tok(&mut lexer), Some(Token::Else));
    assert_eq!(next_tok(&mut lexer), Some(Token::LeftBrace));
    assert_eq!(next_tok(&mut lexer), Some(Token::Do));
    assert_eq!(
        next_tok(&mut lexer),
        Some(Token::String("echo 'Other OS!'".to_string()))
    );
    assert_eq!(next_tok(&mut lexer), Some(Token::RightBrace));
}

#[test]
fn it_lexes_4() {
    let str = r#"
            common = "hosts/common"
            mac    = "hosts/mac"
        "#;

    let mut lexer = Lexer::new(str);
    assert_eq!(
        next_tok(&mut lexer),
        Some(Token::Identifier("common".to_string()))
    );
    assert_eq!(next_tok(&mut lexer), Some(Token::Assign));
    assert_eq!(
        next_tok(&mut lexer),
        Some(Token::String("hosts/common".to_string()))
    );
    assert_eq!(next_tok(&mut lexer), Some(Token::Identifier("mac".to_string())));
    assert_eq!(next_tok(&mut lexer), Some(Token::Assign));
    assert_eq!(
        next_tok(&mut lexer),
        Some(Token::String("hosts/mac".to_string()))
    );
    assert_eq!(next_tok(&mut lexer), None);
}

#[test]
fn it_lexes_5() {
    let str = r#"if not test "echo" {
                do "echo 'echo is not available!'"
            }
        "#;

    let mut lexer = Lexer::new(str);
    assert_eq!(next_tok(&mut lexer), Some(Token::If));
    assert_eq!(next_tok(&mut lexer), Some(Token::Not));
    assert_eq!(next_tok(&mut lexer), Some(Token::Test));
    assert_eq!(next_tok(&mut lexer), Some(Token::String("echo".to_string())));
    assert_eq!(next_tok(&mut lexer), Some(Token::LeftBrace));
    assert_eq!(next_tok(&mut lexer), Some(Token::Do));
    assert_eq!(
        next_tok(&mut lexer),
        Some(Token::String("echo 'echo is not available!'".to_string()))
    );
    assert_eq!(next_tok(&mut lexer), Some(Token::RightBrace));
}

#[test]
fn it_lexes_6() {
    let str = r#"if hostname is not "my-work-book" {}"#;

    let mut lexer = Lexer::new(str);
    assert_eq!(next_tok(&mut lexer), Some(Token::If));
    assert_eq!(
        next_tok(&mut lexer),
        Some(Token::Identifier("hostname".to_string()))
    );
    assert_eq!(next_tok(&mut lexer), Some(Token::IsNot));
    assert_eq!(
        next_tok(&mut lexer),
        Some(Token::String("my-work-book".to_string()))
    );
    assert_eq!(next_tok(&mut lexer), Some(Token::LeftBrace));
    assert_eq!(next_tok(&mut lexer), Some(Token::RightBrace));
}
