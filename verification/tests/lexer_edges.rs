use dotty::lexer::{Lexer, Token, TokenStream};

fn all_tokens(source: &str) -> Vec<(Token, usize)> {
    let mut lexer = Lexer::new(source);
    let mut tokens = Vec::new();
    while let Some(t) = lexer.next_token() {
        tokens.push(t);
    }
    tokens
}

#[test]
fn token_lines_follow_the_text() {
    let tokens = all_tokens("link\n\"a\"\n\nto \"b\"");
    let lines: Vec<usize> = tokens.iter().map(|t| t.1).collect();
    assert_eq!(lines, vec![1, 2, 4, 4]);
    for pair in lines.windows(2) {
        assert!(pair[0] <= pair[1]);
    }
}

#[test]
fn comments_are_skipped() {
    let tokens = all_tokens("# a comment with link and \"quotes\"\ndo \"x\" # trailing\n");
    assert_eq!(
        tokens,
        vec![(Token::Do, 2), (Token::String("x".to_string()), 2)]
    );
}

#[test]
fn single_quotes_delimit_strings_too() {
    let tokens = all_tokens("print 'say \"hi\"'");
    assert_eq!(
        tokens,
        vec![(Token::Print, 1), (Token::String("say \"hi\"".to_string()), 1)]
    );
}

#[test]
fn an_unclosed_quote_ends_the_tokens() {
    let mut lexer = Lexer::new("do \"never closed\nlink");
    assert_eq!(lexer.next_token().map(|t| t.0), Some(Token::Do));
    assert_eq!(lexer.next_token(), None);
    assert_eq!(lexer.next_token(), None);
    assert!(!lexer.has_stalled());
}

#[test]
fn braces_split_words() {
    let tokens = all_tokens("if os{}");
    let kinds: Vec<Token> = tokens.into_iter().map(|t| t.0).collect();
    assert_eq!(
        kinds,
        vec![
            Token::If,
            Token::Identifier("os".to_string()),
            Token::LeftBrace,
            Token::RightBrace
        ]
    );
}

#[test]
fn words_run_up_to_whitespace_or_a_brace() {
    let tokens = all_tokens("a=b x\"y\"");
    let kinds: Vec<Token> = tokens.into_iter().map(|t| t.0).collect();
    assert_eq!(
        kinds,
        vec![
            Token::Identifier("a=b".to_string()),
            Token::Identifier("x\"y\"".to_string())
        ]
    );
}

#[test]
fn keywords_lex_to_their_tokens() {
    let tokens = all_tokens("link to is or and env if else exists do = not test print clone copy chmod");
    let kinds: Vec<Token> = tokens.into_iter().map(|t| t.0).collect();
    assert_eq!(
        kinds,
        vec![
            Token::Link,
            Token::To,
            Token::Is,
            Token::Or,
            Token::And,
            Token::Env,
            Token::If,
            Token::Else,
            Token::Exists,
            Token::Do,
            Token::Assign,
            Token::Not,
            Token::Test,
            Token::Print,
            Token::Clone,
            Token::Copy,
            Token::Chmod
        ]
    );
}

#[test]
fn is_not_over_two_spaces_skips_four_characters() {
    // The lexer moves four characters past `is`, as if one space separated the words.
    let tokens = all_tokens("x is  not \"y\"");
    let kinds: Vec<Token> = tokens.into_iter().map(|t| t.0).collect();
    assert_eq!(
        kinds,
        vec![
            Token::Identifier("x".to_string()),
            Token::IsNot,
            Token::Identifier("t".to_string()),
            Token::String("y".to_string())
        ]
    );
}

#[test]
fn else_at_the_end_stays_else() {
    let tokens = all_tokens("} else");
    let kinds: Vec<Token> = tokens.into_iter().map(|t| t.0).collect();
    assert_eq!(kinds, vec![Token::RightBrace, Token::Else]);
}

#[test]
fn wide_whitespace_between_tokens_stalls_the_lexer() {
    let mut lexer = Lexer::new("do\u{a0}\"x\"");
    assert_eq!(lexer.next_token().map(|t| t.0), Some(Token::Do));
    assert!(!lexer.has_stalled());
    assert_eq!(lexer.next_token(), None);
    assert!(lexer.has_stalled());
    assert_eq!(lexer.next_token(), None);
}

#[test]
fn wide_whitespace_inside_a_string_is_kept() {
    let tokens = all_tokens("do \"a\u{a0}b\"");
    assert_eq!(
        tokens,
        vec![(Token::Do, 1), (Token::String("a\u{a0}b".to_string()), 1)]
    );
}

#[test]
fn tabs_and_carriage_returns_are_whitespace() {
    let tokens = all_tokens("do\t\"x\"\r\nprint y");
    assert_eq!(tokens.len(), 4);
    assert_eq!(tokens[1], (Token::String("x".to_string()), 1));
    assert_eq!(tokens[3], (Token::Identifier("y".to_string()), 2));
}

#[test]
fn at_most_one_token_per_character() {
    let source = "a{b}c";
    let mut lexer = dotty::lexer::Lexer::new(source);
    let mut count = 0;
    while dotty::lexer::TokenStream::next_token(&mut lexer).is_some() {
        count += 1;
    }
    assert_eq!(count, 5);
    assert!(count <= source.chars().count());
    assert!(dotty::lexer::TokenStream::next_token(&mut lexer).is_none());
}
