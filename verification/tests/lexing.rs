use minicc::lexer::{has_lex_errors, lex};
use minicc::token::{Token, TokenKind};

fn kinds(tokens: &[Token]) -> Vec<TokenKind> {
    tokens.iter().map(|t| t.kind).collect()
}

#[test]
fn lex_minimal_program_kinds() {
    let tokens = lex("int main(void){return 2;}");
    assert_eq!(
        kinds(&tokens),
        vec![
            TokenKind::Keyword,
            TokenKind::Identifier,
            TokenKind::OpenParen,
            TokenKind::Keyword,
            TokenKind::CloseParen,
            TokenKind::OpenBrace,
            TokenKind::Keyword,
            TokenKind::Constant,
            TokenKind::Semicolon,
            TokenKind::CloseBrace,
        ]
    );
}

#[test]
fn lex_minimal_program_texts() {
    let tokens = lex("int main(void){return 2;}");
    let texts: Vec<&str> = tokens.iter().map(|t| t.text.as_str()).collect();
    assert_eq!(
        texts,
        vec!["int", "main", "(", "void", ")", "{", "return", "2", ";", "}"]
    );
}

#[test]
fn lex_unrecognized_character_recovers() {
    let tokens = lex("int main(void){return @;}");
    let errors = tokens
        .iter()
        .filter(|t| t.kind == TokenKind::ErrorToken)
        .count();
    assert_eq!(errors, 1);
    assert!(has_lex_errors(&tokens));
    // scanning went on past the fault: the rest of the program is still there
    assert_eq!(tokens.last().unwrap().kind, TokenKind::CloseBrace);
}

#[test]
fn lex_clean_input_has_no_errors() {
    let tokens = lex("int main(void){return 2;}");
    assert!(!has_lex_errors(&tokens));
}

#[test]
fn lex_empty_input() {
    let tokens = lex("");
    assert!(tokens.is_empty());
}

#[test]
fn lex_whitespace_only() {
    let tokens = lex(" \t\r\n ");
    assert!(tokens.is_empty());
}

#[test]
fn lex_keyword_prefix_is_one_identifier() {
    // word-boundary anchoring: never Keyword(int) + Identifier(x)
    let tokens = lex("intx");
    assert_eq!(tokens.len(), 1);
    assert_eq!(tokens[0].kind, TokenKind::Identifier);
    assert_eq!(tokens[0].text, "intx");
}

#[test]
fn lex_keywords_and_identifiers() {
    let tokens = lex("void int return foo _bar x9");
    assert_eq!(
        kinds(&tokens),
        vec![
            TokenKind::Keyword,
            TokenKind::Keyword,
            TokenKind::Keyword,
            TokenKind::Identifier,
            TokenKind::Identifier,
            TokenKind::Identifier,
        ]
    );
}

#[test]
fn lex_constant_at_end_of_input() {
    let tokens = lex("123");
    assert_eq!(tokens.len(), 1);
    assert_eq!(tokens[0].kind, TokenKind::Constant);
    assert_eq!(tokens[0].text, "123");
}

#[test]
fn lex_digits_followed_by_letter_recover_per_character() {
    // no boundary after the digit run, so the lexer errors one character
    // at a time until an identifier can start
    let tokens = lex("123x");
    assert_eq!(
        kinds(&tokens),
        vec![
            TokenKind::ErrorToken,
            TokenKind::ErrorToken,
            TokenKind::ErrorToken,
            TokenKind::Identifier,
        ]
    );
    assert_eq!(tokens[3].text, "x");
}

#[test]
fn lex_error_token_is_empty() {
    let tokens = lex("@");
    assert_eq!(tokens.len(), 1);
    assert_eq!(tokens[0].kind, TokenKind::ErrorToken);
    assert_eq!(tokens[0].text, "");
}

#[test]
fn lex_punctuation() {
    let tokens = lex("(){};");
    assert_eq!(
        kinds(&tokens),
        vec![
            TokenKind::OpenParen,
            TokenKind::CloseParen,
            TokenKind::OpenBrace,
            TokenKind::CloseBrace,
            TokenKind::Semicolon,
        ]
    );
}

#[test]
fn token_constructors() {
    assert_eq!(Token::open_paren(), Token::new(TokenKind::OpenParen, "("));
    assert_eq!(Token::close_paren(), Token::new(TokenKind::CloseParen, ")"));
    assert_eq!(Token::open_brace(), Token::new(TokenKind::OpenBrace, "{"));
    assert_eq!(Token::close_brace(), Token::new(TokenKind::CloseBrace, "}"));
    assert_eq!(Token::semicolon(), Token::new(TokenKind::Semicolon, ";"));
    assert_eq!(Token::constant("7"), Token::new(TokenKind::Constant, "7"));
    assert_eq!(Token::keyword("int"), Token::new(TokenKind::Keyword, "int"));
    assert_eq!(
        Token::identifier("main"),
        Token::new(TokenKind::Identifier, "main")
    );
    assert_eq!(Token::error(), Token::new(TokenKind::ErrorToken, ""));
}
