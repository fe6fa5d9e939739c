use vstd::prelude::*;

verus! {

/// The fixed set of token kinds the lexer can produce, plus the synthetic
/// `Eof` kind that lookahead reports past the end of the token sequence.
#[derive(Debug, PartialEq, Eq, Structural, Copy, Clone)]
pub enum TokenKind {
    Identifier,
    Constant,
    Keyword,
    OpenParen,
    CloseParen,
    OpenBrace,
    CloseBrace,
    Semicolon,
    Eof,
    ErrorToken,
}

/// One lexed token: its kind and the exact matched lexeme (empty for the
/// synthetic `ErrorToken`).
#[derive(Debug, PartialEq)]
pub struct Token {
    pub kind: TokenKind,
    pub text: String,
}

impl Clone for Token {
    fn clone(&self) -> (r: Token)
        ensures
            r == *self,
    {
        Token { kind: self.kind, text: self.text.clone() }
    }
}

/// The mathematical value of a token: its kind and its lexeme as a
/// sequence of characters.
pub struct TokenV {
    pub kind: TokenKind,
    pub text: Seq<char>,
}

impl View for Token {
    type V = TokenV;

    open spec fn view(&self) -> TokenV {
        TokenV { kind: self.kind, text: self.text@ }
    }
}

impl DeepView for Token {
    type V = TokenV;

    open spec fn deep_view(&self) -> TokenV {
        self.view()
    }
}

impl Token {
    pub fn new(kind: TokenKind, text: &str) -> (r: Token)
        ensures
            r.kind == kind,
            r.text@ == text@,
    {
        Token { kind, text: text.to_owned() }
    }

    pub fn open_paren() -> (r: Token)
        ensures
            r.kind == TokenKind::OpenParen,
            r.text@ == "("@,
    {
        Self::new(TokenKind::OpenParen, "(")
    }

    pub fn close_paren() -> (r: Token)
        ensures
            r.kind == TokenKind::CloseParen,
            r.text@ == ")"@,
    {
        Self::new(TokenKind::CloseParen, ")")
    }

    pub fn open_brace() -> (r: Token)
        ensures
            r.kind == TokenKind::OpenBrace,
            r.text@ == "{"@,
    {
        Self::new(TokenKind::OpenBrace, "{")
    }

    pub fn close_brace() -> (r: Token)
        ensures
            r.kind == TokenKind::CloseBrace,
            r.text@ == "}"@,
    {
        Self::new(TokenKind::CloseBrace, "}")
    }

    pub fn semicolon() -> (r: Token)
        ensures
            r.kind == TokenKind::Semicolon,
            r.text@ == ";"@,
    {
        Self::new(TokenKind::Semicolon, ";")
    }

    pub fn constant(text: &str) -> (r: Token)
        ensures
            r.kind == TokenKind::Constant,
            r.text@ == text@,
    {
        Self::new(TokenKind::Constant, text)
    }

    pub fn keyword(text: &str) -> (r: Token)
        ensures
            r.kind == TokenKind::Keyword,
            r.text@ == text@,
    {
        Self::new(TokenKind::Keyword, text)
    }

    pub fn identifier(text: &str) -> (r: Token)
        ensures
            r.kind == TokenKind::Identifier,
            r.text@ == text@,
    {
        Self::new(TokenKind::Identifier, text)
    }

    pub fn error() -> (r: Token)
        ensures
            r.kind == TokenKind::ErrorToken,
            r.text@ == Seq::<char>::empty(),
    {
        let t = Self::new(TokenKind::ErrorToken, "");
        proof {
            reveal_strlit("");
            assert(t.text@ =~= Seq::<char>::empty());
        }
        t
    }
}

} // verus!
