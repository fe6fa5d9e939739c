use vstd::prelude::*;

use crate::token::{Token, TokenKind, TokenV};

verus! {

/// Whitespace, as the lexer skips it.
pub open spec fn is_space(c: char) -> bool {
    c == ' ' || c == '\t' || c == '\n' || c == '\r' || c == '\u{b}' || c == '\u{c}'
}

/// A decimal digit.
pub open spec fn is_digit(c: char) -> bool {
    '0' <= c && c <= '9'
}

/// A word character: a digit, a letter or an underscore. Words bound
/// constants, identifiers and keywords.
pub open spec fn is_word(c: char) -> bool {
    is_digit(c) || ('a' <= c && c <= 'z') || ('A' <= c && c <= 'Z') || c == '_'
}

/// A character that may begin an identifier.
pub open spec fn is_ident_start(c: char) -> bool {
    is_word(c) && !is_digit(c)
}

/// One of the reserved words.
pub open spec fn is_kw(text: Seq<char>) -> bool {
    text == "void"@ || text == "int"@ || text == "return"@
}

/// The length of the run of digits beginning at `i`.
pub open spec fn digit_run(s: Seq<char>, i: int) -> int
    decreases s.len() - i
        when 0 <= i
{
    if i >= s.len() || !is_digit(s[i]) {
        0
    } else {
        1 + digit_run(s, i + 1)
    }
}

/// The length of the run of word characters beginning at `i`.
pub open spec fn word_run(s: Seq<char>, i: int) -> int
    decreases s.len() - i
        when 0 <= i
{
    if i >= s.len() || !is_word(s[i]) {
        0
    } else {
        1 + word_run(s, i + 1)
    }
}

/// Both runs stay within the text.
pub proof fn lemma_run_bounds(s: Seq<char>, i: int)
    requires
        0 <= i,
    ensures
        0 <= digit_run(s, i),
        0 <= word_run(s, i),
        i + digit_run(s, i) <= s.len() || digit_run(s, i) == 0,
        i + word_run(s, i) <= s.len() || word_run(s, i) == 0,
    decreases s.len() - i,
{
    if i < s.len() {
        lemma_run_bounds(s, i + 1);
    }
}

/// A run is exactly the stretch of matching characters up to the first
/// that does not match (or the end of the text).
pub proof fn lemma_word_run_is(s: Seq<char>, i: int, j: int)
    requires
        0 <= i <= j <= s.len(),
        forall|m: int| i <= m < j ==> is_word(#[trigger] s[m]),
        j == s.len() || !is_word(s[j]),
    ensures
        word_run(s, i) == j - i,
    decreases j - i,
{
    if i < j {
        lemma_word_run_is(s, i + 1, j);
    }
}

pub proof fn lemma_digit_run_is(s: Seq<char>, i: int, j: int)
    requires
        0 <= i <= j <= s.len(),
        forall|m: int| i <= m < j ==> is_digit(#[trigger] s[m]),
        j == s.len() || !is_digit(s[j]),
    ensures
        digit_run(s, i) == j - i,
    decreases j - i,
{
    if i < j {
        lemma_digit_run_is(s, i + 1, j);
    }
}

/// The token values the lexer owes for the text from `i` on. Scanning goes
/// left to right and never backtracks: whitespace is skipped; the five
/// punctuation marks become single-character tokens; a digit run bounded
/// by a non-word character becomes a `Constant`; a word run beginning with
/// a letter or underscore becomes a `Keyword` when it is exactly a
/// reserved word and an `Identifier` otherwise; any other character
/// becomes a zero-length `ErrorToken` and scanning resumes one character
/// later.
pub open spec fn spec_lex(s: Seq<char>, i: int) -> Seq<TokenV>
    decreases s.len() - i
        when 0 <= i
        via spec_lex_dec
{
    if i >= s.len() {
        Seq::empty()
    } else {
        let c = s[i];
        if is_space(c) {
            spec_lex(s, i + 1)
        } else if c == '(' {
            seq![TokenV { kind: TokenKind::OpenParen, text: "("@ }] + spec_lex(s, i + 1)
        } else if c == ')' {
            seq![TokenV { kind: TokenKind::CloseParen, text: ")"@ }] + spec_lex(s, i + 1)
        } else if c == '{' {
            seq![TokenV { kind: TokenKind::OpenBrace, text: "{"@ }] + spec_lex(s, i + 1)
        } else if c == '}' {
            seq![TokenV { kind: TokenKind::CloseBrace, text: "}"@ }] + spec_lex(s, i + 1)
        } else if c == ';' {
            seq![TokenV { kind: TokenKind::Semicolon, text: ";"@ }] + spec_lex(s, i + 1)
        } else if is_digit(c) {
            let k = digit_run(s, i);
            if i + k == s.len() || !is_word(s[i + k]) {
                seq![TokenV { kind: TokenKind::Constant, text: s.subrange(i, i + k) }] + spec_lex(
                    s,
                    i + k,
                )
            } else {
                seq![TokenV { kind: TokenKind::ErrorToken, text: Seq::empty() }] + spec_lex(
                    s,
                    i + 1,
                )
            }
        } else if is_ident_start(c) {
            let k = word_run(s, i);
            let text = s.subrange(i, i + k);
            if is_kw(text) {
                seq![TokenV { kind: TokenKind::Keyword, text: text }] + spec_lex(s, i + k)
            } else {
                seq![TokenV { kind: TokenKind::Identifier, text: text }] + spec_lex(s, i + k)
            }
        } else {
            seq![TokenV { kind: TokenKind::ErrorToken, text: Seq::empty() }] + spec_lex(s, i + 1)
        }
    }
}

#[via_fn]
proof fn spec_lex_dec(s: Seq<char>, i: int) {
    if 0 <= i < s.len() {
        lemma_run_bounds(s, i);
        lemma_run_bounds(s, i + 1);
        if is_digit(s[i]) {
            assert(digit_run(s, i) >= 1);
        }
        if is_word(s[i]) {
            assert(word_run(s, i) >= 1);
        }
    }
}

/// Whether any token is the record of a lexical fault.
pub open spec fn spec_has_error(toks: Seq<TokenV>) -> bool {
    exists|i: int| 0 <= i < toks.len() && toks[i].kind == TokenKind::ErrorToken
}

fn is_space_x(c: char) -> (r: bool)
    ensures
        r == is_space(c),
{
    c == ' ' || c == '\t' || c == '\n' || c == '\r' || c == '\u{b}' || c == '\u{c}'
}

pub fn is_digit_x(c: char) -> (r: bool)
    ensures
        r == is_digit(c),
{
    '0' <= c && c <= '9'
}

fn is_word_x(c: char) -> (r: bool)
    ensures
        r == is_word(c),
{
    ('0' <= c && c <= '9') || ('a' <= c && c <= 'z') || ('A' <= c && c <= 'Z') || c == '_'
}

fn str_eq(a: &str, b: &str) -> (r: bool)
    ensures
        r == (a@ == b@),
{
    let sa = a.to_owned();
    let sb = b.to_owned();
    sa == sb
}

fn is_kw_x(text: &str) -> (r: bool)
    ensures
        r == is_kw(text@),
{
    str_eq(text, "void") || str_eq(text, "int") || str_eq(text, "return")
}

/// Turns source text into the ordered token sequence the scanning policy
/// above owes it: the lexer of the pipeline. Unrecognized characters are
/// recorded as `ErrorToken`s and scanning continues, so every fault in the
/// text surfaces in one pass.
#[verifier::loop_isolation(false)]
pub fn lex(source: &str) -> (r: Vec<Token>)
    ensures
        r.deep_view() == spec_lex(source@, 0),
{
    let ghost s = source@;
    let n = source.unicode_len();
    let mut out: Vec<Token> = Vec::new();
    let mut i: usize = 0;
    while i < n
        invariant
            i <= n,
            spec_lex(s, 0) =~~= out.deep_view() + spec_lex(s, i as int),
        decreases n - i,
    {
        let ghost out0 = out.deep_view();
        let ghost i0 = i as int;
        let c = source.get_char(i);
        if is_space_x(c) {
            i = i + 1;
        } else if c == '(' {
            let t = Token::open_paren();
            out.push(t);
            proof {
                assert(out.deep_view() =~= out0.push(t@));
            }
            i = i + 1;
        } else if c == ')' {
            let t = Token::close_paren();
            out.push(t);
            proof {
                assert(out.deep_view() =~= out0.push(t@));
            }
            i = i + 1;
        } else if c == '{' {
            let t = Token::open_brace();
            out.push(t);
            proof {
                assert(out.deep_view() =~= out0.push(t@));
            }
            i = i + 1;
        } else if c == '}' {
            let t = Token::close_brace();
            out.push(t);
            proof {
                assert(out.deep_view() =~= out0.push(t@));
            }
            i = i + 1;
        } else if c == ';' {
            let t = Token::semicolon();
            out.push(t);
            proof {
                assert(out.deep_view() =~= out0.push(t@));
            }
            i = i + 1;
        } else if is_digit_x(c) {
            let mut j: usize = i;
            #[verifier::loop_isolation(true)]
            loop
                invariant
                    s == source@,
                    n == s.len(),
                    i <= j <= n,
                    forall|m: int| i <= m < j ==> is_digit(#[trigger] s[m]),
                ensures
                    i <= j <= n,
                    forall|m: int| i <= m < j ==> is_digit(#[trigger] s[m]),
                    j == n || !is_digit(s[j as int]),
                decreases n - j,
            {
                if j == n {
                    break ;
                }
                if !is_digit_x(source.get_char(j)) {
                    break ;
                }
                j = j + 1;
            }
            proof {
                lemma_digit_run_is(s, i as int, j as int);
            }
            let boundary = if j == n {
                true
            } else {
                !is_word_x(source.get_char(j))
            };
            if boundary {
                let text = source.substring_char(i, j);
                let t = Token::constant(text);
                out.push(t);
                proof {
                    assert(out.deep_view() =~= out0.push(t@));
                }
                i = j;
            } else {
                let t = Token::error();
                out.push(t);
                proof {
                    assert(out.deep_view() =~= out0.push(t@));
                }
                i = i + 1;
            }
        } else {
            let mut j: usize = i;
            #[verifier::loop_isolation(true)]
            loop
                invariant
                    s == source@,
                    n == s.len(),
                    i <= j <= n,
                    forall|m: int| i <= m < j ==> is_word(#[trigger] s[m]),
                ensures
                    i <= j <= n,
                    forall|m: int| i <= m < j ==> is_word(#[trigger] s[m]),
                    j == n || !is_word(s[j as int]),
                decreases n - j,
            {
                if j == n {
                    break ;
                }
                if !is_word_x(source.get_char(j)) {
                    break ;
                }
                j = j + 1;
            }
            if j > i {
                // the first character is a word character but not a digit,
                // so an identifier-shaped run begins here
                proof {
                    lemma_word_run_is(s, i as int, j as int);
                }
                let text = source.substring_char(i, j);
                if is_kw_x(text) {
                    let t = Token::keyword(text);
                    out.push(t);
                    proof {
                        assert(out.deep_view() =~= out0.push(t@));
                    }
                } else {
                    let t = Token::identifier(text);
                    out.push(t);
                    proof {
                        assert(out.deep_view() =~= out0.push(t@));
                    }
                }
                i = j;
            } else {
                let t = Token::error();
                out.push(t);
                proof {
                    assert(out.deep_view() =~= out0.push(t@));
                }
                i = i + 1;
            }
        }
        proof {
            assert(spec_lex(s, 0) =~~= out.deep_view() + spec_lex(s, i as int));
        }
    }
    proof {
        assert(spec_lex(s, i as int) =~~= Seq::<TokenV>::empty());
        assert(out.deep_view() =~~= spec_lex(s, 0));
    }
    out
}

/// Whether the token sequence records any lexical fault: after a lex-only
/// run the driver's exit status hangs on exactly this.
pub fn has_lex_errors(tokens: &Vec<Token>) -> (r: bool)
    ensures
        r == spec_has_error(tokens.deep_view()),
{
    let mut i: usize = 0;
    while i < tokens.len()
        invariant
            i <= tokens@.len(),
            forall|k: int|
                0 <= k < i ==> tokens.deep_view()[k].kind != TokenKind::ErrorToken,
        decreases tokens@.len() - i,
    {
        if tokens[i].kind == TokenKind::ErrorToken {
            proof {
                assert(tokens.deep_view()[i as int].kind == TokenKind::ErrorToken);
            }
            return true;
        }
        i = i + 1;
    }
    false
}

} // verus!
