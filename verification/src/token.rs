//! Tokens of the Monkey language and the keyword table.

use vstd::prelude::*;
use vstd::string::*;

verus! {

/// The kinds of token the lexer produces.
#[derive(Debug, Clone, Copy, PartialEq, Eq, Structural, Hash)]
pub enum TokenType {
    Illegal,
    Eof,
    // Identifiers + literals
    Ident,
    Int,
    String,
    // Operators
    Assign,
    Plus,
    Bang,
    Minus,
    Slash,
    Asterisk,
    Lt,
    Gt,
    Eq,
    NotEq,
    // Delimiters
    Comma,
    Semicolon,
    Colon,
    LParen,
    RParen,
    LBrace,
    RBrace,
    LBracket,
    RBracket,
    // Keywords
    Function,
    Let,
    If,
    Return,
    True,
    False,
    Else,
}

/// A token: its kind and the text it stands for.
#[derive(Debug, PartialEq)]
pub struct Token {
    pub token_type: TokenType,
    pub literal: String,
}

/// The mathematical value of a token.
pub struct SpecToken {
    pub kind: TokenType,
    pub literal: Seq<char>,
}

impl View for Token {
    type V = SpecToken;

    open spec fn view(&self) -> SpecToken {
        SpecToken { kind: self.token_type, literal: self.literal@ }
    }
}

impl Clone for Token {
    fn clone(&self) -> (r: Self)
        ensures
            r == *self,
    {
        Token { token_type: self.token_type, literal: self.literal.clone() }
    }
}

/// The end-of-input token: kind `Eof`, empty literal.
pub open spec fn eof_token() -> SpecToken {
    SpecToken { kind: TokenType::Eof, literal: Seq::empty() }
}

/// The token for a character the language does not know: kind `Illegal`, empty literal.
pub open spec fn illegal_token() -> SpecToken {
    SpecToken { kind: TokenType::Illegal, literal: Seq::empty() }
}

impl Token {
    pub fn new(token_type: TokenType, literal: &str) -> (r: Token)
        ensures
            r@ == (SpecToken { kind: token_type, literal: literal@ }),
    {
        Token { token_type, literal: String::from_str(literal) }
    }

    /// A token built from a kind and an owned text.
    pub fn from_string(token_type: TokenType, literal: String) -> (r: Token)
        ensures
            r.token_type == token_type,
            r.literal == literal,
    {
        Token { token_type, literal }
    }

    pub fn eof() -> (r: Self)
        ensures
            r@ == eof_token(),
    {
        Token { token_type: TokenType::Eof, literal: String::new() }
    }

    pub fn illegal() -> (r: Self)
        ensures
            r@ == illegal_token(),
    {
        Token { token_type: TokenType::Illegal, literal: String::new() }
    }
}

/// The kind of token a word stands for: a keyword's own kind, or `Ident`.
pub open spec fn keyword_kind(word: Seq<char>) -> TokenType {
    if word == seq!['f', 'n'] {
        TokenType::Function
    } else if word == seq!['l', 'e', 't'] {
        TokenType::Let
    } else if word == seq!['t', 'r', 'u', 'e'] {
        TokenType::True
    } else if word == seq!['f', 'a', 'l', 's', 'e'] {
        TokenType::False
    } else if word == seq!['i', 'f'] {
        TokenType::If
    } else if word == seq!['e', 'l', 's', 'e'] {
        TokenType::Else
    } else if word == seq!['r', 'e', 't', 'u', 'r', 'n'] {
        TokenType::Return
    } else {
        TokenType::Ident
    }
}

fn is_word(ident: &String, word: &str) -> (r: bool)
    ensures
        r == (ident@ == word@),
{
    *ident == String::from_str(word)
}

pub fn lookup_ident(ident: &str) -> (r: TokenType)
    ensures
        r == keyword_kind(ident@),
{
    proof {
        reveal_strlit("fn");
        reveal_strlit("let");
        reveal_strlit("true");
        reveal_strlit("false");
        reveal_strlit("if");
        reveal_strlit("else");
        reveal_strlit("return");
        assert("fn"@ =~= seq!['f', 'n']);
        assert("let"@ =~= seq!['l', 'e', 't']);
        assert("true"@ =~= seq!['t', 'r', 'u', 'e']);
        assert("false"@ =~= seq!['f', 'a', 'l', 's', 'e']);
        assert("if"@ =~= seq!['i', 'f']);
        assert("else"@ =~= seq!['e', 'l', 's', 'e']);
        assert("return"@ =~= seq!['r', 'e', 't', 'u', 'r', 'n']);
    }
    let s = String::from_str(ident);
    if is_word(&s, "fn") {
        TokenType::Function
    } else if is_word(&s, "let") {
        TokenType::Let
    } else if is_word(&s, "true") {
        TokenType::True
    } else if is_word(&s, "false") {
        TokenType::False
    } else if is_word(&s, "if") {
        TokenType::If
    } else if is_word(&s, "else") {
        TokenType::Else
    } else if is_word(&s, "return") {
        TokenType::Return
    } else {
        TokenType::Ident
    }
}

} // verus!
