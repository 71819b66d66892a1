use monkey::lexer::Lexer;
use monkey::token::{lookup_ident, Token, TokenType};

fn kinds_and_literals(input: &str, n: usize) -> Vec<(TokenType, String)> {
    let mut lexer = Lexer::new(input);
    let mut out = Vec::new();
    for _ in 0..n {
        let t = lexer.next_token();
        out.push((t.token_type, t.literal));
    }
    out
}

#[test]
fn eof_repeats_at_end_of_input() {
    let mut lexer = Lexer::new("");
    for _ in 0..3 {
        let t = lexer.next_token();
        assert_eq!(t.token_type, TokenType::Eof);
        assert_eq!(t.literal, "");
    }
}

#[test]
fn illegal_character_repeats_without_moving() {
    let mut lexer = Lexer::new("@x");
    for _ in 0..3 {
        let t = lexer.next_token();
        assert_eq!(t, Token::illegal());
        assert_eq!(t.token_type, TokenType::Illegal);
        assert_eq!(t.literal, "");
    }
}

#[test]
fn string_brackets_and_colon() {
    let got = kinds_and_literals("{\"foo bar\": [1, 22]}", 9);
    let want = vec![
        (TokenType::LBrace, "{"),
        (TokenType::String, "foo bar"),
        (TokenType::Colon, ":"),
        (TokenType::LBracket, "["),
        (TokenType::Int, "1"),
        (TokenType::Comma, ","),
        (TokenType::Int, "22"),
        (TokenType::RBracket, "]"),
        (TokenType::RBrace, "}"),
    ];
    for (g, w) in got.iter().zip(want.iter()) {
        assert_eq!(g.0, w.0);
        assert_eq!(g.1, w.1);
    }
}

#[test]
fn unterminated_string_runs_to_end() {
    let got = kinds_and_literals("\"abc", 2);
    assert_eq!(got[0], (TokenType::String, "abc".to_string()));
    assert_eq!(got[1], (TokenType::Eof, String::new()));
}

#[test]
fn empty_string_literal() {
    let got = kinds_and_literals("\"\";", 2);
    assert_eq!(got[0], (TokenType::String, String::new()));
    assert_eq!(got[1], (TokenType::Semicolon, ";".to_string()));
}

#[test]
fn two_character_operators() {
    let got = kinds_and_literals("a==b != c=!d", 9);
    let want = vec![
        (TokenType::Ident, "a"),
        (TokenType::Eq, "=="),
        (TokenType::Ident, "b"),
        (TokenType::NotEq, "!="),
        (TokenType::Ident, "c"),
        (TokenType::Assign, "="),
        (TokenType::Bang, "!"),
        (TokenType::Ident, "d"),
        (TokenType::Eof, ""),
    ];
    for (g, w) in got.iter().zip(want.iter()) {
        assert_eq!(g.0, w.0);
        assert_eq!(g.1, w.1);
    }
}

#[test]
fn question_and_bang_inside_words() {
    let got = kinds_and_literals("empty? x_y! 12ab", 5);
    assert_eq!(got[0], (TokenType::Ident, "empty?".to_string()));
    assert_eq!(got[1], (TokenType::Ident, "x_y!".to_string()));
    assert_eq!(got[2], (TokenType::Int, "12".to_string()));
    assert_eq!(got[3], (TokenType::Ident, "ab".to_string()));
    assert_eq!(got[4], (TokenType::Eof, String::new()));
}

#[test]
fn unicode_white_space_is_skipped() {
    let spaces = ['\u{a0}', '\u{2003}', '\u{3000}', '\u{85}', '\n', '\t', '\u{b}', '\u{c}', '\r'];
    for c in spaces {
        assert!(c.is_whitespace());
        let input = format!("{}5{}", c, c);
        let got = kinds_and_literals(&input, 2);
        assert_eq!(got[0], (TokenType::Int, "5".to_string()));
        assert_eq!(got[1], (TokenType::Eof, String::new()));
    }
}

#[test]
fn non_ascii_letters_are_illegal() {
    let got = kinds_and_literals("é", 1);
    assert_eq!(got[0], (TokenType::Illegal, String::new()));
}

#[test]
fn keywords_are_recognised() {
    assert_eq!(lookup_ident("fn"), TokenType::Function);
    assert_eq!(lookup_ident("if"), TokenType::If);
    assert_eq!(lookup_ident("let"), TokenType::Let);
    assert_eq!(lookup_ident("Let"), TokenType::Ident);
    assert_eq!(lookup_ident("fnx"), TokenType::Ident);
    assert_eq!(lookup_ident(""), TokenType::Ident);
}

#[test]
fn token_constructors() {
    let t = Token::new(TokenType::Plus, "+");
    assert_eq!(t.token_type, TokenType::Plus);
    assert_eq!(t.literal, "+");
    let u = Token::from_string(TokenType::Ident, "abc".to_string());
    assert_eq!(u.literal, "abc");
    assert_eq!(Token::eof().token_type, TokenType::Eof);
    assert_eq!(Token::eof().literal, "");
    assert_eq!(t.clone(), t);
}

#[test]
fn bang_after_a_word_belongs_to_the_word() {
    let got = kinds_and_literals("b!=c", 4);
    assert_eq!(got[0], (TokenType::Ident, "b!".to_string()));
    assert_eq!(got[1], (TokenType::Assign, "=".to_string()));
    assert_eq!(got[2], (TokenType::Ident, "c".to_string()));
    assert_eq!(got[3], (TokenType::Eof, String::new()));
}

#[test]
fn clean_texts_reach_the_end() {
    assert!(Lexer::new("").is_clean());
    assert!(Lexer::new("let x = [1, \"a\"]; x[0] != 2").is_clean());
    assert!(Lexer::new("  \n\t").is_clean());
    assert!(!Lexer::new("@").is_clean());
    assert!(!Lexer::new("let x = 5 # 3;").is_clean());
    assert!(!Lexer::new("\"ok\" é").is_clean());
    let mut lexer = Lexer::new("a @");
    lexer.next_token();
    assert!(!lexer.is_clean());
}

#[test]
fn token_literals_rebuild_the_text_without_white_space() {
    let input = "let add = fn(x, y) { x + y; };\n if (a_b? != 10) { return !true; } else { x[1] == {a: 2} }";
    let mut lexer = Lexer::new(input);
    let mut joined = String::new();
    loop {
        let t = lexer.next_token();
        if t.token_type == TokenType::Eof {
            break;
        }
        assert_ne!(t.token_type, TokenType::Illegal);
        assert!(!t.literal.is_empty());
        joined.push_str(&t.literal);
    }
    let expected: String = input.chars().filter(|c| !c.is_whitespace()).collect();
    assert_eq!(joined, expected);
}
