use monkey::ast::{
    add_pair, Expression, HashLiteral, Identifier, IntegerLiteral, Node, StringLiteral,
};
use monkey::token::{Token, TokenType};
use monkey::tracing::{ident_level, trace, trace_line, untrace};
use monkey::user::User;

fn ident(name: &str) -> Expression {
    Expression::Identifier(Identifier { token: Token::new(TokenType::Ident, name), value: name.to_string() })
}

fn int_lit(v: i64) -> Expression {
    Expression::IntegerLiteral(IntegerLiteral { token: Token::new(TokenType::Int, &v.to_string()), value: v })
}

fn string(v: &str) -> Expression {
    Expression::StringLiteral(StringLiteral { token: Token::new(TokenType::String, v), value: v.to_string() })
}

fn infix(left: Expression, op: &str, right: Expression) -> Expression {
    Expression::InfixExpression {
        token: Token::new(TokenType::Plus, op),
        left: Box::new(left),
        operator: op.to_string(),
        right: Box::new(right),
    }
}

#[test]
fn indentation_of_trace_lines() {
    assert_eq!(ident_level(0), "");
    assert_eq!(ident_level(1), "");
    assert_eq!(ident_level(2), "\t");
    assert_eq!(ident_level(4), "\t\t\t");
    assert_eq!(trace_line(0, "BEGIN parseProgram"), "BEGIN parseProgram");
    assert_eq!(trace_line(3, "END parseExpression"), "\t\tEND parseExpression");
}

#[test]
fn user_from_password_entry() {
    let u = User::from_entry(1000, Some("alice".to_string())).unwrap();
    assert_eq!(u.uid(), 1000);
    assert_eq!(u.username(), "alice");
    match User::from_entry(7, None) {
        Ok(_) => panic!("a missing entry must be an error"),
        Err(e) => assert_eq!(e, "Failed to get user information."),
    }
}

#[test]
fn expression_equality_is_by_value_or_print() {
    assert!(ident("x") == ident("x"));
    assert!(ident("x") != ident("y"));
    assert!(int_lit(3) == int_lit(3));
    // Literals of different kinds compare by how they print.
    assert!(int_lit(3) == string("3"));
    assert!(int_lit(3) != string("4"));
    assert!(string("3") == int_lit(3));
    let e = infix(ident("a"), "-", int_lit(1));
    assert!(e == e);
    assert!(infix(int_lit(1), "+", int_lit(2)) == infix(int_lit(1), "+", int_lit(2)));
    assert!(infix(int_lit(1), "+", int_lit(2)) != infix(int_lit(2), "+", int_lit(1)));
}

#[test]
fn identifiers_and_integers_compare_with_plain_values() {
    let i = Identifier { token: Token::new(TokenType::Ident, "foo"), value: "foo".to_string() };
    assert!(i == *"foo");
    assert!(i != *"bar");
    assert!(i == "foo");
    assert!(i != "fo");
    let j = Identifier { token: Token::new(TokenType::Ident, "foo"), value: "foo".to_string() };
    assert_eq!(i, j);
    let n = IntegerLiteral { token: Token::new(TokenType::Int, "5"), value: 5 };
    assert!(n == 5);
    assert!(n != 6);
    assert_eq!(n, IntegerLiteral { token: Token::new(TokenType::Int, "5"), value: 5 });
}

#[test]
fn hash_literal_pairs_by_key() {
    let mut pairs = Vec::new();
    add_pair(&mut pairs, string("a"), int_lit(1));
    add_pair(&mut pairs, ident("b"), int_lit(2));
    add_pair(&mut pairs, string("a"), int_lit(3));
    add_pair(&mut pairs, infix(int_lit(1), "+", int_lit(1)), int_lit(4));
    add_pair(&mut pairs, infix(int_lit(1), "+", int_lit(1)), int_lit(5));
    assert_eq!(pairs.len(), 3);
    let h = HashLiteral { token: Token::new(TokenType::LBrace, "{"), pairs };
    assert!(*h.get(&string("a")).unwrap() == int_lit(3));
    assert!(*h.get(&ident("b")).unwrap() == int_lit(2));
    assert!(h.get(&string("b")).is_none());
    assert!(*h.get(&infix(int_lit(1), "+", int_lit(1))).unwrap() == int_lit(5));
    assert_eq!(Expression::HashLiteral(h).to_string(), "{a:3, b:2, (1 + 1):5}");
}

#[test]
fn same_key_follows_kind_and_value() {
    assert!(string("a").same_key(&string("a")));
    assert!(!string("a").same_key(&ident("a")));
    assert!(int_lit(2).same_key(&int_lit(2)));
    assert!(infix(ident("a"), "*", int_lit(2)).same_key(&infix(ident("a"), "*", int_lit(2))));
}

#[test]
fn deep_clone_prints_the_same() {
    let e = infix(ident("a"), "*", infix(int_lit(2), "-", string("s")));
    let c = e.deep_clone();
    assert_eq!(c.to_string(), e.to_string());
    assert_eq!(c.to_string(), "(a * (2 - s))");
    assert!(c == e);
    assert_eq!(e.token_literal(), "*");
}

#[test]
fn traced_calls_nest() {
    let (l1, line1, msg) = trace(0, "parseProgram");
    assert_eq!(msg, "parseProgram");
    assert_eq!((l1, line1.as_str()), (1, "BEGIN parseProgram"));
    let (l2, line2, _) = trace(l1, "parseStatement");
    assert_eq!((l2, line2.as_str()), (2, "\tBEGIN parseStatement"));
    let (l3, line3) = untrace(l2, "parseStatement");
    assert_eq!((l3, line3.as_str()), (1, "\tEND parseStatement"));
    let (l4, line4) = untrace(l3, "parseProgram");
    assert_eq!((l4, line4.as_str()), (0, "END parseProgram"));
}

#[test]
fn trace_level_wraps_like_an_atomic_counter() {
    let (l, line) = untrace(0, "x");
    assert_eq!(l, usize::MAX);
    assert_eq!(line, "END x");
    let (l, _, _) = trace(usize::MAX, "y");
    assert_eq!(l, 0);
}
