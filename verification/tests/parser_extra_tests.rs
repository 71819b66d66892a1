use monkey::ast::{Expression, Program, Statement};
use monkey::lexer::Lexer;
use monkey::parser::{kind_name_of, read_i64, Parser, Precedence};
use monkey::token::TokenType;

fn parse(input: &str) -> (Program, Vec<String>) {
    let lexer = Lexer::new(input);
    assert!(lexer.is_clean());
    let mut p = Parser::new(lexer);
    let program = p.parse_program();
    let errors = p.errors().clone();
    (program, errors)
}

#[test]
fn let_without_name_reports_peek_error() {
    let (program, errors) = parse("let = 5;");
    assert_eq!(
        errors,
        vec![
            "expected next token to be Ident, got Assign instead".to_string(),
            "no prefix parse function for Assign found".to_string(),
        ]
    );
    assert_eq!(program.to_string(), "5");
}

#[test]
fn let_without_assign_reports_peek_error() {
    let (_, errors) = parse("let x 5;");
    assert_eq!(errors[0], "expected next token to be Assign, got Int instead");
}

#[test]
fn integer_too_large_is_an_error() {
    let (program, errors) = parse("99999999999999999999;");
    assert_eq!(errors, vec!["could not parse 99999999999999999999 as integer".to_string()]);
    assert_eq!(program.statements.len(), 1);
    match &program.statements[0] {
        Statement::Expression(s) => assert!(s.expression.is_none()),
        other => panic!("not an expression statement: {:?}", other),
    }
}

#[test]
fn largest_integer_parses() {
    let (program, errors) = parse("9223372036854775807;");
    assert!(errors.is_empty());
    assert_eq!(program.to_string(), "9223372036854775807");
}

#[test]
fn operator_without_prefix_function() {
    let (_, errors) = parse("+5;");
    assert_eq!(errors[0], "no prefix parse function for Plus found");
}

#[test]
fn missing_right_operand_becomes_zero() {
    let (program, errors) = parse("1 +");
    assert_eq!(errors, vec!["no prefix parse function for Eof found".to_string()]);
    assert_eq!(program.to_string(), "(1 + 0)");
}

#[test]
fn unclosed_group_reports_peek_error() {
    let (_, errors) = parse("(1 + 2");
    assert_eq!(errors[0], "expected next token to be RParen, got Eof instead");
}

#[test]
fn statements_print_back() {
    let (program, errors) = parse("let x = 1 * 2; return x; x");
    assert!(errors.is_empty());
    assert_eq!(program.to_string(), "let x = (1 * 2);return x;x");
    assert_eq!(program.token_literal(), "let");
}

#[test]
fn empty_program() {
    let (program, errors) = parse("");
    assert!(errors.is_empty());
    assert!(program.statements.is_empty());
    assert_eq!(program.to_string(), "");
    assert_eq!(program.token_literal(), "");
}

#[test]
fn calls_and_indexes_bind_tightest() {
    let cases = [
        ("a * [1, 2, 3, 4][b * c] * d", "((a * ([1, 2, 3, 4][(b * c)])) * d)"),
        ("add(a * b[2], b[1], 2 * [1, 2][1])", "add((a * (b[2])), (b[1]), (2 * ([1, 2][1])))"),
        ("a + add(b * c) + d", "((a + add((b * c))) + d)"),
        ("add(a, b, 1, 2 * 3, 4 + 5, add(6, 7 * 8))", "add(a, b, 1, (2 * 3), (4 + 5), add(6, (7 * 8)))"),
        ("!-a[0]", "(!(-(a[0])))"),
    ];
    for (input, want) in cases {
        let (program, errors) = parse(input);
        assert!(errors.is_empty(), "{:?}", errors);
        assert_eq!(program.to_string(), want);
    }
}

#[test]
fn if_and_function_print_back() {
    let (program, errors) = parse("if (x < y) { x } else { y }");
    assert!(errors.is_empty());
    assert_eq!(program.to_string(), "if(x < y) xelse y");
    let (program, errors) = parse("fn(a, b) { a + b; }");
    assert!(errors.is_empty());
    assert_eq!(program.to_string(), "fn(a, b) (a + b)");
}

#[test]
fn hash_literal_with_repeated_key_keeps_last_value() {
    let (program, errors) = parse("{\"a\": 1, \"b\": 2, \"a\": 3}");
    assert!(errors.is_empty());
    let stmt = match &program.statements[0] {
        Statement::Expression(s) => s,
        other => panic!("not an expression statement: {:?}", other),
    };
    let hash = match stmt.expression.as_ref().unwrap() {
        Expression::HashLiteral(h) => h,
        other => panic!("not a hash literal: {:?}", other),
    };
    assert_eq!(hash.pairs.len(), 2);
    assert_eq!(program.to_string(), "{a:3, b:2}");
}

#[test]
fn hash_literal_missing_colon() {
    let (_, errors) = parse("{\"a\" 1}");
    assert_eq!(errors[0], "expected next token to be Colon, got Int instead");
}

#[test]
fn reading_integers() {
    assert_eq!(read_i64(&"0".to_string()), Some(0));
    assert_eq!(read_i64(&"0042".to_string()), Some(42));
    assert_eq!(read_i64(&"9223372036854775807".to_string()), Some(i64::MAX));
    assert_eq!(read_i64(&"9223372036854775808".to_string()), None);
    assert_eq!(read_i64(&"".to_string()), None);
    assert_eq!(read_i64(&"12a".to_string()), None);
}

#[test]
fn token_kind_names() {
    assert_eq!(kind_name_of(TokenType::Ident), "Ident");
    assert_eq!(kind_name_of(TokenType::LBracket), "LBracket");
    assert_eq!(kind_name_of(TokenType::NotEq), "NotEq");
    assert_eq!(kind_name_of(TokenType::Eof), format!("{:?}", TokenType::Eof));
}

#[test]
fn precedence_of_token_kinds() {
    assert_eq!(Precedence::from(&TokenType::Plus), Precedence::Sum);
    assert_eq!(Precedence::from(&TokenType::Asterisk), Precedence::Product);
    assert_eq!(Precedence::from(&TokenType::LParen), Precedence::Call);
    assert_eq!(Precedence::from(&TokenType::LBracket), Precedence::Index);
    assert_eq!(Precedence::from(&TokenType::NotEq), Precedence::Equals);
    assert_eq!(Precedence::from(&TokenType::Semicolon), Precedence::Lowest);
    assert!(Precedence::Lowest < Precedence::Equals);
    assert!(Precedence::Sum < Precedence::Product);
    assert!(Precedence::Call < Precedence::Index);
}

fn trace_of(input: &str) -> Vec<String> {
    let mut p = Parser::new(Lexer::new(input));
    p.parse_program();
    p.trace_lines().clone()
}

#[test]
fn parser_traces_its_routines() {
    let want = vec![
        "BEGIN parseProgram",
        "\tBEGIN parseStatement",
        "\t\tBEGIN parseExpressionStatement",
        "\t\t\tBEGIN parseExpression",
        "\t\t\t\tBEGIN parseIntegerLiteral",
        "\t\t\t\tEND parseIntegerLiteral",
        "\t\t\tEND parseExpression",
        "\t\tEND parseExpressionStatement",
        "\tEND parseStatement",
        "END parseProgram",
    ];
    assert_eq!(trace_of("5;"), want);
}

#[test]
fn failed_prefix_expression_leaves_its_trace_open() {
    let want = vec![
        "BEGIN parseProgram",
        "\tBEGIN parseStatement",
        "\t\tBEGIN parseExpressionStatement",
        "\t\t\tBEGIN parseExpression",
        "\t\t\t\tBEGIN parsePrefixExpression",
        "\t\t\t\t\tBEGIN parseExpression",
        "\t\t\t\t\tEND parseExpression",
        "\t\t\t\tEND parseExpression",
        "\t\t\tEND parseExpressionStatement",
        "\t\tEND parseStatement",
        "\tEND parseProgram",
    ];
    assert_eq!(trace_of("-;"), want);
}

#[test]
fn new_parser_has_no_trace() {
    let p = Parser::new(Lexer::new("let x = 1;"));
    assert!(p.trace_lines().is_empty());
}

#[test]
fn trace_level_carries_over_between_parsers() {
    let mut first = Parser::new(Lexer::new("-;"));
    first.parse_program();
    assert_eq!(first.trace_level(), 1);
    let mut second = Parser::new(Lexer::new("x"));
    second.set_trace_level(first.trace_level());
    second.parse_program();
    assert_eq!(second.trace_lines()[0], "\tBEGIN parseProgram");
    assert_eq!(second.trace_level(), 1);
}
