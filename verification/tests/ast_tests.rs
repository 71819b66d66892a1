use monkey::ast::{Expression, Identifier, LetStatement, Program, Statement};
use monkey::token;


#[test]
fn test_string() {
    let program = Program {
        statements: vec![Statement::Let(LetStatement {
            token: token::Token {
                token_type: token::TokenType::Let,
                literal: "let".to_string(),
            },
            name: Identifier {
                token: token::Token {
                    token_type: token::TokenType::Ident,
                    literal: "myVar".to_string(),
                },
                value: "myVar".to_string(),
            },
            value: Some(Expression::Identifier(Identifier {
                token: token::Token {
                    token_type: token::TokenType::Ident,
                    literal: "anotherVar".to_string(),
                },
                value: "anotherVar".to_string(),
            })),
        })],
    };

    assert_eq!(program.to_string(), "let myVar = anotherVar;");
}
