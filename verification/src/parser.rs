//! A Pratt parser for Monkey: from the tokens of a lexer to a syntax tree,
//! with the errors it meets on the way.

use vstd::prelude::*;
use vstd::string::*;
use crate::ast::{
    add_pair, keys_distinct, law_with_pair_keeps_keys_distinct, exprs_view, idents_view, lemma_exprs_view_push, lemma_idents_view_push,
    lemma_stmts_view_push, pairs_view, stmts_view, ArrayLiteral, BlockStatement, Boolean,
    CallExpression, Expression, ExpressionStatement, FunctionLiteral, HashLiteral, Identifier,
    IfExpression, IndexExpression, IntegerLiteral, LetStatement, Program, ReturnStatement, SBlock,
    SExpr, SIdent, SStmt, Statement, StringLiteral,
};
use crate::lexer::{lemma_clean_source, Lexer, TokenSource};
use crate::token::{SpecToken, Token, TokenType};
use crate::tracing::{deeper, indentation, shallower};

verus! {

/// How the parser reads an expression that starts with a given token.
#[derive(Clone, Copy, PartialEq, Eq, Structural, Debug)]
pub enum PrefixParseAction {
    Identifier,
    IntegerLiteral,
    StringLiteral,
    Boolean,
    PrefixExpression,
    GroupedExpression,
    IfExpression,
    FunctionLiteral,
    ArrayLiteral,
    HashLiteral,
}

/// How the parser continues an expression with a given token after it.
#[derive(Clone, Copy, PartialEq, Eq, Structural, Debug)]
pub enum InfixParseAction {
    InfixExpression,
    CallExpression,
    IndexExpression,
}

/// How tightly an operator binds, from loosest to tightest.
#[derive(Clone, Copy, PartialEq, Eq, Structural, Debug, PartialOrd, Ord)]
pub enum Precedence {
    Lowest,
    Equals,
    LessGreater,
    Sum,
    Product,
    Prefix,
    Call,
    Index,
}

impl Precedence {
    pub open spec fn level(self) -> nat {
        match self {
            Precedence::Lowest => 0,
            Precedence::Equals => 1,
            Precedence::LessGreater => 2,
            Precedence::Sum => 3,
            Precedence::Product => 4,
            Precedence::Prefix => 5,
            Precedence::Call => 6,
            Precedence::Index => 7,
        }
    }
}

/// The precedence of an operator token; `Lowest` for every other token.
pub open spec fn token_precedence(t: TokenType) -> Precedence {
    match t {
        TokenType::Eq => Precedence::Equals,
        TokenType::NotEq => Precedence::Equals,
        TokenType::Lt => Precedence::LessGreater,
        TokenType::Gt => Precedence::LessGreater,
        TokenType::Plus => Precedence::Sum,
        TokenType::Minus => Precedence::Sum,
        TokenType::Slash => Precedence::Product,
        TokenType::Asterisk => Precedence::Product,
        TokenType::LParen => Precedence::Call,
        TokenType::LBracket => Precedence::Index,
        _ => Precedence::Lowest,
    }
}

/// The tokens that can start an expression, and how.
pub open spec fn prefix_action(t: TokenType) -> Option<PrefixParseAction> {
    match t {
        TokenType::Ident => Some(PrefixParseAction::Identifier),
        TokenType::Int => Some(PrefixParseAction::IntegerLiteral),
        TokenType::String => Some(PrefixParseAction::StringLiteral),
        TokenType::True => Some(PrefixParseAction::Boolean),
        TokenType::False => Some(PrefixParseAction::Boolean),
        TokenType::Bang => Some(PrefixParseAction::PrefixExpression),
        TokenType::Minus => Some(PrefixParseAction::PrefixExpression),
        TokenType::LParen => Some(PrefixParseAction::GroupedExpression),
        TokenType::If => Some(PrefixParseAction::IfExpression),
        TokenType::Function => Some(PrefixParseAction::FunctionLiteral),
        TokenType::LBracket => Some(PrefixParseAction::ArrayLiteral),
        TokenType::LBrace => Some(PrefixParseAction::HashLiteral),
        _ => None,
    }
}

/// The tokens that can continue an expression, and how.
pub open spec fn infix_action(t: TokenType) -> Option<InfixParseAction> {
    match t {
        TokenType::Plus => Some(InfixParseAction::InfixExpression),
        TokenType::Minus => Some(InfixParseAction::InfixExpression),
        TokenType::Slash => Some(InfixParseAction::InfixExpression),
        TokenType::Asterisk => Some(InfixParseAction::InfixExpression),
        TokenType::Eq => Some(InfixParseAction::InfixExpression),
        TokenType::NotEq => Some(InfixParseAction::InfixExpression),
        TokenType::Lt => Some(InfixParseAction::InfixExpression),
        TokenType::Gt => Some(InfixParseAction::InfixExpression),
        TokenType::LParen => Some(InfixParseAction::CallExpression),
        TokenType::LBracket => Some(InfixParseAction::IndexExpression),
        _ => None,
    }
}

/// The name of a token kind, as `{:?}` prints it.
pub open spec fn kind_name(t: TokenType) -> Seq<char> {
    match t {
        TokenType::Illegal => "Illegal"@,
        TokenType::Eof => "Eof"@,
        TokenType::Ident => "Ident"@,
        TokenType::Int => "Int"@,
        TokenType::String => "String"@,
        TokenType::Assign => "Assign"@,
        TokenType::Plus => "Plus"@,
        TokenType::Bang => "Bang"@,
        TokenType::Minus => "Minus"@,
        TokenType::Slash => "Slash"@,
        TokenType::Asterisk => "Asterisk"@,
        TokenType::Lt => "Lt"@,
        TokenType::Gt => "Gt"@,
        TokenType::Eq => "Eq"@,
        TokenType::NotEq => "NotEq"@,
        TokenType::Comma => "Comma"@,
        TokenType::Semicolon => "Semicolon"@,
        TokenType::Colon => "Colon"@,
        TokenType::LParen => "LParen"@,
        TokenType::RParen => "RParen"@,
        TokenType::LBrace => "LBrace"@,
        TokenType::RBrace => "RBrace"@,
        TokenType::LBracket => "LBracket"@,
        TokenType::RBracket => "RBracket"@,
        TokenType::Function => "Function"@,
        TokenType::Let => "Let"@,
        TokenType::If => "If"@,
        TokenType::Return => "Return"@,
        TokenType::True => "True"@,
        TokenType::False => "False"@,
        TokenType::Else => "Else"@,
    }
}

/// Where the parser stands: the index of its current token in the lexer's
/// token sequence, the errors it has met so far, the trace lines it has
/// recorded and its trace level.
pub struct ParseState {
    pub k: nat,
    pub errors: Seq<Seq<char>>,
    pub trace: Seq<Seq<char>>,
    pub level: nat,
}

pub open spec fn cur(src: TokenSource, st: ParseState) -> SpecToken {
    src.tok(st.k)
}

pub open spec fn peek(src: TokenSource, st: ParseState) -> SpecToken {
    src.tok(st.k + 1)
}

pub open spec fn advanced(st: ParseState) -> ParseState {
    ParseState { k: st.k + 1, errors: st.errors, trace: st.trace, level: st.level }
}

pub open spec fn with_error(st: ParseState, msg: Seq<char>) -> ParseState {
    ParseState { k: st.k, errors: st.errors.push(msg), trace: st.trace, level: st.level }
}

/// A parsing routine `name` begins: the level goes one deeper and the line
/// `BEGIN name` is recorded at the new level.
pub open spec fn begun(st: ParseState, name: Seq<char>) -> ParseState {
    ParseState {
        k: st.k,
        errors: st.errors,
        trace: st.trace.push(indentation(deeper(st.level)) + "BEGIN "@ + name),
        level: deeper(st.level),
    }
}

/// A parsing routine `name` ends: the line `END name` is recorded at the
/// current level, then the level goes one shallower.
pub open spec fn ended(st: ParseState, name: Seq<char>) -> ParseState {
    ParseState {
        k: st.k,
        errors: st.errors,
        trace: st.trace.push(indentation(st.level) + "END "@ + name),
        level: shallower(st.level),
    }
}

pub open spec fn peek_error_message(expected: TokenType, got: TokenType) -> Seq<char> {
    "expected next token to be "@ + kind_name(expected) + ", got "@ + kind_name(got) + " instead"@
}

pub open spec fn no_prefix_message(t: TokenType) -> Seq<char> {
    "no prefix parse function for "@ + kind_name(t) + " found"@
}

pub open spec fn integer_error_message(literal: Seq<char>) -> Seq<char> {
    "could not parse "@ + literal + " as integer"@
}

/// Moves on when the next token has kind `t`; else records an error and stays.
pub open spec fn expect_peek(src: TokenSource, st: ParseState, t: TokenType) -> (bool, ParseState) {
    if peek(src, st).kind == t {
        (true, advanced(st))
    } else {
        (false, with_error(st, peek_error_message(t, peek(src, st).kind)))
    }
}

pub open spec fn push_some<A>(s: Seq<A>, x: Option<A>) -> Seq<A> {
    match x {
        Some(v) => s.push(v),
        None => s,
    }
}

/// An identifier made of the current token.
pub open spec fn ident_at(src: TokenSource, st: ParseState) -> SIdent {
    SIdent { token: cur(src, st), value: cur(src, st).literal }
}

/// The value of a string of decimal digits.
pub open spec fn decimal_value(s: Seq<char>) -> int
    decreases s.len(),
{
    if s.len() == 0 {
        0
    } else {
        decimal_value(s.subrange(0, s.len() - 1)) * 10 + (s[s.len() - 1] as int - '0' as int)
    }
}

/// What reading a string of digits as an `i64` gives: its value, when the
/// string is not empty, holds only digits, and its value fits.
pub open spec fn i64_value(s: Seq<char>) -> Option<int> {
    if s.len() > 0 && (forall|i: int| 0 <= i < s.len() ==> crate::lexer::digit(#[trigger] s[i]))
        && decimal_value(s) <= i64::MAX {
        Some(decimal_value(s))
    } else {
        None
    }
}

/// The literal that stands for a missing right operand.
pub open spec fn zero_literal() -> SExpr {
    SExpr::Int { token: SpecToken { kind: TokenType::Int, literal: seq!['0'] }, value: 0 }
}

pub open spec fn parsed_integer(src: TokenSource, st: ParseState) -> (Option<SExpr>, ParseState) {
    let st0 = begun(st, "parseIntegerLiteral"@);
    let t = cur(src, st0);
    match i64_value(t.literal) {
        Some(v) => (Some(SExpr::Int { token: t, value: v }), ended(st0, "parseIntegerLiteral"@)),
        None => (
            None,
            ended(with_error(st0, integer_error_message(t.literal)), "parseIntegerLiteral"@),
        ),
    }
}

pub open spec fn parsed_statement(src: TokenSource, st: ParseState) -> (Option<SStmt>, ParseState)
    decreases src.remaining(st.k), 7nat
    when src.clean()
{
    let st0 = begun(st, "parseStatement"@);
    let (s, st1) = match cur(src, st0).kind {
        TokenType::Let => parsed_let(src, st0),
        TokenType::Return => parsed_return(src, st0),
        _ => parsed_expression_statement(src, st0),
    };
    (s, ended(st1, "parseStatement"@))
}

pub open spec fn parsed_let(src: TokenSource, st: ParseState) -> (Option<SStmt>, ParseState)
    decreases src.remaining(st.k), 6nat
    when src.clean()
{
    proof {
        lemma_clean_source(src, st.k + 2);
    }
    let st0 = begun(st, "parseLetStatement"@);
    let token = cur(src, st0);
    let (ok1, st1) = expect_peek(src, st0, TokenType::Ident);
    if !ok1 {
        (None, ended(st1, "parseLetStatement"@))
    } else {
        let name = ident_at(src, st1);
        let (ok2, st2) = expect_peek(src, st1, TokenType::Assign);
        if !ok2 {
            (None, ended(st2, "parseLetStatement"@))
        } else {
            let st3 = advanced(st2);
            let (value, st4) = parsed_expression(src, st3, Precedence::Lowest);
            let st5 = if peek(src, st4).kind == TokenType::Semicolon {
                advanced(st4)
            } else {
                st4
            };
            (Some(SStmt::Let { token, name, value }), ended(st5, "parseLetStatement"@))
        }
    }
}

pub open spec fn parsed_return(src: TokenSource, st: ParseState) -> (Option<SStmt>, ParseState)
    decreases src.remaining(st.k), 6nat
    when src.clean() && cur(src, st).kind != TokenType::Eof
{
    proof {
        lemma_clean_source(src, st.k);
    }
    let st0 = begun(st, "parseReturnStatement"@);
    let token = cur(src, st0);
    let st1 = advanced(st0);
    let (value, st2) = parsed_expression(src, st1, Precedence::Lowest);
    let st3 = if peek(src, st2).kind == TokenType::Semicolon {
        advanced(st2)
    } else {
        st2
    };
    (Some(SStmt::Return { token, value }), ended(st3, "parseReturnStatement"@))
}

/// An expression statement; its token is the current one once the expression is read.
pub open spec fn parsed_expression_statement(src: TokenSource, st: ParseState) -> (
    Option<SStmt>,
    ParseState,
)
    decreases src.remaining(st.k), 6nat
    when src.clean()
{
    let st0 = begun(st, "parseExpressionStatement"@);
    let (expr, st1) = parsed_expression(src, st0, Precedence::Lowest);
    let token = cur(src, st1);
    let st2 = if peek(src, st1).kind == TokenType::Semicolon {
        advanced(st1)
    } else {
        st1
    };
    (Some(SStmt::Expr { token, expr }), ended(st2, "parseExpressionStatement"@))
}

/// An expression whose operators bind tighter than `precedence`.
pub open spec fn parsed_expression(src: TokenSource, st: ParseState, precedence: Precedence) -> (
    Option<SExpr>,
    ParseState,
)
    decreases src.remaining(st.k), 5nat
    when src.clean()
{
    let st0 = begun(st, "parseExpression"@);
    let t = cur(src, st0);
    match prefix_action(t.kind) {
        None => (None, ended(with_error(st0, no_prefix_message(t.kind)), "parseExpression"@)),
        Some(a) => {
            let (left, st1) = match a {
                PrefixParseAction::Identifier => (
                    Some(SExpr::Ident(ident_at(src, st0))),
                    ended(begun(st0, "parseIdentifier"@), "parseIdentifier"@),
                ),
                PrefixParseAction::IntegerLiteral => parsed_integer(src, st0),
                PrefixParseAction::StringLiteral => (
                    Some(SExpr::Str { token: t, value: t.literal }),
                    ended(begun(st0, "parseStringLiteral"@), "parseStringLiteral"@),
                ),
                PrefixParseAction::Boolean => (
                    Some(SExpr::Bool { token: t, value: t.kind == TokenType::True }),
                    ended(begun(st0, "parseBoolean"@), "parseBoolean"@),
                ),
                PrefixParseAction::PrefixExpression => parsed_prefix_expression(src, st0),
                PrefixParseAction::GroupedExpression => parsed_grouped(src, st0),
                PrefixParseAction::IfExpression => parsed_if(src, st0),
                PrefixParseAction::FunctionLiteral => parsed_function(src, st0),
                PrefixParseAction::ArrayLiteral => parsed_array(src, st0),
                PrefixParseAction::HashLiteral => parsed_hash(src, st0),
            };
            if st1.k < st.k {
                (left, st1)
            } else {
                infix_loop(src, st1, precedence, left)
            }
        },
    }
}

/// Extends `left` with operators that bind tighter than `precedence`, and
/// ends the expression's trace unless a missing operand cut it short.
pub open spec fn infix_loop(
    src: TokenSource,
    st: ParseState,
    precedence: Precedence,
    left: Option<SExpr>,
) -> (Option<SExpr>, ParseState)
    decreases src.remaining(st.k), 4nat
    when src.clean()
{
    proof {
        lemma_clean_source(src, st.k);
        lemma_clean_source(src, st.k + 1);
    }
    let p = peek(src, st).kind;
    if p != TokenType::Semicolon && precedence.level() < token_precedence(p).level() {
        match infix_action(p) {
            None => (left, ended(st, "parseExpression"@)),
            Some(a) => {
                let st1 = advanced(st);
                match left {
                    None => (None, st1),
                    Some(l) => {
                        let (next, st2) = match a {
                            InfixParseAction::InfixExpression => {
                                let (e, s) = parsed_infix(src, st1, l);
                                (Some(e), s)
                            },
                            InfixParseAction::CallExpression => parsed_call(src, st1, l),
                            InfixParseAction::IndexExpression => parsed_index(src, st1, l),
                        };
                        if st2.k < st1.k {
                            (next, st2)
                        } else {
                            infix_loop(src, st2, precedence, next)
                        }
                    },
                }
            },
        }
    } else {
        (left, ended(st, "parseExpression"@))
    }
}

pub open spec fn parsed_prefix_expression(src: TokenSource, st: ParseState) -> (
    Option<SExpr>,
    ParseState,
)
    decreases src.remaining(st.k), 3nat
    when src.clean() && cur(src, st).kind != TokenType::Eof
{
    proof {
        lemma_clean_source(src, st.k);
    }
    let st0 = begun(st, "parsePrefixExpression"@);
    let token = cur(src, st0);
    let st1 = advanced(st0);
    let (right, st2) = parsed_expression(src, st1, Precedence::Prefix);
    match right {
        None => (None, st2),
        Some(r) => (
            Some(SExpr::Prefix { token, operator: token.literal, right: Box::new(r) }),
            ended(st2, "parsePrefixExpression"@),
        ),
    }
}

pub open spec fn parsed_infix(src: TokenSource, st: ParseState, left: SExpr) -> (SExpr, ParseState)
    decreases src.remaining(st.k), 3nat
    when src.clean() && cur(src, st).kind != TokenType::Eof
{
    proof {
        lemma_clean_source(src, st.k);
    }
    let st0 = begun(st, "parseInfixExpression"@);
    let token = cur(src, st0);
    let st1 = advanced(st0);
    let (right, st2) = parsed_expression(src, st1, token_precedence(token.kind));
    let r = match right {
        Some(r) => r,
        None => zero_literal(),
    };
    (
        SExpr::Infix { token, left: Box::new(left), operator: token.literal, right: Box::new(r) },
        ended(st2, "parseInfixExpression"@),
    )
}

pub open spec fn parsed_grouped(src: TokenSource, st: ParseState) -> (Option<SExpr>, ParseState)
    decreases src.remaining(st.k), 3nat
    when src.clean() && cur(src, st).kind != TokenType::Eof
{
    proof {
        lemma_clean_source(src, st.k);
    }
    let st0 = begun(st, "parseGroupedExpression"@);
    let st1 = advanced(st0);
    let (e, st2) = parsed_expression(src, st1, Precedence::Lowest);
    let (ok, st3) = expect_peek(src, st2, TokenType::RParen);
    if !ok {
        (None, ended(st3, "parseGroupedExpression"@))
    } else {
        (e, ended(st3, "parseGroupedExpression"@))
    }
}

pub open spec fn parsed_if(src: TokenSource, st: ParseState) -> (Option<SExpr>, ParseState)
    decreases src.remaining(st.k), 3nat
    when src.clean()
{
    proof {
        lemma_clean_source(src, st.k);
        lemma_clean_source(src, st.k + 1);
    }
    let st00 = begun(st, "parseIfExpression"@);
    let token = cur(src, st00);
    let (ok1, st1) = expect_peek(src, st00, TokenType::LParen);
    if !ok1 {
        (None, ended(st1, "parseIfExpression"@))
    } else {
        let st2 = advanced(st1);
        let (cond, st3) = parsed_expression(src, st2, Precedence::Lowest);
        match cond {
            None => (None, st3),
            Some(c) => if st3.k < st2.k {
                (None, st3)
            } else {
                let (ok2, st4) = expect_peek(src, st3, TokenType::RParen);
                if !ok2 {
                    (None, ended(st4, "parseIfExpression"@))
                } else {
                    let (ok3, st5) = expect_peek(src, st4, TokenType::LBrace);
                    if !ok3 {
                        (None, ended(st5, "parseIfExpression"@))
                    } else {
                        let (consequence, st6) = parsed_block(src, st5);
                        if st6.k < st5.k {
                            (None, st6)
                        } else if peek(src, st6).kind == TokenType::Else {
                            let st7 = advanced(st6);
                            let (ok4, st8) = expect_peek(src, st7, TokenType::LBrace);
                            if !ok4 {
                                (None, ended(st8, "parseIfExpression"@))
                            } else {
                                let (alternative, st9) = parsed_block(src, st8);
                                (
                                    Some(
                                        SExpr::If {
                                            token,
                                            condition: Box::new(c),
                                            consequence,
                                            alternative: Some(alternative),
                                        },
                                    ),
                                    ended(st9, "parseIfExpression"@),
                                )
                            }
                        } else {
                            (
                                Some(
                                    SExpr::If {
                                        token,
                                        condition: Box::new(c),
                                        consequence,
                                        alternative: None,
                                    },
                                ),
                                ended(st6, "parseIfExpression"@),
                            )
                        }
                    }
                }
            },
        }
    }
}

/// A block: its statements up to the closing brace (or the end of the input).
pub open spec fn parsed_block(src: TokenSource, st: ParseState) -> (SBlock, ParseState)
    decreases src.remaining(st.k), 9nat
    when src.clean()
{
    let st0 = begun(st, "parseBlockStatement"@);
    let token = cur(src, st0);
    let (statements, st1) = block_loop(src, advanced(st0), Seq::empty());
    (SBlock { token, statements }, ended(st1, "parseBlockStatement"@))
}

pub open spec fn block_loop(src: TokenSource, st: ParseState, acc: Seq<SStmt>) -> (
    Seq<SStmt>,
    ParseState,
)
    decreases src.remaining(st.k), 8nat
    when src.clean()
{
    proof {
        lemma_clean_source(src, st.k);
    }
    let t = cur(src, st).kind;
    if t != TokenType::RBrace && t != TokenType::Eof {
        let (s, st1) = parsed_statement(src, st);
        if st1.k < st.k {
            (acc, st1)
        } else {
            block_loop(src, advanced(st1), push_some(acc, s))
        }
    } else {
        (acc, st)
    }
}

pub open spec fn parsed_function(src: TokenSource, st: ParseState) -> (Option<SExpr>, ParseState)
    decreases src.remaining(st.k), 3nat
    when src.clean()
{
    proof {
        lemma_clean_source(src, st.k);
        lemma_clean_source(src, st.k + 1);
    }
    let st0 = begun(st, "parseFunctionLiteral"@);
    let token = cur(src, st0);
    let (ok1, st1) = expect_peek(src, st0, TokenType::LParen);
    if !ok1 {
        (None, ended(st1, "parseFunctionLiteral"@))
    } else {
        let (params, st2) = parsed_params(src, st1);
        match params {
            None => (None, st2),
            Some(ps) => if st2.k < st1.k {
                (None, st2)
            } else {
                let (ok2, st3) = expect_peek(src, st2, TokenType::LBrace);
                if !ok2 {
                    (None, ended(st3, "parseFunctionLiteral"@))
                } else {
                    let (body, st4) = parsed_block(src, st3);
                    (Some(SExpr::Func { token, parameters: ps, body }), ended(st4, "parseFunctionLiteral"@))
                }
            },
        }
    }
}

/// The parameter list of a function literal; the current token is its `(`.
pub open spec fn parsed_params(src: TokenSource, st: ParseState) -> (Option<Seq<SIdent>>, ParseState) {
    let st0 = begun(st, "parseFunctionParameters"@);
    if peek(src, st0).kind == TokenType::RParen {
        (Some(Seq::empty()), ended(advanced(st0), "parseFunctionParameters"@))
    } else {
        let st1 = advanced(st0);
        let (ids, st2) = params_loop(src, st1, seq![ident_at(src, st1)]);
        let (ok, st3) = expect_peek(src, st2, TokenType::RParen);
        if !ok {
            (None, ended(st3, "parseFunctionParameters"@))
        } else {
            (Some(ids), ended(st3, "parseFunctionParameters"@))
        }
    }
}

pub open spec fn params_loop(src: TokenSource, st: ParseState, acc: Seq<SIdent>) -> (
    Seq<SIdent>,
    ParseState,
)
    decreases src.remaining(st.k)
    when src.clean()
{
    proof {
        lemma_clean_source(src, st.k);
        lemma_clean_source(src, st.k + 1);
    }
    if peek(src, st).kind == TokenType::Comma {
        let st1 = advanced(advanced(st));
        params_loop(src, st1, acc.push(ident_at(src, st1)))
    } else {
        (acc, st)
    }
}

pub open spec fn parsed_call(src: TokenSource, st: ParseState, function: SExpr) -> (
    Option<SExpr>,
    ParseState,
)
    decreases src.remaining(st.k), 3nat
    when src.clean() && cur(src, st).kind != TokenType::Eof
{
    let st0 = begun(st, "parseCallExpression"@);
    let token = cur(src, st0);
    let (args, st1) = parsed_list(src, st0, TokenType::RParen);
    match args {
        None => (None, st1),
        Some(a) => (
            Some(SExpr::Call { token, function: Box::new(function), arguments: a }),
            ended(st1, "parseCallExpression"@),
        ),
    }
}

/// A comma-separated list of expressions closed by `end`; the current token opens it.
pub open spec fn parsed_list(src: TokenSource, st: ParseState, end: TokenType) -> (
    Option<Seq<SExpr>>,
    ParseState,
)
    decreases src.remaining(st.k), 2nat
    when src.clean() && cur(src, st).kind != TokenType::Eof
{
    proof {
        lemma_clean_source(src, st.k);
    }
    let st0 = begun(st, "parseExpressionList"@);
    if peek(src, st0).kind == end {
        (Some(Seq::empty()), ended(advanced(st0), "parseExpressionList"@))
    } else {
        let st1 = advanced(st0);
        let (first, st2) = parsed_expression(src, st1, Precedence::Lowest);
        if st2.k < st1.k {
            (None, st2)
        } else {
            let (items, st3) = list_loop(src, st2, push_some(Seq::empty(), first));
            let (ok, st4) = expect_peek(src, st3, end);
            if !ok {
                (None, ended(st4, "parseExpressionList"@))
            } else {
                (Some(items), ended(st4, "parseExpressionList"@))
            }
        }
    }
}

pub open spec fn list_loop(src: TokenSource, st: ParseState, acc: Seq<SExpr>) -> (
    Seq<SExpr>,
    ParseState,
)
    decreases src.remaining(st.k), 1nat
    when src.clean()
{
    proof {
        lemma_clean_source(src, st.k);
        lemma_clean_source(src, st.k + 1);
    }
    if peek(src, st).kind == TokenType::Comma {
        let st1 = advanced(advanced(st));
        let (e, st2) = parsed_expression(src, st1, Precedence::Lowest);
        if st2.k < st1.k {
            (acc, st2)
        } else {
            list_loop(src, st2, push_some(acc, e))
        }
    } else {
        (acc, st)
    }
}

pub open spec fn parsed_array(src: TokenSource, st: ParseState) -> (Option<SExpr>, ParseState)
    decreases src.remaining(st.k), 3nat
    when src.clean() && cur(src, st).kind != TokenType::Eof
{
    let st0 = begun(st, "parseArrayLiteral"@);
    let token = cur(src, st0);
    let (elements, st1) = parsed_list(src, st0, TokenType::RBracket);
    match elements {
        None => (None, st1),
        Some(e) => (Some(SExpr::Array { token, elements: e }), ended(st1, "parseArrayLiteral"@)),
    }
}

pub open spec fn parsed_index(src: TokenSource, st: ParseState, left: SExpr) -> (
    Option<SExpr>,
    ParseState,
)
    decreases src.remaining(st.k), 3nat
    when src.clean() && cur(src, st).kind != TokenType::Eof
{
    proof {
        lemma_clean_source(src, st.k);
    }
    let st0 = begun(st, "parseIndexExpression"@);
    let token = cur(src, st0);
    let st1 = advanced(st0);
    let (index, st2) = parsed_expression(src, st1, Precedence::Lowest);
    match index {
        None => (None, st2),
        Some(i) => {
            let (ok, st3) = expect_peek(src, st2, TokenType::RBracket);
            if !ok {
                (None, ended(st3, "parseIndexExpression"@))
            } else {
                (
                    Some(SExpr::Index { token, left: Box::new(left), index: Box::new(i) }),
                    ended(st3, "parseIndexExpression"@),
                )
            }
        },
    }
}

pub open spec fn parsed_hash(src: TokenSource, st: ParseState) -> (Option<SExpr>, ParseState)
    decreases src.remaining(st.k), 3nat
    when src.clean() && cur(src, st).kind != TokenType::Eof
{
    let st0 = begun(st, "parseHashLiteral"@);
    let token = cur(src, st0);
    let (pairs, st1) = hash_loop(src, st0, Seq::empty());
    match pairs {
        None => (None, st1),
        Some(ps) => {
            let (ok, st2) = expect_peek(src, st1, TokenType::RBrace);
            if !ok {
                (None, ended(st2, "parseHashLiteral"@))
            } else {
                (Some(SExpr::Hash { token, pairs: ps }), ended(st2, "parseHashLiteral"@))
            }
        },
    }
}

/// The pairs of a hash literal; a colon or comma that is missing ends the
/// literal's trace, a missing key or value does not.
pub open spec fn hash_loop(src: TokenSource, st: ParseState, acc: Seq<(SExpr, SExpr)>) -> (
    Option<Seq<(SExpr, SExpr)>>,
    ParseState,
)
    decreases src.remaining(st.k), 2nat
    when src.clean() && cur(src, st).kind != TokenType::Eof
{
    proof {
        lemma_clean_source(src, st.k);
    }
    if peek(src, st).kind != TokenType::RBrace {
        let st1 = advanced(st);
        let (key, st2) = parsed_expression(src, st1, Precedence::Lowest);
        match key {
            None => (None, st2),
            Some(k) => if st2.k < st1.k {
                (None, st2)
            } else {
                let (ok1, st3) = expect_peek(src, st2, TokenType::Colon);
                if !ok1 {
                    (None, ended(st3, "parseHashLiteral"@))
                } else {
                    let st4 = advanced(st3);
                    let (value, st5) = parsed_expression(src, st4, Precedence::Lowest);
                    match value {
                        None => (None, st5),
                        Some(v) => if st5.k < st4.k {
                            (None, st5)
                        } else {
                            let acc1 = crate::ast::with_pair(acc, k, v);
                            if peek(src, st5).kind != TokenType::RBrace {
                                let (ok2, st6) = expect_peek(src, st5, TokenType::Comma);
                                if !ok2 {
                                    (None, ended(st6, "parseHashLiteral"@))
                                } else {
                                    hash_loop(src, st6, acc1)
                                }
                            } else {
                                hash_loop(src, st5, acc1)
                            }
                        },
                    }
                }
            },
        }
    } else {
        (Some(acc), st)
    }
}

pub open spec fn program_loop(src: TokenSource, st: ParseState, acc: Seq<SStmt>) -> (
    Seq<SStmt>,
    ParseState,
)
    decreases src.remaining(st.k)
    when src.clean()
{
    proof {
        lemma_clean_source(src, st.k);
    }
    if cur(src, st).kind != TokenType::Eof {
        let (s, st1) = parsed_statement(src, st);
        if st1.k < st.k {
            (acc, st1)
        } else {
            program_loop(src, advanced(st1), push_some(acc, s))
        }
    } else {
        (acc, st)
    }
}

/// What parsing the whole program gives: its statements and the parser's
/// state after, its trace lines included.
pub open spec fn parsed_program(src: TokenSource, st: ParseState) -> (Seq<SStmt>, ParseState) {
    let (stmts, st1) = program_loop(src, begun(st, "parseProgram"@), Seq::empty());
    (stmts, ended(st1, "parseProgram"@))
}

// ---------------------------------------------------------------------------
// The parser
// ---------------------------------------------------------------------------

/// The prefix table, in the order the parser registers it.
pub open spec fn prefix_table() -> Seq<(TokenType, PrefixParseAction)> {
    seq![
        (TokenType::Ident, PrefixParseAction::Identifier),
        (TokenType::Int, PrefixParseAction::IntegerLiteral),
        (TokenType::String, PrefixParseAction::StringLiteral),
        (TokenType::True, PrefixParseAction::Boolean),
        (TokenType::False, PrefixParseAction::Boolean),
        (TokenType::Bang, PrefixParseAction::PrefixExpression),
        (TokenType::Minus, PrefixParseAction::PrefixExpression),
        (TokenType::LParen, PrefixParseAction::GroupedExpression),
        (TokenType::If, PrefixParseAction::IfExpression),
        (TokenType::Function, PrefixParseAction::FunctionLiteral),
        (TokenType::LBracket, PrefixParseAction::ArrayLiteral),
        (TokenType::LBrace, PrefixParseAction::HashLiteral),
    ]
}

/// The infix table, in the order the parser registers it.
pub open spec fn infix_table() -> Seq<(TokenType, InfixParseAction)> {
    seq![
        (TokenType::Plus, InfixParseAction::InfixExpression),
        (TokenType::Minus, InfixParseAction::InfixExpression),
        (TokenType::Slash, InfixParseAction::InfixExpression),
        (TokenType::Asterisk, InfixParseAction::InfixExpression),
        (TokenType::Eq, InfixParseAction::InfixExpression),
        (TokenType::NotEq, InfixParseAction::InfixExpression),
        (TokenType::Lt, InfixParseAction::InfixExpression),
        (TokenType::Gt, InfixParseAction::InfixExpression),
        (TokenType::LParen, InfixParseAction::CallExpression),
        (TokenType::LBracket, InfixParseAction::IndexExpression),
    ]
}

/// The tables hold exactly the actions that `prefix_action` and `infix_action`
/// give: each entry's action is the one for its kind, and a kind with no entry
/// has none.
pub proof fn lemma_tables()
    ensures
        forall|j: int|
            0 <= j < prefix_table().len() ==> prefix_action(#[trigger] prefix_table()[j].0) == Some(
                prefix_table()[j].1,
            ),
        forall|t: TokenType|
            (forall|j: int| 0 <= j < prefix_table().len() ==> #[trigger] prefix_table()[j].0 != t)
                ==> prefix_action(t) is None,
        forall|j: int|
            0 <= j < infix_table().len() ==> infix_action(#[trigger] infix_table()[j].0) == Some(
                infix_table()[j].1,
            ),
        forall|t: TokenType|
            (forall|j: int| 0 <= j < infix_table().len() ==> #[trigger] infix_table()[j].0 != t)
                ==> infix_action(t) is None,
{
    let p = prefix_table();
    let q = infix_table();
    assert forall|t: TokenType|
        (forall|j: int| 0 <= j < p.len() ==> #[trigger] p[j].0 != t) implies prefix_action(t) is None by {
        assert(p[0].0 != t && p[1].0 != t && p[2].0 != t && p[3].0 != t && p[4].0 != t);
        assert(p[5].0 != t && p[6].0 != t && p[7].0 != t && p[8].0 != t && p[9].0 != t);
        assert(p[10].0 != t && p[11].0 != t);
    }
    assert forall|t: TokenType|
        (forall|j: int| 0 <= j < q.len() ==> #[trigger] q[j].0 != t) implies infix_action(t) is None by {
        assert(q[0].0 != t && q[1].0 != t && q[2].0 != t && q[3].0 != t && q[4].0 != t);
        assert(q[5].0 != t && q[6].0 != t && q[7].0 != t && q[8].0 != t && q[9].0 != t);
    }
}

pub open spec fn errors_view(v: Seq<String>) -> Seq<Seq<char>> {
    v.map_values(|s: String| s@)
}

pub open spec fn opt_expr_view(e: Option<crate::ast::Expression>) -> Option<SExpr> {
    match e {
        Some(x) => Some(x@),
        None => None,
    }
}

pub open spec fn opt_stmt_view(s: Option<crate::ast::Statement>) -> Option<SStmt> {
    match s {
        Some(x) => Some(x@),
        None => None,
    }
}

/// What a parser stands for: the tokens it reads and where it stands among them.
pub struct ParserView {
    pub source: TokenSource,
    pub state: ParseState,
}

/// Parses Monkey programs from the tokens of a lexer.
pub struct Parser {
    l: Lexer,
    errors: Vec<String>,
    curr_token: Token,
    peek_token: Token,
    prefix_parse_actions: Vec<(TokenType, PrefixParseAction)>,
    infix_parse_actions: Vec<(TokenType, InfixParseAction)>,
    source: Ghost<TokenSource>,
    index: Ghost<nat>,
    trace: Vec<String>,
    trace_level: usize,
}

impl View for Parser {
    type V = ParserView;

    closed spec fn view(&self) -> ParserView {
        ParserView {
            source: self.source@,
            state: ParseState {
                k: self.index@,
                errors: errors_view(self.errors@),
                trace: errors_view(self.trace@),
                level: self.trace_level as nat,
            },
        }
    }
}

impl Parser {
    /// The parser's invariant: its current and next tokens are the tokens of
    /// its source at its index, and its lexer stands just after them.
    pub closed spec fn wf(&self) -> bool {
        &&& self.l.wf()
        &&& self.l@.0 == self.source@.input
        &&& self.l@.1 == self.source@.pos(self.index@ + 2)
        &&& self.source@.start <= self.source@.input.len()
        &&& self.curr_token@ == self.source@.tok(self.index@)
        &&& self.peek_token@ == self.source@.tok(self.index@ + 1)
        &&& self.prefix_parse_actions@ == prefix_table()
        &&& self.infix_parse_actions@ == infix_table()
    }

    /// The parser `self` is `before` moved on: same tokens, no step back.
    closed spec fn moved_on(&self, before: Parser) -> bool {
        &&& self.wf()
        &&& self.source@ == before.source@
        &&& self.index@ >= before.index@
        &&& before@.state.errors.is_prefix_of(self@.state.errors)
        &&& before.traced().is_prefix_of(self.traced())
    }

    /// The trace lines recorded so far.
    pub closed spec fn traced(&self) -> Seq<Seq<char>> {
        errors_view(self.trace@)
    }

    pub fn new(l: Lexer) -> (p: Parser)
        requires
            l.wf(),
        ensures
            p.wf(),
            p@ == (ParserView {
                source: TokenSource { input: l@.0, start: l@.1 },
                state: ParseState { k: 0, errors: Seq::empty(), trace: Seq::empty(), level: 0 },
            }),
            p.prefix_actions() == prefix_table(),
            p.infix_actions() == infix_table(),
    {
        let ghost src = TokenSource { input: l@.0, start: l@.1 };
        let prefix_parse_actions = Vec::new();
        let infix_parse_actions = Vec::new();
        let mut p = Parser {
            l,
            curr_token: Token::eof(),
            peek_token: Token::eof(),
            errors: Vec::new(),
            prefix_parse_actions,
            infix_parse_actions,
            source: Ghost(src),
            index: Ghost(0),
            trace: Vec::new(),
            trace_level: 0,
        };
        // Read the first two tokens.
        p.curr_token = p.peek_token.clone();
        p.peek_token = p.l.next_token();
        assert(src.pos(0) == src.start);
        assert(p.peek_token@ == src.tok(0));
        assert(p.l@.1 == src.pos(1));
        p.curr_token = p.peek_token.clone();
        p.peek_token = p.l.next_token();
        assert(p.l@.1 == src.pos(2));
        p.register_expression_parser_actions();
        assert(errors_view(p.errors@) =~= Seq::<Seq<char>>::empty());
        assert(errors_view(p.trace@) =~= Seq::<Seq<char>>::empty());
        p
    }

    /// The parser is `other` but for what it has traced.
    closed spec fn same_but_trace(&self, other: Parser) -> bool {
        &&& self.l == other.l
        &&& self.errors == other.errors
        &&& self.curr_token == other.curr_token
        &&& self.peek_token == other.peek_token
        &&& self.prefix_parse_actions == other.prefix_parse_actions
        &&& self.infix_parse_actions == other.infix_parse_actions
        &&& self.source == other.source
        &&& self.index == other.index
    }

    /// Records that the routine `name` begins: one level deeper, a `BEGIN` line.
    fn trace_begin(&mut self, name: &str)
        ensures
            old(self).traced().is_prefix_of(final(self).traced()),
            final(self).same_but_trace(*old(self)),
            final(self)@.source == old(self)@.source,
            final(self)@.state == begun(old(self)@.state, name@),
            final(self).wf() == old(self).wf(),
    {
        let (next, line, _msg) = crate::tracing::trace(self.trace_level, name);
        self.trace_level = next;
        let ghost before = self.trace@;
        self.trace.push(line);
        assert(errors_view(self.trace@) =~= errors_view(before).push(line@));
    }

    /// Records that the routine `name` ends: an `END` line, one level shallower.
    fn trace_end(&mut self, name: &str)
        ensures
            old(self).traced().is_prefix_of(final(self).traced()),
            final(self).same_but_trace(*old(self)),
            final(self)@.source == old(self)@.source,
            final(self)@.state == ended(old(self)@.state, name@),
            final(self).wf() == old(self).wf(),
    {
        let (next, line) = crate::tracing::untrace(self.trace_level, name);
        self.trace_level = next;
        let ghost before = self.trace@;
        self.trace.push(line);
        assert(errors_view(self.trace@) =~= errors_view(before).push(line@));
    }

    /// The trace lines that the parsing routines have recorded so far, in
    /// order: `BEGIN` and the routine's name when one begins, `END` and its
    /// name when it ends, each indented by a tab for each level of nesting
    /// beyond the first.
    pub fn trace_lines(&self) -> (r: &Vec<String>)
        ensures
            errors_view(r@) == self.traced(),
            errors_view(r@) == self@.state.trace,
    {
        &self.trace
    }

    /// The trace level the parser has reached.
    pub fn trace_level(&self) -> (r: usize)
        ensures
            r == self@.state.level,
    {
        self.trace_level
    }

    /// Sets the trace level the parser goes on from, so that a trace level
    /// kept across parsers can be handed to this one; nothing else changes.
    pub fn set_trace_level(&mut self, level: usize)
        ensures
            final(self)@.source == old(self)@.source,
            final(self)@.state == (ParseState { level: level as nat, ..old(self)@.state }),
            final(self).wf() == old(self).wf(),
    {
        self.trace_level = level;
    }

    /// The prefix table the parser holds.
    pub closed spec fn prefix_actions(&self) -> Seq<(TokenType, PrefixParseAction)> {
        self.prefix_parse_actions@
    }

    /// The infix table the parser holds.
    pub closed spec fn infix_actions(&self) -> Seq<(TokenType, InfixParseAction)> {
        self.infix_parse_actions@
    }

    fn register_expression_parser_actions(&mut self)
        ensures
            final(self).prefix_parse_actions@ == prefix_table(),
            final(self).infix_parse_actions@ == infix_table(),
            final(self).l == old(self).l,
            final(self).errors == old(self).errors,
            final(self).trace == old(self).trace,
            final(self).trace_level == old(self).trace_level,
            final(self).curr_token == old(self).curr_token,
            final(self).peek_token == old(self).peek_token,
            final(self).source == old(self).source,
            final(self).index == old(self).index,
    {
        // Register prefix parsers
        let mut prefix = Vec::new();
        prefix.push((TokenType::Ident, PrefixParseAction::Identifier));
        prefix.push((TokenType::Int, PrefixParseAction::IntegerLiteral));
        prefix.push((TokenType::String, PrefixParseAction::StringLiteral));
        prefix.push((TokenType::True, PrefixParseAction::Boolean));
        prefix.push((TokenType::False, PrefixParseAction::Boolean));
        prefix.push((TokenType::Bang, PrefixParseAction::PrefixExpression));
        prefix.push((TokenType::Minus, PrefixParseAction::PrefixExpression));
        prefix.push((TokenType::LParen, PrefixParseAction::GroupedExpression));
        prefix.push((TokenType::If, PrefixParseAction::IfExpression));
        prefix.push((TokenType::Function, PrefixParseAction::FunctionLiteral));
        prefix.push((TokenType::LBracket, PrefixParseAction::ArrayLiteral));
        prefix.push((TokenType::LBrace, PrefixParseAction::HashLiteral));
        // Register infix parsers
        let mut infix = Vec::new();
        infix.push((TokenType::Plus, InfixParseAction::InfixExpression));
        infix.push((TokenType::Minus, InfixParseAction::InfixExpression));
        infix.push((TokenType::Slash, InfixParseAction::InfixExpression));
        infix.push((TokenType::Asterisk, InfixParseAction::InfixExpression));
        infix.push((TokenType::Eq, InfixParseAction::InfixExpression));
        infix.push((TokenType::NotEq, InfixParseAction::InfixExpression));
        infix.push((TokenType::Lt, InfixParseAction::InfixExpression));
        infix.push((TokenType::Gt, InfixParseAction::InfixExpression));
        infix.push((TokenType::LParen, InfixParseAction::CallExpression));
        infix.push((TokenType::LBracket, InfixParseAction::IndexExpression));
        assert(prefix@ =~= prefix_table());
        assert(infix@ =~= infix_table());
        self.prefix_parse_actions = prefix;
        self.infix_parse_actions = infix;
    }

    fn prefix_parse_action(&self, t: TokenType) -> (r: Option<PrefixParseAction>)
        requires
            self.prefix_parse_actions@ == prefix_table(),
        ensures
            r == prefix_action(t),
    {
        proof {
            lemma_tables();
        }
        let mut i: usize = 0;
        while i < self.prefix_parse_actions.len()
            invariant
                self.prefix_parse_actions@ == prefix_table(),
                i <= prefix_table().len(),
                forall|j: int| 0 <= j < i ==> #[trigger] prefix_table()[j].0 != t,
            decreases prefix_table().len() - i,
        {
            if self.prefix_parse_actions[i].0 == t {
                return Some(self.prefix_parse_actions[i].1);
            }
            i = i + 1;
        }
        None
    }

    fn infix_parse_action(&self, t: TokenType) -> (r: Option<InfixParseAction>)
        requires
            self.infix_parse_actions@ == infix_table(),
        ensures
            r == infix_action(t),
    {
        proof {
            lemma_tables();
        }
        let mut i: usize = 0;
        while i < self.infix_parse_actions.len()
            invariant
                self.infix_parse_actions@ == infix_table(),
                i <= infix_table().len(),
                forall|j: int| 0 <= j < i ==> #[trigger] infix_table()[j].0 != t,
            decreases infix_table().len() - i,
        {
            if self.infix_parse_actions[i].0 == t {
                return Some(self.infix_parse_actions[i].1);
            }
            i = i + 1;
        }
        None
    }

    fn next_token(&mut self)
        requires
            old(self).wf(),
        ensures
            final(self).trace == old(self).trace,
            final(self).trace_level == old(self).trace_level,
            final(self).wf(),
            final(self).source == old(self).source,
            final(self).index@ == old(self).index@ + 1,
            final(self).errors == old(self).errors,
    {
        self.curr_token = self.peek_token.clone();
        self.peek_token = self.l.next_token();
        self.index = Ghost(self.index@ + 1);
    }

    fn curr_token_is(&self, t: TokenType) -> (r: bool)
        requires
            self.wf(),
        ensures
            r == (self.source@.tok(self.index@).kind == t),
    {
        self.curr_token.token_type == t
    }

    fn peek_token_is(&self, t: TokenType) -> (r: bool)
        requires
            self.wf(),
        ensures
            r == (self.source@.tok(self.index@ + 1).kind == t),
    {
        self.peek_token.token_type == t
    }

    fn expect_peek(&mut self, t: TokenType) -> (r: bool)
        requires
            old(self).wf(),
        ensures
            final(self).moved_on(*old(self)),
            (r, final(self)@.state) == expect_peek(old(self)@.source, old(self)@.state, t),
    {
        if self.peek_token_is(t) {
            self.next_token();
            true
        } else {
            self.peek_error(t);
            false
        }
    }

    /// The messages of the errors met so far.
    pub fn errors(&self) -> (r: &Vec<String>)
        ensures
            errors_view(r@) == self@.state.errors,
    {
        &self.errors
    }

    fn push_error(&mut self, msg: String)
        requires
            old(self).wf(),
        ensures
            final(self).trace == old(self).trace,
            final(self).trace_level == old(self).trace_level,
            final(self).wf(),
            final(self).source == old(self).source,
            final(self).index == old(self).index,
            final(self)@.state == with_error(old(self)@.state, msg@),
    {
        self.errors.push(msg);
        assert(errors_view(self.errors@) =~= errors_view(old(self).errors@).push(msg@));
    }

    fn peek_error(&mut self, t: TokenType)
        requires
            old(self).wf(),
        ensures
            final(self).trace == old(self).trace,
            final(self).trace_level == old(self).trace_level,
            final(self).wf(),
            final(self).source == old(self).source,
            final(self).index == old(self).index,
            final(self)@.state == with_error(
                old(self)@.state,
                peek_error_message(t, old(self)@.source.tok(old(self)@.state.k + 1).kind),
            ),
    {
        let mut msg = String::from_str("expected next token to be ");
        let expected = kind_name_of(t);
        crate::text::push_str(&mut msg, expected.as_str());
        crate::text::push_str(&mut msg, ", got ");
        let got = kind_name_of(self.peek_token.token_type);
        crate::text::push_str(&mut msg, got.as_str());
        crate::text::push_str(&mut msg, " instead");
        self.push_error(msg);
    }

    fn no_prefix_parse_fn_error(&mut self, t: TokenType)
        requires
            old(self).wf(),
        ensures
            final(self).trace == old(self).trace,
            final(self).trace_level == old(self).trace_level,
            final(self).wf(),
            final(self).source == old(self).source,
            final(self).index == old(self).index,
            final(self)@.state == with_error(old(self)@.state, no_prefix_message(t)),
    {
        let mut msg = String::from_str("no prefix parse function for ");
        let name = kind_name_of(t);
        crate::text::push_str(&mut msg, name.as_str());
        crate::text::push_str(&mut msg, " found");
        self.push_error(msg);
    }

    fn peek_precedence(&self) -> (p: Precedence)
        requires
            self.wf(),
        ensures
            p == token_precedence(self.source@.tok(self.index@ + 1).kind),
    {
        Precedence::from(&self.peek_token.token_type)
    }

    fn curr_precedence(&self) -> (p: Precedence)
        requires
            self.wf(),
        ensures
            p == token_precedence(self.source@.tok(self.index@).kind),
    {
        Precedence::from(&self.curr_token.token_type)
    }
}

impl<'a> From<&'a TokenType> for Precedence {
    /// How tightly the operator that a token kind stands for binds.
    fn from(t: &'a TokenType) -> (p: Precedence) {
        match t {
            TokenType::Eq => Precedence::Equals,
            TokenType::NotEq => Precedence::Equals,
            TokenType::Lt => Precedence::LessGreater,
            TokenType::Gt => Precedence::LessGreater,
            TokenType::Plus => Precedence::Sum,
            TokenType::Minus => Precedence::Sum,
            TokenType::Slash => Precedence::Product,
            TokenType::Asterisk => Precedence::Product,
            TokenType::LParen => Precedence::Call,
            TokenType::LBracket => Precedence::Index,
            _ => Precedence::Lowest,
        }
    }
}

impl<'a> vstd::std_specs::convert::FromSpecImpl<&'a TokenType> for Precedence {
    open spec fn obeys_from_spec() -> bool {
        true
    }

    open spec fn from_spec(t: &'a TokenType) -> Precedence {
        token_precedence(*t)
    }
}

impl Precedence {
    fn rank(&self) -> (r: u8)
        ensures
            r as nat == self.level(),
    {
        match self {
            Precedence::Lowest => 0,
            Precedence::Equals => 1,
            Precedence::LessGreater => 2,
            Precedence::Sum => 3,
            Precedence::Product => 4,
            Precedence::Prefix => 5,
            Precedence::Call => 6,
            Precedence::Index => 7,
        }
    }
}

/// The name of a token kind, as `{:?}` prints it.
pub fn kind_name_of(t: TokenType) -> (r: String)
    ensures
        r@ == kind_name(t),
{
    let name = match t {
        TokenType::Illegal => "Illegal",
        TokenType::Eof => "Eof",
        TokenType::Ident => "Ident",
        TokenType::Int => "Int",
        TokenType::String => "String",
        TokenType::Assign => "Assign",
        TokenType::Plus => "Plus",
        TokenType::Bang => "Bang",
        TokenType::Minus => "Minus",
        TokenType::Slash => "Slash",
        TokenType::Asterisk => "Asterisk",
        TokenType::Lt => "Lt",
        TokenType::Gt => "Gt",
        TokenType::Eq => "Eq",
        TokenType::NotEq => "NotEq",
        TokenType::Comma => "Comma",
        TokenType::Semicolon => "Semicolon",
        TokenType::Colon => "Colon",
        TokenType::LParen => "LParen",
        TokenType::RParen => "RParen",
        TokenType::LBrace => "LBrace",
        TokenType::RBrace => "RBrace",
        TokenType::LBracket => "LBracket",
        TokenType::RBracket => "RBracket",
        TokenType::Function => "Function",
        TokenType::Let => "Let",
        TokenType::If => "If",
        TokenType::Return => "Return",
        TokenType::True => "True",
        TokenType::False => "False",
        TokenType::Else => "Else",
    };
    String::from_str(name)
}

// ---------------------------------------------------------------------------
// Reading integers
// ---------------------------------------------------------------------------

proof fn lemma_decimal_value_grows(s: Seq<char>, i: int)
    requires
        0 <= i <= s.len(),
        forall|j: int| 0 <= j < s.len() ==> crate::lexer::digit(#[trigger] s[j]),
    ensures
        0 <= decimal_value(s.subrange(0, i)) <= decimal_value(s),
    decreases s.len(),
{
    if s.len() > 0 {
        let p = s.subrange(0, s.len() - 1);
        if i < s.len() {
            assert(p.subrange(0, i) =~= s.subrange(0, i));
            lemma_decimal_value_grows(p, i);
        } else {
            assert(s.subrange(0, i) =~= s);
        }
        lemma_decimal_value_grows(p, p.len() as int);
        assert(p.subrange(0, p.len() as int) =~= p);
    } else {
        assert(s.subrange(0, i) =~= s);
    }
}

/// Reads a string of decimal digits as an `i64`.
pub fn read_i64(s: &String) -> (r: Option<i64>)
    ensures
        match r {
            Some(v) => i64_value(s@) == Some(v as int),
            None => i64_value(s@) is None,
        },
{
    let t = s.as_str();
    let n = t.unicode_len();
    if n == 0 {
        return None;
    }
    let mut value: i64 = 0;
    let mut i: usize = 0;
    while i < n
        invariant
            n == s@.len(),
            t@ == s@,
            i <= n,
            forall|j: int| 0 <= j < i ==> crate::lexer::digit(#[trigger] s@[j]),
            value as int == decimal_value(s@.subrange(0, i as int)),
            value >= 0,
        decreases n - i,
    {
        let c = t.get_char(i);
        if !('0' <= c && c <= '9') {
            return None;
        }
        let d: i64 = (c as u32 - '0' as u32) as i64;
        if value > (i64::MAX - d) / 10 {
            proof {
                let p = s@.subrange(0, i + 1);
                assert(p.subrange(0, i as int) =~= s@.subrange(0, i as int));
                assert(decimal_value(p) > i64::MAX);
                if forall|j: int| 0 <= j < s@.len() ==> crate::lexer::digit(#[trigger] s@[j]) {
                    lemma_decimal_value_grows(s@, i + 1);
                }
            }
            return None;
        }
        proof {
            let p = s@.subrange(0, i + 1);
            assert(p.subrange(0, i as int) =~= s@.subrange(0, i as int));
            assert(value * 10 + d <= i64::MAX) by (nonlinear_arith)
                requires
                    0 <= d <= 9,
                    0 <= value,
                    value <= (i64::MAX - d) / 10,
            ;
        }
        value = value * 10 + d;
        i = i + 1;
    }
    assert(s@.subrange(0, n as int) =~= s@);
    Some(value)
}

// ---------------------------------------------------------------------------
// Parsing
// ---------------------------------------------------------------------------

pub open spec fn opt_idents_view(v: Option<Vec<Identifier>>) -> Option<Seq<SIdent>> {
    match v {
        Some(x) => Some(idents_view(x@)),
        None => None,
    }
}

pub open spec fn opt_exprs_view(v: Option<Vec<Expression>>) -> Option<Seq<SExpr>> {
    match v {
        Some(x) => Some(exprs_view(x@)),
        None => None,
    }
}

impl Parser {
    /// Parses the whole program, up to the end of the input.
    ///
    /// The text left to the lexer must be clean (see `TokenSource::clean`, and
    /// `Lexer::is_clean` to test it): on an unknown character the lexer hands
    /// out `Illegal` tokens for ever and the loop below would never see `Eof`.
    #[verifier::rlimit(40)]
    pub fn parse_program(&mut self) -> (program: Program)
        requires
            old(self).wf(),
            old(self)@.source.clean(),
        ensures
            final(self).wf(),
            final(self)@.source == old(self)@.source,
            (program@, final(self)@.state) == parsed_program(old(self)@.source, old(self)@.state),
            old(self)@.state.errors.is_prefix_of(final(self)@.state.errors),
            old(self).traced().is_prefix_of(final(self).traced()),
            cur(final(self)@.source, final(self)@.state).kind == TokenType::Eof,
    {
        self.trace_begin("parseProgram");
        let ghost src = self@.source;
        let ghost st0 = self@.state;
        let mut program = Program { statements: Vec::new() };
        assert(stmts_view(program.statements@) =~= Seq::<SStmt>::empty());
        while self.curr_token.token_type != TokenType::Eof
            invariant
                self.moved_on(*old(self)),
                src == self@.source,
                src.clean(),
                program_loop(src, self@.state, stmts_view(program.statements@)) == program_loop(
                    src,
                    st0,
                    Seq::empty(),
                ),
            decreases src.remaining(self@.state.k),
        {
            proof {
                lemma_clean_source(src, self@.state.k);
            }
            let ghost st = self@.state;
            let ghost acc = stmts_view(program.statements@);
            let statement = self.parse_statement();
            let ghost st1 = self@.state;
            match statement {
                Some(s) => {
                    proof {
                        lemma_stmts_view_push(program.statements@, s);
                    }
                    program.statements.push(s);
                },
                None => {},
            }
            self.next_token();
            assert(program_loop(src, st, acc) == program_loop(src, advanced(st1), push_some(acc, opt_stmt_view(statement))));
        }
        self.trace_end("parseProgram");
        program
    }

    fn parse_statement(&mut self) -> (r: Option<Statement>)
        requires
            old(self).wf(),
            old(self)@.source.clean(),
        ensures
            final(self).moved_on(*old(self)),
            (opt_stmt_view(r), final(self)@.state) == parsed_statement(old(self)@.source, old(self)@.state),
        decreases old(self)@.source.remaining(old(self)@.state.k), 7nat,
    {
        self.trace_begin("parseStatement");
        let r = match self.curr_token.token_type {
            TokenType::Let => self.parse_let_statement(),
            TokenType::Return => self.parse_return_statement(),
            _ => self.parse_expression_statement(),
        };
        self.trace_end("parseStatement");
        r
    }

    #[verifier::rlimit(40)]
    fn parse_let_statement(&mut self) -> (r: Option<Statement>)
        requires
            old(self).wf(),
            old(self)@.source.clean(),
        ensures
            final(self).moved_on(*old(self)),
            (opt_stmt_view(r), final(self)@.state) == parsed_let(old(self)@.source, old(self)@.state),
        decreases old(self)@.source.remaining(old(self)@.state.k), 6nat,
    {
        self.trace_begin("parseLetStatement");
        let ghost src = self@.source;
        let ghost k0 = self@.state.k;
        let token = self.curr_token.clone();
        if !self.expect_peek(TokenType::Ident) {
            self.trace_end("parseLetStatement");
            return None;
        }
        let name = Identifier { token: self.curr_token.clone(), value: self.curr_token.literal.clone() };
        if !self.expect_peek(TokenType::Assign) {
            self.trace_end("parseLetStatement");
            return None;
        }
        proof {
            lemma_clean_source(src, k0 + 2);
        }
        self.next_token();
        let value = self.parse_expression(Precedence::Lowest);
        if self.peek_token_is(TokenType::Semicolon) {
            self.next_token();
        }
        self.trace_end("parseLetStatement");
        Some(Statement::Let(LetStatement { token, name, value }))
    }

    fn parse_return_statement(&mut self) -> (r: Option<Statement>)
        requires
            old(self).wf(),
            old(self)@.source.clean(),
            old(self)@.source.tok(old(self)@.state.k).kind != TokenType::Eof,
        ensures
            final(self).moved_on(*old(self)),
            (opt_stmt_view(r), final(self)@.state) == parsed_return(old(self)@.source, old(self)@.state),
        decreases old(self)@.source.remaining(old(self)@.state.k), 6nat,
    {
        self.trace_begin("parseReturnStatement");
        proof {
            lemma_clean_source(self@.source, self@.state.k);
        }
        let token = self.curr_token.clone();
        self.next_token();
        let return_value = self.parse_expression(Precedence::Lowest);
        if self.peek_token_is(TokenType::Semicolon) {
            self.next_token();
        }
        self.trace_end("parseReturnStatement");
        Some(Statement::Return(ReturnStatement { token, return_value }))
    }

    fn parse_expression_statement(&mut self) -> (r: Option<Statement>)
        requires
            old(self).wf(),
            old(self)@.source.clean(),
        ensures
            final(self).moved_on(*old(self)),
            (opt_stmt_view(r), final(self)@.state) == parsed_expression_statement(
                old(self)@.source,
                old(self)@.state,
            ),
        decreases old(self)@.source.remaining(old(self)@.state.k), 6nat,
    {
        self.trace_begin("parseExpressionStatement");
        let expression = self.parse_expression(Precedence::Lowest);
        let token = self.curr_token.clone();
        if self.peek_token_is(TokenType::Semicolon) {
            self.next_token();
        }
        self.trace_end("parseExpressionStatement");
        Some(Statement::Expression(ExpressionStatement { token, expression }))
    }

    #[verifier::rlimit(40)]
    fn parse_expression(&mut self, precedence: Precedence) -> (r: Option<Expression>)
        requires
            old(self).wf(),
            old(self)@.source.clean(),
        ensures
            final(self).moved_on(*old(self)),
            (opt_expr_view(r), final(self)@.state) == parsed_expression(
                old(self)@.source,
                old(self)@.state,
                precedence,
            ),
        decreases old(self)@.source.remaining(old(self)@.state.k), 5nat,
    {
        let ghost src = self@.source;
        let ghost st0 = self@.state;
        self.trace_begin("parseExpression");
        let token_type = self.curr_token.token_type;
        let parse_action = self.prefix_parse_action(token_type);
        let mut left = match parse_action {
            Some(action) => match action {
                PrefixParseAction::Identifier => {
                    self.trace_begin("parseIdentifier");
                    let r = self.parse_identifier();
                    self.trace_end("parseIdentifier");
                    r
                },
                PrefixParseAction::IntegerLiteral => self.parse_integer_literal(),
                PrefixParseAction::StringLiteral => {
                    self.trace_begin("parseStringLiteral");
                    let r = self.parse_string_literal();
                    self.trace_end("parseStringLiteral");
                    r
                },
                PrefixParseAction::Boolean => {
                    self.trace_begin("parseBoolean");
                    let r = self.parse_boolean();
                    self.trace_end("parseBoolean");
                    r
                },
                PrefixParseAction::PrefixExpression => self.parse_prefix_expression(),
                PrefixParseAction::GroupedExpression => self.parse_grouped_expression(),
                PrefixParseAction::IfExpression => self.parse_if_expression(),
                PrefixParseAction::FunctionLiteral => self.parse_function_literal(),
                PrefixParseAction::ArrayLiteral => self.parse_array_literal(),
                PrefixParseAction::HashLiteral => self.parse_hash_literal(),
            },
            None => {
                self.no_prefix_parse_fn_error(token_type);
                self.trace_end("parseExpression");
                return None;
            },
        };
        let ghost st1 = self@.state;
        let ghost left1 = opt_expr_view(left);
        assert(parsed_expression(src, st0, precedence) == infix_loop(src, st1, precedence, left1));
        while !self.peek_token_is(TokenType::Semicolon) && precedence.rank()
            < self.peek_precedence().rank()
            invariant
                self.moved_on(*old(self)),
                src == self@.source,
                src.clean(),
                infix_loop(src, self@.state, precedence, opt_expr_view(left)) == infix_loop(
                    src,
                    st1,
                    precedence,
                    left1,
                ),
                parsed_expression(src, st0, precedence) == infix_loop(src, st1, precedence, left1),
                st0 == old(self)@.state,
            decreases src.remaining(self@.state.k),
        {
            proof {
                lemma_clean_source(src, self@.state.k);
                lemma_clean_source(src, self@.state.k + 1);
            }
            let ghost st = self@.state;
            let ghost left_head = opt_expr_view(left);
            let peek_token_type = self.peek_token.token_type;
            let infix_action = self.infix_parse_action(peek_token_type);
            match infix_action {
                Some(action) => {
                    self.next_token();
                    let l = match left {
                        Some(l) => l,
                        None => {
                            assert(left_head is None);
                            assert(infix_loop(src, st, precedence, left_head) == (None::<SExpr>, self@.state));
                            assert(parsed_expression(src, st0, precedence) == (None::<SExpr>, self@.state));
                            return None;
                        },
                    };
                    left = match action {
                        InfixParseAction::InfixExpression => Some(self.parse_infix_expression(l)),
                        InfixParseAction::CallExpression => self.parse_call_expression(l),
                        InfixParseAction::IndexExpression => self.parse_index_expression(l),
                    };
                },
                None => {
                    assert(infix_loop(src, st, precedence, opt_expr_view(left)) == (opt_expr_view(left), st));
                    self.trace_end("parseExpression");
                    return left;
                },
            }
        }
        self.trace_end("parseExpression");
        left
    }

    fn parse_identifier(&self) -> (r: Option<Expression>)
        requires
            self.wf(),
        ensures
            opt_expr_view(r) == Some(SExpr::Ident(ident_at(self@.source, self@.state))),
    {
        Some(Expression::Identifier(Identifier {
            token: self.curr_token.clone(),
            value: self.curr_token.literal.clone(),
        }))
    }

    fn parse_integer_literal(&mut self) -> (r: Option<Expression>)
        requires
            old(self).wf(),
        ensures
            old(self).traced().is_prefix_of(final(self).traced()),
            final(self).wf(),
            final(self).source == old(self).source,
            final(self).index == old(self).index,
            (opt_expr_view(r), final(self)@.state) == parsed_integer(old(self)@.source, old(self)@.state),
    {
        self.trace_begin("parseIntegerLiteral");
        match read_i64(&self.curr_token.literal) {
            Some(value) => {
                let r = Some(Expression::IntegerLiteral(IntegerLiteral { token: self.curr_token.clone(), value }));
                self.trace_end("parseIntegerLiteral");
                r
            },
            None => {
                let mut msg = String::from_str("could not parse ");
                crate::text::push_str(&mut msg, self.curr_token.literal.as_str());
                crate::text::push_str(&mut msg, " as integer");
                self.push_error(msg);
                self.trace_end("parseIntegerLiteral");
                None
            },
        }
    }

    fn parse_string_literal(&self) -> (r: Option<Expression>)
        requires
            self.wf(),
        ensures
            opt_expr_view(r) == Some(
                SExpr::Str {
                    token: cur(self@.source, self@.state),
                    value: cur(self@.source, self@.state).literal,
                },
            ),
    {
        Some(Expression::StringLiteral(StringLiteral {
            token: self.curr_token.clone(),
            value: self.curr_token.literal.clone(),
        }))
    }

    fn parse_boolean(&self) -> (r: Option<Expression>)
        requires
            self.wf(),
        ensures
            opt_expr_view(r) == Some(
                SExpr::Bool {
                    token: cur(self@.source, self@.state),
                    value: cur(self@.source, self@.state).kind == TokenType::True,
                },
            ),
    {
        Some(Expression::Boolean(Boolean {
            token: self.curr_token.clone(),
            value: self.curr_token_is(TokenType::True),
        }))
    }

    fn parse_prefix_expression(&mut self) -> (r: Option<Expression>)
        requires
            old(self).wf(),
            old(self)@.source.clean(),
            old(self)@.source.tok(old(self)@.state.k).kind != TokenType::Eof,
        ensures
            final(self).moved_on(*old(self)),
            (opt_expr_view(r), final(self)@.state) == parsed_prefix_expression(
                old(self)@.source,
                old(self)@.state,
            ),
        decreases old(self)@.source.remaining(old(self)@.state.k), 3nat,
    {
        self.trace_begin("parsePrefixExpression");
        proof {
            lemma_clean_source(self@.source, self@.state.k);
        }
        let token = self.curr_token.clone();
        self.next_token();
        let right = match self.parse_expression(Precedence::Prefix) {
            Some(r) => r,
            None => {
                return None;
            },
        };
        let operator = token.literal.clone();
        self.trace_end("parsePrefixExpression");
        Some(Expression::PrefixExpression { token, operator, right: Box::new(right) })
    }

    fn parse_infix_expression(&mut self, left: Expression) -> (r: Expression)
        requires
            old(self).wf(),
            old(self)@.source.clean(),
            old(self)@.source.tok(old(self)@.state.k).kind != TokenType::Eof,
        ensures
            final(self).moved_on(*old(self)),
            (r@, final(self)@.state) == parsed_infix(old(self)@.source, old(self)@.state, left@),
        decreases old(self)@.source.remaining(old(self)@.state.k), 3nat,
    {
        self.trace_begin("parseInfixExpression");
        proof {
            lemma_clean_source(self@.source, self@.state.k);
            reveal_strlit("0");
            assert("0"@ =~= seq!['0']);
        }
        let ghost src = self@.source;
        let ghost st0 = self@.state;
        let token = self.curr_token.clone();
        let precedence = self.curr_precedence();
        self.next_token();
        let parsed = self.parse_expression(precedence);
        let ghost right_view = opt_expr_view(parsed);
        let right = match parsed {
            Some(r) => r,
            None => {
                let zero = Expression::IntegerLiteral(IntegerLiteral { token: Token::new(TokenType::Int, "0"), value: 0 });
                assert(zero@ == zero_literal());
                zero
            },
        };
        let operator = token.literal.clone();
        let r = Expression::InfixExpression { token, left: Box::new(left), operator, right: Box::new(right) };
        assert(parsed_expression(src, advanced(st0), token_precedence(src.tok(st0.k).kind)) == (right_view, self@.state));
        assert(r@ == parsed_infix(src, old(self)@.state, left@).0);
        self.trace_end("parseInfixExpression");
        r
    }

    fn parse_grouped_expression(&mut self) -> (r: Option<Expression>)
        requires
            old(self).wf(),
            old(self)@.source.clean(),
            old(self)@.source.tok(old(self)@.state.k).kind != TokenType::Eof,
        ensures
            final(self).moved_on(*old(self)),
            (opt_expr_view(r), final(self)@.state) == parsed_grouped(old(self)@.source, old(self)@.state),
        decreases old(self)@.source.remaining(old(self)@.state.k), 3nat,
    {
        self.trace_begin("parseGroupedExpression");
        proof {
            lemma_clean_source(self@.source, self@.state.k);
        }
        self.next_token();
        let exp = self.parse_expression(Precedence::Lowest);
        if !self.expect_peek(TokenType::RParen) {
            self.trace_end("parseGroupedExpression");
            return None;
        }
        self.trace_end("parseGroupedExpression");
        exp
    }

    #[verifier::rlimit(40)]
    fn parse_if_expression(&mut self) -> (r: Option<Expression>)
        requires
            old(self).wf(),
            old(self)@.source.clean(),
        ensures
            final(self).moved_on(*old(self)),
            (opt_expr_view(r), final(self)@.state) == parsed_if(old(self)@.source, old(self)@.state),
        decreases old(self)@.source.remaining(old(self)@.state.k), 3nat,
    {
        self.trace_begin("parseIfExpression");
        proof {
            lemma_clean_source(self@.source, self@.state.k);
            lemma_clean_source(self@.source, self@.state.k + 1);
        }
        let token = self.curr_token.clone();
        if !self.expect_peek(TokenType::LParen) {
            self.trace_end("parseIfExpression");
            return None;
        }
        self.next_token();
        let condition = match self.parse_expression(Precedence::Lowest) {
            Some(c) => c,
            None => {
                return None;
            },
        };
        if !self.expect_peek(TokenType::RParen) {
            self.trace_end("parseIfExpression");
            return None;
        }
        if !self.expect_peek(TokenType::LBrace) {
            self.trace_end("parseIfExpression");
            return None;
        }
        let consequence = self.parse_block_statement();
        let alternative = if self.peek_token_is(TokenType::Else) {
            self.next_token();
            if !self.expect_peek(TokenType::LBrace) {
                self.trace_end("parseIfExpression");
                return None;
            }
            Some(self.parse_block_statement())
        } else {
            None
        };
        self.trace_end("parseIfExpression");
        Some(Expression::IfExpression(IfExpression {
            token,
            condition: Box::new(condition),
            consequence,
            alternative,
        }))
    }

    #[verifier::rlimit(40)]
    fn parse_block_statement(&mut self) -> (r: BlockStatement)
        requires
            old(self).wf(),
            old(self)@.source.clean(),
        ensures
            final(self).moved_on(*old(self)),
            (r@, final(self)@.state) == parsed_block(old(self)@.source, old(self)@.state),
        decreases old(self)@.source.remaining(old(self)@.state.k), 9nat,
    {
        self.trace_begin("parseBlockStatement");
        let ghost src = self@.source;
        let ghost st0 = self@.state;
        let token = self.curr_token.clone();
        let mut statements: Vec<Statement> = Vec::new();
        self.next_token();
        assert(stmts_view(statements@) =~= Seq::<SStmt>::empty());
        while !self.curr_token_is(TokenType::RBrace) && !self.curr_token_is(TokenType::Eof)
            invariant
                self.moved_on(*old(self)),
                src == self@.source,
                src.clean(),
                block_loop(src, self@.state, stmts_view(statements@)) == block_loop(
                    src,
                    advanced(st0),
                    Seq::empty(),
                ),
            decreases src.remaining(self@.state.k),
        {
            proof {
                lemma_clean_source(src, self@.state.k);
            }
            let ghost st = self@.state;
            let ghost acc = stmts_view(statements@);
            let statement = self.parse_statement();
            let ghost st1 = self@.state;
            match statement {
                Some(s) => {
                    proof {
                        lemma_stmts_view_push(statements@, s);
                    }
                    statements.push(s);
                },
                None => {},
            }
            self.next_token();
            assert(block_loop(src, st, acc) == block_loop(src, advanced(st1), push_some(acc, opt_stmt_view(statement))));
        }
        self.trace_end("parseBlockStatement");
        BlockStatement { token, statements }
    }

    #[verifier::rlimit(40)]
    fn parse_function_literal(&mut self) -> (r: Option<Expression>)
        requires
            old(self).wf(),
            old(self)@.source.clean(),
        ensures
            final(self).moved_on(*old(self)),
            (opt_expr_view(r), final(self)@.state) == parsed_function(old(self)@.source, old(self)@.state),
        decreases old(self)@.source.remaining(old(self)@.state.k), 3nat,
    {
        self.trace_begin("parseFunctionLiteral");
        proof {
            lemma_clean_source(self@.source, self@.state.k);
            lemma_clean_source(self@.source, self@.state.k + 1);
        }
        let token = self.curr_token.clone();
        if !self.expect_peek(TokenType::LParen) {
            self.trace_end("parseFunctionLiteral");
            return None;
        }
        let parameters = match self.parse_function_parameters() {
            Some(p) => p,
            None => {
                return None;
            },
        };
        if !self.expect_peek(TokenType::LBrace) {
            self.trace_end("parseFunctionLiteral");
            return None;
        }
        let body = self.parse_block_statement();
        self.trace_end("parseFunctionLiteral");
        Some(Expression::FunctionLiteral(FunctionLiteral { token, parameters, body }))
    }

    #[verifier::rlimit(40)]
    fn parse_function_parameters(&mut self) -> (r: Option<Vec<Identifier>>)
        requires
            old(self).wf(),
            old(self)@.source.clean(),
        ensures
            final(self).moved_on(*old(self)),
            (opt_idents_view(r), final(self)@.state) == parsed_params(old(self)@.source, old(self)@.state),
    {
        self.trace_begin("parseFunctionParameters");
        let ghost src = self@.source;
        let mut identifiers: Vec<Identifier> = Vec::new();
        if self.peek_token_is(TokenType::RParen) {
            self.next_token();
            assert(idents_view(identifiers@) =~= Seq::<SIdent>::empty());
            self.trace_end("parseFunctionParameters");
            return Some(identifiers);
        }
        self.next_token();
        let ghost st1 = self@.state;
        let ident = Identifier { token: self.curr_token.clone(), value: self.curr_token.literal.clone() };
        identifiers.push(ident);
        assert(idents_view(identifiers@) =~= seq![ident_at(src, st1)]);
        while self.peek_token_is(TokenType::Comma)
            invariant
                self.moved_on(*old(self)),
                src == self@.source,
                src.clean(),
                params_loop(src, self@.state, idents_view(identifiers@)) == params_loop(
                    src,
                    st1,
                    seq![ident_at(src, st1)],
                ),
            decreases src.remaining(self@.state.k),
        {
            proof {
                lemma_clean_source(src, self@.state.k);
                lemma_clean_source(src, self@.state.k + 1);
            }
            self.next_token();
            self.next_token();
            let ident = Identifier { token: self.curr_token.clone(), value: self.curr_token.literal.clone() };
            proof {
                lemma_idents_view_push(identifiers@, ident);
            }
            identifiers.push(ident);
        }
        if !self.expect_peek(TokenType::RParen) {
            self.trace_end("parseFunctionParameters");
            return None;
        }
        self.trace_end("parseFunctionParameters");
        Some(identifiers)
    }

    fn parse_call_expression(&mut self, function: Expression) -> (r: Option<Expression>)
        requires
            old(self).wf(),
            old(self)@.source.clean(),
            old(self)@.source.tok(old(self)@.state.k).kind != TokenType::Eof,
        ensures
            final(self).moved_on(*old(self)),
            (opt_expr_view(r), final(self)@.state) == parsed_call(
                old(self)@.source,
                old(self)@.state,
                function@,
            ),
        decreases old(self)@.source.remaining(old(self)@.state.k), 3nat,
    {
        self.trace_begin("parseCallExpression");
        let token = self.curr_token.clone();
        let arguments = match self.parse_expression_list(TokenType::RParen) {
            Some(a) => a,
            None => {
                return None;
            },
        };
        self.trace_end("parseCallExpression");
        Some(Expression::CallExpression(CallExpression { token, function: Box::new(function), arguments }))
    }

    #[verifier::rlimit(40)]
    fn parse_expression_list(&mut self, end: TokenType) -> (r: Option<Vec<Expression>>)
        requires
            old(self).wf(),
            old(self)@.source.clean(),
            old(self)@.source.tok(old(self)@.state.k).kind != TokenType::Eof,
        ensures
            final(self).moved_on(*old(self)),
            (opt_exprs_view(r), final(self)@.state) == parsed_list(
                old(self)@.source,
                old(self)@.state,
                end,
            ),
        decreases old(self)@.source.remaining(old(self)@.state.k), 2nat,
    {
        self.trace_begin("parseExpressionList");
        let ghost src = self@.source;
        proof {
            lemma_clean_source(src, self@.state.k);
        }
        let mut list: Vec<Expression> = Vec::new();
        assert(exprs_view(list@) =~= Seq::<SExpr>::empty());
        if self.peek_token_is(end) {
            self.next_token();
            self.trace_end("parseExpressionList");
            return Some(list);
        }
        self.next_token();
        match self.parse_expression(Precedence::Lowest) {
            Some(expr) => {
                proof {
                    lemma_exprs_view_push(list@, expr);
                }
                list.push(expr);
            },
            None => {},
        }
        let ghost st2 = self@.state;
        let ghost acc2 = exprs_view(list@);
        while self.peek_token_is(TokenType::Comma)
            invariant
                self.moved_on(*old(self)),
                src == self@.source,
                src.clean(),
                self@.state.k > old(self)@.state.k,
                list_loop(src, self@.state, exprs_view(list@)) == list_loop(src, st2, acc2),
            decreases src.remaining(self@.state.k),
        {
            proof {
                lemma_clean_source(src, self@.state.k);
                lemma_clean_source(src, self@.state.k + 1);
            }
            let ghost st = self@.state;
            let ghost acc = exprs_view(list@);
            self.next_token();
            self.next_token();
            let e = self.parse_expression(Precedence::Lowest);
            let ghost st3 = self@.state;
            match e {
                Some(expr) => {
                    proof {
                        lemma_exprs_view_push(list@, expr);
                    }
                    list.push(expr);
                },
                None => {},
            }
            assert(list_loop(src, st, acc) == list_loop(src, st3, push_some(acc, opt_expr_view(e))));
        }
        if !self.expect_peek(end) {
            self.trace_end("parseExpressionList");
            return None;
        }
        self.trace_end("parseExpressionList");
        Some(list)
    }

    fn parse_array_literal(&mut self) -> (r: Option<Expression>)
        requires
            old(self).wf(),
            old(self)@.source.clean(),
            old(self)@.source.tok(old(self)@.state.k).kind != TokenType::Eof,
        ensures
            final(self).moved_on(*old(self)),
            (opt_expr_view(r), final(self)@.state) == parsed_array(old(self)@.source, old(self)@.state),
        decreases old(self)@.source.remaining(old(self)@.state.k), 3nat,
    {
        self.trace_begin("parseArrayLiteral");
        let token = self.curr_token.clone();
        let elements = match self.parse_expression_list(TokenType::RBracket) {
            Some(e) => e,
            None => {
                return None;
            },
        };
        self.trace_end("parseArrayLiteral");
        Some(Expression::ArrayLiteral(ArrayLiteral { token, elements }))
    }

    #[verifier::rlimit(40)]
    fn parse_index_expression(&mut self, left: Expression) -> (r: Option<Expression>)
        requires
            old(self).wf(),
            old(self)@.source.clean(),
            old(self)@.source.tok(old(self)@.state.k).kind != TokenType::Eof,
        ensures
            final(self).moved_on(*old(self)),
            (opt_expr_view(r), final(self)@.state) == parsed_index(
                old(self)@.source,
                old(self)@.state,
                left@,
            ),
        decreases old(self)@.source.remaining(old(self)@.state.k), 3nat,
    {
        self.trace_begin("parseIndexExpression");
        proof {
            lemma_clean_source(self@.source, self@.state.k);
        }
        let token = self.curr_token.clone();
        self.next_token();
        let index = match self.parse_expression(Precedence::Lowest) {
            Some(i) => i,
            None => {
                return None;
            },
        };
        if !self.expect_peek(TokenType::RBracket) {
            self.trace_end("parseIndexExpression");
            return None;
        }
        self.trace_end("parseIndexExpression");
        Some(Expression::IndexExpression(IndexExpression { token, left: Box::new(left), index: Box::new(index) }))
    }

    #[verifier::rlimit(40)]
    fn parse_hash_literal(&mut self) -> (r: Option<Expression>)
        requires
            old(self).wf(),
            old(self)@.source.clean(),
            old(self)@.source.tok(old(self)@.state.k).kind != TokenType::Eof,
        ensures
            final(self).moved_on(*old(self)),
            (opt_expr_view(r), final(self)@.state) == parsed_hash(old(self)@.source, old(self)@.state),
        decreases old(self)@.source.remaining(old(self)@.state.k), 3nat,
    {
        self.trace_begin("parseHashLiteral");
        let ghost src = self@.source;
        let ghost st0 = self@.state;
        let token = self.curr_token.clone();
        let mut pairs: Vec<(Expression, Expression)> = Vec::new();
        assert(pairs_view(pairs@) =~= Seq::<(SExpr, SExpr)>::empty());
        while !self.peek_token_is(TokenType::RBrace)
            invariant
                self.moved_on(*old(self)),
                src == self@.source,
                src.clean(),
                src.tok(self@.state.k).kind != TokenType::Eof,
                hash_loop(src, self@.state, pairs_view(pairs@)) == hash_loop(src, st0, Seq::empty()),
                st0 == begun(old(self)@.state, "parseHashLiteral"@),
                src.tok(st0.k).kind != TokenType::Eof,
            decreases src.remaining(self@.state.k),
        {
            proof {
                lemma_clean_source(src, self@.state.k);
            }
            if !self.parse_hash_pair(&mut pairs) {
                assert(hash_loop(src, st0, Seq::empty()) == (None::<Seq<(SExpr, SExpr)>>, self@.state));
                return None;
            }
        }
        if !self.expect_peek(TokenType::RBrace) {
            self.trace_end("parseHashLiteral");
            return None;
        }
        self.trace_end("parseHashLiteral");
        Some(Expression::HashLiteral(HashLiteral { token, pairs }))
    }

    /// Reads one `key: value` pair of a hash literal into `pairs`, and the
    /// comma after it unless the closing brace comes next. Returns whether
    /// the literal goes on.
    #[verifier::rlimit(40)]
    fn parse_hash_pair(&mut self, pairs: &mut Vec<(Expression, Expression)>) -> (more: bool)
        requires
            old(self).wf(),
            old(self)@.source.clean(),
            old(self)@.source.tok(old(self)@.state.k).kind != TokenType::Eof,
            old(self)@.source.tok(old(self)@.state.k + 1).kind != TokenType::RBrace,
        ensures
            final(self).moved_on(*old(self)),
            more ==> {
                &&& final(self)@.state.k > old(self)@.state.k
                &&& old(self)@.source.tok(final(self)@.state.k).kind != TokenType::Eof
                &&& hash_loop(old(self)@.source, old(self)@.state, pairs_view(old(pairs)@)) == hash_loop(
                    old(self)@.source,
                    final(self)@.state,
                    pairs_view(final(pairs)@),
                )
            },
            !more ==> hash_loop(old(self)@.source, old(self)@.state, pairs_view(old(pairs)@)) == (
                None::<Seq<(SExpr, SExpr)>>,
                final(self)@.state,
            ),
        decreases old(self)@.source.remaining(old(self)@.state.k), 2nat,
    {
        let ghost src = self@.source;
        let ghost st = self@.state;
        proof {
            lemma_clean_source(src, st.k);
        }
        self.next_token();
        let key = match self.parse_expression(Precedence::Lowest) {
            Some(k) => k,
            None => {
                return false;
            },
        };
        if !self.expect_peek(TokenType::Colon) {
            self.trace_end("parseHashLiteral");
            return false;
        }
        self.next_token();
        let value = match self.parse_expression(Precedence::Lowest) {
            Some(v) => v,
            None => {
                return false;
            },
        };
        add_pair(pairs, key, value);
        if !self.peek_token_is(TokenType::RBrace) && !self.expect_peek(TokenType::Comma) {
            self.trace_end("parseHashLiteral");
            return false;
        }
        proof {
            lemma_clean_source(src, self@.state.k);
            lemma_clean_source(src, self@.state.k + 1);
        }
        true
    }
}


// ---------------------------------------------------------------------------
// Laws
// ---------------------------------------------------------------------------

proof fn lemma_hash_loop_keys_distinct(src: TokenSource, st: ParseState, acc: Seq<(SExpr, SExpr)>)
    requires
        src.clean(),
        cur(src, st).kind != TokenType::Eof,
        keys_distinct(acc),
    ensures
        hash_loop(src, st, acc).0 matches Some(ps) ==> keys_distinct(ps),
    decreases src.remaining(st.k),
{
    lemma_clean_source(src, st.k);
    if peek(src, st).kind != TokenType::RBrace {
        let st1 = advanced(st);
        let (key, st2) = parsed_expression(src, st1, Precedence::Lowest);
        if let Some(k) = key {
            if st2.k >= st1.k {
                let (ok1, st3) = expect_peek(src, st2, TokenType::Colon);
                if ok1 {
                    let st4 = advanced(st3);
                    let (value, st5) = parsed_expression(src, st4, Precedence::Lowest);
                    if let Some(v) = value {
                        if st5.k >= st4.k {
                            let acc1 = crate::ast::with_pair(acc, k, v);
                            law_with_pair_keeps_keys_distinct(acc, k, v);
                            if peek(src, st5).kind != TokenType::RBrace {
                                let (ok2, st6) = expect_peek(src, st5, TokenType::Comma);
                                if ok2 {
                                    lemma_clean_source(src, st6.k);
                                    lemma_hash_loop_keys_distinct(src, st6, acc1);
                                }
                            } else {
                                lemma_clean_source(src, st5.k + 1);
                                lemma_clean_source(src, st5.k);
                                lemma_hash_loop_keys_distinct(src, st5, acc1);
                            }
                        }
                    }
                }
            }
        }
    }
}

/// Every hash literal the parser reads holds each key once: a key that comes
/// again only replaces the value stored under it.
pub proof fn law_parsed_hash_keys_distinct(src: TokenSource, st: ParseState)
    requires
        src.clean(),
        cur(src, st).kind != TokenType::Eof,
    ensures
        parsed_hash(src, st).0 matches Some(SExpr::Hash { pairs, .. }) ==> keys_distinct(pairs),
{
    lemma_hash_loop_keys_distinct(src, begun(st, "parseHashLiteral"@), Seq::empty());
}

/// The parser's action tables: every token kind with a precedence above
/// `Lowest` continues an expression (as an operator, a call or an index), and
/// no other kind does; the kinds that start an expression are the identifier,
/// the integer, string and boolean literals, `!`, `-`, `(`, `if`, `fn`, `[`
/// and `{`; an expression that starts with any other kind records the error
/// "no prefix parse function for ... found" and gives nothing.
pub proof fn law_parse_actions(src: TokenSource, st: ParseState, precedence: Precedence, t: TokenType)
    requires
        src.clean(),
    ensures
        (infix_action(t) is Some) == (token_precedence(t) != Precedence::Lowest),
        (prefix_action(t) is Some) == (t == TokenType::Ident || t == TokenType::Int || t
            == TokenType::String || t == TokenType::True || t == TokenType::False || t
            == TokenType::Bang || t == TokenType::Minus || t == TokenType::LParen || t
            == TokenType::If || t == TokenType::Function || t == TokenType::LBracket || t
            == TokenType::LBrace),
        prefix_action(cur(src, st).kind) is None ==> parsed_expression(src, st, precedence) == (
            None::<SExpr>,
            ended(
                with_error(begun(st, "parseExpression"@), no_prefix_message(cur(src, st).kind)),
                "parseExpression"@,
            ),
        ),
{
}

/// A binary operator token: one that the parser reads as an infix expression.
pub open spec fn is_binary_operator(t: TokenType) -> bool {
    infix_action(t) == Some(InfixParseAction::InfixExpression)
}

/// The expression `left op right`, with `op` the given token.
pub open spec fn binary(op: SpecToken, left: SExpr, right: SExpr) -> SExpr {
    SExpr::Infix { token: op, left: Box::new(left), operator: op.literal, right: Box::new(right) }
}

/// The state after an expression that is a lone identifier: the expression's
/// and the identifier's trace lines, nothing more.
pub open spec fn after_lone_identifier(st: ParseState) -> ParseState {
    ended(
        ended(begun(begun(st, "parseExpression"@), "parseIdentifier"@), "parseIdentifier"@),
        "parseExpression"@,
    )
}

proof fn lemma_ident_alone(src: TokenSource, st: ParseState, precedence: Precedence)
    requires
        src.clean(),
        cur(src, st).kind == TokenType::Ident,
        token_precedence(peek(src, st).kind).level() <= precedence.level(),
    ensures
        parsed_expression(src, st, precedence) == (
            Some(SExpr::Ident(ident_at(src, st))),
            after_lone_identifier(st),
        ),
{
    let e = "parseExpression"@;
    let i = "parseIdentifier"@;
    let s1 = ended(begun(begun(st, e), i), i);
    assert(infix_loop(src, s1, precedence, Some(SExpr::Ident(ident_at(src, st)))) == (
        Some(SExpr::Ident(ident_at(src, st))),
        ended(s1, e),
    ));
}

/// Binary operators group by precedence, and operators of equal precedence
/// group to the left: `a op1 b op2 c`, followed by a token that binds nothing
/// (such as `;` or the end), reads as `(a op1 b) op2 c` when `op1` binds at
/// least as tightly as `op2`, else as `a op1 (b op2 c)`; the parser then
/// stands on `c`, with no error recorded.
pub proof fn law_binary_operators_group(src: TokenSource, st: ParseState)
    requires
        src.clean(),
        src.tok(st.k).kind == TokenType::Ident,
        is_binary_operator(src.tok(st.k + 1).kind),
        src.tok(st.k + 2).kind == TokenType::Ident,
        is_binary_operator(src.tok(st.k + 3).kind),
        src.tok(st.k + 4).kind == TokenType::Ident,
        token_precedence(src.tok(st.k + 5).kind) == Precedence::Lowest,
    ensures
        ({
            let a = SExpr::Ident(ident_at(src, st));
            let b = SExpr::Ident(SIdent { token: src.tok(st.k + 2), value: src.tok(st.k + 2).literal });
            let c = SExpr::Ident(SIdent { token: src.tok(st.k + 4), value: src.tok(st.k + 4).literal });
            let op1 = src.tok(st.k + 1);
            let op2 = src.tok(st.k + 3);
            let e = if token_precedence(op1.kind).level() >= token_precedence(op2.kind).level() {
                binary(op2, binary(op1, a, b), c)
            } else {
                binary(op1, a, binary(op2, b, c))
            };
            let r = parsed_expression(src, st, Precedence::Lowest);
            &&& r.0 == Some(e)
            &&& r.1.k == st.k + 4
            &&& r.1.errors == st.errors
        }),
{
    let ex = "parseExpression"@;
    let id = "parseIdentifier"@;
    let inf = "parseInfixExpression"@;
    let op1 = src.tok(st.k + 1);
    let op2 = src.tok(st.k + 3);
    let p1 = token_precedence(op1.kind);
    let p2 = token_precedence(op2.kind);
    let a = SExpr::Ident(ident_at(src, st));
    let t0 = ended(begun(begun(st, ex), id), id);
    let t1 = advanced(t0);
    let u1 = advanced(begun(t1, inf));
    let b = SExpr::Ident(ident_at(src, u1));
    if p1.level() >= p2.level() {
        lemma_ident_alone(src, u1, p1);
        let ab = binary(op1, a, b);
        let t2 = ended(after_lone_identifier(u1), inf);
        assert(parsed_infix(src, t1, a) == (ab, t2));
        let t3 = advanced(t2);
        let v1 = advanced(begun(t3, inf));
        let c = SExpr::Ident(ident_at(src, v1));
        lemma_ident_alone(src, v1, p2);
        let abc = binary(op2, ab, c);
        let t4 = ended(after_lone_identifier(v1), inf);
        assert(parsed_infix(src, t3, ab) == (abc, t4));
        assert(infix_loop(src, t4, Precedence::Lowest, Some(abc)) == (Some(abc), ended(t4, ex)));
        assert(infix_loop(src, t2, Precedence::Lowest, Some(ab)) == (Some(abc), ended(t4, ex)));
        assert(infix_loop(src, t0, Precedence::Lowest, Some(a)) == (Some(abc), ended(t4, ex)));
    } else {
        let w1 = ended(begun(begun(u1, ex), id), id);
        let w2 = advanced(w1);
        let x1 = advanced(begun(w2, inf));
        let c = SExpr::Ident(ident_at(src, x1));
        lemma_ident_alone(src, x1, p2);
        let bc = binary(op2, b, c);
        let w3 = ended(after_lone_identifier(x1), inf);
        assert(parsed_infix(src, w2, b) == (bc, w3));
        assert(infix_loop(src, w3, p1, Some(bc)) == (Some(bc), ended(w3, ex)));
        assert(infix_loop(src, w1, p1, Some(b)) == (Some(bc), ended(w3, ex)));
        assert(parsed_expression(src, u1, p1) == (Some(bc), ended(w3, ex)));
        let abc = binary(op1, a, bc);
        let t2 = ended(ended(w3, ex), inf);
        assert(parsed_infix(src, t1, a) == (abc, t2));
        assert(infix_loop(src, t2, Precedence::Lowest, Some(abc)) == (Some(abc), ended(t2, ex)));
        assert(infix_loop(src, t0, Precedence::Lowest, Some(a)) == (Some(abc), ended(t2, ex)));
    }
}

/// Every well-formed parser (and `Parser::new` makes only such parsers) holds
/// the two action tables: a kind starts an expression exactly when the prefix
/// table has an entry for it, and continues one exactly when the infix table has.
pub proof fn law_parser_tables(p: &Parser)
    requires
        p.wf(),
    ensures
        p.prefix_actions() == prefix_table(),
        p.infix_actions() == infix_table(),
        forall|t: TokenType|
            (prefix_action(t) is Some) == (exists|j: int|
                0 <= j < prefix_table().len() && #[trigger] prefix_table()[j].0 == t),
        forall|t: TokenType|
            (infix_action(t) is Some) == (exists|j: int|
                0 <= j < infix_table().len() && #[trigger] infix_table()[j].0 == t),
{
    lemma_tables();
    assert forall|t: TokenType| (prefix_action(t) is Some) implies (exists|j: int|
        0 <= j < prefix_table().len() && #[trigger] prefix_table()[j].0 == t) by {
        if forall|j: int| 0 <= j < prefix_table().len() ==> #[trigger] prefix_table()[j].0 != t {
        }
    }
    assert forall|t: TokenType| (infix_action(t) is Some) implies (exists|j: int|
        0 <= j < infix_table().len() && #[trigger] infix_table()[j].0 == t) by {
        if forall|j: int| 0 <= j < infix_table().len() ==> #[trigger] infix_table()[j].0 != t {
        }
    }
}

/// An empty list: when the token after the opening `(` or `[` is the closing
/// one, the list is read as no expressions, no error is recorded, and the
/// parser stands on the closing token. So `f()` is a call with no arguments
/// and `[]` an array with no elements.
pub proof fn law_empty_list(src: TokenSource, st: ParseState, end: TokenType)
    requires
        src.clean(),
        cur(src, st).kind != TokenType::Eof,
        peek(src, st).kind == end,
    ensures
        parsed_list(src, st, end).0 == Some(Seq::<SExpr>::empty()),
        parsed_list(src, st, end).1.errors == st.errors,
        parsed_list(src, st, end).1.k == st.k + 1,
        end == TokenType::RParen ==> forall|f: SExpr|
            #![trigger parsed_call(src, st, f)]
            {
                &&& parsed_call(src, st, f).0 == Some(
                    SExpr::Call { token: cur(src, st), function: Box::new(f), arguments: Seq::empty() },
                )
                &&& parsed_call(src, st, f).1.errors == st.errors
            },
        end == TokenType::RBracket ==> {
            &&& parsed_array(src, st).0 == Some(
                SExpr::Array { token: cur(src, st), elements: Seq::empty() },
            )
            &&& parsed_array(src, st).1.errors == st.errors
        },
{
    let st0 = begun(st, "parseExpressionList"@);
    assert(parsed_list(src, st, end) == (
        Some(Seq::<SExpr>::empty()),
        ended(advanced(st0), "parseExpressionList"@),
    ));
    if end == TokenType::RParen {
        assert forall|f: SExpr| #![trigger parsed_call(src, st, f)]
            {
                &&& parsed_call(src, st, f).0 == Some(
                    SExpr::Call { token: cur(src, st), function: Box::new(f), arguments: Seq::empty() },
                )
                &&& parsed_call(src, st, f).1.errors == st.errors
            } by {
            let c0 = begun(st, "parseCallExpression"@);
            assert(parsed_list(src, c0, end) == (
                Some(Seq::<SExpr>::empty()),
                ended(advanced(begun(c0, "parseExpressionList"@)), "parseExpressionList"@),
            ));
        }
    }
    if end == TokenType::RBracket {
        let a0 = begun(st, "parseArrayLiteral"@);
        assert(parsed_list(src, a0, end) == (
            Some(Seq::<SExpr>::empty()),
            ended(advanced(begun(a0, "parseExpressionList"@)), "parseExpressionList"@),
        ));
    }
}

/// Reading a block's statements does not depend on the statements already
/// read: they come first, and the rest follows unchanged.
proof fn lemma_block_loop_prefix(src: TokenSource, st: ParseState, acc: Seq<SStmt>)
    requires
        src.clean(),
    ensures
        block_loop(src, st, acc) == (
            acc + block_loop(src, st, Seq::empty()).0,
            block_loop(src, st, Seq::empty()).1,
        ),
    decreases src.remaining(st.k),
{
    lemma_clean_source(src, st.k);
    let t = cur(src, st).kind;
    if t != TokenType::RBrace && t != TokenType::Eof {
        let (s, st1) = parsed_statement(src, st);
        if st1.k < st.k {
            assert(acc + Seq::<SStmt>::empty() =~= acc);
        } else {
            let next = advanced(st1);
            lemma_block_loop_prefix(src, next, push_some(acc, s));
            lemma_block_loop_prefix(src, next, push_some(Seq::<SStmt>::empty(), s));
            let rest = block_loop(src, next, Seq::empty()).0;
            assert(push_some(acc, s) + rest =~= acc + (push_some(Seq::<SStmt>::empty(), s) + rest));
        }
    } else {
        assert(acc + Seq::<SStmt>::empty() =~= acc);
    }
}

/// A block keeps every statement it reads, in order: at its closing brace (or
/// the end of the input) it adds nothing; otherwise its statements are those
/// read so far, then the statement read next, then every statement read after
/// it, one after another.
pub proof fn law_block_keeps_every_statement(src: TokenSource, st: ParseState, acc: Seq<SStmt>)
    requires
        src.clean(),
    ensures
        (cur(src, st).kind == TokenType::RBrace || cur(src, st).kind == TokenType::Eof)
            ==> block_loop(src, st, acc) == (acc, st),
        ({
            let (s, st1) = parsed_statement(src, st);
            (cur(src, st).kind != TokenType::RBrace && cur(src, st).kind != TokenType::Eof
                && st1.k >= st.k) ==> block_loop(src, st, acc).0 == acc + push_some(
                Seq::<SStmt>::empty(),
                s,
            ) + block_loop(src, advanced(st1), Seq::empty()).0
        }),
        block_loop(src, st, acc).0.len() >= acc.len(),
        block_loop(src, st, acc).0.subrange(0, acc.len() as int) == acc,
{
    lemma_clean_source(src, st.k);
    lemma_block_loop_prefix(src, st, acc);
    let all = block_loop(src, st, acc).0;
    assert(all.subrange(0, acc.len() as int) =~= acc);
    let (s, st1) = parsed_statement(src, st);
    if cur(src, st).kind != TokenType::RBrace && cur(src, st).kind != TokenType::Eof && st1.k >= st.k {
        let next = advanced(st1);
        lemma_block_loop_prefix(src, next, push_some(acc, s));
        let rest = block_loop(src, next, Seq::empty()).0;
        assert(push_some(acc, s) + rest =~= acc + push_some(Seq::<SStmt>::empty(), s) + rest);
    }
}

proof fn lemma_program_loop_prefix(src: TokenSource, st: ParseState, acc: Seq<SStmt>)
    requires
        src.clean(),
    ensures
        program_loop(src, st, acc) == (
            acc + program_loop(src, st, Seq::empty()).0,
            program_loop(src, st, Seq::empty()).1,
        ),
    decreases src.remaining(st.k),
{
    lemma_clean_source(src, st.k);
    if cur(src, st).kind != TokenType::Eof {
        let (s, st1) = parsed_statement(src, st);
        if st1.k < st.k {
            assert(acc + Seq::<SStmt>::empty() =~= acc);
        } else {
            let next = advanced(st1);
            lemma_program_loop_prefix(src, next, push_some(acc, s));
            lemma_program_loop_prefix(src, next, push_some(Seq::<SStmt>::empty(), s));
            let rest = program_loop(src, next, Seq::empty()).0;
            assert(push_some(acc, s) + rest =~= acc + (push_some(Seq::<SStmt>::empty(), s) + rest));
        }
    } else {
        assert(acc + Seq::<SStmt>::empty() =~= acc);
    }
}

/// A program keeps every statement it reads, in order: at the end of the
/// input it adds nothing; otherwise its statements are those read so far,
/// then the statement read next, then every statement read after it.
pub proof fn law_program_keeps_every_statement(src: TokenSource, st: ParseState, acc: Seq<SStmt>)
    requires
        src.clean(),
    ensures
        cur(src, st).kind == TokenType::Eof ==> program_loop(src, st, acc) == (acc, st),
        ({
            let (s, st1) = parsed_statement(src, st);
            (cur(src, st).kind != TokenType::Eof && st1.k >= st.k) ==> program_loop(src, st, acc).0
                == acc + push_some(Seq::<SStmt>::empty(), s) + program_loop(
                src,
                advanced(st1),
                Seq::empty(),
            ).0
        }),
        program_loop(src, st, acc).0.subrange(0, acc.len() as int) == acc,
{
    lemma_clean_source(src, st.k);
    lemma_program_loop_prefix(src, st, acc);
    let all = program_loop(src, st, acc).0;
    assert(all.subrange(0, acc.len() as int) =~= acc);
    let (s, st1) = parsed_statement(src, st);
    if cur(src, st).kind != TokenType::Eof && st1.k >= st.k {
        let next = advanced(st1);
        lemma_program_loop_prefix(src, next, push_some(acc, s));
        let rest = program_loop(src, next, Seq::empty()).0;
        assert(push_some(acc, s) + rest =~= acc + push_some(Seq::<SStmt>::empty(), s) + rest);
    }
}

proof fn lemma_list_loop_prefix(src: TokenSource, st: ParseState, acc: Seq<SExpr>)
    requires
        src.clean(),
    ensures
        list_loop(src, st, acc) == (
            acc + list_loop(src, st, Seq::empty()).0,
            list_loop(src, st, Seq::empty()).1,
        ),
    decreases src.remaining(st.k),
{
    lemma_clean_source(src, st.k);
    lemma_clean_source(src, st.k + 1);
    if peek(src, st).kind == TokenType::Comma {
        let st1 = advanced(advanced(st));
        let (e, st2) = parsed_expression(src, st1, Precedence::Lowest);
        if st2.k < st1.k {
            assert(acc + Seq::<SExpr>::empty() =~= acc);
        } else {
            lemma_list_loop_prefix(src, st2, push_some(acc, e));
            lemma_list_loop_prefix(src, st2, push_some(Seq::<SExpr>::empty(), e));
            let rest = list_loop(src, st2, Seq::empty()).0;
            assert(push_some(acc, e) + rest =~= acc + (push_some(Seq::<SExpr>::empty(), e) + rest));
        }
    } else {
        assert(acc + Seq::<SExpr>::empty() =~= acc);
    }
}

/// A list keeps every expression it reads, in order: without a comma next it
/// adds nothing; after a comma its expressions are those read so far, then the
/// expression read after the comma, then every expression read after that.
pub proof fn law_list_keeps_every_expression(src: TokenSource, st: ParseState, acc: Seq<SExpr>)
    requires
        src.clean(),
    ensures
        peek(src, st).kind != TokenType::Comma ==> list_loop(src, st, acc) == (acc, st),
        ({
            let st1 = advanced(advanced(st));
            let (e, st2) = parsed_expression(src, st1, Precedence::Lowest);
            (peek(src, st).kind == TokenType::Comma && st2.k >= st1.k) ==> list_loop(src, st, acc).0
                == acc + push_some(Seq::<SExpr>::empty(), e) + list_loop(src, st2, Seq::empty()).0
        }),
        list_loop(src, st, acc).0.subrange(0, acc.len() as int) == acc,
{
    lemma_clean_source(src, st.k);
    lemma_clean_source(src, st.k + 1);
    lemma_list_loop_prefix(src, st, acc);
    let all = list_loop(src, st, acc).0;
    assert(all.subrange(0, acc.len() as int) =~= acc);
    let st1 = advanced(advanced(st));
    let (e, st2) = parsed_expression(src, st1, Precedence::Lowest);
    if peek(src, st).kind == TokenType::Comma && st2.k >= st1.k {
        lemma_list_loop_prefix(src, st2, push_some(acc, e));
        let rest = list_loop(src, st2, Seq::empty()).0;
        assert(push_some(acc, e) + rest =~= acc + push_some(Seq::<SExpr>::empty(), e) + rest);
    }
}

proof fn lemma_params_loop_prefix(src: TokenSource, st: ParseState, acc: Seq<SIdent>)
    requires
        src.clean(),
    ensures
        params_loop(src, st, acc) == (
            acc + params_loop(src, st, Seq::empty()).0,
            params_loop(src, st, Seq::empty()).1,
        ),
    decreases src.remaining(st.k),
{
    lemma_clean_source(src, st.k);
    lemma_clean_source(src, st.k + 1);
    if peek(src, st).kind == TokenType::Comma {
        let st1 = advanced(advanced(st));
        let x = ident_at(src, st1);
        lemma_params_loop_prefix(src, st1, acc.push(x));
        lemma_params_loop_prefix(src, st1, Seq::<SIdent>::empty().push(x));
        let rest = params_loop(src, st1, Seq::empty()).0;
        assert(acc.push(x) + rest =~= acc + (Seq::<SIdent>::empty().push(x) + rest));
    } else {
        assert(acc + Seq::<SIdent>::empty() =~= acc);
    }
}

/// A parameter list keeps every parameter it reads, in order: after a comma
/// comes the identifier that follows it, then every parameter after that.
pub proof fn law_params_keep_every_parameter(src: TokenSource, st: ParseState, acc: Seq<SIdent>)
    requires
        src.clean(),
    ensures
        peek(src, st).kind != TokenType::Comma ==> params_loop(src, st, acc) == (acc, st),
        ({
            let st1 = advanced(advanced(st));
            peek(src, st).kind == TokenType::Comma ==> params_loop(src, st, acc).0 == acc.push(
                ident_at(src, st1),
            ) + params_loop(src, st1, Seq::empty()).0
        }),
        params_loop(src, st, acc).0.subrange(0, acc.len() as int) == acc,
{
    lemma_clean_source(src, st.k);
    lemma_clean_source(src, st.k + 1);
    lemma_params_loop_prefix(src, st, acc);
    let all = params_loop(src, st, acc).0;
    assert(all.subrange(0, acc.len() as int) =~= acc);
    if peek(src, st).kind == TokenType::Comma {
        let st1 = advanced(advanced(st));
        lemma_params_loop_prefix(src, st1, acc.push(ident_at(src, st1)));
    }
}

} // verus!
