//! The syntax tree of Monkey programs, its mathematical model, and how it prints.

use vstd::prelude::*;
use vstd::string::*;
use crate::text::push_str;
use crate::token::{SpecToken, Token};

verus! {

// ---------------------------------------------------------------------------
// The tree
// ---------------------------------------------------------------------------

#[derive(Debug)]
pub struct Program {
    pub statements: Vec<Statement>,
}

/// Something that stands for a token of the source.
pub trait Node {
    fn token_literal(&self) -> String;
}

#[derive(Debug)]
pub enum Statement {
    Let(LetStatement),
    Return(ReturnStatement),
    Expression(ExpressionStatement),
    Block(BlockStatement),
}

#[derive(Debug)]
pub struct LetStatement {
    pub token: Token,
    pub name: Identifier,
    pub value: Option<Expression>,
}

#[derive(Debug)]
pub struct ReturnStatement {
    pub token: Token,
    pub return_value: Option<Expression>,
}

#[derive(Debug)]
pub struct ExpressionStatement {
    pub token: Token,
    pub expression: Option<Expression>,
}

#[derive(Debug)]
pub struct BlockStatement {
    pub token: Token,
    pub statements: Vec<Statement>,
}

#[derive(Debug, PartialEq)]
pub struct Identifier {
    pub token: Token,
    pub value: String,
}

#[derive(Debug)]
pub enum Expression {
    Identifier(Identifier),
    IntegerLiteral(IntegerLiteral),
    Boolean(Boolean),
    PrefixExpression { token: Token, operator: String, right: Box<Expression> },
    InfixExpression { token: Token, left: Box<Expression>, operator: String, right: Box<Expression> },
    IfExpression(IfExpression),
    FunctionLiteral(FunctionLiteral),
    CallExpression(CallExpression),
    StringLiteral(StringLiteral),
    ArrayLiteral(ArrayLiteral),
    IndexExpression(IndexExpression),
    HashLiteral(HashLiteral),
}

#[derive(Debug, PartialEq)]
pub struct IntegerLiteral {
    pub token: Token,
    pub value: i64,
}

#[derive(Debug)]
pub struct Boolean {
    pub token: Token,
    pub value: bool,
}

#[derive(Debug)]
pub struct IfExpression {
    pub token: Token,
    pub condition: Box<Expression>,
    pub consequence: BlockStatement,
    pub alternative: Option<BlockStatement>,
}

#[derive(Debug)]
pub struct FunctionLiteral {
    pub token: Token,
    pub parameters: Vec<Identifier>,
    pub body: BlockStatement,
}

#[derive(Debug)]
pub struct CallExpression {
    pub token: Token,
    pub function: Box<Expression>,
    pub arguments: Vec<Expression>,
}

#[derive(Debug)]
pub struct StringLiteral {
    pub token: Token,
    pub value: String,
}

#[derive(Debug)]
pub struct ArrayLiteral {
    pub token: Token,
    pub elements: Vec<Expression>,
}

#[derive(Debug)]
pub struct IndexExpression {
    pub token: Token,
    pub left: Box<Expression>,
    pub index: Box<Expression>,
}

/// A hash literal: its key/value pairs in the order the source gives them,
/// each key standing once (a later pair with the same key replaces the value).
#[derive(Debug)]
pub struct HashLiteral {
    pub token: Token,
    pub pairs: Vec<(Expression, Expression)>,
}

// ---------------------------------------------------------------------------
// The mathematical model of the tree
// ---------------------------------------------------------------------------

pub struct SIdent {
    pub token: SpecToken,
    pub value: Seq<char>,
}

pub struct SBlock {
    pub token: SpecToken,
    pub statements: Seq<SStmt>,
}

pub enum SStmt {
    Let { token: SpecToken, name: SIdent, value: Option<SExpr> },
    Return { token: SpecToken, value: Option<SExpr> },
    Expr { token: SpecToken, expr: Option<SExpr> },
    Block(SBlock),
}

#[allow(inconsistent_fields)]
pub enum SExpr {
    Ident(SIdent),
    Int { token: SpecToken, value: int },
    Bool { token: SpecToken, value: bool },
    Prefix { token: SpecToken, operator: Seq<char>, right: Box<SExpr> },
    Infix { token: SpecToken, left: Box<SExpr>, operator: Seq<char>, right: Box<SExpr> },
    If { token: SpecToken, condition: Box<SExpr>, consequence: SBlock, alternative: Option<SBlock> },
    Func { token: SpecToken, parameters: Seq<SIdent>, body: SBlock },
    Call { token: SpecToken, function: Box<SExpr>, arguments: Seq<SExpr> },
    Str { token: SpecToken, value: Seq<char> },
    Array { token: SpecToken, elements: Seq<SExpr> },
    Index { token: SpecToken, left: Box<SExpr>, index: Box<SExpr> },
    Hash { token: SpecToken, pairs: Seq<(SExpr, SExpr)> },
}

pub open spec fn ident_view(i: Identifier) -> SIdent {
    SIdent { token: i.token@, value: i.value@ }
}

pub open spec fn idents_view(s: Seq<Identifier>) -> Seq<SIdent> {
    s.map_values(|i: Identifier| ident_view(i))
}

pub open spec fn expr_view(e: Expression) -> SExpr
    decreases e,
{
    match e {
        Expression::Identifier(i) => SExpr::Ident(ident_view(i)),
        Expression::IntegerLiteral(l) => SExpr::Int { token: l.token@, value: l.value as int },
        Expression::Boolean(b) => SExpr::Bool { token: b.token@, value: b.value },
        Expression::PrefixExpression { token, operator, right } => SExpr::Prefix {
            token: token@,
            operator: operator@,
            right: Box::new(expr_view(*right)),
        },
        Expression::InfixExpression { token, left, operator, right } => SExpr::Infix {
            token: token@,
            left: Box::new(expr_view(*left)),
            operator: operator@,
            right: Box::new(expr_view(*right)),
        },
        Expression::IfExpression(x) => SExpr::If {
            token: x.token@,
            condition: Box::new(expr_view(*x.condition)),
            consequence: block_view(x.consequence),
            alternative: match x.alternative {
                Some(b) => Some(block_view(b)),
                None => None,
            },
        },
        Expression::FunctionLiteral(f) => SExpr::Func {
            token: f.token@,
            parameters: idents_view(f.parameters@),
            body: block_view(f.body),
        },
        Expression::CallExpression(c) => SExpr::Call {
            token: c.token@,
            function: Box::new(expr_view(*c.function)),
            arguments: exprs_view(c.arguments@),
        },
        Expression::StringLiteral(s) => SExpr::Str { token: s.token@, value: s.value@ },
        Expression::ArrayLiteral(a) => SExpr::Array { token: a.token@, elements: exprs_view(a.elements@) },
        Expression::IndexExpression(x) => SExpr::Index {
            token: x.token@,
            left: Box::new(expr_view(*x.left)),
            index: Box::new(expr_view(*x.index)),
        },
        Expression::HashLiteral(h) => SExpr::Hash { token: h.token@, pairs: pairs_view(h.pairs@) },
    }
}

pub open spec fn exprs_view(s: Seq<Expression>) -> Seq<SExpr>
    decreases s,
{
    if s.len() == 0 {
        Seq::empty()
    } else {
        exprs_view(s.subrange(0, s.len() - 1)).push(expr_view(s[s.len() - 1]))
    }
}

pub open spec fn pairs_view(s: Seq<(Expression, Expression)>) -> Seq<(SExpr, SExpr)>
    decreases s,
{
    if s.len() == 0 {
        Seq::empty()
    } else {
        pairs_view(s.subrange(0, s.len() - 1)).push(
            (expr_view(s[s.len() - 1].0), expr_view(s[s.len() - 1].1)),
        )
    }
}

pub open spec fn block_view(b: BlockStatement) -> SBlock
    decreases b,
{
    SBlock { token: b.token@, statements: stmts_view(b.statements@) }
}

pub open spec fn stmt_view(s: Statement) -> SStmt
    decreases s,
{
    match s {
        Statement::Let(l) => SStmt::Let {
            token: l.token@,
            name: ident_view(l.name),
            value: match l.value {
                Some(v) => Some(expr_view(v)),
                None => None,
            },
        },
        Statement::Return(r) => SStmt::Return {
            token: r.token@,
            value: match r.return_value {
                Some(v) => Some(expr_view(v)),
                None => None,
            },
        },
        Statement::Expression(x) => SStmt::Expr {
            token: x.token@,
            expr: match x.expression {
                Some(v) => Some(expr_view(v)),
                None => None,
            },
        },
        Statement::Block(b) => SStmt::Block(block_view(b)),
    }
}

pub open spec fn stmts_view(s: Seq<Statement>) -> Seq<SStmt>
    decreases s,
{
    if s.len() == 0 {
        Seq::empty()
    } else {
        stmts_view(s.subrange(0, s.len() - 1)).push(stmt_view(s[s.len() - 1]))
    }
}

impl View for Identifier {
    type V = SIdent;

    open spec fn view(&self) -> SIdent {
        ident_view(*self)
    }
}

impl View for Expression {
    type V = SExpr;

    open spec fn view(&self) -> SExpr {
        expr_view(*self)
    }
}

impl View for Statement {
    type V = SStmt;

    open spec fn view(&self) -> SStmt {
        stmt_view(*self)
    }
}

impl View for BlockStatement {
    type V = SBlock;

    open spec fn view(&self) -> SBlock {
        block_view(*self)
    }
}

impl View for Program {
    type V = Seq<SStmt>;

    open spec fn view(&self) -> Seq<SStmt> {
        stmts_view(self.statements@)
    }
}

pub proof fn lemma_exprs_view(s: Seq<Expression>)
    ensures
        exprs_view(s).len() == s.len(),
        forall|i: int| 0 <= i < s.len() ==> #[trigger] exprs_view(s)[i] == expr_view(s[i]),
    decreases s.len(),
{
    if s.len() > 0 {
        lemma_exprs_view(s.subrange(0, s.len() - 1));
    }
}

pub proof fn lemma_pairs_view(s: Seq<(Expression, Expression)>)
    ensures
        pairs_view(s).len() == s.len(),
        forall|i: int|
            0 <= i < s.len() ==> #[trigger] pairs_view(s)[i] == (expr_view(s[i].0), expr_view(s[i].1)),
    decreases s.len(),
{
    if s.len() > 0 {
        lemma_pairs_view(s.subrange(0, s.len() - 1));
    }
}

// ---------------------------------------------------------------------------
// How the tree prints
// ---------------------------------------------------------------------------

pub open spec fn optional_expr_string(e: Option<SExpr>) -> Seq<char>
    decreases e,
{
    match e {
        Some(x) => expr_string(x),
        None => Seq::empty(),
    }
}

pub open spec fn expr_string(e: SExpr) -> Seq<char>
    decreases e,
{
    match e {
        SExpr::Ident(i) => i.value,
        SExpr::Int { token, .. } => token.literal,
        SExpr::Bool { token, .. } => token.literal,
        SExpr::Prefix { operator, right, .. } => seq!['('] + operator + expr_string(*right) + seq![')'],
        SExpr::Infix { left, operator, right, .. } => seq!['('] + expr_string(*left) + seq![' ']
            + operator + seq![' '] + expr_string(*right) + seq![')'],
        SExpr::If { condition, consequence, alternative, .. } => seq!['i', 'f'] + expr_string(
            *condition,
        ) + seq![' '] + block_string(consequence) + match alternative {
            Some(a) => seq!['e', 'l', 's', 'e', ' '] + block_string(a),
            None => Seq::empty(),
        },
        SExpr::Func { token, parameters, body } => token.literal + seq!['('] + idents_string(
            parameters,
        ) + seq![')', ' '] + block_string(body),
        SExpr::Call { function, arguments, .. } => expr_string(*function) + seq!['('] + exprs_string(
            arguments,
        ) + seq![')'],
        SExpr::Str { token, .. } => token.literal,
        SExpr::Array { elements, .. } => seq!['['] + exprs_string(elements) + seq![']'],
        SExpr::Index { left, index, .. } => seq!['('] + expr_string(*left) + seq!['['] + expr_string(
            *index,
        ) + seq![']', ')'],
        SExpr::Hash { pairs, .. } => seq!['{'] + pairs_string(pairs) + seq!['}'],
    }
}

/// The expressions' strings joined by ", ".
pub open spec fn exprs_string(s: Seq<SExpr>) -> Seq<char>
    decreases s,
{
    if s.len() == 0 {
        Seq::empty()
    } else if s.len() == 1 {
        expr_string(s[0])
    } else {
        exprs_string(s.subrange(0, s.len() - 1)) + seq![',', ' '] + expr_string(s[s.len() - 1])
    }
}

/// The pairs, each as "key:value", joined by ", ".
pub open spec fn pairs_string(s: Seq<(SExpr, SExpr)>) -> Seq<char>
    decreases s,
{
    if s.len() == 0 {
        Seq::empty()
    } else if s.len() == 1 {
        expr_string(s[0].0) + seq![':'] + expr_string(s[0].1)
    } else {
        pairs_string(s.subrange(0, s.len() - 1)) + seq![',', ' '] + expr_string(s[s.len() - 1].0)
            + seq![':'] + expr_string(s[s.len() - 1].1)
    }
}

/// The identifiers' names joined by ", ".
pub open spec fn idents_string(s: Seq<SIdent>) -> Seq<char>
    decreases s.len(),
{
    if s.len() == 0 {
        Seq::empty()
    } else if s.len() == 1 {
        s[0].value
    } else {
        idents_string(s.subrange(0, s.len() - 1)) + seq![',', ' '] + s[s.len() - 1].value
    }
}

pub open spec fn block_string(b: SBlock) -> Seq<char>
    decreases b,
{
    stmts_string(b.statements)
}

pub open spec fn stmt_string(s: SStmt) -> Seq<char>
    decreases s,
{
    match s {
        SStmt::Let { token, name, value } => token.literal + seq![' '] + name.value + seq![' ', '=', ' ']
            + optional_expr_string(value) + seq![';'],
        SStmt::Return { token, value } => token.literal + seq![' '] + optional_expr_string(value)
            + seq![';'],
        SStmt::Expr { expr, .. } => optional_expr_string(expr),
        SStmt::Block(b) => block_string(b),
    }
}

/// The statements' strings, one after another.
pub open spec fn stmts_string(s: Seq<SStmt>) -> Seq<char>
    decreases s,
{
    if s.len() == 0 {
        Seq::empty()
    } else {
        stmts_string(s.subrange(0, s.len() - 1)) + stmt_string(s[s.len() - 1])
    }
}

fn push_chars2(out: &mut String, a: char, b: char)
    ensures
        final(out)@ == old(out)@ + seq![a, b],
{
    crate::text::push_char(out, a);
    crate::text::push_char(out, b);
    assert(final(out)@ =~= old(out)@ + seq![a, b]);
}

fn write_exprs(v: &Vec<Expression>, out: &mut String)
    ensures
        final(out)@ == old(out)@ + exprs_string(exprs_view(v@)),
    decreases v,
{
    let mut i: usize = 0;
    while i < v.len()
        invariant
            i <= v@.len(),
            out@ == old(out)@ + exprs_string(exprs_view(v@.subrange(0, i as int))),
        decreases v@.len() - i,
    {
        let ghost before = out@;
        let ghost prefix = exprs_view(v@.subrange(0, i as int));
        if i > 0 {
            push_chars2(out, ',', ' ');
        }
        v[i].write_to(out);
        proof {
            let next = v@.subrange(0, i + 1);
            assert(next.subrange(0, next.len() - 1) =~= v@.subrange(0, i as int));
            assert(exprs_view(next) == prefix.push(expr_view(v@[i as int])));
            lemma_exprs_view(v@.subrange(0, i as int));
            let pushed = prefix.push(expr_view(v@[i as int]));
            assert(pushed.subrange(0, pushed.len() - 1) =~= prefix);
            if i == 0 {
                assert(out@ =~= old(out)@ + exprs_string(pushed));
            } else {
                assert(out@ =~= old(out)@ + exprs_string(pushed));
            }
        }
        i = i + 1;
    }
    assert(v@.subrange(0, v@.len() as int) =~= v@);
}

pub fn write_idents(v: &Vec<Identifier>, out: &mut String)
    ensures
        final(out)@ == old(out)@ + idents_string(idents_view(v@)),
{
    let mut i: usize = 0;
    while i < v.len()
        invariant
            i <= v@.len(),
            out@ == old(out)@ + idents_string(idents_view(v@.subrange(0, i as int))),
        decreases v@.len() - i,
    {
        let ghost prefix = idents_view(v@.subrange(0, i as int));
        if i > 0 {
            push_chars2(out, ',', ' ');
        }
        push_str(out, v[i].value.as_str());
        proof {
            let next = idents_view(v@.subrange(0, i + 1));
            assert(next =~= prefix.push(ident_view(v@[i as int])));
            assert(next.subrange(0, next.len() - 1) =~= prefix);
            assert(out@ =~= old(out)@ + idents_string(next));
        }
        i = i + 1;
    }
    assert(v@.subrange(0, v@.len() as int) =~= v@);
}

fn write_pairs(v: &Vec<(Expression, Expression)>, out: &mut String)
    ensures
        final(out)@ == old(out)@ + pairs_string(pairs_view(v@)),
    decreases v,
{
    let mut i: usize = 0;
    while i < v.len()
        invariant
            i <= v@.len(),
            out@ == old(out)@ + pairs_string(pairs_view(v@.subrange(0, i as int))),
        decreases v@.len() - i,
    {
        let ghost prefix = pairs_view(v@.subrange(0, i as int));
        if i > 0 {
            push_chars2(out, ',', ' ');
        }
        v[i].0.write_to(out);
        crate::text::push_char(out, ':');
        v[i].1.write_to(out);
        proof {
            let next = v@.subrange(0, i + 1);
            assert(next.subrange(0, next.len() - 1) =~= v@.subrange(0, i as int));
            let pushed = prefix.push((expr_view(v@[i as int].0), expr_view(v@[i as int].1)));
            assert(pairs_view(next) == pushed);
            lemma_pairs_view(v@.subrange(0, i as int));
            assert(pushed.subrange(0, pushed.len() - 1) =~= prefix);
            assert(out@ =~= old(out)@ + pairs_string(pushed));
        }
        i = i + 1;
    }
    assert(v@.subrange(0, v@.len() as int) =~= v@);
}

fn write_stmts(v: &Vec<Statement>, out: &mut String)
    ensures
        final(out)@ == old(out)@ + stmts_string(stmts_view(v@)),
    decreases v,
{
    let mut i: usize = 0;
    while i < v.len()
        invariant
            i <= v@.len(),
            out@ == old(out)@ + stmts_string(stmts_view(v@.subrange(0, i as int))),
        decreases v@.len() - i,
    {
        let ghost prefix = stmts_view(v@.subrange(0, i as int));
        v[i].write_to(out);
        proof {
            let next = v@.subrange(0, i + 1);
            assert(next.subrange(0, next.len() - 1) =~= v@.subrange(0, i as int));
            let pushed = prefix.push(stmt_view(v@[i as int]));
            assert(stmts_view(next) == pushed);
            assert(pushed.subrange(0, pushed.len() - 1) =~= prefix);
            assert(out@ =~= old(out)@ + stmts_string(pushed));
        }
        i = i + 1;
    }
    assert(v@.subrange(0, v@.len() as int) =~= v@);
}

fn write_optional(e: &Option<Expression>, out: &mut String)
    ensures
        final(out)@ == old(out)@ + optional_expr_string(
            match *e {
                Some(x) => Some(expr_view(x)),
                None => None,
            },
        ),
    decreases e,
{
    match e {
        Some(x) => x.write_to(out),
        None => {
            assert(out@ =~= old(out)@ + Seq::<char>::empty());
        },
    }
}

impl Expression {
    /// Appends how this expression prints.
    pub fn write_to(&self, out: &mut String)
        ensures
            final(out)@ == old(out)@ + expr_string(self@),
        decreases self,
    {
        let ghost start = out@;
        match self {
            Expression::Identifier(i) => push_str(out, i.value.as_str()),
            Expression::IntegerLiteral(l) => push_str(out, l.token.literal.as_str()),
            Expression::Boolean(b) => push_str(out, b.token.literal.as_str()),
            Expression::PrefixExpression { operator, right, .. } => {
                crate::text::push_char(out, '(');
                push_str(out, operator.as_str());
                right.write_to(out);
                crate::text::push_char(out, ')');
                assert(out@ =~= start + expr_string(self@));
            },
            Expression::InfixExpression { left, operator, right, .. } => {
                crate::text::push_char(out, '(');
                left.write_to(out);
                crate::text::push_char(out, ' ');
                push_str(out, operator.as_str());
                crate::text::push_char(out, ' ');
                right.write_to(out);
                crate::text::push_char(out, ')');
                assert(out@ =~= start + expr_string(self@));
            },
            Expression::IfExpression(x) => {
                push_chars2(out, 'i', 'f');
                x.condition.write_to(out);
                crate::text::push_char(out, ' ');
                x.consequence.write_to(out);
                let ghost mid = out@;
                match &x.alternative {
                    Some(a) => {
                        push_chars2(out, 'e', 'l');
                        push_chars2(out, 's', 'e');
                        crate::text::push_char(out, ' ');
                        a.write_to(out);
                    },
                    None => {},
                }
                assert(out@ =~= start + expr_string(self@));
            },
            Expression::FunctionLiteral(f) => {
                push_str(out, f.token.literal.as_str());
                crate::text::push_char(out, '(');
                write_idents(&f.parameters, out);
                push_chars2(out, ')', ' ');
                f.body.write_to(out);
                assert(out@ =~= start + expr_string(self@));
            },
            Expression::CallExpression(c) => {
                c.function.write_to(out);
                crate::text::push_char(out, '(');
                write_exprs(&c.arguments, out);
                crate::text::push_char(out, ')');
                assert(out@ =~= start + expr_string(self@));
            },
            Expression::StringLiteral(s) => push_str(out, s.token.literal.as_str()),
            Expression::ArrayLiteral(a) => {
                crate::text::push_char(out, '[');
                write_exprs(&a.elements, out);
                crate::text::push_char(out, ']');
                assert(out@ =~= start + expr_string(self@));
            },
            Expression::IndexExpression(x) => {
                crate::text::push_char(out, '(');
                x.left.write_to(out);
                crate::text::push_char(out, '[');
                x.index.write_to(out);
                push_chars2(out, ']', ')');
                assert(out@ =~= start + expr_string(self@));
            },
            Expression::HashLiteral(h) => {
                crate::text::push_char(out, '{');
                write_pairs(&h.pairs, out);
                crate::text::push_char(out, '}');
                assert(out@ =~= start + expr_string(self@));
            },
        }
    }

    /// How this expression prints.
    pub fn to_string(&self) -> (r: String)
        ensures
            r@ == expr_string(self@),
    {
        let mut out = String::new();
        self.write_to(&mut out);
        assert(out@ =~= expr_string(self@));
        out
    }
}

impl BlockStatement {
    /// Appends how this block prints: its statements one after another.
    pub fn write_to(&self, out: &mut String)
        ensures
            final(out)@ == old(out)@ + block_string(self@),
        decreases self,
    {
        write_stmts(&self.statements, out);
    }

    pub fn to_string(&self) -> (r: String)
        ensures
            r@ == block_string(self@),
    {
        let mut out = String::new();
        self.write_to(&mut out);
        assert(out@ =~= block_string(self@));
        out
    }
}

impl Statement {
    /// Appends how this statement prints.
    pub fn write_to(&self, out: &mut String)
        ensures
            final(out)@ == old(out)@ + stmt_string(self@),
        decreases self,
    {
        let ghost start = out@;
        match self {
            Statement::Let(l) => {
                push_str(out, l.token.literal.as_str());
                crate::text::push_char(out, ' ');
                push_str(out, l.name.value.as_str());
                crate::text::push_char(out, ' ');
                push_chars2(out, '=', ' ');
                write_optional(&l.value, out);
                crate::text::push_char(out, ';');
                assert(out@ =~= start + stmt_string(self@));
            },
            Statement::Return(r) => {
                push_str(out, r.token.literal.as_str());
                crate::text::push_char(out, ' ');
                write_optional(&r.return_value, out);
                crate::text::push_char(out, ';');
                assert(out@ =~= start + stmt_string(self@));
            },
            Statement::Expression(x) => {
                write_optional(&x.expression, out);
            },
            Statement::Block(b) => {
                b.write_to(out);
            },
        }
    }

    pub fn to_string(&self) -> (r: String)
        ensures
            r@ == stmt_string(self@),
    {
        let mut out = String::new();
        self.write_to(&mut out);
        assert(out@ =~= stmt_string(self@));
        out
    }
}

impl Program {
    pub fn token_literal(&self) -> (r: String)
        ensures
            r@ == if self.statements@.len() > 0 {
                stmt_token(stmt_view(self.statements@[0])).literal
            } else {
                Seq::empty()
            },
    {
        if self.statements.len() > 0 {
            self.statements[0].token_literal()
        } else {
            String::new()
        }
    }

    /// How the program prints: its statements one after another.
    pub fn to_string(&self) -> (r: String)
        ensures
            r@ == stmts_string(self@),
    {
        let mut out = String::new();
        write_stmts(&self.statements, &mut out);
        assert(out@ =~= stmts_string(self@));
        out
    }
}

/// The token a statement starts with.
pub open spec fn stmt_token(s: SStmt) -> SpecToken {
    match s {
        SStmt::Let { token, .. } => token,
        SStmt::Return { token, .. } => token,
        SStmt::Expr { token, .. } => token,
        SStmt::Block(b) => b.token,
    }
}

/// The token an expression starts with.
pub open spec fn expr_token(e: SExpr) -> SpecToken {
    match e {
        SExpr::Ident(i) => i.token,
        SExpr::Int { token, .. } => token,
        SExpr::Bool { token, .. } => token,
        SExpr::Prefix { token, .. } => token,
        SExpr::Infix { token, .. } => token,
        SExpr::If { token, .. } => token,
        SExpr::Func { token, .. } => token,
        SExpr::Call { token, .. } => token,
        SExpr::Str { token, .. } => token,
        SExpr::Array { token, .. } => token,
        SExpr::Index { token, .. } => token,
        SExpr::Hash { token, .. } => token,
    }
}

impl Node for Statement {
    fn token_literal(&self) -> (r: String)
        ensures
            r@ == stmt_token(self@).literal,
    {
        match self {
            Statement::Let(l) => l.token.literal.clone(),
            Statement::Return(r) => r.token.literal.clone(),
            Statement::Expression(x) => x.token.literal.clone(),
            Statement::Block(b) => b.token.literal.clone(),
        }
    }
}

impl Node for Expression {
    fn token_literal(&self) -> (r: String)
        ensures
            r@ == expr_token(self@).literal,
    {
        match self {
            Expression::Identifier(i) => i.token.literal.clone(),
            Expression::IntegerLiteral(l) => l.token.literal.clone(),
            Expression::Boolean(b) => b.token.literal.clone(),
            Expression::PrefixExpression { token, .. } => token.literal.clone(),
            Expression::InfixExpression { token, .. } => token.literal.clone(),
            Expression::IfExpression(x) => x.token.literal.clone(),
            Expression::FunctionLiteral(f) => f.token.literal.clone(),
            Expression::CallExpression(c) => c.token.literal.clone(),
            Expression::StringLiteral(s) => s.token.literal.clone(),
            Expression::ArrayLiteral(a) => a.token.literal.clone(),
            Expression::IndexExpression(x) => x.token.literal.clone(),
            Expression::HashLiteral(h) => h.token.literal.clone(),
        }
    }
}

impl Node for LetStatement {
    fn token_literal(&self) -> (r: String)
        ensures
            r@ == self.token.literal@,
    {
        self.token.literal.clone()
    }
}

impl Node for Identifier {
    fn token_literal(&self) -> (r: String)
        ensures
            r@ == self.token.literal@,
    {
        self.token.literal.clone()
    }
}

// ---------------------------------------------------------------------------
// Expressions as keys of a hash literal
// ---------------------------------------------------------------------------

/// Identifiers and integer, boolean and string literals: keys compared by value.
pub open spec fn is_simple_key(e: SExpr) -> bool {
    e is Ident || e is Int || e is Bool || e is Str
}

/// When two expressions stand for the same key of a hash literal: simple keys of
/// one kind with equal values, or two other expressions that print the same.
pub open spec fn same_key(a: SExpr, b: SExpr) -> bool {
    match (a, b) {
        (SExpr::Ident(x), SExpr::Ident(y)) => x.value == y.value,
        (SExpr::Int { value: x, .. }, SExpr::Int { value: y, .. }) => x == y,
        (SExpr::Bool { value: x, .. }, SExpr::Bool { value: y, .. }) => x == y,
        (SExpr::Str { value: x, .. }, SExpr::Str { value: y, .. }) => x == y,
        _ => !is_simple_key(a) && !is_simple_key(b) && expr_string(a) == expr_string(b),
    }
}

/// The first index of a pair whose key is the same key as `key`.
pub open spec fn key_index(pairs: Seq<(SExpr, SExpr)>, key: SExpr) -> Option<nat>
    decreases pairs.len(),
{
    if pairs.len() == 0 {
        None
    } else {
        match key_index(pairs.subrange(0, pairs.len() - 1), key) {
            Some(i) => Some(i),
            None => if same_key(pairs[pairs.len() - 1].0, key) {
                Some((pairs.len() - 1) as nat)
            } else {
                None
            },
        }
    }
}

/// Adds a pair: where the key is already there its value is replaced (the key
/// stays as it was), else the pair goes at the end.
pub open spec fn with_pair(pairs: Seq<(SExpr, SExpr)>, key: SExpr, value: SExpr) -> Seq<
    (SExpr, SExpr),
> {
    match key_index(pairs, key) {
        Some(i) => pairs.update(i as int, (pairs[i as int].0, value)),
        None => pairs.push((key, value)),
    }
}

pub proof fn lemma_exprs_view_push(s: Seq<Expression>, x: Expression)
    ensures
        exprs_view(s.push(x)) == exprs_view(s).push(expr_view(x)),
{
    assert(s.push(x).subrange(0, s.len() as int) =~= s);
}

pub proof fn lemma_stmts_view_push(s: Seq<Statement>, x: Statement)
    ensures
        stmts_view(s.push(x)) == stmts_view(s).push(stmt_view(x)),
{
    assert(s.push(x).subrange(0, s.len() as int) =~= s);
}

pub proof fn lemma_idents_view_push(s: Seq<Identifier>, x: Identifier)
    ensures
        idents_view(s.push(x)) == idents_view(s).push(ident_view(x)),
{
    assert(idents_view(s.push(x)) =~= idents_view(s).push(ident_view(x)));
}

/// `key_index` finds the first pair with the same key.
pub proof fn lemma_key_index(pairs: Seq<(SExpr, SExpr)>, key: SExpr)
    ensures
        match key_index(pairs, key) {
            Some(i) => i < pairs.len() && same_key(pairs[i as int].0, key) && forall|j: int|
                0 <= j < i ==> !same_key(#[trigger] pairs[j].0, key),
            None => forall|j: int| 0 <= j < pairs.len() ==> !same_key(#[trigger] pairs[j].0, key),
        },
    decreases pairs.len(),
{
    if pairs.len() > 0 {
        let prefix = pairs.subrange(0, pairs.len() - 1);
        lemma_key_index(prefix, key);
        match key_index(prefix, key) {
            Some(i) => {
                assert(prefix[i as int] == pairs[i as int]);
                assert forall|j: int| 0 <= j < i implies !same_key(#[trigger] pairs[j].0, key) by {
                    assert(prefix[j] == pairs[j]);
                }
            },
            None => {
                assert forall|j: int| 0 <= j < prefix.len() implies !same_key(#[trigger] pairs[j].0, key) by {
                    assert(prefix[j] == pairs[j]);
                }
            },
        }
    }
}

impl Expression {
    /// Identifiers and integer, boolean and string literals.
    fn is_simple_key(&self) -> (r: bool)
        ensures
            r == is_simple_key(self@),
    {
        match self {
            Expression::Identifier(_) => true,
            Expression::IntegerLiteral(_) => true,
            Expression::Boolean(_) => true,
            Expression::StringLiteral(_) => true,
            _ => false,
        }
    }

    /// Whether two expressions stand for the same key of a hash literal.
    pub fn same_key(&self, other: &Expression) -> (r: bool)
        ensures
            r == same_key(self@, other@),
    {
        match (self, other) {
            (Expression::Identifier(a), Expression::Identifier(b)) => a.value == b.value,
            (Expression::IntegerLiteral(a), Expression::IntegerLiteral(b)) => a.value == b.value,
            (Expression::Boolean(a), Expression::Boolean(b)) => a.value == b.value,
            (Expression::StringLiteral(a), Expression::StringLiteral(b)) => a.value == b.value,
            _ => {
                if self.is_simple_key() || other.is_simple_key() {
                    false
                } else {
                    self.to_string() == other.to_string()
                }
            },
        }
    }
}

/// The index of the first pair whose key is the same key as `key`.
fn find_key(pairs: &Vec<(Expression, Expression)>, key: &Expression) -> (r: Option<usize>)
    ensures
        match r {
            Some(i) => i < pairs@.len() && key_index(pairs_view(pairs@), key@) == Some(i as nat),
            None => key_index(pairs_view(pairs@), key@) is None,
        },
{
    let ghost pv = pairs_view(pairs@);
    proof {
        lemma_pairs_view(pairs@);
        lemma_key_index(pv, key@);
    }
    let mut i: usize = 0;
    while i < pairs.len()
        invariant
            i <= pairs@.len(),
            pv == pairs_view(pairs@),
            pv.len() == pairs@.len(),
            forall|j: int| 0 <= j < pairs@.len() ==> #[trigger] pv[j] == (expr_view(pairs@[j].0), expr_view(pairs@[j].1)),
            forall|j: int| 0 <= j < i ==> !same_key(#[trigger] pv[j].0, key@),
            match key_index(pv, key@) {
                Some(m) => m < pv.len() && same_key(pv[m as int].0, key@) && forall|j: int|
                    0 <= j < m ==> !same_key(#[trigger] pv[j].0, key@),
                None => forall|j: int| 0 <= j < pv.len() ==> !same_key(#[trigger] pv[j].0, key@),
            },
        decreases pairs@.len() - i,
    {
        if pairs[i].0.same_key(key) {
            assert(pv[i as int].0 == expr_view(pairs@[i as int].0));
            return Some(i);
        }
        assert(pv[i as int].0 == expr_view(pairs@[i as int].0));
        i = i + 1;
    }
    None
}

/// Adds a key/value pair as a hash literal does: a pair with the same key
/// gets the new value, else the pair goes at the end.
pub fn add_pair(pairs: &mut Vec<(Expression, Expression)>, key: Expression, value: Expression)
    ensures
        pairs_view(final(pairs)@) == with_pair(pairs_view(old(pairs)@), key@, value@),
{
    proof {
        lemma_pairs_view(pairs@);
    }
    match find_key(pairs, &key) {
        Some(i) => {
            let mut entry = pairs.remove(i);
            entry.1 = value;
            pairs.insert(i, entry);
            proof {
                lemma_pairs_view(pairs@);
                assert(pairs_view(pairs@) =~= with_pair(pairs_view(old(pairs)@), key@, value@));
            }
        },
        None => {
            let ghost before = pairs@;
            pairs.push((key, value));
            proof {
                assert(pairs@.subrange(0, before.len() as int) =~= before);
            }
        },
    }
}

impl HashLiteral {
    /// The value paired with a key that is the same key as `key`, if any.
    pub fn get(&self, key: &Expression) -> (r: Option<&Expression>)
        ensures
            match key_index(pairs_view(self.pairs@), key@) {
                Some(i) => r == Some(&self.pairs@[i as int].1),
                None => r is None,
            },
    {
        match find_key(&self.pairs, key) {
            Some(i) => Some(&self.pairs[i].1),
            None => None,
        }
    }
}

impl Clone for Identifier {
    fn clone(&self) -> (r: Self)
        ensures
            r@ == self@,
    {
        Identifier { token: self.token.clone(), value: self.value.clone() }
    }
}

// ---------------------------------------------------------------------------
// Copies
// ---------------------------------------------------------------------------

fn clone_exprs(v: &Vec<Expression>) -> (r: Vec<Expression>)
    ensures
        exprs_view(r@) == exprs_view(v@),
    decreases v,
{
    let mut r: Vec<Expression> = Vec::new();
    let mut i: usize = 0;
    while i < v.len()
        invariant
            i <= v@.len(),
            exprs_view(r@) == exprs_view(v@.subrange(0, i as int)),
        decreases v@.len() - i,
    {
        let e = v[i].deep_clone();
        proof {
            lemma_exprs_view_push(r@, e);
            lemma_exprs_view_push(v@.subrange(0, i as int), v@[i as int]);
            assert(v@.subrange(0, i as int).push(v@[i as int]) =~= v@.subrange(0, i + 1));
        }
        r.push(e);
        i = i + 1;
    }
    assert(v@.subrange(0, v@.len() as int) =~= v@);
    r
}

fn clone_pairs(v: &Vec<(Expression, Expression)>) -> (r: Vec<(Expression, Expression)>)
    ensures
        pairs_view(r@) == pairs_view(v@),
    decreases v,
{
    let mut r: Vec<(Expression, Expression)> = Vec::new();
    let mut i: usize = 0;
    while i < v.len()
        invariant
            i <= v@.len(),
            pairs_view(r@) == pairs_view(v@.subrange(0, i as int)),
        decreases v@.len() - i,
    {
        let k = v[i].0.deep_clone();
        let x = v[i].1.deep_clone();
        proof {
            assert(r@.push((k, x)).subrange(0, r@.len() as int) =~= r@);
            let next = v@.subrange(0, i + 1);
            assert(next.subrange(0, i as int) =~= v@.subrange(0, i as int));
        }
        r.push((k, x));
        i = i + 1;
    }
    assert(v@.subrange(0, v@.len() as int) =~= v@);
    r
}

pub fn clone_idents(v: &Vec<Identifier>) -> (r: Vec<Identifier>)
    ensures
        idents_view(r@) == idents_view(v@),
{
    let mut r: Vec<Identifier> = Vec::new();
    let mut i: usize = 0;
    while i < v.len()
        invariant
            i <= v@.len(),
            idents_view(r@) == idents_view(v@.subrange(0, i as int)),
        decreases v@.len() - i,
    {
        let x = v[i].clone();
        proof {
            lemma_idents_view_push(r@, x);
            lemma_idents_view_push(v@.subrange(0, i as int), v@[i as int]);
            assert(v@.subrange(0, i as int).push(v@[i as int]) =~= v@.subrange(0, i + 1));
        }
        r.push(x);
        i = i + 1;
    }
    assert(v@.subrange(0, v@.len() as int) =~= v@);
    r
}

fn clone_stmts(v: &Vec<Statement>) -> (r: Vec<Statement>)
    ensures
        stmts_view(r@) == stmts_view(v@),
    decreases v,
{
    let mut r: Vec<Statement> = Vec::new();
    let mut i: usize = 0;
    while i < v.len()
        invariant
            i <= v@.len(),
            stmts_view(r@) == stmts_view(v@.subrange(0, i as int)),
        decreases v@.len() - i,
    {
        let x = v[i].deep_clone();
        proof {
            lemma_stmts_view_push(r@, x);
            lemma_stmts_view_push(v@.subrange(0, i as int), v@[i as int]);
            assert(v@.subrange(0, i as int).push(v@[i as int]) =~= v@.subrange(0, i + 1));
        }
        r.push(x);
        i = i + 1;
    }
    assert(v@.subrange(0, v@.len() as int) =~= v@);
    r
}

fn clone_optional(e: &Option<Expression>) -> (r: Option<Expression>)
    ensures
        match (r, *e) {
            (Some(a), Some(b)) => a@ == b@,
            (None, None) => true,
            _ => false,
        },
    decreases e,
{
    match e {
        Some(x) => Some(x.deep_clone()),
        None => None,
    }
}

impl Expression {
    /// A copy of the expression, equal to it in every part.
    pub fn deep_clone(&self) -> (r: Expression)
        ensures
            r@ == self@,
        decreases self,
    {
        match self {
            Expression::Identifier(i) => Expression::Identifier(i.clone()),
            Expression::IntegerLiteral(l) => Expression::IntegerLiteral(
                IntegerLiteral { token: l.token.clone(), value: l.value },
            ),
            Expression::Boolean(b) => Expression::Boolean(Boolean { token: b.token.clone(), value: b.value }),
            Expression::PrefixExpression { token, operator, right } => Expression::PrefixExpression {
                token: token.clone(),
                operator: operator.clone(),
                right: Box::new(right.deep_clone()),
            },
            Expression::InfixExpression { token, left, operator, right } => Expression::InfixExpression {
                token: token.clone(),
                left: Box::new(left.deep_clone()),
                operator: operator.clone(),
                right: Box::new(right.deep_clone()),
            },
            Expression::IfExpression(x) => {
                let alternative = match &x.alternative {
                    Some(b) => Some(b.deep_clone()),
                    None => None,
                };
                Expression::IfExpression(IfExpression {
                    token: x.token.clone(),
                    condition: Box::new(x.condition.deep_clone()),
                    consequence: x.consequence.deep_clone(),
                    alternative,
                })
            },
            Expression::FunctionLiteral(f) => Expression::FunctionLiteral(FunctionLiteral {
                token: f.token.clone(),
                parameters: clone_idents(&f.parameters),
                body: f.body.deep_clone(),
            }),
            Expression::CallExpression(c) => Expression::CallExpression(CallExpression {
                token: c.token.clone(),
                function: Box::new(c.function.deep_clone()),
                arguments: clone_exprs(&c.arguments),
            }),
            Expression::StringLiteral(x) => Expression::StringLiteral(
                StringLiteral { token: x.token.clone(), value: x.value.clone() },
            ),
            Expression::ArrayLiteral(a) => Expression::ArrayLiteral(
                ArrayLiteral { token: a.token.clone(), elements: clone_exprs(&a.elements) },
            ),
            Expression::IndexExpression(x) => Expression::IndexExpression(IndexExpression {
                token: x.token.clone(),
                left: Box::new(x.left.deep_clone()),
                index: Box::new(x.index.deep_clone()),
            }),
            Expression::HashLiteral(h) => Expression::HashLiteral(
                HashLiteral { token: h.token.clone(), pairs: clone_pairs(&h.pairs) },
            ),
        }
    }
}

impl BlockStatement {
    /// A copy of the block, equal to it in every part.
    pub fn deep_clone(&self) -> (r: BlockStatement)
        ensures
            r@ == self@,
        decreases self,
    {
        BlockStatement { token: self.token.clone(), statements: clone_stmts(&self.statements) }
    }
}

impl Statement {
    /// A copy of the statement, equal to it in every part.
    pub fn deep_clone(&self) -> (r: Statement)
        ensures
            r@ == self@,
        decreases self,
    {
        match self {
            Statement::Let(l) => Statement::Let(
                LetStatement { token: l.token.clone(), name: l.name.clone(), value: clone_optional(&l.value) },
            ),
            Statement::Return(x) => Statement::Return(
                ReturnStatement { token: x.token.clone(), return_value: clone_optional(&x.return_value) },
            ),
            Statement::Expression(x) => Statement::Expression(
                ExpressionStatement { token: x.token.clone(), expression: clone_optional(&x.expression) },
            ),
            Statement::Block(b) => Statement::Block(b.deep_clone()),
        }
    }
}

impl Clone for Expression {
    fn clone(&self) -> (r: Self)
        ensures
            r@ == self@,
    {
        self.deep_clone()
    }
}

impl Clone for Statement {
    fn clone(&self) -> (r: Self)
        ensures
            r@ == self@,
    {
        self.deep_clone()
    }
}

impl Clone for BlockStatement {
    fn clone(&self) -> (r: Self)
        ensures
            r@ == self@,
    {
        self.deep_clone()
    }
}

// ---------------------------------------------------------------------------
// Laws of hash literal keys
// ---------------------------------------------------------------------------

/// Keys that are identifiers, or integer, boolean or string literals, of one
/// kind are the same key exactly when their values are equal; simple keys of
/// different kinds are never the same key.
pub proof fn law_simple_keys_compare_values(a: SExpr, b: SExpr)
    ensures
        (a is Int && b is Int) ==> (same_key(a, b) == (a->Int_value == b->Int_value)),
        (a is Bool && b is Bool) ==> (same_key(a, b) == (a->Bool_value == b->Bool_value)),
        (a is Str && b is Str) ==> (same_key(a, b) == (a->Str_value == b->Str_value)),
        (a is Ident && b is Ident) ==> (same_key(a, b) == (a->Ident_0.value == b->Ident_0.value)),
        is_simple_key(a) && is_simple_key(b) && (a is Int) != (b is Int) ==> !same_key(a, b),
        is_simple_key(a) && is_simple_key(b) && (a is Bool) != (b is Bool) ==> !same_key(a, b),
        is_simple_key(a) && is_simple_key(b) && (a is Str) != (b is Str) ==> !same_key(a, b),
        is_simple_key(a) && is_simple_key(b) && (a is Ident) != (b is Ident) ==> !same_key(a, b),
{
    match (a, b) {
        (SExpr::Int { value: x, .. }, SExpr::Int { value: y, .. }) => {
            assert(same_key(a, b) == (x == y));
        },
        (SExpr::Bool { value: x, .. }, SExpr::Bool { value: y, .. }) => {
            assert(same_key(a, b) == (x == y));
        },
        _ => {},
    }
}

/// A block prints as its statements, one after another: an empty block prints
/// nothing, a statement added at the end adds its own string at the end, and a
/// block prints as a program with the same statements does.
pub proof fn law_block_prints_its_statements(token: SpecToken, s: Seq<SStmt>, x: SStmt)
    ensures
        block_string(SBlock { token, statements: Seq::empty() }) == Seq::<char>::empty(),
        block_string(SBlock { token, statements: s.push(x) }) == block_string(
            SBlock { token, statements: s },
        ) + stmt_string(x),
        block_string(SBlock { token, statements: s }) == stmts_string(s),
        stmt_string(SStmt::Block(SBlock { token, statements: s })) == stmts_string(s),
{
    assert(s.push(x).subrange(0, s.len() as int) =~= s);
}

/// Lists print joined by ", ": a single item prints as itself, and an item
/// added at the end of a list that is not empty adds ", " and its own string.
pub proof fn law_lists_print_joined(
    es: Seq<SExpr>,
    e: SExpr,
    ps: Seq<(SExpr, SExpr)>,
    p: (SExpr, SExpr),
    is: Seq<SIdent>,
    i: SIdent,
)
    ensures
        exprs_string(Seq::empty()) == Seq::<char>::empty(),
        exprs_string(seq![e]) == expr_string(e),
        es.len() > 0 ==> exprs_string(es.push(e)) == exprs_string(es) + ", "@ + expr_string(e),
        pairs_string(Seq::empty()) == Seq::<char>::empty(),
        pairs_string(seq![p]) == expr_string(p.0) + ":"@ + expr_string(p.1),
        ps.len() > 0 ==> pairs_string(ps.push(p)) == pairs_string(ps) + ", "@ + expr_string(p.0)
            + ":"@ + expr_string(p.1),
        idents_string(Seq::empty()) == Seq::<char>::empty(),
        idents_string(seq![i]) == i.value,
        is.len() > 0 ==> idents_string(is.push(i)) == idents_string(is) + ", "@ + i.value,
{
    reveal_strlit(", ");
    reveal_strlit(":");
    assert(es.push(e).subrange(0, es.len() as int) =~= es);
    assert(ps.push(p).subrange(0, ps.len() as int) =~= ps);
    assert(is.push(i).subrange(0, is.len() as int) =~= is);
    assert(", "@ =~= seq![',', ' ']);
    assert(":"@ =~= seq![':']);
    assert(exprs_string(es) + seq![',', ' '] + expr_string(e) =~= exprs_string(es) + ", "@ + expr_string(e));
    assert(pairs_string(ps) + seq![',', ' '] + expr_string(p.0) + seq![':'] + expr_string(p.1)
        =~= pairs_string(ps) + ", "@ + expr_string(p.0) + ":"@ + expr_string(p.1));
    assert(expr_string(p.0) + seq![':'] + expr_string(p.1) =~= expr_string(p.0) + ":"@ + expr_string(p.1));
    assert(idents_string(is) + seq![',', ' '] + i.value =~= idents_string(is) + ", "@ + i.value);
}

/// Being the same key is an equivalence: reflexive, symmetric and transitive.
pub proof fn law_same_key_is_equivalence(a: SExpr, b: SExpr, c: SExpr)
    ensures
        same_key(a, a),
        same_key(a, b) == same_key(b, a),
        same_key(a, b) && same_key(b, c) ==> same_key(a, c),
{
}

/// No two pairs have the same key.
pub open spec fn keys_distinct(pairs: Seq<(SExpr, SExpr)>) -> bool {
    forall|i: int, j: int| 0 <= i < j < pairs.len() ==> !same_key(#[trigger] pairs[i].0, #[trigger] pairs[j].0)
}

/// Adding a pair keeps the keys of a hash literal distinct.
pub proof fn law_with_pair_keeps_keys_distinct(pairs: Seq<(SExpr, SExpr)>, key: SExpr, value: SExpr)
    requires
        keys_distinct(pairs),
    ensures
        keys_distinct(with_pair(pairs, key, value)),
{
    lemma_key_index(pairs, key);
    let p2 = with_pair(pairs, key, value);
    assert forall|i: int, j: int| 0 <= i < j < p2.len() implies !same_key(#[trigger] p2[i].0, #[trigger] p2[j].0) by {
        law_same_key_is_equivalence(p2[i].0, p2[j].0, key);
        law_same_key_is_equivalence(p2[j].0, p2[i].0, key);
        law_same_key_is_equivalence(key, p2[i].0, p2[j].0);
        if j == pairs.len() {
            assert(p2[i] == pairs[i]);
        } else {
            assert(p2[i].0 == pairs[i].0);
            assert(p2[j].0 == pairs[j].0);
        }
    }
}

/// After a pair is added, the key finds the value it was added with.
pub proof fn law_with_pair_finds_value(pairs: Seq<(SExpr, SExpr)>, key: SExpr, value: SExpr)
    ensures
        match key_index(with_pair(pairs, key, value), key) {
            Some(i) => with_pair(pairs, key, value)[i as int].1 == value,
            None => false,
        },
{
    let p2 = with_pair(pairs, key, value);
    lemma_key_index(pairs, key);
    lemma_key_index(p2, key);
    law_same_key_is_equivalence(key, key, key);
    match key_index(pairs, key) {
        Some(i) => {
            assert(p2[i as int].0 == pairs[i as int].0);
            match key_index(p2, key) {
                Some(m) => {
                    if m < i {
                        assert(p2[m as int] == pairs[m as int]);
                    }
                    if i < m {
                        assert(same_key(p2[i as int].0, key));
                    }
                },
                None => {
                    assert(same_key(p2[i as int].0, key));
                },
            }
        },
        None => {
            let n = pairs.len() as int;
            assert(p2[n].0 == key);
            match key_index(p2, key) {
                Some(m) => {
                    if m < n {
                        assert(p2[m as int] == pairs[m as int]);
                    }
                },
                None => {
                    assert(same_key(p2[n].0, key));
                },
            }
        },
    }
}

// ---------------------------------------------------------------------------
// Equality
// ---------------------------------------------------------------------------

/// When `==` holds between expressions: identifiers, integer, boolean and
/// string literals of one kind compare by value; other expressions compare by
/// how they print.
pub open spec fn expressions_equal(a: SExpr, b: SExpr) -> bool {
    match (a, b) {
        (SExpr::Ident(x), SExpr::Ident(y)) => x.value == y.value,
        (SExpr::Int { value: x, .. }, SExpr::Int { value: y, .. }) => x == y,
        (SExpr::Bool { value: x, .. }, SExpr::Bool { value: y, .. }) => x == y,
        (SExpr::Str { value: x, .. }, SExpr::Str { value: y, .. }) => x == y,
        _ => expr_string(a) == expr_string(b),
    }
}

impl PartialEq for Expression {
    fn eq(&self, other: &Self) -> (r: bool) {
        match (self, other) {
            (Expression::Identifier(a), Expression::Identifier(b)) => a.value == b.value,
            (Expression::IntegerLiteral(a), Expression::IntegerLiteral(b)) => a.value == b.value,
            (Expression::Boolean(a), Expression::Boolean(b)) => a.value == b.value,
            (Expression::StringLiteral(a), Expression::StringLiteral(b)) => a.value == b.value,
            _ => self.to_string() == other.to_string(),
        }
    }
}

impl vstd::std_specs::cmp::PartialEqSpecImpl for Expression {
    open spec fn obeys_eq_spec() -> bool {
        true
    }

    open spec fn eq_spec(&self, other: &Expression) -> bool {
        expressions_equal(self@, other@)
    }
}

impl Eq for Expression {
}

/// `==` on expressions is reflexive and symmetric.
pub proof fn law_expression_eq_reflexive_symmetric(a: SExpr, b: SExpr)
    ensures
        expressions_equal(a, a),
        expressions_equal(a, b) == expressions_equal(b, a),
{
}

impl PartialEq<str> for Identifier {
    fn eq(&self, other: &str) -> (r: bool) {
        self.value == String::from_str(other)
    }
}

impl vstd::std_specs::cmp::PartialEqSpecImpl<str> for Identifier {
    open spec fn obeys_eq_spec() -> bool {
        true
    }

    open spec fn eq_spec(&self, other: &str) -> bool {
        self.value@ == other@
    }
}

impl<'a> PartialEq<&'a str> for Identifier {
    fn eq(&self, other: &&'a str) -> (r: bool) {
        self.value == String::from_str(*other)
    }
}

impl<'a> vstd::std_specs::cmp::PartialEqSpecImpl<&'a str> for Identifier {
    open spec fn obeys_eq_spec() -> bool {
        true
    }

    open spec fn eq_spec(&self, other: &&'a str) -> bool {
        self.value@ == (*other)@
    }
}

impl PartialEq<i64> for IntegerLiteral {
    fn eq(&self, other: &i64) -> (r: bool) {
        self.value == *other
    }
}

impl vstd::std_specs::cmp::PartialEqSpecImpl<i64> for IntegerLiteral {
    open spec fn obeys_eq_spec() -> bool {
        true
    }

    open spec fn eq_spec(&self, other: &i64) -> bool {
        self.value == *other
    }
}

} // verus!
