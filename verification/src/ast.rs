//! The in-memory representation of programs: types, expressions, statements,
//! functions, and whole programs, together with the mathematical model that
//! every contract in this crate speaks of.
//!
//! Each executable node kind has a ghost mirror (`SpecExpr`, `SpecStmt`,
//! `SpecFun`) in which every `String` is a `Seq<char>`, reached through the
//! view functions `expr_view`, `stmt_view`, `fun_view` and `program_view`.

use vstd::prelude::*;

verus! {

/// The three value types of the language: used for parameter types, return
/// types, declared variable types, and inferred expression types.
#[derive(Clone, Copy, Debug, PartialEq, Eq, Structural)]
pub enum Type {
    Integer32,
    Text,
    Void,
}

/// The binary operators: arithmetic on Integer32 operands, comparisons
/// yielding Integer32 0 or 1.
#[derive(Clone, Copy, Debug, PartialEq, Eq, Structural)]
pub enum BinaryOperator {
    Add,
    Subtract,
    Multiply,
    Divide,
    GreaterThan,
    LessThan,
    Equal,
}

/// A named, typed function parameter. Immutable once parsed.
#[derive(Debug, PartialEq)]
pub struct Parameter {
    pub name: String,
    pub param_type: Type,
}

/// An expression node. Recursive children are exclusively owned; the AST is
/// a strict tree.
#[derive(Debug, PartialEq)]
pub enum Expression {
    IntegerLiteral(i32),
    StringLiteral(String),
    VariableRef(String),
    BinaryOp { op: BinaryOperator, left: Box<Expression>, right: Box<Expression> },
    FunctionCall { name: String, args: Vec<Expression> },
}

/// A statement node. `If` carries a then-branch and an optional else-branch.
#[derive(Debug, PartialEq)]
pub enum Statement {
    VariableDeclaration { name: String, declared_type: Type, value: Expression },
    FunctionCall { name: String, args: Vec<Expression> },
    If { condition: Expression, then_body: Vec<Statement>, else_body: Option<Vec<Statement>> },
    Return { value: Expression },
}

/// A function definition: unique name within a program, ordered parameters,
/// declared return type, and an owned body.
#[derive(Debug, PartialEq)]
pub struct Function {
    pub name: String,
    pub params: Vec<Parameter>,
    pub return_type: Type,
    pub body: Vec<Statement>,
}

/// A whole program: the root owner of all functions.
#[derive(Debug, PartialEq)]
pub struct Program {
    pub functions: Vec<Function>,
}

/// Ghost mirror of `Expression`: strings become character sequences.
#[verifier::ext_equal]
pub enum SpecExpr {
    Int(i32),
    Str(Seq<char>),
    Var(Seq<char>),
    Bin(BinaryOperator, Box<SpecExpr>, Box<SpecExpr>),
    Call(Seq<char>, Seq<SpecExpr>),
}

/// Ghost mirror of `Statement`.
#[verifier::ext_equal]
pub enum SpecStmt {
    Decl(Seq<char>, Type, SpecExpr),
    Call(Seq<char>, Seq<SpecExpr>),
    If(SpecExpr, Seq<SpecStmt>, Option<Seq<SpecStmt>>),
    Return(SpecExpr),
}

/// Ghost mirror of `Function`: name, parameter names with their types,
/// return type, body.
#[verifier::ext_equal]
pub struct SpecFun {
    pub name: Seq<char>,
    pub params: Seq<(Seq<char>, Type)>,
    pub ret: Type,
    pub body: Seq<SpecStmt>,
}

pub open spec fn expr_view(e: Expression) -> SpecExpr
    decreases e,
{
    match e {
        Expression::IntegerLiteral(v) => SpecExpr::Int(v),
        Expression::StringLiteral(s) => SpecExpr::Str(s@),
        Expression::VariableRef(n) => SpecExpr::Var(n@),
        Expression::BinaryOp { op, left, right } => SpecExpr::Bin(
            op,
            Box::new(expr_view(*left)),
            Box::new(expr_view(*right)),
        ),
        Expression::FunctionCall { name, args } => SpecExpr::Call(name@, exprs_view(args@)),
    }
}

pub open spec fn exprs_view(es: Seq<Expression>) -> Seq<SpecExpr>
    decreases es,
{
    if es.len() == 0 {
        Seq::empty()
    } else {
        seq![expr_view(es[0])] + exprs_view(es.drop_first())
    }
}

pub open spec fn stmt_view(s: Statement) -> SpecStmt
    decreases s,
{
    match s {
        Statement::VariableDeclaration { name, declared_type, value } => SpecStmt::Decl(
            name@,
            declared_type,
            expr_view(value),
        ),
        Statement::FunctionCall { name, args } => SpecStmt::Call(name@, exprs_view(args@)),
        Statement::If { condition, then_body, else_body } => SpecStmt::If(
            expr_view(condition),
            stmts_view(then_body@),
            match else_body {
                Some(eb) => Some(stmts_view(eb@)),
                None => None,
            },
        ),
        Statement::Return { value } => SpecStmt::Return(expr_view(value)),
    }
}

pub open spec fn stmts_view(ss: Seq<Statement>) -> Seq<SpecStmt>
    decreases ss,
{
    if ss.len() == 0 {
        Seq::empty()
    } else {
        seq![stmt_view(ss[0])] + stmts_view(ss.drop_first())
    }
}

pub open spec fn params_view(ps: Seq<Parameter>) -> Seq<(Seq<char>, Type)> {
    ps.map_values(|p: Parameter| (p.name@, p.param_type))
}

pub open spec fn fun_view(f: Function) -> SpecFun {
    SpecFun { name: f.name@, params: params_view(f.params@), ret: f.return_type, body: stmts_view(
        f.body@,
    ) }
}

pub open spec fn funs_view(fs: Seq<Function>) -> Seq<SpecFun> {
    fs.map_values(|f: Function| fun_view(f))
}

pub open spec fn program_view(p: Program) -> Seq<SpecFun> {
    funs_view(p.functions@)
}

/// `exprs_view` is pointwise `expr_view`.
pub proof fn lemma_exprs_view(es: Seq<Expression>)
    ensures
        exprs_view(es).len() == es.len(),
        forall|i: int| 0 <= i < es.len() ==> exprs_view(es)[i] == expr_view(#[trigger] es[i]),
    decreases es,
{
    if es.len() > 0 {
        lemma_exprs_view(es.drop_first());
        assert forall|i: int| 0 <= i < es.len() implies exprs_view(es)[i] == expr_view(
            #[trigger] es[i],
        ) by {
            if i > 0 {
                assert(exprs_view(es)[i] == exprs_view(es.drop_first())[i - 1]);
                assert(es.drop_first()[i - 1] == es[i]);
            }
        }
    }
}

/// `stmts_view` is pointwise `stmt_view`.
pub proof fn lemma_stmts_view(ss: Seq<Statement>)
    ensures
        stmts_view(ss).len() == ss.len(),
        forall|i: int| 0 <= i < ss.len() ==> stmts_view(ss)[i] == stmt_view(#[trigger] ss[i]),
    decreases ss,
{
    if ss.len() > 0 {
        lemma_stmts_view(ss.drop_first());
        assert forall|i: int| 0 <= i < ss.len() implies stmts_view(ss)[i] == stmt_view(
            #[trigger] ss[i],
        ) by {
            if i > 0 {
                assert(stmts_view(ss)[i] == stmts_view(ss.drop_first())[i - 1]);
                assert(ss.drop_first()[i - 1] == ss[i]);
            }
        }
    }
}

/// Structural size of an expression mirror; at least 1, and strictly larger
/// than the size of any child. Used as a termination measure by the
/// evaluation model.
pub open spec fn spec_expr_height(e: SpecExpr) -> nat
    decreases e,
{
    match e {
        SpecExpr::Int(_) => 1,
        SpecExpr::Str(_) => 1,
        SpecExpr::Var(_) => 1,
        SpecExpr::Bin(_, l, r) => 1 + spec_expr_height(*l) + spec_expr_height(*r),
        SpecExpr::Call(_, args) => 1 + spec_exprs_height(args),
    }
}

pub open spec fn spec_exprs_height(es: Seq<SpecExpr>) -> nat
    decreases es,
{
    if es.len() == 0 {
        0
    } else {
        spec_expr_height(es[0]) + spec_exprs_height(es.drop_first())
    }
}

pub open spec fn spec_stmt_height(s: SpecStmt) -> nat
    decreases s,
{
    match s {
        SpecStmt::Decl(_, _, e) => 1 + spec_expr_height(e),
        SpecStmt::Call(_, args) => 1 + spec_exprs_height(args),
        SpecStmt::If(c, t, e) => 1 + spec_expr_height(c) + spec_stmts_height(t) + match e {
            Some(eb) => spec_stmts_height(eb),
            None => 0,
        },
        SpecStmt::Return(e) => 1 + spec_expr_height(e),
    }
}

pub open spec fn spec_stmts_height(ss: Seq<SpecStmt>) -> nat
    decreases ss,
{
    if ss.len() == 0 {
        0
    } else {
        spec_stmt_height(ss[0]) + spec_stmts_height(ss.drop_first())
    }
}

/// An expression mirror weighs at least 1.
pub proof fn lemma_expr_height_pos(e: SpecExpr)
    ensures
        spec_expr_height(e) >= 1,
{
}

/// A statement mirror weighs at least 1.
pub proof fn lemma_stmt_height_pos(s: SpecStmt)
    ensures
        spec_stmt_height(s) >= 1,
{
}

/// Every element of a sequence of expression mirrors weighs no more than the
/// whole sequence.
pub proof fn lemma_exprs_height_elem(es: Seq<SpecExpr>, i: int)
    requires
        0 <= i < es.len(),
    ensures
        spec_expr_height(es[i]) <= spec_exprs_height(es),
    decreases es,
{
    if i > 0 {
        lemma_exprs_height_elem(es.drop_first(), i - 1);
    }
}

/// Every element of a sequence of statement mirrors weighs no more than the
/// whole sequence.
pub proof fn lemma_stmts_height_elem(ss: Seq<SpecStmt>, i: int)
    requires
        0 <= i < ss.len(),
    ensures
        spec_stmt_height(ss[i]) <= spec_stmts_height(ss),
    decreases ss,
{
    if i > 0 {
        lemma_stmts_height_elem(ss.drop_first(), i - 1);
    }
}

/// Deep copy of an expression, proved to preserve the mathematical value.
pub fn clone_expression(e: &Expression) -> (r: Expression)
    ensures
        expr_view(r) == expr_view(*e),
    decreases *e,
{
    match e {
        Expression::IntegerLiteral(v) => Expression::IntegerLiteral(*v),
        Expression::StringLiteral(s) => Expression::StringLiteral(s.clone()),
        Expression::VariableRef(n) => Expression::VariableRef(n.clone()),
        Expression::BinaryOp { op, left, right } => Expression::BinaryOp {
            op: *op,
            left: Box::new(clone_expression(left)),
            right: Box::new(clone_expression(right)),
        },
        Expression::FunctionCall { name, args } => Expression::FunctionCall {
            name: name.clone(),
            args: clone_expressions(args),
        },
    }
}

/// Deep copy of an expression sequence, preserving the mathematical value of
/// every element.
pub fn clone_expressions(es: &Vec<Expression>) -> (r: Vec<Expression>)
    ensures
        exprs_view(r@) == exprs_view(es@),
    decreases es@,
{
    let mut cloned: Vec<Expression> = Vec::new();
    let mut i: usize = 0;
    while i < es.len()
        invariant
            i <= es.len(),
            cloned@.len() == i as int,
            forall|j: int|
                0 <= j < i as int ==> expr_view(#[trigger] cloned@[j]) == expr_view(es@[j]),
        decreases es@.len() - i,
    {
        let c = clone_expression(&es[i]);
        cloned.push(c);
        i = i + 1;
    }
    proof {
        lemma_exprs_view(es@);
        lemma_exprs_view(cloned@);
        assert forall|j: int| 0 <= j < es@.len() implies exprs_view(cloned@)[j] == exprs_view(
            es@,
        )[j] by {
            assert(expr_view(cloned@[j]) == expr_view(es@[j]));
        }
        assert(exprs_view(cloned@) =~= exprs_view(es@));
    }
    cloned
}

} // verus!
