//! The static type checker: a single best-effort pass over the whole program
//! before evaluation, specified against the `spec_check_*` model functions.
//!
//! Per function it seeds a flat, function-level scope with the parameter
//! types and walks the body in order, so each declaration is visible to the
//! statements after it. Calls to the built-ins `print` and `int_to_string`
//! are checked against their signatures; calls to user functions are checked
//! only for argument well-formedness and assumed to yield Integer32. A
//! non-void function must end in a `Return`.

use vstd::prelude::*;
use crate::ast::{
    BinaryOperator, Expression, Function, Program, SpecExpr, SpecFun, SpecStmt, Statement, Type,
    expr_view, exprs_view, fun_view, funs_view, lemma_expr_height_pos, lemma_exprs_height_elem,
    lemma_exprs_view, lemma_stmt_height_pos, lemma_stmts_height_elem, lemma_stmts_view,
    params_view, program_view, spec_expr_height, spec_exprs_height, spec_stmt_height,
    spec_stmts_height, stmt_view, stmts_view,
};
use crate::evaluator::stringify_expression::spec_op_str;
use crate::strutil::str_eq;

verus! {

/// A function-level scope, as the checker's contracts see it: variable name
/// to declared type.
pub type SpecTypeVars = Map<Seq<char>, Type>;

/// The source name of a type.
pub open spec fn spec_type_label(t: Type) -> Seq<char> {
    match t {
        Type::Integer32 => "i32"@,
        Type::Text => "string"@,
        Type::Void => "void"@,
    }
}

/// What a binary operator requires of its operand types and what it yields:
/// arithmetic needs two Integer32 operands; comparisons need two operands of
/// the same type, Integer32 or Text; both yield Integer32.
pub open spec fn spec_check_binop(op: BinaryOperator, l: Type, r: Type) -> Result<
    Type,
    Seq<char>,
> {
    match op {
        BinaryOperator::Add
        | BinaryOperator::Subtract
        | BinaryOperator::Multiply
        | BinaryOperator::Divide => if l == Type::Integer32 && r == Type::Integer32 {
            Ok(Type::Integer32)
        } else {
            Err(
                "Operator '"@ + spec_op_str(op) + "' requires both operands to be i32, got "@
                    + spec_type_label(l) + " and "@ + spec_type_label(r),
            )
        },
        BinaryOperator::GreaterThan | BinaryOperator::LessThan | BinaryOperator::Equal => if l == r
            && (l == Type::Integer32 || l == Type::Text) {
            Ok(Type::Integer32)
        } else {
            Err(
                "Operator '"@ + spec_op_str(op)
                    + "' requires both operands to be the same type, i32 or string, got "@
                    + spec_type_label(l) + " and "@ + spec_type_label(r),
            )
        },
    }
}

/// The type of an expression in a scope, or the first type error in it.
pub open spec fn spec_check_expr(e: SpecExpr, vars: SpecTypeVars) -> Result<Type, Seq<char>>
    decreases spec_expr_height(e), 0int,
{
    match e {
        SpecExpr::Int(_) => Ok(Type::Integer32),
        SpecExpr::Str(_) => Ok(Type::Text),
        SpecExpr::Var(n) => if vars.contains_key(n) {
            Ok(vars[n])
        } else {
            Err("Use of undeclared variable '"@ + n + "'"@)
        },
        SpecExpr::Bin(op, l, r) => match spec_check_expr(*l, vars) {
            Ok(lt) => match spec_check_expr(*r, vars) {
                Ok(rt) => spec_check_binop(op, lt, rt),
                Err(m) => Err(m),
            },
            Err(m) => Err(m),
        },
        SpecExpr::Call(name, args) => spec_check_call(name, args, vars),
    }
}

/// The type of a call: the built-ins are checked against their signatures;
/// a user call has its arguments checked for well-formedness only and is
/// assumed to yield Integer32.
pub open spec fn spec_check_call(name: Seq<char>, args: Seq<SpecExpr>, vars: SpecTypeVars) -> Result<
    Type,
    Seq<char>,
>
    decreases spec_exprs_height(args), 2int,
{
    if name == "print"@ {
        if args.len() != 1 {
            Err("print expects exactly one argument"@)
        } else {
            proof {
                lemma_exprs_height_elem(args, 0);
            }
            match spec_check_expr(args[0], vars) {
                Ok(Type::Text) => Ok(Type::Void),
                Ok(_) => Err("print expects a string argument"@),
                Err(m) => Err(m),
            }
        }
    } else if name == "int_to_string"@ {
        if args.len() != 1 {
            Err("int_to_string expects exactly one argument"@)
        } else {
            proof {
                lemma_exprs_height_elem(args, 0);
            }
            match spec_check_expr(args[0], vars) {
                Ok(Type::Integer32) => Ok(Type::Text),
                Ok(_) => Err("int_to_string expects an i32 argument"@),
                Err(m) => Err(m),
            }
        }
    } else {
        match spec_check_exprs(args, vars) {
            Ok(_) => Ok(Type::Integer32),
            Err(m) => Err(m),
        }
    }
}

/// Well-formedness of an argument list: the first type error in it, if any.
pub open spec fn spec_check_exprs(es: Seq<SpecExpr>, vars: SpecTypeVars) -> Result<(), Seq<char>>
    decreases spec_exprs_height(es), 1int,
{
    if es.len() == 0 {
        Ok(())
    } else {
        proof {
            lemma_expr_height_pos(es[0]);
        }
        match spec_check_expr(es[0], vars) {
            Ok(_) => spec_check_exprs(es.drop_first(), vars),
            Err(m) => Err(m),
        }
    }
}

/// What checking one statement does to the scope: a declaration checks its
/// initializer against the declared type and adds the binding; an `If`
/// requires an Integer32 condition and threads the scope through both
/// branches; a call and a `Return` check their expressions.
pub open spec fn spec_check_stmt(s: SpecStmt, vars: SpecTypeVars) -> Result<
    SpecTypeVars,
    Seq<char>,
>
    decreases spec_stmt_height(s), 0int,
{
    match s {
        SpecStmt::Decl(name, ty, e) => match spec_check_expr(e, vars) {
            Ok(et) => if et != ty {
                Err(
                    "Type mismatch for variable '"@ + name + "': expected "@ + spec_type_label(ty)
                        + ", found "@ + spec_type_label(et),
                )
            } else if vars.contains_key(name) {
                Err("Variable '"@ + name + "' redeclared in the same scope"@)
            } else {
                Ok(vars.insert(name, ty))
            },
            Err(m) => Err(m),
        },
        SpecStmt::Call(name, args) => match spec_check_call(name, args, vars) {
            Ok(_) => Ok(vars),
            Err(m) => Err(m),
        },
        SpecStmt::If(c, t, els) => match spec_check_expr(c, vars) {
            Ok(Type::Integer32) => match spec_check_stmts(t, vars) {
                Ok(vars1) => match els {
                    Some(eb) => spec_check_stmts(eb, vars1),
                    None => Ok(vars1),
                },
                Err(m) => Err(m),
            },
            Ok(ct) => Err(
                "If condition must be of type i32 (interpreted as boolean), found "@
                    + spec_type_label(ct),
            ),
            Err(m) => Err(m),
        },
        SpecStmt::Return(e) => match spec_check_expr(e, vars) {
            Ok(_) => Ok(vars),
            Err(m) => Err(m),
        },
    }
}

/// Checks statements in order, threading the scope.
pub open spec fn spec_check_stmts(ss: Seq<SpecStmt>, vars: SpecTypeVars) -> Result<
    SpecTypeVars,
    Seq<char>,
>
    decreases spec_stmts_height(ss), 1int,
{
    if ss.len() == 0 {
        Ok(vars)
    } else {
        proof {
            lemma_stmt_height_pos(ss[0]);
        }
        match spec_check_stmt(ss[0], vars) {
            Ok(vars1) => spec_check_stmts(ss.drop_first(), vars1),
            Err(m) => Err(m),
        }
    }
}

/// The scope a function body starts in: each parameter bound to its type,
/// or an error on a duplicate parameter name.
pub open spec fn spec_bind_param_types(params: Seq<(Seq<char>, Type)>) -> Result<
    SpecTypeVars,
    Seq<char>,
>
    decreases params.len(),
{
    if params.len() == 0 {
        Ok(Map::empty())
    } else {
        match spec_bind_param_types(params.drop_last()) {
            Ok(vars) => if vars.contains_key(params.last().0) {
                Err("Parameter '"@ + params.last().0 + "' declared multiple times"@)
            } else {
                Ok(vars.insert(params.last().0, params.last().1))
            },
            Err(m) => Err(m),
        }
    }
}

/// Whether a function checks: parameters distinct, body well-typed in order,
/// and, for a non-void function, a non-empty body whose last statement is a
/// `Return`.
pub open spec fn spec_check_fun(f: SpecFun) -> Result<(), Seq<char>> {
    match spec_bind_param_types(f.params) {
        Ok(vars0) => match spec_check_stmts(f.body, vars0) {
            Ok(_) => if f.ret != Type::Void {
                if f.body.len() == 0 {
                    Err("Function '"@ + f.name + "' has empty body but non-void return type"@)
                } else if !(f.body.last() is Return) {
                    Err("Function '"@ + f.name + "' missing return statement"@)
                } else {
                    Ok(())
                }
            } else {
                Ok(())
            },
            Err(m) => Err(m),
        },
        Err(m) => Err(m),
    }
}

/// Whether every function of a program checks; the first failure fails the
/// whole program.
pub open spec fn spec_check_program(fns: Seq<SpecFun>) -> Result<(), Seq<char>>
    decreases fns.len(),
{
    if fns.len() == 0 {
        Ok(())
    } else {
        match spec_check_fun(fns[0]) {
            Ok(_) => spec_check_program(fns.drop_first()),
            Err(m) => Err(m),
        }
    }
}

/// First binding of `n` in a scope's binding list.
pub open spec fn spec_type_lookup(s: Seq<(String, Type)>, n: Seq<char>) -> Option<Type>
    decreases s.len(),
{
    if s.len() == 0 {
        None
    } else if s[0].0@ == n {
        Some(s[0].1)
    } else {
        spec_type_lookup(s.drop_first(), n)
    }
}

/// The scope's binding list as a map from name to declared type.
pub open spec fn type_vars_map(s: Seq<(String, Type)>) -> SpecTypeVars {
    Map::new(
        |k: Seq<char>| spec_type_lookup(s, k) is Some,
        |k: Seq<char>|
            match spec_type_lookup(s, k) {
                Some(t) => t,
                None => arbitrary(),
            },
    )
}

proof fn lemma_type_lookup_at(s: Seq<(String, Type)>, n: Seq<char>, i: int)
    requires
        0 <= i < s.len(),
        s[i].0@ == n,
        forall|j: int| 0 <= j < i ==> (#[trigger] s[j]).0@ != n,
    ensures
        spec_type_lookup(s, n) == Some(s[i].1),
    decreases i,
{
    if i > 0 {
        lemma_type_lookup_at(s.drop_first(), n, i - 1);
    }
}

proof fn lemma_type_lookup_none(s: Seq<(String, Type)>, n: Seq<char>)
    requires
        forall|j: int| 0 <= j < s.len() ==> (#[trigger] s[j]).0@ != n,
    ensures
        spec_type_lookup(s, n) == None::<Type>,
    decreases s.len(),
{
    if s.len() > 0 {
        lemma_type_lookup_none(s.drop_first(), n);
    }
}

/// Tracks variable types in the scope of one function while it is checked.
pub struct TypeContext {
    pub variables: Vec<(String, Type)>,
}

impl TypeContext {
    /// The scope as a map from variable name to declared type.
    pub open spec fn vars_view(&self) -> SpecTypeVars {
        type_vars_map(self.variables@)
    }

    /// A fresh, empty scope.
    pub fn new() -> (r: Self)
        ensures
            r.vars_view() == Map::<Seq<char>, Type>::empty(),
    {
        let r = TypeContext { variables: Vec::new() };
        proof {
            assert(r.vars_view() =~= Map::<Seq<char>, Type>::empty());
        }
        r
    }

    /// Binds `name` to `ty`, overwriting any prior binding.
    pub fn insert(&mut self, name: String, ty: Type)
        ensures
            final (self).vars_view() == old(self).vars_view().insert(name@, ty),
    {
        let ghost old_vars = self.variables@;
        let ghost key = name@;
        self.variables.insert(0, (name, ty));
        proof {
            assert(self.variables@.drop_first() =~= old_vars);
            assert(self.vars_view() =~= type_vars_map(old_vars).insert(key, ty));
        }
    }

    /// Whether `name` is bound in the scope.
    pub fn contains(&self, name: &str) -> (r: bool)
        ensures
            r == self.vars_view().contains_key(name@),
    {
        let n = self.variables.len();
        let mut i: usize = 0;
        while i < n
            invariant
                i <= n,
                n == self.variables@.len(),
                forall|j: int| 0 <= j < i ==> (#[trigger] self.variables@[j]).0@ != name@,
            decreases n - i,
        {
            if str_eq(self.variables[i].0.as_str(), name) {
                proof {
                    lemma_type_lookup_at(self.variables@, name@, i as int);
                }
                return true;
            }
            i = i + 1;
        }
        proof {
            lemma_type_lookup_none(self.variables@, name@);
        }
        false
    }

    /// The type bound to `name`, if any.
    pub fn get(&self, name: &str) -> (r: Option<Type>)
        ensures
            match r {
                Some(t) => self.vars_view().contains_key(name@) && t == self.vars_view()[name@],
                None => !self.vars_view().contains_key(name@),
            },
    {
        let n = self.variables.len();
        let mut i: usize = 0;
        while i < n
            invariant
                i <= n,
                n == self.variables@.len(),
                forall|j: int| 0 <= j < i ==> (#[trigger] self.variables@[j]).0@ != name@,
            decreases n - i,
        {
            if str_eq(self.variables[i].0.as_str(), name) {
                proof {
                    lemma_type_lookup_at(self.variables@, name@, i as int);
                }
                return Some(self.variables[i].1);
            }
            i = i + 1;
        }
        proof {
            lemma_type_lookup_none(self.variables@, name@);
        }
        None
    }
}

/// The source name of a type.
pub fn type_label(t: Type) -> (r: &'static str)
    ensures
        r@ == spec_type_label(t),
{
    match t {
        Type::Integer32 => "i32",
        Type::Text => "string",
        Type::Void => "void",
    }
}

/// Checks types for a binary operator, returning the result type if the
/// operand types are acceptable for it.
pub fn check_binary_op_types(op: &BinaryOperator, left: &Type, right: &Type) -> (r: Result<
    Type,
    String,
>)
    ensures
        match spec_check_binop(*op, *left, *right) {
            Ok(t) => r matches Ok(rt) && rt == t,
            Err(m) => r matches Err(s) && s@ == m,
        },
{
    let arithmetic = match op {
        BinaryOperator::Add | BinaryOperator::Subtract | BinaryOperator::Multiply
            | BinaryOperator::Divide => true,
        _ => false,
    };
    if arithmetic {
        if matches!(left, Type::Integer32) && matches!(right, Type::Integer32) {
            Ok(Type::Integer32)
        } else {
            let mut m = String::from_str("Operator '");
            let op_str = match crate::evaluator::stringify_expression::stringify_operator(op) {
                Ok(s) => s,
                Err(e) => {
                    return Err(e);
                },
            };
            m.append(op_str);
            m.append("' requires both operands to be i32, got ");
            m.append(type_label(*left));
            m.append(" and ");
            m.append(type_label(*right));
            Err(m)
        }
    } else {
        let same = match (left, right) {
            (Type::Integer32, Type::Integer32) => true,
            (Type::Text, Type::Text) => true,
            _ => false,
        };
        if same {
            Ok(Type::Integer32)
        } else {
            let mut m = String::from_str("Operator '");
            let op_str = match crate::evaluator::stringify_expression::stringify_operator(op) {
                Ok(s) => s,
                Err(e) => {
                    return Err(e);
                },
            };
            m.append(op_str);
            m.append("' requires both operands to be the same type, i32 or string, got ");
            m.append(type_label(*left));
            m.append(" and ");
            m.append(type_label(*right));
            Err(m)
        }
    }
}

/// Checks the type of an expression within a scope, returning the
/// expression's type on success or the first type error in it.
pub fn type_check_expression(expr: &Expression, context: &TypeContext) -> (r: Result<Type, String>)
    ensures
        match spec_check_expr(expr_view(*expr), context.vars_view()) {
            Ok(t) => r matches Ok(rt) && rt == t,
            Err(m) => r matches Err(s) && s@ == m,
        },
    decreases spec_expr_height(expr_view(*expr)), 0int,
{
    match expr {
        Expression::IntegerLiteral(_) => Ok(Type::Integer32),
        Expression::StringLiteral(_) => Ok(Type::Text),
        Expression::VariableRef(name) => match context.get(name.as_str()) {
            Some(t) => Ok(t),
            None => {
                let mut m = String::from_str("Use of undeclared variable '");
                m.append(name.as_str());
                m.append("'");
                Err(m)
            },
        },
        Expression::BinaryOp { op, left, right } => match type_check_expression(left, context) {
            Ok(lt) => match type_check_expression(right, context) {
                Ok(rt) => check_binary_op_types(op, &lt, &rt),
                Err(m) => Err(m),
            },
            Err(m) => Err(m),
        },
        Expression::FunctionCall { name, args } => type_check_call(name.as_str(), args, context),
    }
}

/// Checks a call in a scope: the built-ins against their signatures, a user
/// call for argument well-formedness.
fn type_check_call(name: &str, args: &Vec<Expression>, context: &TypeContext) -> (r: Result<
    Type,
    String,
>)
    ensures
        match spec_check_call(name@, exprs_view(args@), context.vars_view()) {
            Ok(t) => r matches Ok(rt) && rt == t,
            Err(m) => r matches Err(s) && s@ == m,
        },
    decreases spec_exprs_height(exprs_view(args@)), 2int,
{
    proof {
        lemma_exprs_view(args@);
    }
    if str_eq(name, "print") {
        if args.len() != 1 {
            Err(String::from_str("print expects exactly one argument"))
        } else {
            proof {
                lemma_exprs_height_elem(exprs_view(args@), 0);
            }
            match type_check_expression(&args[0], context) {
                Ok(Type::Text) => Ok(Type::Void),
                Ok(_) => Err(String::from_str("print expects a string argument")),
                Err(m) => Err(m),
            }
        }
    } else if str_eq(name, "int_to_string") {
        if args.len() != 1 {
            Err(String::from_str("int_to_string expects exactly one argument"))
        } else {
            proof {
                lemma_exprs_height_elem(exprs_view(args@), 0);
            }
            match type_check_expression(&args[0], context) {
                Ok(Type::Integer32) => Ok(Type::Text),
                Ok(_) => Err(String::from_str("int_to_string expects an i32 argument")),
                Err(m) => Err(m),
            }
        }
    } else {
        match type_check_arguments(args, context) {
            Ok(_) => Ok(Type::Integer32),
            Err(m) => Err(m),
        }
    }
}

/// Checks each argument for well-formedness, in order.
fn type_check_arguments(args: &Vec<Expression>, context: &TypeContext) -> (r: Result<(), String>)
    ensures
        match spec_check_exprs(exprs_view(args@), context.vars_view()) {
            Ok(_) => r is Ok,
            Err(m) => r matches Err(s) && s@ == m,
        },
    decreases spec_exprs_height(exprs_view(args@)), 1int,
{
    let ghost views = exprs_view(args@);
    let ghost vars = context.vars_view();
    proof {
        lemma_exprs_view(args@);
        assert(views.skip(0) =~= views);
    }
    let n = args.len();
    let mut i: usize = 0;
    while i < n
        invariant
            i <= n,
            n == args@.len(),
            views == exprs_view(args@),
            views.len() == n,
            vars == context.vars_view(),
            forall|j: int| 0 <= j < n ==> views[j] == expr_view(#[trigger] args@[j]),
            spec_check_exprs(views, vars) == spec_check_exprs(views.skip(i as int), vars),
        decreases n - i,
    {
        proof {
            lemma_exprs_height_elem(views, i as int);
            assert(views.skip(i as int)[0] == views[i as int]);
        }
        match type_check_expression(&args[i], context) {
            Ok(_) => {
                proof {
                    assert(views.skip(i as int).drop_first() =~= views.skip(i as int + 1));
                }
                i = i + 1;
            },
            Err(m) => {
                return Err(m);
            },
        }
    }
    proof {
        assert(views.skip(n as int) =~= Seq::<SpecExpr>::empty());
    }
    Ok(())
}

/// Returns true if the statement is a `Return` statement.
pub fn is_return_statement(stmt: &Statement) -> (r: bool)
    ensures
        r == (stmt_view(*stmt) is Return),
{
    matches!(stmt, Statement::Return { .. })
}

/// Checks the type correctness of one statement and updates the scope.
pub fn type_check_statement(stmt: &Statement, context: &mut TypeContext) -> (r: Result<(), String>)
    ensures
        match spec_check_stmt(stmt_view(*stmt), old(context).vars_view()) {
            Ok(m) => r is Ok && final (context).vars_view() == m,
            Err(sm) => r matches Err(s) && s@ == sm,
        },
    decreases spec_stmt_height(stmt_view(*stmt)), 3int,
{
    match stmt {
        Statement::VariableDeclaration { name, declared_type, value } => {
            match type_check_expression(value, context) {
                Ok(et) => {
                    if !types_equal(&et, declared_type) {
                        let mut m = String::from_str("Type mismatch for variable '");
                        m.append(name.as_str());
                        m.append("': expected ");
                        m.append(type_label(*declared_type));
                        m.append(", found ");
                        m.append(type_label(et));
                        Err(m)
                    } else if context.contains(name.as_str()) {
                        let mut m = String::from_str("Variable '");
                        m.append(name.as_str());
                        m.append("' redeclared in the same scope");
                        Err(m)
                    } else {
                        context.insert(name.clone(), *declared_type);
                        Ok(())
                    }
                },
                Err(m) => Err(m),
            }
        },
        Statement::FunctionCall { name, args } => {
            match type_check_call(name.as_str(), args, context) {
                Ok(_) => Ok(()),
                Err(m) => Err(m),
            }
        },
        Statement::If { condition, then_body, else_body } => {
            match type_check_expression(condition, context) {
                Ok(Type::Integer32) => match type_check_statements(then_body, context) {
                    Ok(_) => match else_body {
                        Some(eb) => type_check_statements(eb, context),
                        None => Ok(()),
                    },
                    Err(m) => Err(m),
                },
                Ok(ct) => {
                    let mut m = String::from_str(
                        "If condition must be of type i32 (interpreted as boolean), found ",
                    );
                    m.append(type_label(ct));
                    Err(m)
                },
                Err(m) => Err(m),
            }
        },
        Statement::Return { value } => match type_check_expression(value, context) {
            Ok(_) => Ok(()),
            Err(m) => Err(m),
        },
    }
}

fn types_equal(a: &Type, b: &Type) -> (r: bool)
    ensures
        r == (*a == *b),
{
    match (a, b) {
        (Type::Integer32, Type::Integer32) => true,
        (Type::Text, Type::Text) => true,
        (Type::Void, Type::Void) => true,
        _ => false,
    }
}

/// Checks a statement list in order, threading the scope through it.
fn type_check_statements(statements: &Vec<Statement>, context: &mut TypeContext) -> (r: Result<
    (),
    String,
>)
    ensures
        match spec_check_stmts(stmts_view(statements@), old(context).vars_view()) {
            Ok(m) => r is Ok && final (context).vars_view() == m,
            Err(sm) => r matches Err(s) && s@ == sm,
        },
    decreases spec_stmts_height(stmts_view(statements@)), 4int,
{
    let ghost views = stmts_view(statements@);
    let ghost vars0 = old(context).vars_view();
    proof {
        lemma_stmts_view(statements@);
        assert(views.skip(0) =~= views);
    }
    let n = statements.len();
    let mut i: usize = 0;
    while i < n
        invariant
            i <= n,
            n == statements@.len(),
            views == stmts_view(statements@),
            views.len() == n,
            vars0 == old(context).vars_view(),
            forall|j: int| 0 <= j < n ==> views[j] == stmt_view(#[trigger] statements@[j]),
            spec_check_stmts(views, vars0) == spec_check_stmts(
                views.skip(i as int),
                context.vars_view(),
            ),
        decreases n - i,
    {
        proof {
            lemma_stmts_height_elem(views, i as int);
            assert(views.skip(i as int)[0] == views[i as int]);
        }
        match type_check_statement(&statements[i], context) {
            Ok(_) => {
                proof {
                    assert(views.skip(i as int).drop_first() =~= views.skip(i as int + 1));
                }
                i = i + 1;
            },
            Err(m) => {
                return Err(m);
            },
        }
    }
    proof {
        assert(views.skip(n as int) =~= Seq::<SpecStmt>::empty());
    }
    Ok(())
}

/// Performs type checking on a single function: parameters must be distinct,
/// the body must check in order, and a non-void function must end in a
/// `Return` statement.
pub fn type_check_function(function: &Function) -> (r: Result<(), String>)
    ensures
        match spec_check_fun(fun_view(*function)) {
            Ok(_) => r is Ok,
            Err(m) => r matches Err(s) && s@ == m,
        },
{
    let mut context = TypeContext::new();
    let ghost ps = params_view(function.params@);
    proof {
        assert(ps.take(0) =~= Seq::<(Seq<char>, Type)>::empty());
    }
    let n = function.params.len();
    let mut i: usize = 0;
    while i < n
        invariant
            i <= n,
            n == function.params@.len(),
            ps == params_view(function.params@),
            ps.len() == n,
            spec_bind_param_types(ps.take(i as int)) == Ok::<SpecTypeVars, Seq<char>>(
                context.vars_view(),
            ),
        decreases n - i,
    {
        proof {
            assert(ps[i as int] == (function.params@[i as int].name@, function.params@[
            i as int].param_type));
            assert(ps.take(i as int + 1).drop_last() =~= ps.take(i as int));
            assert(ps.take(i as int + 1).last() == ps[i as int]);
        }
        let param = &function.params[i];
        if context.contains(param.name.as_str()) {
            let mut m = String::from_str("Parameter '");
            m.append(param.name.as_str());
            m.append("' declared multiple times");
            proof {
                assert(spec_bind_param_types(ps.take(i as int + 1)) == Err::<
                    SpecTypeVars,
                    Seq<char>,
                >("Parameter '"@ + ps[i as int].0 + "' declared multiple times"@));
                lemma_bind_param_types_err_prefix(ps, i as int + 1);
            }
            return Err(m);
        }
        context.insert(param.name.clone(), param.param_type);
        i = i + 1;
    }
    proof {
        assert(ps.take(n as int) =~= ps);
    }
    match type_check_statements(&function.body, &mut context) {
        Ok(_) => {
            if !matches!(function.return_type, Type::Void) {
                proof {
                    lemma_stmts_view(function.body@);
                }
                if function.body.len() == 0 {
                    let mut m = String::from_str("Function '");
                    m.append(function.name.as_str());
                    m.append("' has empty body but non-void return type");
                    return Err(m);
                }
                let last = &function.body[function.body.len() - 1];
                proof {
                    assert(stmts_view(function.body@).last() == stmt_view(
                        function.body@[function.body@.len() - 1],
                    ));
                }
                if !is_return_statement(last) {
                    let mut m = String::from_str("Function '");
                    m.append(function.name.as_str());
                    m.append("' missing return statement");
                    return Err(m);
                }
            }
            Ok(())
        },
        Err(m) => Err(m),
    }
}

/// A parameter-list error at a prefix settles the whole list.
proof fn lemma_bind_param_types_err_prefix(ps: Seq<(Seq<char>, Type)>, k: int)
    requires
        0 <= k <= ps.len(),
        spec_bind_param_types(ps.take(k)) is Err,
    ensures
        spec_bind_param_types(ps) == spec_bind_param_types(ps.take(k)),
    decreases ps.len() - k,
{
    if k < ps.len() {
        assert(ps.take(k + 1).drop_last() =~= ps.take(k));
        lemma_bind_param_types_err_prefix(ps, k + 1);
    } else {
        assert(ps.take(k) =~= ps);
    }
}

/// Type-checks the entire program by checking each function in order; the
/// first function that fails fails the whole program.
pub fn type_check_program(program: &Program) -> (r: Result<(), String>)
    ensures
        match spec_check_program(program_view(*program)) {
            Ok(_) => r is Ok,
            Err(m) => r matches Err(s) && s@ == m,
        },
{
    let ghost fns = program_view(*program);
    proof {
        assert(fns.skip(0) =~= fns);
    }
    let n = program.functions.len();
    let mut i: usize = 0;
    while i < n
        invariant
            i <= n,
            n == program.functions@.len(),
            fns == program_view(*program),
            fns.len() == n,
            forall|j: int|
                0 <= j < n ==> fns[j] == fun_view(#[trigger] program.functions@[j]),
            spec_check_program(fns) == spec_check_program(fns.skip(i as int)),
        decreases n - i,
    {
        proof {
            assert(fns.skip(i as int)[0] == fns[i as int]);
        }
        match type_check_function(&program.functions[i]) {
            Ok(_) => {
                proof {
                    assert(fns.skip(i as int).drop_first() =~= fns.skip(i as int + 1));
                }
                i = i + 1;
            },
            Err(m) => {
                return Err(m);
            },
        }
    }
    proof {
        assert(fns.skip(n as int) =~= Seq::<SpecFun>::empty());
    }
    Ok(())
}

} // verus!
