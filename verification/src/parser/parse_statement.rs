//! Line-level statement parsing. A single statement line is a `return`, a
//! variable declaration `name: type = expr;`, or a call `name(args);`, each
//! ending in a semicolon. An `if (cond) {` line opens a multi-line block
//! that runs to its closing `};`, with an optional single-level `} else {`
//! separator.

use vstd::prelude::*;
use vstd::string::{StrSliceExecFns, StringExecFns};
use crate::ast::{
    Expression, SpecExpr, SpecStmt, Statement, Type, expr_view, exprs_view, lemma_exprs_view,
    lemma_stmts_view, stmt_view, stmts_view,
};
use crate::parser::parse_expression::{parse_expression, spec_parse_expression};
use crate::strutil::{
    contains_str, find_str, spec_find_str, spec_occurs_at, spec_trim, str_eq,
    str_starts_with, strs_view, trim,
};

verus! {

/// What a text parses to as an expression, with the error text a failed
/// parse reports.
pub open spec fn spec_parse_expr_text(s: Seq<char>) -> Result<SpecExpr, Seq<char>> {
    match spec_parse_expression(s) {
        Some(e) => Ok(e),
        None => Err("Unrecognized expression: "@ + s),
    }
}

/// What a type name parses to: `i32`, `string` or `void`.
pub open spec fn spec_parse_type(s: Seq<char>) -> Result<Type, Seq<char>> {
    if s == "i32"@ {
        Ok(Type::Integer32)
    } else if s == "string"@ {
        Ok(Type::Text)
    } else if s == "void"@ {
        Ok(Type::Void)
    } else {
        Err("Unknown type: "@ + s)
    }
}

/// What a comma-separated argument list parses to: each piece is trimmed
/// and parsed as an expression. The split is textual: a comma inside a
/// nested call or a string literal splits too.
pub open spec fn spec_parse_args_split(s: Seq<char>) -> Result<Seq<SpecExpr>, Seq<char>>
    decreases s.len(),
{
    match spec_find_str(s, ","@) {
        Some(k) => if 0 <= k < s.len() {
            match spec_parse_expr_text(spec_trim(s.take(k))) {
                Ok(e) => match spec_parse_args_split(s.skip(k + 1)) {
                    Ok(rest) => Ok(seq![e] + rest),
                    Err(m) => Err(m),
                },
                Err(m) => Err(m),
            }
        } else {
            Err("Unrecognized expression: "@ + s)
        },
        None => match spec_parse_expr_text(spec_trim(s)) {
            Ok(e) => Ok(seq![e]),
            Err(m) => Err(m),
        },
    }
}

/// An empty argument text is an empty list; otherwise the comma split.
pub open spec fn spec_parse_arguments(s: Seq<char>) -> Result<Seq<SpecExpr>, Seq<char>> {
    if spec_trim(s).len() == 0 {
        Ok(Seq::empty())
    } else {
        spec_parse_args_split(s)
    }
}

/// What an `if (cond) {` opening line parses to: an `If` whose condition is
/// the text between `if (` and the first `) {`, with branches to be filled
/// in by the block parser.
pub open spec fn spec_parse_if_simple(t: Seq<char>) -> Result<SpecStmt, Seq<char>> {
    match spec_find_str(t, ") {"@) {
        Some(end) => if 4 <= end <= t.len() {
            match spec_parse_expr_text(t.subrange(4, end)) {
                Ok(c) => Ok(SpecStmt::If(c, Seq::empty(), None)),
                Err(m) => Err(m),
            }
        } else {
            Err("Invalid if statement format"@)
        },
        None => Err("Invalid if statement format"@),
    }
}

/// What a single statement line parses to.
pub open spec fn spec_parse_statement(line: Seq<char>) -> Result<SpecStmt, Seq<char>> {
    let t = spec_trim(line);
    if spec_occurs_at(t, "if ("@, 0) && spec_find_str(t, ") {"@) is Some {
        spec_parse_if_simple(t)
    } else if !(t.len() > 0 && t.last() == ';') {
        Err("Statement must end with a semicolon ';'"@)
    } else {
        let content = t.drop_last();
        if spec_occurs_at(content, "return "@, 0) {
            match spec_parse_expr_text(spec_trim(content.skip(7))) {
                Ok(e) => Ok(SpecStmt::Return(e)),
                Err(m) => Err(m),
            }
        } else {
            match spec_find_str(content, "="@) {
                Some(k) => if 0 <= k < content.len() {
                    spec_parse_declaration(content.take(k), spec_trim(content.skip(k + 1)))
                } else {
                    Err("Unrecognized statement syntax"@)
                },
                None => match spec_find_str(content, "("@) {
                    Some(k) => if content.len() > 0 && content.last() == ')' && 0 <= k < content.len() {
                        let name = spec_trim(content.take(k));
                        let args_str = content.subrange(k + 1, content.len() - 1);
                        match spec_parse_arguments(args_str) {
                            Ok(args) => Ok(SpecStmt::Call(name, args)),
                            Err(m) => Err(m),
                        }
                    } else {
                        Err("Unrecognized statement syntax"@)
                    },
                    None => Err("Unrecognized statement syntax"@),
                },
            }
        }
    }
}

/// What the left and right sides of a declaration's first `=` parse to: the
/// left side must be `name: type`, the right an expression.
pub open spec fn spec_parse_declaration(left_raw: Seq<char>, right: Seq<char>) -> Result<
    SpecStmt,
    Seq<char>,
> {
    let left = spec_trim(left_raw);
    match spec_find_str(left, ":"@) {
        Some(c1) => if 0 <= c1 < left.len() && !(spec_find_str(left.skip(c1 + 1), ":"@) is Some) {
            let name = spec_trim(left.take(c1));
            let ty_str = spec_trim(left.skip(c1 + 1));
            match spec_parse_type(ty_str) {
                Ok(ty) => match spec_parse_expr_text(right) {
                    Ok(e) => Ok(SpecStmt::Decl(name, ty, e)),
                    Err(m) => Err(m),
                },
                Err(m) => Err(m),
            }
        } else {
            Err("Invalid variable declaration syntax"@)
        },
        None => Err("Invalid variable declaration syntax"@),
    }
}

/// The then-branch scan of a multi-line `if`: the raw non-empty body lines
/// before the terminator, the number of lines consumed (terminator
/// included), and whether the terminator was `} else {` rather than `};`.
/// A block that never closes consumes all lines.
pub open spec fn spec_scan_block(rest: Seq<Seq<char>>) -> (Seq<Seq<char>>, int, bool)
    decreases rest.len(),
{
    if rest.len() == 0 {
        (Seq::empty(), 0, false)
    } else {
        let t = spec_trim(rest[0]);
        if t == "};"@ {
            (Seq::empty(), 1, false)
        } else if t == "} else {"@ {
            (Seq::empty(), 1, true)
        } else {
            let (b, c, f) = spec_scan_block(rest.drop_first());
            (
                if t.len() == 0 {
                    b
                } else {
                    seq![rest[0]] + b
                },
                c + 1,
                f,
            )
        }
    }
}

/// The else-branch scan: as the then-branch scan, but only `};` closes it.
pub open spec fn spec_scan_else(rest: Seq<Seq<char>>) -> (Seq<Seq<char>>, int)
    decreases rest.len(),
{
    if rest.len() == 0 {
        (Seq::empty(), 0)
    } else {
        let t = spec_trim(rest[0]);
        if t == "};"@ {
            (Seq::empty(), 1)
        } else {
            let (b, c) = spec_scan_else(rest.drop_first());
            (
                if t.len() == 0 {
                    b
                } else {
                    seq![rest[0]] + b
                },
                c + 1,
            )
        }
    }
}

pub proof fn lemma_scan_block_bounds(rest: Seq<Seq<char>>)
    ensures
        0 <= spec_scan_block(rest).1 <= rest.len(),
        0 <= spec_scan_else(rest).1 <= rest.len(),
    decreases rest.len(),
{
    if rest.len() > 0 {
        lemma_scan_block_bounds(rest.drop_first());
    }
}

/// A multi-line `if` never consumes more lines than it was given.
pub proof fn lemma_parse_if_consumed_bound(if_line: Seq<char>, rest: Seq<Seq<char>>)
    ensures
        spec_parse_if_multiline(if_line, rest) matches Ok((st, c)) ==> 0 <= c <= rest.len(),
{
    lemma_scan_block_bounds(rest);
    let c1 = spec_scan_block(rest).1;
    if 0 <= c1 <= rest.len() {
        lemma_scan_block_bounds(rest.skip(c1));
    }
}

/// Each collected line parsed as a single statement, in order.
pub open spec fn spec_parse_stmt_lines(lines: Seq<Seq<char>>) -> Result<Seq<SpecStmt>, Seq<char>>
    decreases lines.len(),
{
    if lines.len() == 0 {
        Ok(Seq::empty())
    } else {
        match spec_parse_statement(lines[0]) {
            Ok(st) => match spec_parse_stmt_lines(lines.drop_first()) {
                Ok(rest) => Ok(seq![st] + rest),
                Err(m) => Err(m),
            },
            Err(m) => Err(m),
        }
    }
}

/// What a multi-line `if` parses to, given its opening line and the lines
/// after it: the statement, and how many of those lines it consumed.
pub open spec fn spec_parse_if_multiline(if_line: Seq<char>, rest: Seq<Seq<char>>) -> Result<
    (SpecStmt, int),
    Seq<char>,
> {
    let t = spec_trim(if_line);
    if !(spec_occurs_at(t, "if ("@, 0) && spec_find_str(t, ") {"@) is Some) {
        Err("Invalid if statement format"@)
    } else {
        match spec_find_str(t, ") {"@) {
            Some(end) => if 4 <= end <= t.len() {
                match spec_parse_expr_text(t.subrange(4, end)) {
                    Ok(cond) => {
                        let (then_lines, c1, found_else) = spec_scan_block(rest);
                        match spec_parse_stmt_lines(then_lines) {
                            Ok(body) => if !found_else {
                                Ok((SpecStmt::If(cond, body, None), c1))
                            } else {
                                let (else_lines, c2) = spec_scan_else(rest.skip(c1));
                                match spec_parse_stmt_lines(else_lines) {
                                    Ok(eb) => Ok(
                                        (
                                            SpecStmt::If(
                                                cond,
                                                body,
                                                if eb.len() == 0 {
                                                    None
                                                } else {
                                                    Some(eb)
                                                },
                                            ),
                                            c1 + c2,
                                        ),
                                    ),
                                    Err(m) => Err(m),
                                }
                            },
                            Err(m) => Err(m),
                        }
                    },
                    Err(m) => Err(m),
                }
            } else {
                Err("Invalid if statement format"@)
            },
            None => Err("Invalid if statement format"@),
        }
    }
}

/// Parses a type name into a `Type`.
pub fn parse_type(type_str: &str) -> (r: Result<Type, String>)
    ensures
        match spec_parse_type(type_str@) {
            Ok(t) => r matches Ok(rt) && rt == t,
            Err(m) => r matches Err(s) && s@ == m,
        },
{
    if str_eq(type_str, "i32") {
        Ok(Type::Integer32)
    } else if str_eq(type_str, "string") {
        Ok(Type::Text)
    } else if str_eq(type_str, "void") {
        Ok(Type::Void)
    } else {
        let mut m = String::from_str("Unknown type: ");
        m.append(type_str);
        Err(m)
    }
}

/// Parses a comma-separated list of expressions; an empty list is allowed.
pub fn parse_arguments(args_str: &str) -> (r: Result<Vec<Expression>, String>)
    ensures
        match spec_parse_arguments(args_str@) {
            Ok(args) => r matches Ok(v) && exprs_view(v@) == args,
            Err(m) => r matches Err(s) && s@ == m,
        },
{
    let trimmed = trim(args_str);
    if trimmed.unicode_len() == 0 {
        let v: Vec<Expression> = Vec::new();
        proof {
            assert(exprs_view(v@) =~= Seq::<SpecExpr>::empty());
        }
        return Ok(v);
    }
    parse_args_split(args_str)
}

fn parse_args_split(s: &str) -> (r: Result<Vec<Expression>, String>)
    ensures
        match spec_parse_args_split(s@) {
            Ok(args) => r matches Ok(v) && exprs_view(v@) == args,
            Err(m) => r matches Err(st) && st@ == m,
        },
    decreases s@.len(),
{
    let n = s.unicode_len();
    match find_str(s, ",") {
        Some(k) => {
            proof {
                reveal_strlit(",");
                crate::strutil::lemma_find_str_in_bounds(s@, ","@);
                assert(","@.len() == 1);
            }
            let piece = trim(s.substring_char(0, k));
            proof {
                assert(s@.subrange(0, k as int) =~= s@.take(k as int));
            }
            let e = match parse_expression(piece) {
                Ok(e) => e,
                Err(m) => {
                    return Err(m);
                },
            };
            let ghost ev = expr_view(e);
            let rest_str = s.substring_char(k + 1, n);
            proof {
                assert(rest_str@ =~= s@.skip(k + 1 as int));
            }
            match parse_args_split(rest_str) {
                Ok(rest) => {
                    let ghost rest_view = exprs_view(rest@);
                    let mut args: Vec<Expression> = Vec::new();
                    args.push(e);
                    let mut rest_mut = rest;
                    args.append(&mut rest_mut);
                    proof {
                        lemma_exprs_view(args@);
                        lemma_exprs_view(rest@);
                        assert(args@ =~= seq![args@[0]] + rest@);
                        assert forall|j: int|
                            0 <= j < args@.len() implies exprs_view(args@)[j] == (seq![ev]
                            + rest_view)[j] by {
                            if j > 0 {
                                assert(args@[j] == rest@[j - 1]);
                            }
                        }
                        assert(exprs_view(args@) =~= seq![ev] + rest_view);
                    }
                    Ok(args)
                },
                Err(m) => Err(m),
            }
        },
        None => {
            let piece = trim(s);
            match parse_expression(piece) {
                Ok(e) => {
                    let ghost ev = expr_view(e);
                    let mut args: Vec<Expression> = Vec::new();
                    args.push(e);
                    proof {
                        lemma_exprs_view(args@);
                        assert(exprs_view(args@) =~= seq![ev]);
                    }
                    Ok(args)
                },
                Err(m) => Err(m),
            }
        },
    }
}

proof fn lemma_stmts_view_push(ss: Seq<Statement>, x: Statement)
    ensures
        stmts_view(ss.push(x)) == stmts_view(ss) + seq![stmt_view(x)],
{
    lemma_stmts_view(ss);
    lemma_stmts_view(ss.push(x));
    assert forall|j: int| 0 <= j < ss.len() + 1 implies stmts_view(ss.push(x))[j] == (stmts_view(ss)
        + seq![stmt_view(x)])[j] by {
        if j < ss.len() {
            assert(ss.push(x)[j] == ss[j]);
        } else {
            assert(ss.push(x)[j] == x);
        }
    }
    assert(stmts_view(ss.push(x)) =~= stmts_view(ss) + seq![stmt_view(x)]);
}

proof fn lemma_strs_view_push(ss: Seq<&str>, x: &str)
    ensures
        strs_view(ss.push(x)) == strs_view(ss) + seq![x@],
{
    assert(strs_view(ss.push(x)) =~= strs_view(ss) + seq![x@]);
}

/// Parses an already-trimmed `if (cond) {` line into an `If` whose branches
/// the block parser fills in.
fn parse_if_simple_trimmed(t: &str) -> (r: Result<Statement, String>)
    ensures
        match spec_parse_if_simple(t@) {
            Ok(st) => r matches Ok(s) && stmt_view(s) == st,
            Err(m) => r matches Err(s) && s@ == m,
        },
{
    let end = match find_str(t, ") {") {
        Some(e) => e,
        None => {
            return Err(String::from_str("Invalid if statement format"));
        },
    };
    proof {
        reveal_strlit(") {");
        crate::strutil::lemma_find_str_in_bounds(t@, ") {"@);
        assert(") {"@.len() == 3);
    }
    if end < 4 {
        return Err(String::from_str("Invalid if statement format"));
    }
    let cond_str = t.substring_char(4, end);
    match parse_expression(cond_str) {
        Ok(c) => {
            let then_body: Vec<Statement> = Vec::new();
            proof {
                assert(stmts_view(then_body@) =~= Seq::<SpecStmt>::empty());
            }
            Ok(Statement::If { condition: c, then_body, else_body: None })
        },
        Err(m) => Err(m),
    }
}

/// Parses a single statement line into a `Statement` node. An `if (cond) {`
/// line yields an `If` with empty branches, to be filled by the block
/// parser; anything else must end in a semicolon and be a `return`, a
/// declaration, or a call.
pub fn parse_statement(line: &str) -> (r: Result<Statement, String>)
    ensures
        match spec_parse_statement(line@) {
            Ok(st) => r matches Ok(s) && stmt_view(s) == st,
            Err(m) => r matches Err(s) && s@ == m,
        },
{
    let t = trim(line);
    if str_starts_with(t, "if (") && contains_str(t, ") {") {
        return parse_if_simple_trimmed(t);
    }
    let n = t.unicode_len();
    if n == 0 || t.get_char(n - 1) != ';' {
        return Err(String::from_str("Statement must end with a semicolon ';'"));
    }
    let content = t.substring_char(0, n - 1);
    proof {
        assert(content@ =~= t@.drop_last());
    }
    if str_starts_with(content, "return ") {
        proof {
            reveal_strlit("return ");
            assert("return "@.len() == 7);
        }
        let expr_str = trim(content.substring_char(7, n - 1));
        proof {
            assert(content@.subrange(7, content@.len() as int) =~= content@.skip(7));
        }
        return match parse_expression(expr_str) {
            Ok(e) => Ok(Statement::Return { value: e }),
            Err(m) => Err(m),
        };
    }
    let clen = n - 1;
    match find_str(content, "=") {
        Some(k) => {
            proof {
                reveal_strlit("=");
                crate::strutil::lemma_find_str_in_bounds(content@, "="@);
                assert("="@.len() == 1);
            }
            let left_raw = content.substring_char(0, k);
            proof {
                assert(left_raw@ =~= content@.take(k as int));
            }
            let right = trim(content.substring_char(k + 1, clen));
            proof {
                assert(content@.subrange(k + 1 as int, content@.len() as int) =~= content@.skip(
                    k + 1 as int,
                ));
            }
            parse_declaration(left_raw, right)
        },
        None => {
            match find_str(content, "(") {
                Some(k) => {
                    proof {
                        reveal_strlit("(");
                        crate::strutil::lemma_find_str_in_bounds(content@, "("@);
                        assert("("@.len() == 1);
                        assert(content@.subrange(k as int, k as int + 1)[0] == "("@[0]);
                        assert(content@[k as int] == '(');
                    }
                    if clen > 0 && content.get_char(clen - 1) == ')' {
                        proof {
                            assert(k as int != content@.len() - 1);
                        }
                        let name = trim(content.substring_char(0, k));
                        proof {
                            assert(content@.subrange(0, k as int) =~= content@.take(k as int));
                        }
                        let args_str = content.substring_char(k + 1, clen - 1);
                        match parse_arguments(args_str) {
                            Ok(args) => Ok(
                                Statement::FunctionCall { name: String::from_str(name), args },
                            ),
                            Err(m) => Err(m),
                        }
                    } else {
                        Err(String::from_str("Unrecognized statement syntax"))
                    }
                },
                None => Err(String::from_str("Unrecognized statement syntax")),
            }
        },
    }
}

/// Parses the two sides of a declaration's first `=`: the left side must be
/// `name: type`, the right an expression.
fn parse_declaration(left_raw: &str, right: &str) -> (r: Result<Statement, String>)
    ensures
        match spec_parse_declaration(left_raw@, right@) {
            Ok(st) => r matches Ok(s) && stmt_view(s) == st,
            Err(m) => r matches Err(s) && s@ == m,
        },
{
    let left = trim(left_raw);
    let llen = left.unicode_len();
    match find_str(left, ":") {
        Some(c1) => {
            proof {
                reveal_strlit(":");
                crate::strutil::lemma_find_str_in_bounds(left@, ":"@);
                assert(":"@.len() == 1);
            }
            let after = left.substring_char(c1 + 1, llen);
            proof {
                assert(after@ =~= left@.skip(c1 + 1 as int));
            }
            if contains_str(after, ":") {
                Err(String::from_str("Invalid variable declaration syntax"))
            } else {
                let name = trim(left.substring_char(0, c1));
                proof {
                    assert(left@.subrange(0, c1 as int) =~= left@.take(c1 as int));
                }
                let ty_str = trim(after);
                match parse_type(ty_str) {
                    Ok(ty) => match parse_expression(right) {
                        Ok(e) => Ok(
                            Statement::VariableDeclaration {
                                name: String::from_str(name),
                                declared_type: ty,
                                value: e,
                            },
                        ),
                        Err(m) => Err(m),
                    },
                    Err(m) => Err(m),
                }
            }
        },
        None => Err(String::from_str("Invalid variable declaration syntax")),
    }
}

/// Parses a single-line `if (cond) {` opener; the branches are filled in
/// separately by the block parser.
pub fn parse_if_statement_simple(line: &str) -> (r: Result<Statement, String>)
    ensures
        match spec_parse_if_simple(spec_trim(line@)) {
            Ok(st) => r matches Ok(s) && stmt_view(s) == st,
            Err(m) => r matches Err(s) && s@ == m,
        },
{
    let t = trim(line);
    parse_if_simple_trimmed(t)
}

/// Collects the then-branch of a multi-line `if`: the raw non-empty lines
/// before the first `};` or `} else {`, how many lines were consumed, and
/// whether a `} else {` separator was seen.
fn scan_block<'a>(rest: &Vec<&'a str>) -> (r: (Vec<&'a str>, usize, bool))
    ensures
        ({
            let (b, c, f) = spec_scan_block(strs_view(rest@));
            strs_view(r.0@) == b && r.1 as int == c && r.2 == f && r.1 <= rest@.len()
        }),
{
    let ghost rv = strs_view(rest@);
    let n = rest.len();
    let mut body: Vec<&'a str> = Vec::new();
    let mut i: usize = 0;
    proof {
        assert(rv.skip(0) =~= rv);
        assert(strs_view(body@) =~= Seq::<Seq<char>>::empty());
        assert(strs_view(body@) + spec_scan_block(rv).0 =~= spec_scan_block(rv).0);
    }
    while i < n
        invariant
            i <= n,
            n == rest@.len(),
            rv == strs_view(rest@),
            rv.len() == n,
            spec_scan_block(rv).0 == strs_view(body@) + spec_scan_block(rv.skip(i as int)).0,
            spec_scan_block(rv).1 == i + spec_scan_block(rv.skip(i as int)).1,
            spec_scan_block(rv).2 == spec_scan_block(rv.skip(i as int)).2,
        decreases n - i,
    {
        proof {
            assert(rv.skip(i as int)[0] == rv[i as int]);
            assert(rv[i as int] == rest@[i as int]@);
        }
        let lt = trim(rest[i]);
        if str_eq(lt, "};") {
            return (body, i + 1, false);
        }
        if str_eq(lt, "} else {") {
            return (body, i + 1, true);
        }
        let ghost body_prev = body@;
        if lt.unicode_len() > 0 {
            body.push(rest[i]);
            proof {
                lemma_strs_view_push(body_prev, rest@[i as int]);
            }
        }
        proof {
            assert(rv.skip(i as int).drop_first() =~= rv.skip(i as int + 1));
            assert(strs_view(body@) + spec_scan_block(rv.skip(i as int + 1)).0 =~= strs_view(
                body_prev,
            ) + spec_scan_block(rv.skip(i as int)).0);
        }
        i = i + 1;
    }
    proof {
        assert(rv.skip(n as int) =~= Seq::<Seq<char>>::empty());
        assert(strs_view(body@) + Seq::<Seq<char>>::empty() =~= strs_view(body@));
    }
    (body, n, false)
}

/// Collects the else-branch of a multi-line `if`, starting at line `from`:
/// the raw non-empty lines before the closing `};`, and how many lines were
/// consumed.
fn scan_else_from<'a>(rest: &Vec<&'a str>, from: usize) -> (r: (Vec<&'a str>, usize))
    requires
        from <= rest@.len(),
    ensures
        ({
            let (b, c) = spec_scan_else(strs_view(rest@).skip(from as int));
            strs_view(r.0@) == b && r.1 as int == c && r.1 <= rest@.len() - from
        }),
{
    let ghost rv0 = strs_view(rest@).skip(from as int);
    let n = rest.len();
    let mut body: Vec<&'a str> = Vec::new();
    let mut i: usize = from;
    proof {
        assert(rv0.skip(0) =~= rv0);
        assert(strs_view(body@) =~= Seq::<Seq<char>>::empty());
        assert(strs_view(body@) + spec_scan_else(rv0).0 =~= spec_scan_else(rv0).0);
    }
    while i < n
        invariant
            from <= i <= n,
            n == rest@.len(),
            rv0 == strs_view(rest@).skip(from as int),
            rv0.len() == n - from,
            spec_scan_else(rv0).0 == strs_view(body@) + spec_scan_else(
                rv0.skip(i - from),
            ).0,
            spec_scan_else(rv0).1 == i - from + spec_scan_else(rv0.skip(i - from)).1,
        decreases n - i,
    {
        proof {
            assert(rv0.skip(i - from)[0] == rv0[i - from]);
            assert(rv0[i - from] == rest@[i as int]@);
        }
        let lt = trim(rest[i]);
        if str_eq(lt, "};") {
            return (body, i + 1 - from);
        }
        let ghost body_prev = body@;
        if lt.unicode_len() > 0 {
            body.push(rest[i]);
            proof {
                lemma_strs_view_push(body_prev, rest@[i as int]);
            }
        }
        proof {
            assert(rv0.skip(i - from).drop_first() =~= rv0.skip(i + 1 - from));
            assert(strs_view(body@) + spec_scan_else(rv0.skip(i + 1 - from)).0 =~= strs_view(
                body_prev,
            ) + spec_scan_else(rv0.skip(i - from)).0);
        }
        i = i + 1;
    }
    proof {
        assert(rv0.skip(n - from) =~= Seq::<Seq<char>>::empty());
        assert(strs_view(body@) + Seq::<Seq<char>>::empty() =~= strs_view(body@));
    }
    (body, n - from)
}

/// Parses each collected line as one statement, in order.
fn parse_stmt_lines(lines: &Vec<&str>) -> (r: Result<Vec<Statement>, String>)
    ensures
        match spec_parse_stmt_lines(strs_view(lines@)) {
            Ok(sts) => r matches Ok(v) && stmts_view(v@) == sts,
            Err(m) => r matches Err(s) && s@ == m,
        },
{
    let ghost lv = strs_view(lines@);
    let n = lines.len();
    let mut out: Vec<Statement> = Vec::new();
    let mut i: usize = 0;
    proof {
        assert(lv.skip(0) =~= lv);
        assert(stmts_view(out@) =~= Seq::<SpecStmt>::empty());
        assert(match spec_parse_stmt_lines(lv) {
            Ok(rest) => stmts_view(out@) + rest =~= rest,
            Err(_) => true,
        });
    }
    while i < n
        invariant
            i <= n,
            n == lines@.len(),
            lv == strs_view(lines@),
            lv.len() == n,
            spec_parse_stmt_lines(lv) == (match spec_parse_stmt_lines(lv.skip(i as int)) {
                Ok(rest) => Ok::<Seq<SpecStmt>, Seq<char>>(stmts_view(out@) + rest),
                Err(m) => Err(m),
            }),
        decreases n - i,
    {
        proof {
            assert(lv.skip(i as int)[0] == lv[i as int]);
            assert(lv[i as int] == lines@[i as int]@);
        }
        match parse_statement(lines[i]) {
            Ok(st) => {
                let ghost out_prev = out@;
                let ghost sv = stmt_view(st);
                out.push(st);
                proof {
                    lemma_stmts_view_push(out_prev, out@.last());
                    assert(lv.skip(i as int).drop_first() =~= lv.skip(i as int + 1));
                    assert(match spec_parse_stmt_lines(lv.skip(i as int + 1)) {
                        Ok(rest) => stmts_view(out@) + rest =~= stmts_view(out_prev) + (seq![sv]
                            + rest),
                        Err(_) => true,
                    });
                }
                i = i + 1;
            },
            Err(m) => {
                return Err(m);
            },
        }
    }
    proof {
        assert(lv.skip(n as int) =~= Seq::<Seq<char>>::empty());
        assert(match spec_parse_stmt_lines(lv) {
            Ok(rest) => stmts_view(out@) + Seq::<SpecStmt>::empty() =~= stmts_view(out@),
            Err(_) => true,
        });
    }
    Ok(out)
}

/// Parses a multi-line `if`: the condition from the opening line, the
/// then-branch up to `};` or `} else {`, and, after a separator, the
/// else-branch up to its `};`. Returns the statement and how many of the
/// following lines it consumed.
pub fn parse_if_statement_multiline(if_line: &str, remaining_lines: &Vec<&str>) -> (r: Result<
    (Statement, usize),
    String,
>)
    ensures
        match spec_parse_if_multiline(if_line@, strs_view(remaining_lines@)) {
            Ok((st, c)) => r matches Ok((s, rc)) && stmt_view(s) == st && rc as int == c,
            Err(m) => r matches Err(s) && s@ == m,
        },
{
    let ghost rv = strs_view(remaining_lines@);
    let t = trim(if_line);
    if !(str_starts_with(t, "if (") && contains_str(t, ") {")) {
        return Err(String::from_str("Invalid if statement format"));
    }
    let end = match find_str(t, ") {") {
        Some(e) => e,
        None => {
            return Err(String::from_str("Invalid if statement format"));
        },
    };
    proof {
        reveal_strlit(") {");
        reveal_strlit("if (");
        crate::strutil::lemma_find_str_in_bounds(t@, ") {"@);
        assert(") {"@.len() == 3);
        assert("if ("@.len() == 4);
        assert(t@.subrange(end as int, end + 3) == ") {"@);
        assert(t@[end as int] == ") {"@[0]);
        assert(t@.subrange(0, 4) == "if ("@);
        assert(t@[0] == "if ("@[0] && t@[1] == "if ("@[1] && t@[2] == "if ("@[2] && t@[3] == "if ("@[3]);
    }
    if end < 4 {
        proof {
            assert(t@[end as int] == ')');
            assert(false);
        }
        return Err(String::from_str("Invalid if statement format"));
    }
    let cond_str = t.substring_char(4, end);
    let condition = match parse_expression(cond_str) {
        Ok(c) => c,
        Err(m) => {
            return Err(m);
        },
    };
    let (then_lines, c1, found_else) = scan_block(remaining_lines);
    let body = match parse_stmt_lines(&then_lines) {
        Ok(b) => b,
        Err(m) => {
            return Err(m);
        },
    };
    if !found_else {
        Ok((Statement::If { condition, then_body: body, else_body: None }, c1))
    } else {
        let (else_lines, c2) = scan_else_from(remaining_lines, c1);
        let eb = match parse_stmt_lines(&else_lines) {
            Ok(b) => b,
            Err(m) => {
                return Err(m);
            },
        };
        let total_lines = remaining_lines.len();
        proof {
            assert(c1 + c2 <= total_lines);
        }
        let else_body = if eb.len() == 0 {
            None
        } else {
            proof {
                lemma_stmts_view(eb@);
            }
            Some(eb)
        };
        Ok((Statement::If { condition, then_body: body, else_body }, c1 + c2))
    }
}


} // verus!
