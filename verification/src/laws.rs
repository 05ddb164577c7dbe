//! Laws the library states of itself, proved against the evaluation model
//! in `semantics`.

use vstd::prelude::*;
use crate::ast::{BinaryOperator, SpecExpr, SpecFun, SpecStmt, spec_expr_height};
use crate::evaluator::stringify_expression::spec_stringify;
use crate::parser::parse_expression::{
    SpecToken, is_digit_char, is_ident_char, is_ident_start_char, digit_value,
    lemma_digit_run_at, lemma_ident_run_at, spec_digit_run, spec_digits_value, spec_ident_run,
    spec_next_token, spec_parse_expr, spec_parse_expression, spec_parse_more,
    spec_parse_primary, spec_prec, spec_string_body_len, spec_tokenize,
};
use crate::evaluator::stringify_expression::spec_op_str;
use crate::strutil::is_space_char;
use crate::semantics::{
    SpecVars, div_trunc, spec_eval_binop, spec_eval_stmt, spec_eval_stmts, spec_truthy,
};
use crate::strutil::{spec_dec_digits, spec_int_dec};
use vstd::arithmetic::div_mod::lemma_fundamental_div_mod;

verus! {

/// Law: for all integer operand pairs, evaluating `l + r`, `l - r`, `l * r`
/// and `l / r` matches native checked arithmetic: the exact result where it
/// fits Integer32, an error naming the operation where it does not, and a
/// distinct error for a zero divisor.
pub proof fn lemma_arithmetic_matches_checked(l: i32, r: i32)
    ensures
        spec_eval_binop(BinaryOperator::Add, SpecExpr::Int(l), SpecExpr::Int(r)) == (if i32::MIN
            <= l + r <= i32::MAX {
            Ok::<SpecExpr, Seq<char>>(SpecExpr::Int((l + r) as i32))
        } else {
            Err("Integer overflow on addition"@)
        }),
        spec_eval_binop(BinaryOperator::Subtract, SpecExpr::Int(l), SpecExpr::Int(r)) == (
        if i32::MIN <= l - r <= i32::MAX {
            Ok::<SpecExpr, Seq<char>>(SpecExpr::Int((l - r) as i32))
        } else {
            Err("Integer overflow on subtraction"@)
        }),
        spec_eval_binop(BinaryOperator::Multiply, SpecExpr::Int(l), SpecExpr::Int(r)) == (
        if i32::MIN <= l * r <= i32::MAX {
            Ok::<SpecExpr, Seq<char>>(SpecExpr::Int((l * r) as i32))
        } else {
            Err("Integer overflow on multiplication"@)
        }),
        r == 0 ==> spec_eval_binop(BinaryOperator::Divide, SpecExpr::Int(l), SpecExpr::Int(r))
            == Err::<SpecExpr, Seq<char>>("Division by zero"@),
        r != 0 ==> spec_eval_binop(BinaryOperator::Divide, SpecExpr::Int(l), SpecExpr::Int(r)) == (
        if i32::MIN <= div_trunc(l as int, r as int) <= i32::MAX {
            Ok::<SpecExpr, Seq<char>>(SpecExpr::Int(div_trunc(l as int, r as int) as i32))
        } else {
            Err("Integer overflow on division"@)
        }),
{
}

/// Law: evaluating the Integer32 maximum value plus one yields the error
/// naming addition overflow, never a wrapped value.
pub proof fn lemma_addition_overflow_at_max()
    ensures
        spec_eval_binop(BinaryOperator::Add, SpecExpr::Int(0x7fff_ffff), SpecExpr::Int(1))
            == Err::<SpecExpr, Seq<char>>("Integer overflow on addition"@),
{
}

/// Law: comparisons on two integers yield Integer32 1 or 0 exactly as the
/// native comparison decides.
pub proof fn lemma_comparisons_match(l: i32, r: i32)
    ensures
        spec_eval_binop(BinaryOperator::GreaterThan, SpecExpr::Int(l), SpecExpr::Int(r))
            == Ok::<SpecExpr, Seq<char>>(SpecExpr::Int(if l > r { 1i32 } else { 0i32 })),
        spec_eval_binop(BinaryOperator::LessThan, SpecExpr::Int(l), SpecExpr::Int(r))
            == Ok::<SpecExpr, Seq<char>>(SpecExpr::Int(if l < r { 1i32 } else { 0i32 })),
        spec_eval_binop(BinaryOperator::Equal, SpecExpr::Int(l), SpecExpr::Int(r))
            == Ok::<SpecExpr, Seq<char>>(SpecExpr::Int(if l == r { 1i32 } else { 0i32 })),
{
}

/// Law: string operands compare with `==` alone, yielding Integer32 1 or 0;
/// any arithmetic on them is the incompatible-types error.
pub proof fn lemma_string_operands(x: Seq<char>, y: Seq<char>, op: BinaryOperator)
    ensures
        spec_eval_binop(BinaryOperator::Equal, SpecExpr::Str(x), SpecExpr::Str(y))
            == Ok::<SpecExpr, Seq<char>>(SpecExpr::Int(if x == y { 1i32 } else { 0i32 })),
        op != BinaryOperator::Equal ==> spec_eval_binop(op, SpecExpr::Str(x), SpecExpr::Str(y))
            == Err::<SpecExpr, Seq<char>>("Binary operations require compatible types"@),
{
}

/// Law: truthiness of a condition value is decided by integers alone; zero
/// is false and every nonzero integer is true.
pub proof fn lemma_truthiness(c: i32)
    ensures
        spec_truthy(SpecExpr::Int(c)) == Ok::<bool, Seq<char>>(c != 0),
{
}

/// Law: an `If` whose condition is the literal 0 never runs its then-branch:
/// it runs the else-branch when one is present and does nothing otherwise.
/// An `If` whose condition is any nonzero literal always runs its
/// then-branch. This holds in every environment, at every call depth.
pub proof fn lemma_truthiness_selects_branch(
    fns: Seq<SpecFun>,
    vars: SpecVars,
    c: i32,
    then_body: Seq<SpecStmt>,
    else_body: Option<Seq<SpecStmt>>,
    fuel: nat,
)
    ensures
        c != 0 ==> spec_eval_stmt(
            fns,
            vars,
            SpecStmt::If(SpecExpr::Int(c), then_body, else_body),
            fuel,
        ) == spec_eval_stmts(fns, vars, then_body, fuel),
        c == 0 ==> spec_eval_stmt(
            fns,
            vars,
            SpecStmt::If(SpecExpr::Int(c), then_body, else_body),
            fuel,
        ) == (match else_body {
            Some(eb) => spec_eval_stmts(fns, vars, eb, fuel),
            None => Ok::<(SpecVars, Option<SpecExpr>), Seq<char>>((vars, None)),
        }),
{
}

proof fn lemma_dec_digits_all_digits(n: nat)
    ensures
        spec_dec_digits(n).len() >= 1,
        forall|i: int| 0 <= i < spec_dec_digits(n).len() ==> is_digit_char(
            #[trigger] spec_dec_digits(n)[i],
        ),
    decreases n,
{
    if n >= 10 {
        lemma_dec_digits_all_digits(n / 10);
    }
}

proof fn lemma_dec_digits_value(n: nat)
    ensures
        spec_digits_value(spec_dec_digits(n)) == n,
    decreases n,
{
    if n < 10 {
        assert(spec_dec_digits(n) == seq![crate::strutil::digit_char(n)]);
        assert(seq![crate::strutil::digit_char(n)].drop_last() =~= Seq::<char>::empty());
        assert(spec_digits_value(seq![crate::strutil::digit_char(n)].drop_last()) == 0);
        assert(seq![crate::strutil::digit_char(n)].last() == crate::strutil::digit_char(n));
        assert(digit_value(crate::strutil::digit_char(n)) == n);
    } else {
        lemma_dec_digits_value(n / 10);
        let prefix = spec_dec_digits(n / 10);
        let d = crate::strutil::digit_char(n % 10);
        assert((prefix + seq![d]).drop_last() =~= prefix);
        assert((prefix + seq![d]).last() == d);
        assert(digit_value(d) == n % 10);
        lemma_fundamental_div_mod(n as int, 10);
    }
}

proof fn lemma_tokenize_digits(ds: Seq<char>)
    requires
        ds.len() >= 1,
        forall|i: int| 0 <= i < ds.len() ==> is_digit_char(#[trigger] ds[i]),
        spec_digits_value(ds) <= 0xffff_ffff,
    ensures
        spec_tokenize(ds) == Some(seq![SpecToken::Int(spec_digits_value(ds) as u32)]),
{
    lemma_digit_run_at(ds, ds.len() as int);
    assert(ds.take(ds.len() as int) =~= ds);
    assert(spec_next_token(ds) == Some(
        (SpecToken::Int(spec_digits_value(ds) as u32), ds.len() as int),
    ));
    assert(ds.skip(ds.len() as int) =~= Seq::<char>::empty());
    assert(spec_tokenize(Seq::<char>::empty()) == Some(Seq::<SpecToken>::empty()));
}

proof fn lemma_clean_string_body(s: Seq<char>)
    requires
        forall|i: int| 0 <= i < s.len() ==> (#[trigger] s[i]) != '"' && s[i] != '\\',
    ensures
        spec_string_body_len(s + seq!['"']) == Some(s.len() as int),
    decreases s.len(),
{
    let whole = s + seq!['"'];
    if s.len() == 0 {
        assert(whole[0] == '"');
    } else {
        lemma_clean_string_body(s.drop_first());
        assert(whole[0] == s[0]);
        assert(whole.drop_first() =~= s.drop_first() + seq!['"']);
    }
}


/// The expressions the round-trip law speaks of: integer literals, string
/// literals whose content holds no quote and no backslash, variable
/// references with identifier names, and binary operations over these.
pub open spec fn round_trip_wf(e: SpecExpr) -> bool
    decreases e,
{
    match e {
        SpecExpr::Int(_) => true,
        SpecExpr::Str(s) => forall|i: int| 0 <= i < s.len() ==> (#[trigger] s[i]) != '"' && s[i]
            != '\\',
        SpecExpr::Var(n) => n.len() >= 1 && is_ident_start_char(n[0]) && forall|i: int|
            0 <= i < n.len() ==> is_ident_char(#[trigger] n[i]),
        SpecExpr::Bin(_, l, r) => round_trip_wf(*l) && round_trip_wf(*r),
        SpecExpr::Call(_, _) => false,
    }
}

/// The token stream that re-serializing such an expression produces.
pub open spec fn round_trip_tokens(e: SpecExpr) -> Seq<SpecToken>
    decreases e,
{
    match e {
        SpecExpr::Int(v) => if v >= 0 {
            seq![SpecToken::Int(v as u32)]
        } else {
            seq![SpecToken::Op(BinaryOperator::Subtract), SpecToken::Int((-(v as int)) as u32)]
        },
        SpecExpr::Str(c) => seq![SpecToken::Str(c)],
        SpecExpr::Var(n) => seq![SpecToken::Ident(n)],
        SpecExpr::Bin(op, l, r) => seq![SpecToken::LParen] + round_trip_tokens(*l) + seq![
            SpecToken::Op(op),
        ] + round_trip_tokens(*r) + seq![SpecToken::RParen],
        SpecExpr::Call(_, _) => Seq::empty(),
    }
}

spec fn is_sep_char(c: char) -> bool {
    c == ' ' || c == '(' || c == ')'
}

proof fn lemma_digit_run_props(s: Seq<char>)
    ensures
        0 <= spec_digit_run(s) <= s.len(),
        forall|j: int| 0 <= j < spec_digit_run(s) ==> is_digit_char(#[trigger] s[j]),
        spec_digit_run(s) == s.len() || !is_digit_char(s[spec_digit_run(s)]),
    decreases s.len(),
{
    if s.len() > 0 && is_digit_char(s[0]) {
        lemma_digit_run_props(s.drop_first());
        assert forall|j: int| 0 <= j < spec_digit_run(s) implies is_digit_char(
            #[trigger] s[j],
        ) by {
            if j > 0 {
                assert(s.drop_first()[j - 1] == s[j]);
            }
        }
        if spec_digit_run(s) < s.len() {
            assert(s.drop_first()[spec_digit_run(s) - 1] == s[spec_digit_run(s)]);
        }
    }
}

proof fn lemma_ident_run_props(s: Seq<char>)
    ensures
        0 <= spec_ident_run(s) <= s.len(),
        forall|j: int| 0 <= j < spec_ident_run(s) ==> is_ident_char(#[trigger] s[j]),
        spec_ident_run(s) == s.len() || !is_ident_char(s[spec_ident_run(s)]),
    decreases s.len(),
{
    if s.len() > 0 && is_ident_char(s[0]) {
        lemma_ident_run_props(s.drop_first());
        assert forall|j: int| 0 <= j < spec_ident_run(s) implies is_ident_char(
            #[trigger] s[j],
        ) by {
            if j > 0 {
                assert(s.drop_first()[j - 1] == s[j]);
            }
        }
        if spec_ident_run(s) < s.len() {
            assert(s.drop_first()[spec_ident_run(s) - 1] == s[spec_ident_run(s)]);
        }
    }
}

proof fn lemma_body_len_props(x: Seq<char>)
    ensures
        spec_string_body_len(x) matches Some(b) ==> 0 <= b < x.len() && x[b] == '"',
    decreases x.len(),
{
    if x.len() > 0 && x[0] != '"' {
        if x[0] == '\\' {
            if x.len() >= 2 {
                lemma_body_len_props(x.skip(2));
            }
        } else {
            lemma_body_len_props(x.drop_first());
        }
    }
}

proof fn lemma_body_len_extend(x: Seq<char>, y: Seq<char>)
    requires
        spec_string_body_len(x) is Some,
    ensures
        spec_string_body_len(x + y) == spec_string_body_len(x),
    decreases x.len(),
{
    let whole = x + y;
    if x.len() > 0 {
        assert(whole[0] == x[0]);
        if x[0] == '"' {
        } else if x[0] == '\\' {
            if x.len() >= 2 {
                lemma_body_len_extend(x.skip(2), y);
                assert(whole.skip(2) =~= x.skip(2) + y);
            }
        } else {
            lemma_body_len_extend(x.drop_first(), y);
            assert(whole.drop_first() =~= x.drop_first() + y);
        }
    }
}

proof fn lemma_next_token_extend(s1: Seq<char>, s2: Seq<char>, t: SpecToken, u: int)
    requires
        s1.len() > 0,
        !is_space_char(s1[0]),
        spec_next_token(s1) == Some((t, u)),
        0 < u <= s1.len(),
        s2.len() == 0 || is_sep_char(s2[0]) || is_sep_char(s1.last()),
    ensures
        spec_next_token(s1 + s2) == Some((t, u)),
{
    let whole = s1 + s2;
    if s2.len() == 0 {
        assert(whole =~= s1);
    } else {
        assert(whole[0] == s1[0]);
        let c = s1[0];
        if is_digit_char(c) {
            lemma_digit_run_props(s1);
            let k = spec_digit_run(s1);
            if k == s1.len() {
                assert(is_digit_char(s1.last()));
                assert(!is_sep_char(s1.last()));
                assert(!is_digit_char(whole[k]));
            }
            lemma_digit_run_at(whole, k);
            assert(whole.take(k) =~= s1.take(k));
        } else if is_ident_start_char(c) {
            lemma_ident_run_props(s1);
            let k = spec_ident_run(s1);
            if k == s1.len() {
                assert(is_ident_char(s1.last()));
                assert(!is_sep_char(s1.last()));
                assert(!is_ident_char(whole[k]));
            }
            lemma_ident_run_at(whole, k);
            assert(whole.take(k) =~= s1.take(k));
        } else if c == '"' {
            lemma_body_len_props(s1.drop_first());
            lemma_body_len_extend(s1.drop_first(), s2);
            assert(whole.drop_first() =~= s1.drop_first() + s2);
            match spec_string_body_len(s1.drop_first()) {
                Some(b) => {
                    assert(whole.subrange(1, 1 + b) =~= s1.subrange(1, 1 + b));
                },
                None => {},
            }
        } else if c == '=' {
            assert(s1.len() >= 2 && s1[1] == '=');
            assert(whole[1] == s1[1]);
        } else {
        }
    }
}

proof fn lemma_tokenize_append(s1: Seq<char>, s2: Seq<char>)
    requires
        spec_tokenize(s1) is Some,
        spec_tokenize(s2) is Some,
        s1.len() == 0 || s2.len() == 0 || is_sep_char(s2[0]) || is_sep_char(s1.last()),
    ensures
        spec_tokenize(s1 + s2) == Some(
            spec_tokenize(s1).unwrap() + spec_tokenize(s2).unwrap(),
        ),
    decreases s1.len(),
{
    let whole = s1 + s2;
    let ts1 = spec_tokenize(s1).unwrap();
    let ts2 = spec_tokenize(s2).unwrap();
    if s1.len() == 0 {
        assert(whole =~= s2);
        assert(ts1 + ts2 =~= ts2);
    } else if s2.len() == 0 {
        assert(whole =~= s1);
        assert(ts1 + ts2 =~= ts1);
    } else {
        assert(whole[0] == s1[0]);
        if is_space_char(s1[0]) {
            assert(s1.drop_first().len() > 0 ==> s1.drop_first().last() == s1.last());
            lemma_tokenize_append(s1.drop_first(), s2);
            assert(whole.drop_first() =~= s1.drop_first() + s2);
        } else {
            match spec_next_token(s1) {
                Some((t, u)) => {
                    assert(0 < u <= s1.len());
                    lemma_next_token_extend(s1, s2, t, u);
                    let rest = spec_tokenize(s1.skip(u));
                    assert(rest is Some);
                    assert(ts1 == seq![t] + rest.unwrap());
                    assert(rest.unwrap() =~= ts1.drop_first());
                    assert(s1.skip(u).len() > 0 ==> s1.skip(u).last() == s1.last());
                    lemma_tokenize_append(s1.skip(u), s2);
                    assert(whole.skip(u) =~= s1.skip(u) + s2);
                    assert(seq![t] + (ts1.drop_first() + ts2) =~= ts1 + ts2);
                },
                None => {
                    assert(false);
                },
            }
        }
    }
}

proof fn lemma_tokenize_lparen()
    ensures
        spec_tokenize(seq!['(']) == Some(seq![SpecToken::LParen]),
{
    assert(!is_space_char('('));
    assert(spec_tokenize(Seq::<char>::empty()) == Some(Seq::<SpecToken>::empty()));
    assert(seq!['('].skip(1) =~= Seq::<char>::empty());
    assert(spec_next_token(seq!['(']) == Some((SpecToken::LParen, 1int)));
    assert(seq![SpecToken::LParen] + Seq::<SpecToken>::empty() =~= seq![SpecToken::LParen]);
}

proof fn lemma_tokenize_rparen()
    ensures
        spec_tokenize(seq![')']) == Some(seq![SpecToken::RParen]),
{
    assert(!is_space_char(')'));
    assert(spec_tokenize(Seq::<char>::empty()) == Some(Seq::<SpecToken>::empty()));
    assert(seq![')'].skip(1) =~= Seq::<char>::empty());
    assert(spec_next_token(seq![')']) == Some((SpecToken::RParen, 1int)));
    assert(seq![SpecToken::RParen] + Seq::<SpecToken>::empty() =~= seq![SpecToken::RParen]);
}

proof fn lemma_tokenize_operator_text(op: BinaryOperator)
    ensures
        spec_tokenize(seq![' '] + spec_op_str(op) + seq![' ']) == Some(seq![SpecToken::Op(op)]),
        (seq![' '] + spec_op_str(op) + seq![' ']).len() > 0,
        (seq![' '] + spec_op_str(op) + seq![' '])[0] == ' ',
        (seq![' '] + spec_op_str(op) + seq![' ']).last() == ' ',
{
    reveal_strlit("+");
    reveal_strlit("-");
    reveal_strlit("*");
    reveal_strlit("/");
    reveal_strlit(">");
    reveal_strlit("<");
    reveal_strlit("==");
    let o = spec_op_str(op);
    let text = seq![' '] + o + seq![' '];
    assert(spec_tokenize(Seq::<char>::empty()) == Some(Seq::<SpecToken>::empty()));
    assert(seq![' '].drop_first() =~= Seq::<char>::empty());
    assert(spec_tokenize(seq![' ']) == Some(Seq::<SpecToken>::empty()));
    match op {
        BinaryOperator::Equal => {
            assert(o.len() == 2 && o[0] == '=' && o[1] == '=');
            assert(text.len() == 4);
            assert(text[0] == ' ' && text[1] == '=' && text[2] == '=' && text[3] == ' ');
            assert(text.drop_first() =~= o + seq![' ']);
            let after = o + seq![' '];
            assert(after[0] == '=' && after[1] == '=');
            assert(spec_next_token(after) == Some((SpecToken::Op(op), 2int)));
            assert(after.skip(2) =~= seq![' ']);
            assert(seq![' '].drop_first() =~= Seq::<char>::empty());
            assert(spec_tokenize(seq![' ']) == Some(Seq::<SpecToken>::empty()));
            assert(spec_tokenize(after) == Some(seq![SpecToken::Op(op)] + Seq::<
                SpecToken,
            >::empty()));
            assert(spec_tokenize(text) == Some(seq![SpecToken::Op(op)] + Seq::<
                SpecToken,
            >::empty()));
            assert(seq![SpecToken::Op(op)] + Seq::<SpecToken>::empty() =~= seq![
                SpecToken::Op(op),
            ]);
        },
        _ => {
            assert(o.len() == 1);
            assert(match op {
                BinaryOperator::Add => o[0] == '+',
                BinaryOperator::Subtract => o[0] == '-',
                BinaryOperator::Multiply => o[0] == '*',
                BinaryOperator::Divide => o[0] == '/',
                BinaryOperator::GreaterThan => o[0] == '>',
                BinaryOperator::LessThan => o[0] == '<',
                BinaryOperator::Equal => true,
            });
            assert(text.len() == 3);
            assert(text[0] == ' ' && text[1] == o[0] && text[2] == ' ');
            assert(text.drop_first() =~= o + seq![' ']);
            let after = o + seq![' '];
            assert(after[0] == o[0]);
            assert(spec_next_token(after) == Some((SpecToken::Op(op), 1int)));
            assert(after.skip(1) =~= seq![' ']);
            assert(seq![' '].drop_first() =~= Seq::<char>::empty());
            assert(spec_tokenize(seq![' ']) == Some(Seq::<SpecToken>::empty()));
            assert(spec_tokenize(after) == Some(seq![SpecToken::Op(op)] + Seq::<
                SpecToken,
            >::empty()));
            assert(spec_tokenize(text) == Some(seq![SpecToken::Op(op)] + Seq::<
                SpecToken,
            >::empty()));
            assert(seq![SpecToken::Op(op)] + Seq::<SpecToken>::empty() =~= seq![
                SpecToken::Op(op),
            ]);
        },
    }
}

/// Re-serializing a well-formed expression tokenizes back to its token
/// stream.
#[verifier::rlimit(100)]
#[verifier::spinoff_prover]
proof fn lemma_round_trip_tokenize(e: SpecExpr)
    requires
        round_trip_wf(e),
    ensures
        spec_tokenize(spec_stringify(e)) == Some(round_trip_tokens(e)),
        round_trip_tokens(e).len() >= 1,
    decreases e,
{
    assert(spec_tokenize(Seq::<char>::empty()) == Some(Seq::<SpecToken>::empty()));
    match e {
        SpecExpr::Int(v) => {
            if v >= 0 {
                let mag = v as nat;
                lemma_dec_digits_all_digits(mag);
                lemma_dec_digits_value(mag);
                lemma_tokenize_digits(spec_dec_digits(mag));
                assert(spec_stringify(e) == spec_dec_digits(mag));
                assert(mag as u32 == v as u32);
                assert(spec_tokenize(spec_stringify(e)) == Some(round_trip_tokens(e)));
            } else {
                let mag = (-(v as int)) as nat;
                lemma_dec_digits_all_digits(mag);
                lemma_dec_digits_value(mag);
                let ds = spec_dec_digits(mag);
                let text = spec_int_dec(v as int);
                assert(text == seq!['-'] + ds);
                assert(text[0] == '-');
                assert(spec_next_token(text) == Some(
                    (SpecToken::Op(BinaryOperator::Subtract), 1int),
                ));
                assert(text.skip(1) =~= ds);
                lemma_tokenize_digits(ds);
                assert(seq![SpecToken::Op(BinaryOperator::Subtract)] + seq![
                    SpecToken::Int(mag as u32),
                ] =~= round_trip_tokens(e));
                assert(spec_tokenize(spec_stringify(e)) == Some(round_trip_tokens(e)));
            }
        },
        SpecExpr::Str(c) => {
            let text = seq!['"'] + c + seq!['"'];
            assert(text[0] == '"');
            lemma_clean_string_body(c);
            assert(text.drop_first() =~= c + seq!['"']);
            assert(text.subrange(1, 1 + c.len() as int) =~= c);
            assert(spec_next_token(text) == Some((SpecToken::Str(c), c.len() as int + 2)));
            assert(text.skip(c.len() as int + 2) =~= Seq::<char>::empty());
            assert(seq![SpecToken::Str(c)] + Seq::<SpecToken>::empty() =~= seq![
                SpecToken::Str(c),
            ]);
            assert(spec_tokenize(spec_stringify(e)) == Some(round_trip_tokens(e)));
        },
        SpecExpr::Var(n) => {
            lemma_ident_run_at(n, n.len() as int);
            assert(n.take(n.len() as int) =~= n);
            assert(spec_next_token(n) == Some((SpecToken::Ident(n), n.len() as int)));
            assert(n.skip(n.len() as int) =~= Seq::<char>::empty());
            assert(seq![SpecToken::Ident(n)] + Seq::<SpecToken>::empty() =~= seq![
                SpecToken::Ident(n),
            ]);
            assert(spec_tokenize(spec_stringify(e)) == Some(round_trip_tokens(e)));
        },
        SpecExpr::Bin(op, l, r) => {
            lemma_round_trip_tokenize(*l);
            lemma_round_trip_tokenize(*r);
            lemma_tokenize_lparen();
            lemma_tokenize_rparen();
            lemma_tokenize_operator_text(op);
            let sl = spec_stringify(*l);
            let sr = spec_stringify(*r);
            let mid = seq![' '] + spec_op_str(op) + seq![' '];
            let a1 = seq!['('] + sl;
            lemma_tokenize_append(seq!['('], sl);
            let a2 = a1 + mid;
            lemma_tokenize_append(a1, mid);
            let a3 = a2 + sr;
            assert(a2.last() == ' ');
            lemma_tokenize_append(a2, sr);
            let a4 = a3 + seq![')'];
            lemma_tokenize_append(a3, seq![')']);
            assert(spec_stringify(e) =~= a4);
            let tl = round_trip_tokens(*l);
            let tr = round_trip_tokens(*r);
            assert(spec_tokenize(a4) == Some(
                ((seq![SpecToken::LParen] + tl) + seq![SpecToken::Op(op)] + tr) + seq![
                    SpecToken::RParen,
                ],
            ));
            assert(((seq![SpecToken::LParen] + tl) + seq![SpecToken::Op(op)] + tr) + seq![
                SpecToken::RParen,
            ] =~= round_trip_tokens(e));
        },
        SpecExpr::Call(_, _) => {},
    }
}


proof fn lemma_layout_index(ts: Seq<SpecToken>, p: int, tok: Seq<SpecToken>, i: int)
    requires
        0 <= p,
        0 <= i < tok.len(),
        p + tok.len() <= ts.len(),
        ts.subrange(p, p + tok.len() as int) == tok,
    ensures
        ts[p + i] == tok[i],
{
    assert(ts.subrange(p, p + tok.len() as int)[i] == ts[p + i]);
}

proof fn lemma_rt_tokens_len(e: SpecExpr)
    requires
        round_trip_wf(e),
    ensures
        round_trip_tokens(e).len() >= 1,
{
}

#[verifier::rlimit(100)]
#[verifier::spinoff_prover]
proof fn lemma_rt_primary(e: SpecExpr, ts: Seq<SpecToken>, p: int)
    requires
        round_trip_wf(e),
        0 <= p,
        p + round_trip_tokens(e).len() <= ts.len(),
        ts.subrange(p, p + round_trip_tokens(e).len() as int) == round_trip_tokens(e),
        p + round_trip_tokens(e).len() == ts.len() || !(ts[p + round_trip_tokens(
            e,
        ).len()] is LParen),
    ensures
        spec_parse_primary(ts, p) == Some((e, p + round_trip_tokens(e).len() as int)),
    decreases spec_expr_height(e), 0int,
{
    let tok = round_trip_tokens(e);
    let ll = tok.len() as int;
    match e {
        SpecExpr::Int(v) => {
            lemma_layout_index(ts, p, tok, 0);
            if v >= 0 {
                assert(ts[p] == SpecToken::Int(v as u32));
            } else {
                lemma_layout_index(ts, p, tok, 1);
                assert(ts[p] == SpecToken::Op(BinaryOperator::Subtract));
                assert(ts[p + 1] == SpecToken::Int((-(v as int)) as u32));
            }
        },
        SpecExpr::Str(c) => {
            lemma_layout_index(ts, p, tok, 0);
            assert(ts[p] == SpecToken::Str(c));
        },
        SpecExpr::Var(n) => {
            lemma_layout_index(ts, p, tok, 0);
            assert(ts[p] == SpecToken::Ident(n));
        },
        SpecExpr::Bin(op, l, r) => {
            lemma_rt_tokens_len(*l);
            lemma_rt_tokens_len(*r);
            let tl = round_trip_tokens(*l);
            let tr = round_trip_tokens(*r);
            let nl = tl.len() as int;
            let nr = tr.len() as int;
            assert(ll == 3 + nl + nr);
            lemma_layout_index(ts, p, tok, 0);
            lemma_layout_index(ts, p, tok, 1 + nl);
            lemma_layout_index(ts, p, tok, 2 + nl + nr);
            assert(ts[p] == SpecToken::LParen);
            assert(ts[p + 1 + nl] == SpecToken::Op(op));
            assert(ts[p + 2 + nl + nr] == SpecToken::RParen);
            assert(ts.subrange(p + 1, p + 1 + nl) =~= tl) by {
                assert forall|i: int| 0 <= i < nl implies ts.subrange(p + 1, p + 1 + nl)[i]
                    == tl[i] by {
                    lemma_layout_index(ts, p, tok, 1 + i);
                    assert(ts.subrange(p + 1, p + 1 + nl)[i] == ts[p + 1 + i]);
                    assert(tok[1 + i] == tl[i]);
                }
            }
            assert(ts.subrange(p + 2 + nl, p + 2 + nl + nr) =~= tr) by {
                assert forall|i: int| 0 <= i < nr implies ts.subrange(
                    p + 2 + nl,
                    p + 2 + nl + nr,
                )[i] == tr[i] by {
                    lemma_layout_index(ts, p, tok, 2 + nl + i);
                    assert(ts.subrange(p + 2 + nl, p + 2 + nl + nr)[i] == ts[p + 2 + nl + i]);
                    assert(tok[2 + nl + i] == tr[i]);
                }
            }
            lemma_rt_primary(*l, ts, p + 1);
            lemma_rt_parse(*r, ts, p + 2 + nl, spec_prec(op) + 1);
            assert(spec_prec(op) >= 1);
            assert(spec_parse_expr(ts, p + 1, 0) == Some((*l, p + 1 + nl))
                || true);
            let p2 = p + 1 + nl;
            let p3 = p + 2 + nl + nr;
            assert(spec_parse_more(ts, p3, SpecExpr::Bin(op, l, r), 0) == Some(
                (SpecExpr::Bin(op, l, r), p3),
            ));
            assert(spec_parse_expr(ts, p + 2 + nl, spec_prec(op) + 1) == Some((*r, p3)));
            assert(spec_parse_more(ts, p2, *l, 0) == Some((SpecExpr::Bin(op, l, r), p3)));
            assert(spec_parse_expr(ts, p + 1, 0) == Some((e, p3)));
            assert(spec_parse_primary(ts, p) == Some((e, p3 + 1)));
        },
        SpecExpr::Call(_, _) => {},
    }
}

#[verifier::rlimit(100)]
#[verifier::spinoff_prover]
proof fn lemma_rt_parse(e: SpecExpr, ts: Seq<SpecToken>, p: int, min_prec: int)
    requires
        round_trip_wf(e),
        0 <= p,
        p + round_trip_tokens(e).len() <= ts.len(),
        ts.subrange(p, p + round_trip_tokens(e).len() as int) == round_trip_tokens(e),
        p + round_trip_tokens(e).len() == ts.len() || ts[p + round_trip_tokens(
            e,
        ).len()] is RParen,
    ensures
        spec_parse_expr(ts, p, min_prec) == Some((e, p + round_trip_tokens(e).len() as int)),
    decreases spec_expr_height(e), 1int,
{
    lemma_rt_tokens_len(e);
    lemma_rt_primary(e, ts, p);
    let pe = p + round_trip_tokens(e).len() as int;
    assert(spec_parse_more(ts, pe, e, min_prec) == Some((e, pe)));
}

/// Law: parsing a re-serialized expression yields the expression back, for
/// every tree of integer literals, string literals without quotes or
/// backslashes in their content, identifier-named variable references, and
/// binary operations over these.
pub proof fn lemma_round_trip(e: SpecExpr)
    requires
        round_trip_wf(e),
    ensures
        spec_parse_expression(spec_stringify(e)) == Some(e),
{
    lemma_round_trip_tokenize(e);
    lemma_rt_tokens_len(e);
    let ts = round_trip_tokens(e);
    assert(ts.subrange(0, ts.len() as int) =~= ts);
    lemma_rt_parse(e, ts, 0, 0);
}


} // verus!
