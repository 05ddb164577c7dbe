//! Expression parsing: a tokenizer over characters and a
//! precedence-climbing parser over the token stream.
//!
//! The grammar accepts integer literals (with an optional leading minus),
//! quoted string literals whose backslash escapes are kept verbatim,
//! variable references, parenthesized expressions, function calls with
//! comma-separated arguments, and the binary operators `+ - * / > < ==`.
//! Comparison binds loosest, then addition and subtraction, then
//! multiplication and division; operators of equal precedence group to the
//! left.

use vstd::prelude::*;
use vstd::string::{StrSliceExecFns, StringExecFns};
use crate::ast::{BinaryOperator, Expression, SpecExpr, expr_view, exprs_view, lemma_exprs_view};
use crate::strutil::{is_space, is_space_char};

verus! {

/// Ghost mirror of `Token`.
#[verifier::ext_equal]
pub enum SpecToken {
    Int(u32),
    Str(Seq<char>),
    Ident(Seq<char>),
    Op(BinaryOperator),
    LParen,
    RParen,
    Comma,
}

/// One lexical token of the expression grammar.
#[derive(Debug)]
pub enum Token {
    Int(u32),
    Str(String),
    Ident(String),
    Op(BinaryOperator),
    LParen,
    RParen,
    Comma,
}

pub open spec fn token_view(t: Token) -> SpecToken {
    match t {
        Token::Int(v) => SpecToken::Int(v),
        Token::Str(s) => SpecToken::Str(s@),
        Token::Ident(s) => SpecToken::Ident(s@),
        Token::Op(op) => SpecToken::Op(op),
        Token::LParen => SpecToken::LParen,
        Token::RParen => SpecToken::RParen,
        Token::Comma => SpecToken::Comma,
    }
}

pub open spec fn tokens_view(ts: Seq<Token>) -> Seq<SpecToken> {
    ts.map_values(|t: Token| token_view(t))
}

pub open spec fn is_digit_char(c: char) -> bool {
    '0' <= c && c <= '9'
}

pub open spec fn digit_value(c: char) -> nat {
    ((c as int) - ('0' as int)) as nat
}

/// An identifier is a letter or underscore followed by letters, digits and
/// underscores.
pub open spec fn is_ident_start_char(c: char) -> bool {
    ('a' <= c && c <= 'z') || ('A' <= c && c <= 'Z') || c == '_'
}

pub open spec fn is_ident_char(c: char) -> bool {
    is_ident_start_char(c) || is_digit_char(c)
}

/// Length of the longest prefix of digits.
pub open spec fn spec_digit_run(s: Seq<char>) -> int
    decreases s.len(),
{
    if s.len() == 0 || !is_digit_char(s[0]) {
        0
    } else {
        1 + spec_digit_run(s.drop_first())
    }
}

/// Length of the longest prefix of identifier characters.
pub open spec fn spec_ident_run(s: Seq<char>) -> int
    decreases s.len(),
{
    if s.len() == 0 || !is_ident_char(s[0]) {
        0
    } else {
        1 + spec_ident_run(s.drop_first())
    }
}

/// The numeric value of a digit sequence.
pub open spec fn spec_digits_value(ds: Seq<char>) -> nat
    decreases ds.len(),
{
    if ds.len() == 0 {
        0
    } else {
        spec_digits_value(ds.drop_last()) * 10 + digit_value(ds.last())
    }
}

/// Number of characters a string literal's body occupies up to its closing
/// quote, skipping the character after each backslash; `None` when the
/// literal is unterminated.
pub open spec fn spec_string_body_len(s: Seq<char>) -> Option<int>
    decreases s.len(),
{
    if s.len() == 0 {
        None
    } else if s[0] == '"' {
        Some(0)
    } else if s[0] == '\\' {
        if s.len() < 2 {
            None
        } else {
            match spec_string_body_len(s.skip(2)) {
                Some(k) => Some(k + 2),
                None => None,
            }
        }
    } else {
        match spec_string_body_len(s.drop_first()) {
            Some(k) => Some(k + 1),
            None => None,
        }
    }
}

/// The next token of a non-empty input that does not start with whitespace:
/// the token and the number of characters it occupies, or `None` on a
/// character no token starts with, an unterminated string literal, a lone
/// `=`, or an integer literal too large for the grammar.
pub open spec fn spec_next_token(s: Seq<char>) -> Option<(SpecToken, int)> {
    if s.len() == 0 {
        None
    } else {
        let c = s[0];
        if is_digit_char(c) {
            let k = spec_digit_run(s);
            let v = spec_digits_value(s.take(k));
            if v > 0xffff_ffff {
                None
            } else {
                Some((SpecToken::Int(v as u32), k))
            }
        } else if is_ident_start_char(c) {
            let k = spec_ident_run(s);
            Some((SpecToken::Ident(s.take(k)), k))
        } else if c == '"' {
            match spec_string_body_len(s.drop_first()) {
                Some(k) => Some((SpecToken::Str(s.subrange(1, 1 + k)), k + 2)),
                None => None,
            }
        } else if c == '+' {
            Some((SpecToken::Op(BinaryOperator::Add), 1))
        } else if c == '-' {
            Some((SpecToken::Op(BinaryOperator::Subtract), 1))
        } else if c == '*' {
            Some((SpecToken::Op(BinaryOperator::Multiply), 1))
        } else if c == '/' {
            Some((SpecToken::Op(BinaryOperator::Divide), 1))
        } else if c == '>' {
            Some((SpecToken::Op(BinaryOperator::GreaterThan), 1))
        } else if c == '<' {
            Some((SpecToken::Op(BinaryOperator::LessThan), 1))
        } else if c == '=' {
            if s.len() >= 2 && s[1] == '=' {
                Some((SpecToken::Op(BinaryOperator::Equal), 2))
            } else {
                None
            }
        } else if c == '(' {
            Some((SpecToken::LParen, 1))
        } else if c == ')' {
            Some((SpecToken::RParen, 1))
        } else if c == ',' {
            Some((SpecToken::Comma, 1))
        } else {
            None
        }
    }
}

/// The token stream of a text: whitespace separates tokens and is dropped;
/// `None` on any lexical error.
pub open spec fn spec_tokenize(s: Seq<char>) -> Option<Seq<SpecToken>>
    decreases s.len(),
{
    if s.len() == 0 {
        Some(Seq::empty())
    } else if is_space_char(s[0]) {
        spec_tokenize(s.drop_first())
    } else {
        match spec_next_token(s) {
            Some((t, used)) => if 0 < used <= s.len() {
                match spec_tokenize(s.skip(used)) {
                    Some(ts) => Some(seq![t] + ts),
                    None => None,
                }
            } else {
                None
            },
            None => None,
        }
    }
}

/// Binding strength of an operator: comparisons bind loosest, then additive,
/// then multiplicative operators.
pub open spec fn spec_prec(op: BinaryOperator) -> int {
    match op {
        BinaryOperator::GreaterThan => 1,
        BinaryOperator::LessThan => 1,
        BinaryOperator::Equal => 1,
        BinaryOperator::Add => 2,
        BinaryOperator::Subtract => 2,
        BinaryOperator::Multiply => 3,
        BinaryOperator::Divide => 3,
    }
}

/// A primary expression at position `p`: an integer literal with optional
/// leading minus, a string literal, an identifier (a call when followed by a
/// parenthesized argument list, else a variable reference), or a
/// parenthesized expression.
pub open spec fn spec_parse_primary(ts: Seq<SpecToken>, p: int) -> Option<(SpecExpr, int)>
    decreases ts.len() - p, 0int,
{
    if p < 0 || p >= ts.len() {
        None
    } else {
        match ts[p] {
            SpecToken::Int(v) => if v <= 0x7fff_ffff {
                Some((SpecExpr::Int(v as i32), p + 1))
            } else {
                None
            },
            SpecToken::Str(s) => Some((SpecExpr::Str(s), p + 1)),
            SpecToken::Op(BinaryOperator::Subtract) => if p + 1 < ts.len() && (ts[p
                + 1] matches SpecToken::Int(v) && v <= 0x8000_0000) {
                match ts[p + 1] {
                    SpecToken::Int(v) => Some((SpecExpr::Int((-(v as int)) as i32), p + 2)),
                    _ => None,
                }
            } else {
                None
            },
            SpecToken::Ident(name) => if p + 1 < ts.len() && ts[p + 1] is LParen {
                if p + 2 < ts.len() && ts[p + 2] is RParen {
                    Some((SpecExpr::Call(name, Seq::empty()), p + 3))
                } else {
                    match spec_parse_args(ts, p + 2) {
                        Some((args, p3)) => if p + 2 < p3 <= ts.len() && p3 < ts.len() && ts[
                        p3] is RParen {
                            Some((SpecExpr::Call(name, args), p3 + 1))
                        } else {
                            None
                        },
                        None => None,
                    }
                }
            } else {
                Some((SpecExpr::Var(name), p + 1))
            },
            SpecToken::LParen => match spec_parse_expr(ts, p + 1, 0) {
                Some((e, p2)) => if p + 1 < p2 <= ts.len() && p2 < ts.len() && ts[p2] is RParen {
                    Some((e, p2 + 1))
                } else {
                    None
                },
                None => None,
            },
            _ => None,
        }
    }
}

/// An expression at position `p` made of operators of precedence at least
/// `min_prec`: a primary followed by operator-expression pairs grouped by
/// precedence, to the left among equals.
pub open spec fn spec_parse_expr(ts: Seq<SpecToken>, p: int, min_prec: int) -> Option<
    (SpecExpr, int),
>
    decreases ts.len() - p, 2int,
{
    if p < 0 || p > ts.len() {
        None
    } else {
        match spec_parse_primary(ts, p) {
            Some((lhs, p2)) => if p < p2 <= ts.len() {
                spec_parse_more(ts, p2, lhs, min_prec)
            } else {
                None
            },
            None => None,
        }
    }
}

/// Extends `lhs` with operator-expression pairs while the next operator
/// binds at least as strongly as `min_prec`.
pub open spec fn spec_parse_more(ts: Seq<SpecToken>, p: int, lhs: SpecExpr, min_prec: int) -> Option<
    (SpecExpr, int),
>
    decreases ts.len() - p, 1int,
{
    if 0 <= p < ts.len() && (ts[p] matches SpecToken::Op(op) && spec_prec(op) >= min_prec) {
        match ts[p] {
            SpecToken::Op(op) => match spec_parse_expr(ts, p + 1, spec_prec(op) + 1) {
                Some((rhs, p3)) => if p < p3 <= ts.len() {
                    spec_parse_more(
                        ts,
                        p3,
                        SpecExpr::Bin(op, Box::new(lhs), Box::new(rhs)),
                        min_prec,
                    )
                } else {
                    None
                },
                None => None,
            },
            _ => None,
        }
    } else {
        Some((lhs, p))
    }
}

/// A nonempty comma-separated argument list starting at `p`; ends before the
/// first token that does not continue it.
pub open spec fn spec_parse_args(ts: Seq<SpecToken>, p: int) -> Option<(Seq<SpecExpr>, int)>
    decreases ts.len() - p, 3int,
{
    if p < 0 || p > ts.len() {
        None
    } else {
        match spec_parse_expr(ts, p, 0) {
            Some((e, p2)) => if p < p2 <= ts.len() {
                if p2 < ts.len() && ts[p2] is Comma {
                    match spec_parse_args(ts, p2 + 1) {
                        Some((rest, p3)) => Some((seq![e] + rest, p3)),
                        None => None,
                    }
                } else {
                    Some((seq![e], p2))
                }
            } else {
                None
            },
            None => None,
        }
    }
}

/// What a whole text parses to as an expression: its token stream must be
/// nonempty and must be consumed completely by one expression.
pub open spec fn spec_parse_expression(s: Seq<char>) -> Option<SpecExpr> {
    match spec_tokenize(s) {
        Some(ts) => if ts.len() == 0 {
            None
        } else {
            match spec_parse_expr(ts, 0, 0) {
                Some((e, p)) => if p == ts.len() {
                    Some(e)
                } else {
                    None
                },
                None => None,
            }
        },
        None => None,
    }
}

fn is_digit(c: char) -> (r: bool)
    ensures
        r == is_digit_char(c),
{
    '0' <= c && c <= '9'
}

fn is_ident_start(c: char) -> (r: bool)
    ensures
        r == is_ident_start_char(c),
{
    ('a' <= c && c <= 'z') || ('A' <= c && c <= 'Z') || c == '_'
}

fn is_ident(c: char) -> (r: bool)
    ensures
        r == is_ident_char(c),
{
    is_ident_start(c) || is_digit(c)
}

pub proof fn lemma_digit_run_at(s: Seq<char>, k: int)
    requires
        0 <= k <= s.len(),
        forall|j: int| 0 <= j < k ==> is_digit_char(s[j]),
        k == s.len() || !is_digit_char(s[k]),
    ensures
        spec_digit_run(s) == k,
    decreases k,
{
    if k > 0 {
        lemma_digit_run_at(s.drop_first(), k - 1);
    }
}

pub proof fn lemma_ident_run_at(s: Seq<char>, k: int)
    requires
        0 <= k <= s.len(),
        forall|j: int| 0 <= j < k ==> is_ident_char(s[j]),
        k == s.len() || !is_ident_char(s[k]),
    ensures
        spec_ident_run(s) == k,
    decreases k,
{
    if k > 0 {
        lemma_ident_run_at(s.drop_first(), k - 1);
    }
}

proof fn lemma_digits_value_step(ds: Seq<char>, i: int)
    requires
        0 <= i < ds.len(),
    ensures
        spec_digits_value(ds.take(i + 1)) == spec_digits_value(ds.take(i)) * 10 + digit_value(
            ds[i],
        ),
{
    assert(ds.take(i + 1).drop_last() =~= ds.take(i));
    assert(ds.take(i + 1).last() == ds[i]);
}

proof fn lemma_digits_value_mono(ds: Seq<char>, i: int)
    requires
        0 <= i <= ds.len(),
    ensures
        spec_digits_value(ds.take(i)) <= spec_digits_value(ds),
    decreases ds.len() - i,
{
    if i < ds.len() {
        lemma_digits_value_step(ds, i);
        lemma_digits_value_mono(ds, i + 1);
        assert(spec_digits_value(ds.take(i)) <= spec_digits_value(ds.take(i)) * 10 + digit_value(
            ds[i],
        )) by (nonlinear_arith);
    } else {
        assert(ds.take(i) =~= ds);
    }
}

/// Scans the token that starts at `pos`, which must not be whitespace.
fn next_token(s: &str, pos: usize) -> (r: Option<(Token, usize)>)
    requires
        pos < s@.len(),
    ensures
        match spec_next_token(s@.skip(pos as int)) {
            Some((t, used)) => r matches Some((tok, u)) && token_view(tok) == t && u as int == used
                && 0 < used <= s@.len() - pos,
            None => r is None,
        },
{
    let n = s.unicode_len();
    let ghost rest = s@.skip(pos as int);
    let c = s.get_char(pos);
    proof {
        assert(rest[0] == s@[pos as int]);
    }
    if is_digit(c) {
        let mut k: usize = pos;
        let mut acc: u64 = 0;
        let mut too_big = false;
        while k < n && is_digit(s.get_char(k))
            invariant
                pos <= k <= n,
                n == s@.len(),
                rest == s@.skip(pos as int),
                forall|j: int| pos <= j < k ==> is_digit_char(s@[j]),
                !too_big ==> acc == spec_digits_value(rest.take(k - pos)) && acc <= 0xffff_ffff,
                too_big ==> spec_digits_value(rest.take(k - pos)) > 0xffff_ffff,
            decreases n - k,
        {
            let d = (s.get_char(k) as u32) - ('0' as u32);
            proof {
                assert(rest[k - pos] == s@[k as int]);
                assert(rest.take(k - pos + 1).drop_last() =~= rest.take(k - pos));
                assert(rest.take(k - pos + 1).last() == rest[k - pos]);
                if too_big {
                    assert(spec_digits_value(rest.take(k - pos + 1)) == spec_digits_value(
                        rest.take(k - pos),
                    ) * 10 + digit_value(rest[k - pos]));
                    assert(spec_digits_value(rest.take(k - pos)) <= spec_digits_value(
                        rest.take(k - pos),
                    ) * 10 + digit_value(rest[k - pos])) by (nonlinear_arith);
                }
            }
            if !too_big {
                acc = acc * 10 + (d as u64);
                if acc > 0xffff_ffff {
                    too_big = true;
                }
            }
            k = k + 1;
        }
        proof {
            lemma_digit_run_at(rest, k - pos);
            assert(rest.take(k - pos) =~= s@.subrange(pos as int, k as int));
        }
        if too_big {
            None
        } else {
            Some((Token::Int(acc as u32), k - pos))
        }
    } else if is_ident_start(c) {
        let mut k: usize = pos;
        while k < n && is_ident(s.get_char(k))
            invariant
                pos <= k <= n,
                n == s@.len(),
                rest == s@.skip(pos as int),
                forall|j: int| pos <= j < k ==> is_ident_char(s@[j]),
            decreases n - k,
        {
            proof {
                assert(rest[k - pos] == s@[k as int]);
            }
            k = k + 1;
        }
        proof {
            lemma_ident_run_at(rest, k - pos);
            assert(rest.take(k - pos) =~= s@.subrange(pos as int, k as int));
        }
        let name = s.substring_char(pos, k);
        Some((Token::Ident(String::from_str(name)), k - pos))
    } else if c == '"' {
        let mut j: usize = pos + 1;
        proof {
            assert(rest.drop_first() =~= s@.skip(pos + 1 as int));
        }
        loop
            invariant
                pos + 1 <= j <= n,
                n == s@.len(),
                rest == s@.skip(pos as int),
                rest[0] == '"',
                match spec_string_body_len(s@.skip(j as int)) {
                    Some(k) => spec_string_body_len(rest.drop_first()) == Some(k + j - pos - 1),
                    None => spec_string_body_len(rest.drop_first()) == None::<int>,
                },
            decreases n - j,
        {
            proof {
                assert(s@.skip(j as int).len() == n - j);
                if j < n {
                    assert(s@.skip(j as int)[0] == s@[j as int]);
                }
            }
            if j >= n {
                return None;
            }
            let cj = s.get_char(j);
            if cj == '"' {
                let body = s.substring_char(pos + 1, j);
                proof {
                    assert(body@ =~= rest.subrange(1, 1 + (j - pos - 1)));
                    assert(rest.drop_first() =~= s@.skip(pos + 1 as int));
                }
                return Some((Token::Str(String::from_str(body)), j - pos + 1));
            } else if cj == '\\' {
                if j + 1 >= n {
                    proof {
                        assert(s@.skip(j as int).len() < 2);
                    }
                    return None;
                }
                proof {
                    assert(s@.skip(j as int).skip(2) =~= s@.skip(j + 2 as int));
                }
                j = j + 2;
            } else {
                proof {
                    assert(s@.skip(j as int).drop_first() =~= s@.skip(j + 1 as int));
                }
                j = j + 1;
            }
        }
    } else if c == '+' {
        Some((Token::Op(BinaryOperator::Add), 1))
    } else if c == '-' {
        Some((Token::Op(BinaryOperator::Subtract), 1))
    } else if c == '*' {
        Some((Token::Op(BinaryOperator::Multiply), 1))
    } else if c == '/' {
        Some((Token::Op(BinaryOperator::Divide), 1))
    } else if c == '>' {
        Some((Token::Op(BinaryOperator::GreaterThan), 1))
    } else if c == '<' {
        Some((Token::Op(BinaryOperator::LessThan), 1))
    } else if c == '=' {
        proof {
            if pos + 1 < n {
                assert(rest[1] == s@[pos + 1 as int]);
            }
        }
        if pos + 1 < n && s.get_char(pos + 1) == '=' {
            Some((Token::Op(BinaryOperator::Equal), 2))
        } else {
            None
        }
    } else if c == '(' {
        Some((Token::LParen, 1))
    } else if c == ')' {
        Some((Token::RParen, 1))
    } else if c == ',' {
        Some((Token::Comma, 1))
    } else {
        None
    }
}

proof fn lemma_tokens_view_push(ts: Seq<Token>, t: Token)
    ensures
        tokens_view(ts.push(t)) == tokens_view(ts) + seq![token_view(t)],
{
    assert(tokens_view(ts.push(t)) =~= tokens_view(ts) + seq![token_view(t)]);
}

/// The token stream of a text, or `None` on a lexical error.
pub fn tokenize(s: &str) -> (r: Option<Vec<Token>>)
    ensures
        match spec_tokenize(s@) {
            Some(ts) => r matches Some(v) && tokens_view(v@) == ts,
            None => r is None,
        },
{
    let n = s.unicode_len();
    let mut out: Vec<Token> = Vec::new();
    let mut pos: usize = 0;
    proof {
        assert(s@.skip(0) =~= s@);
        assert(tokens_view(out@) =~= Seq::<SpecToken>::empty());
        assert(match spec_tokenize(s@) {
            Some(rest) => tokens_view(out@) + rest =~= rest,
            None => true,
        });
    }
    while pos < n
        invariant
            pos <= n,
            n == s@.len(),
            spec_tokenize(s@) == (match spec_tokenize(s@.skip(pos as int)) {
                Some(rest) => Some(tokens_view(out@) + rest),
                None => None::<Seq<SpecToken>>,
            }),
        decreases n - pos,
    {
        proof {
            assert(s@.skip(pos as int)[0] == s@[pos as int]);
        }
        if is_space(s.get_char(pos)) {
            proof {
                assert(s@.skip(pos as int).drop_first() =~= s@.skip(pos + 1 as int));
            }
            pos = pos + 1;
        } else {
            match next_token(s, pos) {
                Some((tok, used)) => {
                    let ghost out_prev = out@;
                    let ghost tv = token_view(tok);
                    out.push(tok);
                    proof {
                        assert(s@.skip(pos as int).skip(used as int) =~= s@.skip(
                            pos + used as int,
                        ));
                        lemma_tokens_view_push(out_prev, out@.last());
                        assert(tokens_view(out@) =~= tokens_view(out_prev) + seq![tv]);
                        assert(match spec_tokenize(s@.skip(pos + used as int)) {
                            Some(rest) => tokens_view(out@) + rest =~= tokens_view(out_prev) + (
                            seq![tv] + rest),
                            None => true,
                        });
                    }
                    pos = pos + used;
                },
                None => {
                    return None;
                },
            }
        }
    }
    proof {
        assert(s@.skip(n as int) =~= Seq::<char>::empty());
        assert(match spec_tokenize(s@) {
            Some(ts) => tokens_view(out@) + Seq::<SpecToken>::empty() =~= tokens_view(out@),
            None => true,
        });
    }
    Some(out)
}

fn prec(op: BinaryOperator) -> (r: u32)
    ensures
        r as int == spec_prec(op),
{
    match op {
        BinaryOperator::GreaterThan => 1,
        BinaryOperator::LessThan => 1,
        BinaryOperator::Equal => 1,
        BinaryOperator::Add => 2,
        BinaryOperator::Subtract => 2,
        BinaryOperator::Multiply => 3,
        BinaryOperator::Divide => 3,
    }
}

/// A primary expression at `p` in the token stream.
fn parse_primary(ts: &Vec<Token>, p: usize) -> (r: Option<(Expression, usize)>)
    requires
        p <= ts@.len(),
    ensures
        match spec_parse_primary(tokens_view(ts@), p as int) {
            Some((e, p2)) => r matches Some((ex, q)) && expr_view(ex) == e && q as int == p2 && p
                < q <= ts@.len(),
            None => r is None,
        },
    decreases ts@.len() - p, 0int,
{
    let ghost views = tokens_view(ts@);
    if p >= ts.len() {
        return None;
    }
    proof {
        assert(views[p as int] == token_view(ts@[p as int]));
    }
    match &ts[p] {
        Token::Int(v) => {
            if *v <= 0x7fff_ffff {
                Some((Expression::IntegerLiteral(*v as i32), p + 1))
            } else {
                None
            }
        },
        Token::Str(s) => Some((Expression::StringLiteral(s.clone()), p + 1)),
        Token::Op(BinaryOperator::Subtract) => {
            if p + 1 < ts.len() {
                proof {
                    assert(views[p + 1 as int] == token_view(ts@[p + 1 as int]));
                }
                match &ts[p + 1] {
                    Token::Int(v) => {
                        if *v <= 0x8000_0000 {
                            let value: i32 = (-((*v) as i64)) as i32;
                            Some((Expression::IntegerLiteral(value), p + 2))
                        } else {
                            None
                        }
                    },
                    _ => None,
                }
            } else {
                None
            }
        },
        Token::Ident(name) => {
            if p + 1 < ts.len() {
                proof {
                    assert(views[p + 1 as int] == token_view(ts@[p + 1 as int]));
                }
                let next_is_lparen = matches!(&ts[p + 1], Token::LParen);
                if next_is_lparen {
                    if p + 2 < ts.len() {
                        proof {
                            assert(views[p + 2 as int] == token_view(ts@[p + 2 as int]));
                        }
                        if matches!(&ts[p + 2], Token::RParen) {
                            let args: Vec<Expression> = Vec::new();
                            proof {
                                assert(exprs_view(args@) =~= Seq::<SpecExpr>::empty());
                            }
                            return Some(
                                (Expression::FunctionCall { name: name.clone(), args }, p + 3),
                            );
                        }
                    }
                    match parse_args(ts, p + 2) {
                        Some((args, p3)) => {
                            if p3 < ts.len() {
                                proof {
                                    assert(views[p3 as int] == token_view(ts@[p3 as int]));
                                }
                                if matches!(&ts[p3], Token::RParen) {
                                    Some(
                                        (
                                            Expression::FunctionCall { name: name.clone(), args },
                                            p3 + 1,
                                        ),
                                    )
                                } else {
                                    None
                                }
                            } else {
                                None
                            }
                        },
                        None => None,
                    }
                } else {
                    Some((Expression::VariableRef(name.clone()), p + 1))
                }
            } else {
                Some((Expression::VariableRef(name.clone()), p + 1))
            }
        },
        Token::LParen => {
            match parse_expr_at(ts, p + 1, 0) {
                Some((e, p2)) => {
                    if p2 < ts.len() {
                        proof {
                            assert(views[p2 as int] == token_view(ts@[p2 as int]));
                        }
                        if matches!(&ts[p2], Token::RParen) {
                            Some((e, p2 + 1))
                        } else {
                            None
                        }
                    } else {
                        None
                    }
                },
                None => None,
            }
        },
        _ => None,
    }
}

/// An expression at `p` made of operators binding at least as strongly as
/// `min_prec`.
fn parse_expr_at(ts: &Vec<Token>, p: usize, min_prec: u32) -> (r: Option<(Expression, usize)>)
    requires
        p <= ts@.len(),
    ensures
        match spec_parse_expr(tokens_view(ts@), p as int, min_prec as int) {
            Some((e, p2)) => r matches Some((ex, q)) && expr_view(ex) == e && q as int == p2 && p
                < q <= ts@.len(),
            None => r is None,
        },
    decreases ts@.len() - p, 2int,
{
    match parse_primary(ts, p) {
        Some((lhs, p2)) => parse_more(ts, p2, lhs, min_prec),
        None => None,
    }
}

/// Extends `lhs` while the next operator binds at least as strongly as
/// `min_prec`.
fn parse_more(ts: &Vec<Token>, p: usize, lhs: Expression, min_prec: u32) -> (r: Option<
    (Expression, usize),
>)
    requires
        p <= ts@.len(),
    ensures
        match spec_parse_more(tokens_view(ts@), p as int, expr_view(lhs), min_prec as int) {
            Some((e, p2)) => r matches Some((ex, q)) && expr_view(ex) == e && q as int == p2 && p
                <= q <= ts@.len(),
            None => r is None,
        },
    decreases ts@.len() - p, 1int,
{
    let ghost views = tokens_view(ts@);
    if p < ts.len() {
        proof {
            assert(views[p as int] == token_view(ts@[p as int]));
        }
        let op_opt = match &ts[p] {
            Token::Op(op) => Some(*op),
            _ => None,
        };
        match op_opt {
            Some(op) => {
                if prec(op) >= min_prec {
                    match parse_expr_at(ts, p + 1, prec(op) + 1) {
                        Some((rhs, p3)) => parse_more(
                            ts,
                            p3,
                            Expression::BinaryOp {
                                op,
                                left: Box::new(lhs),
                                right: Box::new(rhs),
                            },
                            min_prec,
                        ),
                        None => None,
                    }
                } else {
                    Some((lhs, p))
                }
            },
            None => Some((lhs, p)),
        }
    } else {
        Some((lhs, p))
    }
}

/// A nonempty comma-separated argument list starting at `p`.
fn parse_args(ts: &Vec<Token>, p: usize) -> (r: Option<(Vec<Expression>, usize)>)
    requires
        p <= ts@.len(),
    ensures
        match spec_parse_args(tokens_view(ts@), p as int) {
            Some((args, p2)) => r matches Some((v, q)) && exprs_view(v@) == args && q as int == p2
                && p < q <= ts@.len(),
            None => r is None,
        },
    decreases ts@.len() - p, 3int,
{
    let ghost views = tokens_view(ts@);
    match parse_expr_at(ts, p, 0) {
        Some((e, p2)) => {
            let ghost ev = expr_view(e);
            if p2 < ts.len() {
                proof {
                    assert(views[p2 as int] == token_view(ts@[p2 as int]));
                }
                if matches!(&ts[p2], Token::Comma) {
                    match parse_args(ts, p2 + 1) {
                        Some((rest, p3)) => {
                            let ghost rest_view = exprs_view(rest@);
                            let mut args: Vec<Expression> = Vec::new();
                            args.push(e);
                            let mut rest_mut = rest;
                            args.append(&mut rest_mut);
                            proof {
                                lemma_exprs_view(args@);
                                lemma_exprs_view(rest@);
                                assert(args@ =~= seq![args@[0]] + rest@);
                                assert forall|j: int|
                                    0 <= j < args@.len() implies exprs_view(args@)[j] == (seq![ev]
                                    + rest_view)[j] by {
                                    if j > 0 {
                                        assert(args@[j] == rest@[j - 1]);
                                    }
                                }
                                assert(exprs_view(args@) =~= seq![ev] + rest_view);
                            }
                            Some((args, p3))
                        },
                        None => None,
                    }
                } else {
                    let mut args: Vec<Expression> = Vec::new();
                    args.push(e);
                    proof {
                        lemma_exprs_view(args@);
                        assert(exprs_view(args@) =~= seq![ev]);
                    }
                    Some((args, p2))
                }
            } else {
                let mut args: Vec<Expression> = Vec::new();
                args.push(e);
                proof {
                    lemma_exprs_view(args@);
                    assert(exprs_view(args@) =~= seq![ev]);
                }
                Some((args, p2))
            }
        },
        None => None,
    }
}

/// Parses a text as an expression.
///
/// The text must hold exactly one expression of the grammar: otherwise the
/// parse error names the rejected text.
pub fn parse_expression(expr_str: &str) -> (r: Result<Expression, String>)
    ensures
        match spec_parse_expression(expr_str@) {
            Some(e) => r matches Ok(ex) && expr_view(ex) == e,
            None => r matches Err(m) && m@ == "Unrecognized expression: "@ + expr_str@,
        },
{
    let parsed = match tokenize(expr_str) {
        Some(ts) => {
            if ts.len() == 0 {
                None
            } else {
                match parse_expr_at(&ts, 0, 0) {
                    Some((e, p)) => {
                        if p == ts.len() {
                            Some(e)
                        } else {
                            None
                        }
                    },
                    None => None,
                }
            }
        },
        None => None,
    };
    match parsed {
        Some(e) => Ok(e),
        None => {
            let mut m = String::from_str("Unrecognized expression: ");
            m.append(expr_str);
            Err(m)
        },
    }
}

} // verus!
