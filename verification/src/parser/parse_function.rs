//! Function parsing: the signature line `name: function(params) -> type {`,
//! an integrated body walker that hands multi-line `if` blocks to the block
//! parser, and the closing `};` line.

use vstd::prelude::*;
use vstd::string::{StrSliceExecFns, StringExecFns};
use crate::ast::{
    Function, Parameter, SpecFun, SpecStmt, Statement, Type, fun_view, params_view, stmt_view,
    stmts_view,
};
use crate::parser::parse_statement::{
    lemma_parse_if_consumed_bound, parse_if_statement_multiline, parse_statement, parse_type,
    spec_parse_if_multiline, spec_parse_statement, spec_parse_type,
};
use crate::strutil::{
    contains_str, find_str, spec_find_str, spec_occurs_at, spec_trim, spec_trim_end,
    spec_trim_start, str_eq, str_starts_with, strs_view, trim,
};

verus! {

/// What one `name: type` parameter text parses to.
pub open spec fn spec_parse_param(piece: Seq<char>) -> Result<(Seq<char>, Type), Seq<char>> {
    let param = spec_trim(piece);
    match spec_find_str(param, ":"@) {
        Some(c) => if 0 <= c < param.len() && !(spec_find_str(param.skip(c + 1), ":"@) is Some) {
            match spec_parse_type(spec_trim(param.skip(c + 1))) {
                Ok(ty) => Ok((spec_trim(param.take(c)), ty)),
                Err(m) => Err(m),
            }
        } else {
            Err("Invalid parameter syntax: '"@ + param + "'"@)
        },
        None => Err("Invalid parameter syntax: '"@ + param + "'"@),
    }
}

/// What a nonempty comma-separated parameter list parses to.
pub open spec fn spec_parse_params(s: Seq<char>) -> Result<Seq<(Seq<char>, Type)>, Seq<char>>
    decreases s.len(),
{
    match spec_find_str(s, ","@) {
        Some(k) => if 0 <= k < s.len() {
            match spec_parse_param(s.take(k)) {
                Ok(p) => match spec_parse_params(s.skip(k + 1)) {
                    Ok(ps) => Ok(seq![p] + ps),
                    Err(m) => Err(m),
                },
                Err(m) => Err(m),
            }
        } else {
            Err("Invalid parameter syntax: '"@ + spec_trim(s) + "'"@)
        },
        None => match spec_parse_param(s) {
            Ok(p) => Ok(seq![p]),
            Err(m) => Err(m),
        },
    }
}

/// What a function's header text (without its trailing `{`) parses to: the
/// name before `: function`, the parameter list between the parentheses,
/// and the type after `->`.
pub open spec fn spec_parse_function_signature(header: Seq<char>) -> Result<
    (Seq<char>, Seq<(Seq<char>, Type)>, Type),
    Seq<char>,
> {
    match spec_find_str(header, ": function"@) {
        None => Err("Invalid function declaration syntax."@),
        Some(k) => if 0 <= k && k + 10 <= header.len() {
            let name = spec_trim(header.take(k));
            let sig = spec_trim(header.skip(k + 10));
            match spec_find_str(sig, "("@) {
                None => Err("Missing '(' in function signature."@),
                Some(open) => match spec_find_str(sig, ")"@) {
                    None => Err("Missing ')' in function signature."@),
                    Some(close) => if !(0 <= open && open + 1 <= close <= sig.len()) {
                        Err("Missing ')' in function signature."@)
                    } else {
                        let params_str = sig.subrange(open + 1, close);
                        let return_str = spec_trim(sig.skip(close + 1));
                        if !spec_occurs_at(return_str, "->"@, 0) {
                            Err("Missing return type in function signature."@)
                        } else {
                            match spec_parse_type(spec_trim(return_str.skip(2))) {
                                Ok(ret) => if params_str.len() == 0 {
                                    Ok((name, Seq::empty(), ret))
                                } else {
                                    match spec_parse_params(params_str) {
                                        Ok(ps) => Ok((name, ps, ret)),
                                        Err(m) => Err(m),
                                    }
                                },
                                Err(m) => Err(m),
                            }
                        }
                    },
                },
            }
        } else {
            Err("Invalid function declaration syntax."@)
        },
    }
}

/// What a function body's lines parse to: empty lines are skipped, an
/// `if (cond) {` line opens a multi-line block that consumes lines up to its
/// `};`, and every other line is a single statement.
pub open spec fn spec_parse_body(lines: Seq<Seq<char>>) -> Result<Seq<SpecStmt>, Seq<char>>
    decreases lines.len(),
{
    if lines.len() == 0 {
        Ok(Seq::empty())
    } else {
        let t = spec_trim(lines[0]);
        if t.len() == 0 {
            spec_parse_body(lines.drop_first())
        } else if spec_occurs_at(t, "if ("@, 0) && spec_find_str(t, ") {"@) is Some && !(
        spec_find_str(t, "};"@) is Some) {
            match spec_parse_if_multiline(lines[0], lines.drop_first()) {
                Ok((st, consumed)) => if 0 <= consumed <= lines.len() - 1 {
                    match spec_parse_body(lines.skip(1 + consumed)) {
                        Ok(rest) => Ok(seq![st] + rest),
                        Err(m) => Err(m),
                    }
                } else {
                    Err("Invalid if statement format"@)
                },
                Err(m) => Err(m),
            }
        } else {
            match spec_parse_statement(lines[0]) {
                Ok(st) => match spec_parse_body(lines.drop_first()) {
                    Ok(rest) => Ok(seq![st] + rest),
                    Err(m) => Err(m),
                },
                Err(m) => Err(m),
            }
        }
    }
}

/// What a function's lines parse to: a header ending in `{`, a body, and a
/// final line whose trimmed text is `};`.
pub open spec fn spec_parse_function(lines: Seq<Seq<char>>) -> Result<SpecFun, Seq<char>> {
    if lines.len() == 0 {
        Err("Empty function input."@)
    } else {
        let header = spec_trim(lines[0]);
        if !(header.len() > 0 && header.last() == '{') {
            Err("Function header must end with '{'."@)
        } else {
            match spec_parse_function_signature(spec_trim_end(header.drop_last())) {
                Ok((name, params, ret)) => if spec_trim(lines.last()) != "};"@ {
                    Err("Function must end with '};'"@)
                } else {
                    match spec_parse_body(lines.subrange(1, lines.len() - 1)) {
                        Ok(body) => Ok(SpecFun { name, params, ret, body }),
                        Err(m) => Err(m),
                    }
                },
                Err(m) => Err(m),
            }
        }
    }
}

fn parse_param(piece: &str) -> (r: Result<Parameter, String>)
    ensures
        match spec_parse_param(piece@) {
            Ok((n, t)) => r matches Ok(p) && p.name@ == n && p.param_type == t,
            Err(m) => r matches Err(s) && s@ == m,
        },
{
    let param = trim(piece);
    let plen = param.unicode_len();
    match find_str(param, ":") {
        Some(c) => {
            proof {
                reveal_strlit(":");
                crate::strutil::lemma_find_str_in_bounds(param@, ":"@);
                assert(":"@.len() == 1);
            }
            let after = param.substring_char(c + 1, plen);
            proof {
                assert(after@ =~= param@.skip(c + 1 as int));
            }
            if contains_str(after, ":") {
                let mut m = String::from_str("Invalid parameter syntax: '");
                m.append(param);
                m.append("'");
                Err(m)
            } else {
                match parse_type(trim(after)) {
                    Ok(ty) => {
                        let name = trim(param.substring_char(0, c));
                        proof {
                            assert(param@.subrange(0, c as int) =~= param@.take(c as int));
                        }
                        Ok(Parameter { name: String::from_str(name), param_type: ty })
                    },
                    Err(m) => Err(m),
                }
            }
        },
        None => {
            let mut m = String::from_str("Invalid parameter syntax: '");
            m.append(param);
            m.append("'");
            Err(m)
        },
    }
}

fn parse_params(s: &str) -> (r: Result<Vec<Parameter>, String>)
    ensures
        match spec_parse_params(s@) {
            Ok(ps) => r matches Ok(v) && params_view(v@) == ps,
            Err(m) => r matches Err(st) && st@ == m,
        },
    decreases s@.len(),
{
    let n = s.unicode_len();
    match find_str(s, ",") {
        Some(k) => {
            proof {
                reveal_strlit(",");
                crate::strutil::lemma_find_str_in_bounds(s@, ","@);
                assert(","@.len() == 1);
            }
            let piece = s.substring_char(0, k);
            proof {
                assert(piece@ =~= s@.take(k as int));
            }
            let p = match parse_param(piece) {
                Ok(p) => p,
                Err(m) => {
                    return Err(m);
                },
            };
            let ghost pv = (p.name@, p.param_type);
            let rest_str = s.substring_char(k + 1, n);
            proof {
                assert(rest_str@ =~= s@.skip(k + 1 as int));
            }
            match parse_params(rest_str) {
                Ok(rest) => {
                    let ghost rest_view = params_view(rest@);
                    let mut ps: Vec<Parameter> = Vec::new();
                    ps.push(p);
                    let mut rest_mut = rest;
                    ps.append(&mut rest_mut);
                    proof {
                        assert(ps@ =~= seq![ps@[0]] + rest@);
                        assert forall|j: int|
                            0 <= j < ps@.len() implies params_view(ps@)[j] == (seq![pv]
                            + rest_view)[j] by {
                            if j > 0 {
                                assert(ps@[j] == rest@[j - 1]);
                            }
                        }
                        assert(params_view(ps@) =~= seq![pv] + rest_view);
                    }
                    Ok(ps)
                },
                Err(m) => Err(m),
            }
        },
        None => {
            match parse_param(s) {
                Ok(p) => {
                    let ghost pv = (p.name@, p.param_type);
                    let mut ps: Vec<Parameter> = Vec::new();
                    ps.push(p);
                    proof {
                        assert(params_view(ps@) =~= seq![pv]);
                    }
                    Ok(ps)
                },
                Err(m) => Err(m),
            }
        },
    }
}

/// Parses a function header (without its trailing `{`) into the function's
/// name, parameters, and return type.
pub fn parse_function_signature(header: &str) -> (r: Result<(String, Vec<Parameter>, Type), String>)
    ensures
        match spec_parse_function_signature(header@) {
            Ok((n, ps, t)) => r matches Ok(tr) && tr.0@ == n && params_view(tr.1@) == ps && tr.2
                == t,
            Err(m) => r matches Err(s) && s@ == m,
        },
{
    let hlen = header.unicode_len();
    let k = match find_str(header, ": function") {
        Some(k) => k,
        None => {
            return Err(String::from_str("Invalid function declaration syntax."));
        },
    };
    proof {
        reveal_strlit(": function");
        crate::strutil::lemma_find_str_in_bounds(header@, ": function"@);
        assert(": function"@.len() == 10);
    }
    let name = trim(header.substring_char(0, k));
    proof {
        assert(header@.subrange(0, k as int) =~= header@.take(k as int));
    }
    let sig = trim(header.substring_char(k + 10, hlen));
    proof {
        assert(header@.subrange(k + 10 as int, hlen as int) =~= header@.skip(k + 10 as int));
    }
    let slen = sig.unicode_len();
    let open = match find_str(sig, "(") {
        Some(o) => o,
        None => {
            return Err(String::from_str("Missing '(' in function signature."));
        },
    };
    let close = match find_str(sig, ")") {
        Some(c) => c,
        None => {
            return Err(String::from_str("Missing ')' in function signature."));
        },
    };
    proof {
        reveal_strlit("(");
        reveal_strlit(")");
        crate::strutil::lemma_find_str_in_bounds(sig@, "("@);
        crate::strutil::lemma_find_str_in_bounds(sig@, ")"@);
        assert("("@.len() == 1);
        assert(")"@.len() == 1);
    }
    if close < open + 1 {
        return Err(String::from_str("Missing ')' in function signature."));
    }
    let params_str = sig.substring_char(open + 1, close);
    let return_str = trim(sig.substring_char(close + 1, slen));
    proof {
        assert(params_str@ =~= sig@.subrange(open + 1 as int, close as int));
        assert(sig@.subrange(close + 1 as int, slen as int) =~= sig@.skip(close + 1 as int));
    }
    if !str_starts_with(return_str, "->") {
        return Err(String::from_str("Missing return type in function signature."));
    }
    proof {
        reveal_strlit("->");
        assert("->"@.len() == 2);
    }
    let rlen = return_str.unicode_len();
    let ret_ty = match parse_type(trim(return_str.substring_char(2, rlen))) {
        Ok(t) => t,
        Err(m) => {
            return Err(m);
        },
    };
    proof {
        assert(return_str@.subrange(2, rlen as int) =~= return_str@.skip(2));
    }
    if params_str.unicode_len() == 0 {
        let ps: Vec<Parameter> = Vec::new();
        proof {
            assert(params_view(ps@) =~= Seq::<(Seq<char>, Type)>::empty());
        }
        Ok((String::from_str(name), ps, ret_ty))
    } else {
        match parse_params(params_str) {
            Ok(ps) => Ok((String::from_str(name), ps, ret_ty)),
            Err(m) => Err(m),
        }
    }
}

proof fn lemma_stmts_view_concat_one(out: Seq<Statement>, prev: Seq<Statement>, st: Statement)
    requires
        out == prev.push(st),
    ensures
        stmts_view(out) == stmts_view(prev) + seq![stmt_view(st)],
{
    crate::ast::lemma_stmts_view(prev);
    crate::ast::lemma_stmts_view(out);
    assert forall|j: int| 0 <= j < prev.len() + 1 implies stmts_view(out)[j] == (stmts_view(prev)
        + seq![stmt_view(st)])[j] by {
        if j < prev.len() {
            assert(out[j] == prev[j]);
        } else {
            assert(out[j] == st);
        }
    }
    assert(stmts_view(out) =~= stmts_view(prev) + seq![stmt_view(st)]);
}

fn tail_from<'a>(lines: &Vec<&'a str>, from: usize) -> (r: Vec<&'a str>)
    requires
        from <= lines@.len(),
    ensures
        strs_view(r@) == strs_view(lines@).skip(from as int),
{
    let n = lines.len();
    let mut tail: Vec<&'a str> = Vec::new();
    let mut j: usize = from;
    while j < n
        invariant
            from <= j <= n,
            n == lines@.len(),
            tail@.len() == j - from,
            forall|q: int| 0 <= q < tail@.len() ==> tail@[q] == lines@[from + q],
        decreases n - j,
    {
        tail.push(lines[j]);
        j = j + 1;
    }
    proof {
        assert(strs_view(tail@) =~= strs_view(lines@).skip(from as int));
    }
    tail
}

/// Parses a function body: empty lines are skipped, `if (cond) {` lines open
/// multi-line blocks, and every other line is a single statement.
#[verifier::rlimit(100)]
pub fn parse_function_body_integrated(lines: &Vec<&str>) -> (r: Result<Vec<Statement>, String>)
    ensures
        match spec_parse_body(strs_view(lines@)) {
            Ok(sts) => r matches Ok(v) && stmts_view(v@) == sts,
            Err(m) => r matches Err(s) && s@ == m,
        },
{
    let ghost lv = strs_view(lines@);
    let n = lines.len();
    let mut out: Vec<Statement> = Vec::new();
    let mut i: usize = 0;
    proof {
        assert(lv.skip(0) =~= lv);
        assert(stmts_view(out@) =~= Seq::<SpecStmt>::empty());
        assert(match spec_parse_body(lv) {
            Ok(rest) => stmts_view(out@) + rest =~= rest,
            Err(_) => true,
        });
    }
    while i < n
        invariant
            i <= n,
            n == lines@.len(),
            lv == strs_view(lines@),
            lv.len() == n,
            spec_parse_body(lv) == (match spec_parse_body(lv.skip(i as int)) {
                Ok(rest) => Ok::<Seq<SpecStmt>, Seq<char>>(stmts_view(out@) + rest),
                Err(m) => Err(m),
            }),
        decreases n - i,
    {
        proof {
            assert(lv.skip(i as int)[0] == lv[i as int]);
            assert(lv[i as int] == lines@[i as int]@);
        }
        let line = lines[i];
        let t = trim(line);
        if t.unicode_len() == 0 {
            proof {
                assert(lv.skip(i as int).drop_first() =~= lv.skip(i as int + 1));
            }
            i = i + 1;
        } else if str_starts_with(t, "if (") && contains_str(t, ") {") && !contains_str(t, "};") {
            let tail = tail_from(lines, i + 1);
            proof {
                assert(strs_view(lines@).skip(i + 1 as int) =~= lv.skip(i as int).drop_first());
                lemma_parse_if_consumed_bound(lv[i as int], lv.skip(i as int).drop_first());
            }
            match parse_if_statement_multiline(line, &tail) {
                Ok((st, consumed)) => {
                    let ghost out_prev = out@;
                    let ghost sv = stmt_view(st);
                    out.push(st);
                    proof {
                        lemma_stmts_view_concat_one(out@, out_prev, out@.last());
                        assert(lv.skip(i as int).skip(1 + consumed as int) =~= lv.skip(
                            i + 1 + consumed as int,
                        ));
                        assert(spec_parse_body(lv.skip(i as int)) == (
                        match spec_parse_body(lv.skip(i + 1 + consumed as int)) {
                            Ok(rest) => Ok::<Seq<SpecStmt>, Seq<char>>(seq![sv] + rest),
                            Err(m) => Err(m),
                        }));
                        assert(match spec_parse_body(lv.skip(i + 1 + consumed as int)) {
                            Ok(rest) => stmts_view(out@) + rest =~= stmts_view(out_prev) + (
                            seq![sv] + rest),
                            Err(_) => true,
                        });
                    }
                    i = i + 1 + consumed;
                },
                Err(m) => {
                    return Err(m);
                },
            }
        } else {
            match parse_statement(line) {
                Ok(st) => {
                    let ghost out_prev = out@;
                    let ghost sv = stmt_view(st);
                    out.push(st);
                    proof {
                        lemma_stmts_view_concat_one(out@, out_prev, out@.last());
                        assert(lv.skip(i as int).drop_first() =~= lv.skip(i as int + 1));
                        assert(match spec_parse_body(lv.skip(i as int + 1)) {
                            Ok(rest) => stmts_view(out@) + rest =~= stmts_view(out_prev) + (
                            seq![sv] + rest),
                            Err(_) => true,
                        });
                    }
                    i = i + 1;
                },
                Err(m) => {
                    return Err(m);
                },
            }
        }
    }
    proof {
        assert(lv.skip(n as int) =~= Seq::<Seq<char>>::empty());
        assert(match spec_parse_body(lv) {
            Ok(rest) => stmts_view(out@) + Seq::<SpecStmt>::empty() =~= stmts_view(out@),
            Err(_) => true,
        });
    }
    Ok(out)
}

/// Parses a function definition from its lines: the header, the body, and
/// the closing `};` line.
pub fn parse_function(lines: &Vec<&str>) -> (r: Result<Function, String>)
    ensures
        match spec_parse_function(strs_view(lines@)) {
            Ok(f) => r matches Ok(rf) && fun_view(rf) == f,
            Err(m) => r matches Err(s) && s@ == m,
        },
{
    let ghost lv = strs_view(lines@);
    let n = lines.len();
    if n == 0 {
        return Err(String::from_str("Empty function input."));
    }
    proof {
        assert(lv[0] == lines@[0]@);
        assert(lv.last() == lines@[n - 1]@);
    }
    let header = trim(lines[0]);
    let hlen = header.unicode_len();
    if hlen == 0 || header.get_char(hlen - 1) != '{' {
        return Err(String::from_str("Function header must end with '{'."));
    }
    let header_clean = trim(header.substring_char(0, hlen - 1));
    proof {
        assert(header@.subrange(0, hlen - 1 as int) =~= header@.drop_last());
        let d = header@.drop_last();
        if d.len() > 0 {
            crate::strutil::lemma_trim_start_head(lines@[0]@);
            crate::strutil::lemma_trim_end_head(spec_trim_start(lines@[0]@));
            assert(header@[0] == spec_trim_start(lines@[0]@)[0]);
            assert(!crate::strutil::is_space_char(d[0]));
            assert(spec_trim_start(d) == d);
        } else {
            assert(spec_trim_start(d) == d);
        }
        assert(spec_trim(d) == spec_trim_end(d));
    }
    let (name, params, return_type) = match parse_function_signature(header_clean) {
        Ok(t) => t,
        Err(m) => {
            return Err(m);
        },
    };
    let last_trimmed = trim(lines[n - 1]);
    if !str_eq(last_trimmed, "};") {
        return Err(String::from_str("Function must end with '};'"));
    }
    proof {
        reveal_strlit("};");
        assert("};"@.len() == 2);
        if n < 2 {
            assert(lv.last() == lv[0]);
            assert(spec_trim(lv[0]).last() == '{');
            assert(spec_trim(lv[0]) == "};"@);
            assert("};"@[1] == ';');
            assert(false);
        }
    }
    let mut body_lines: Vec<&str> = Vec::new();
    let mut j: usize = 1;
    while j < n - 1
        invariant
            1 <= j <= n - 1,
            n == lines@.len(),
            n >= 2,
            body_lines@.len() == j - 1,
            forall|q: int| 0 <= q < body_lines@.len() ==> body_lines@[q] == lines@[1 + q],
        decreases n - j,
    {
        body_lines.push(lines[j]);
        j = j + 1;
    }
    proof {
        assert(strs_view(body_lines@) =~= lv.subrange(1, n - 1 as int));
    }
    let body = match parse_function_body_integrated(&body_lines) {
        Ok(b) => b,
        Err(m) => {
            return Err(m);
        },
    };
    Ok(Function { name, params, return_type, body })
}

} // verus!
