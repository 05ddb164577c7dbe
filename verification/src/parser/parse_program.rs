//! Whole-program parsing: the source text is split into logical lines,
//! comment lines are dropped, and function blocks are located by tracking
//! brace depth, treating braces inside quoted string literals (honoring
//! backslash escapes) as non-structural.

use vstd::prelude::*;
use vstd::string::{StrSliceExecFns, StringExecFns};
use crate::ast::{Function, Program, SpecFun, fun_view, funs_view, program_view};
use crate::parser::parse_function::{parse_function, spec_parse_function};
use crate::strutil::{
    contains_str, spec_find_str, spec_lines, spec_occurs_at, spec_trim, split_lines,
    str_ends_with, str_starts_with, strs_view, trim,
};

verus! {

/// The net brace count of the rest of a line, given whether the scan stands
/// inside a quoted string and just after a backslash.
pub open spec fn spec_net_braces_from(s: Seq<char>, in_str: bool, esc: bool) -> int
    decreases s.len(),
{
    if s.len() == 0 {
        0
    } else {
        let c = s[0];
        if esc {
            spec_net_braces_from(s.drop_first(), in_str, false)
        } else if c == '\\' && in_str {
            spec_net_braces_from(s.drop_first(), in_str, true)
        } else if c == '"' {
            spec_net_braces_from(s.drop_first(), !in_str, false)
        } else if c == '{' && !in_str {
            1 + spec_net_braces_from(s.drop_first(), in_str, false)
        } else if c == '}' && !in_str {
            (-1) + spec_net_braces_from(s.drop_first(), in_str, false)
        } else {
            spec_net_braces_from(s.drop_first(), in_str, false)
        }
    }
}

/// The net brace count of a line: opening braces minus closing braces,
/// ignoring braces inside string literals.
pub open spec fn spec_net_braces(s: Seq<char>) -> int {
    spec_net_braces_from(s, false, false)
}

proof fn lemma_net_braces_bound(s: Seq<char>, in_str: bool, esc: bool)
    ensures
        -s.len() <= spec_net_braces_from(s, in_str, esc) <= s.len(),
    decreases s.len(),
{
    if s.len() > 0 {
        lemma_net_braces_bound(s.drop_first(), in_str, false);
        lemma_net_braces_bound(s.drop_first(), !in_str, false);
        lemma_net_braces_bound(s.drop_first(), in_str, true);
    }
}

/// Counts the net brace difference in a line (opening braces minus closing
/// braces), not counting braces inside quoted strings.
pub fn count_net_braces(line: &str) -> (r: i32)
    requires
        line@.len() <= 0x7fff_ffff,
    ensures
        r as int == spec_net_braces(line@),
{
    let n = line.unicode_len();
    let mut net: i32 = 0;
    let mut in_string = false;
    let mut escape_next = false;
    let mut i: usize = 0;
    proof {
        assert(line@.skip(0) =~= line@);
    }
    while i < n
        invariant
            i <= n,
            n == line@.len(),
            n <= 0x7fff_ffff,
            -(i as int) <= net as int <= i as int,
            spec_net_braces(line@) == net as int + spec_net_braces_from(
                line@.skip(i as int),
                in_string,
                escape_next,
            ),
        decreases n - i,
    {
        proof {
            assert(line@.skip(i as int)[0] == line@[i as int]);
            assert(line@.skip(i as int).drop_first() =~= line@.skip(i as int + 1));
        }
        let c = line.get_char(i);
        if escape_next {
            escape_next = false;
        } else if c == '\\' && in_string {
            escape_next = true;
        } else if c == '"' {
            in_string = !in_string;
        } else if c == '{' && !in_string {
            net = net + 1;
        } else if c == '}' && !in_string {
            net = net - 1;
        }
        i = i + 1;
    }
    proof {
        assert(line@.skip(n as int) =~= Seq::<char>::empty());
    }
    net
}

/// The logical lines that the parser works on: every line whose trimmed
/// content does not begin with `//`.
pub open spec fn spec_filter_lines(lines: Seq<Seq<char>>) -> Seq<Seq<char>>
    decreases lines.len(),
{
    if lines.len() == 0 {
        Seq::empty()
    } else {
        let rest = spec_filter_lines(lines.drop_first());
        if spec_occurs_at(spec_trim(lines[0]), "//"@, 0) {
            rest
        } else {
            seq![lines[0]] + rest
        }
    }
}

/// Whether a trimmed line opens a function block.
pub open spec fn spec_is_function_start(t: Seq<char>) -> bool {
    spec_find_str(t, ": function("@) is Some && "{"@.len() <= t.len() && spec_occurs_at(
        t,
        "{"@,
        t.len() - "{"@.len(),
    )
}

/// The block scanner: walks lines, accumulating the current block; a line
/// matching the signature shape opens a function at depth 1, and a function
/// closes where the depth returns to 0 on a line ending in `};`. Empty lines
/// outside functions are skipped; other content outside functions is an
/// error at the end; a negative depth or an unclosed function is an error.
pub open spec fn spec_scan_program(
    lines: Seq<Seq<char>>,
    cur: Seq<Seq<char>>,
    depth: int,
    in_fn: bool,
) -> Result<Seq<SpecFun>, Seq<char>>
    decreases lines.len(),
{
    if lines.len() == 0 {
        if in_fn {
            Err("Incomplete function block found at end of source."@)
        } else if cur.len() > 0 {
            Err("Unexpected content found outside function blocks."@)
        } else {
            Ok(Seq::empty())
        }
    } else {
        let line = lines[0];
        let t = spec_trim(line);
        if !in_fn && t.len() == 0 {
            spec_scan_program(lines.drop_first(), cur, depth, in_fn)
        } else {
            let cur2 = cur.push(line);
            if spec_is_function_start(t) {
                spec_scan_program(lines.drop_first(), cur2, 1, true)
            } else if in_fn {
                let d2 = depth + spec_net_braces(t);
                if d2 == 0 && "};"@.len() <= t.len() && spec_occurs_at(
                    t,
                    "};"@,
                    t.len() - "};"@.len(),
                ) {
                    match spec_parse_function(cur2) {
                        Ok(f) => match spec_scan_program(
                            lines.drop_first(),
                            Seq::empty(),
                            d2,
                            false,
                        ) {
                            Ok(fs) => Ok(seq![f] + fs),
                            Err(m) => Err(m),
                        },
                        Err(m) => Err(m),
                    }
                } else if d2 < 0 {
                    Err("Unmatched closing brace in function"@)
                } else {
                    spec_scan_program(lines.drop_first(), cur2, d2, true)
                }
            } else {
                spec_scan_program(lines.drop_first(), cur2, depth, false)
            }
        }
    }
}

/// What a whole source text parses to: its filtered logical lines, scanned
/// into function blocks, each parsed as a function.
pub open spec fn spec_parse_program(source: Seq<char>) -> Result<Seq<SpecFun>, Seq<char>> {
    spec_scan_program(spec_filter_lines(spec_lines(source)), Seq::empty(), 0, false)
}

/// Total characters held by a sequence of lines.
pub open spec fn spec_lines_chars(ls: Seq<Seq<char>>) -> int
    decreases ls.len(),
{
    if ls.len() == 0 {
        0
    } else {
        ls[0].len() + spec_lines_chars(ls.drop_first())
    }
}

proof fn lemma_lines_chars_nonneg(ls: Seq<Seq<char>>)
    ensures
        spec_lines_chars(ls) >= 0,
    decreases ls.len(),
{
    if ls.len() > 0 {
        lemma_lines_chars_nonneg(ls.drop_first());
    }
}

proof fn lemma_filter_lines_chars(ls: Seq<Seq<char>>)
    ensures
        spec_lines_chars(spec_filter_lines(ls)) <= spec_lines_chars(ls),
    decreases ls.len(),
{
    if ls.len() > 0 {
        lemma_filter_lines_chars(ls.drop_first());
        lemma_lines_chars_nonneg(ls.drop_first());
        let rest = spec_filter_lines(ls.drop_first());
        if !spec_occurs_at(spec_trim(ls[0]), "//"@, 0) {
            assert((seq![ls[0]] + rest).drop_first() =~= rest);
            assert((seq![ls[0]] + rest)[0] == ls[0]);
        }
    }
}

proof fn lemma_strip_cr_len(s: Seq<char>)
    ensures
        crate::strutil::spec_strip_cr(s).len() <= s.len(),
{
}

proof fn lemma_lines_chars_bound(s: Seq<char>)
    ensures
        spec_lines_chars(spec_lines(s)) <= s.len(),
    decreases s.len(),
{
    if s.len() > 0 {
        crate::strutil::lemma_find_str_in_bounds(s, seq!['\n']);
        match spec_find_str(s, seq!['\n']) {
            Some(k) => {
                if 0 <= k < s.len() {
                    lemma_lines_chars_bound(s.skip(k + 1));
                    lemma_strip_cr_len(s.take(k));
                    let first = crate::strutil::spec_strip_cr(s.take(k));
                    let rest = spec_lines(s.skip(k + 1));
                    assert(spec_lines(s) == seq![first] + rest);
                    assert((seq![first] + rest).drop_first() =~= rest);
                    assert((seq![first] + rest)[0] == first);
                    assert(spec_lines_chars(seq![first] + rest) == first.len()
                        + spec_lines_chars(rest));
                    assert(first.len() <= k);
                } else {
                    lemma_strip_cr_len(s);
                    let first = crate::strutil::spec_strip_cr(s);
                    assert(spec_lines(s) == seq![first]);
                    assert(seq![first].drop_first() =~= Seq::<Seq<char>>::empty());
                    assert(seq![first][0] == first);
                    assert(spec_lines_chars(seq![first].drop_first()) == 0);
                    assert(spec_lines_chars(seq![first]) == first.len());
                }
            },
            None => {
                lemma_strip_cr_len(s);
                let first = crate::strutil::spec_strip_cr(s);
                assert(spec_lines(s) == seq![first]);
                assert(seq![first].drop_first() =~= Seq::<Seq<char>>::empty());
                assert(seq![first][0] == first);
                assert(spec_lines_chars(seq![first].drop_first()) == 0);
                assert(spec_lines_chars(seq![first]) == first.len());
            },
        }
    }
}

proof fn lemma_trim_len(s: Seq<char>)
    ensures
        spec_trim(s).len() <= s.len(),
    decreases s.len(),
{
    lemma_trim_start_len(s);
    lemma_trim_end_len(crate::strutil::spec_trim_start(s));
}

proof fn lemma_trim_start_len(s: Seq<char>)
    ensures
        crate::strutil::spec_trim_start(s).len() <= s.len(),
    decreases s.len(),
{
    if s.len() > 0 && crate::strutil::is_space_char(s[0]) {
        lemma_trim_start_len(s.drop_first());
    }
}

proof fn lemma_trim_end_len(s: Seq<char>)
    ensures
        crate::strutil::spec_trim_end(s).len() <= s.len(),
    decreases s.len(),
{
    if s.len() > 0 && crate::strutil::is_space_char(s.last()) {
        lemma_trim_end_len(s.drop_last());
    }
}

proof fn lemma_lines_chars_take_step(ls: Seq<Seq<char>>, i: int)
    requires
        0 <= i < ls.len(),
    ensures
        spec_lines_chars(ls.take(i + 1)) == spec_lines_chars(ls.take(i)) + ls[i].len(),
    decreases i,
{
    if i == 0 {
        assert(ls.take(1).drop_first() =~= ls.take(0));
        assert(ls.take(0) =~= Seq::<Seq<char>>::empty());
        assert(ls.take(1)[0] == ls[0]);
    } else {
        lemma_lines_chars_take_step(ls.drop_first(), i - 1);
        assert(ls.take(i + 1).drop_first() =~= ls.drop_first().take(i));
        assert(ls.take(i).drop_first() =~= ls.drop_first().take(i - 1));
        assert(ls.take(i + 1)[0] == ls[0]);
        assert(ls.take(i)[0] == ls[0]);
        assert(ls.drop_first().take(i)[i - 1] == ls[i]);
    }
}

proof fn lemma_lines_chars_take_bound(ls: Seq<Seq<char>>, i: int)
    requires
        0 <= i <= ls.len(),
    ensures
        spec_lines_chars(ls.take(i)) <= spec_lines_chars(ls),
    decreases ls.len() - i,
{
    if i < ls.len() {
        lemma_lines_chars_take_step(ls, i);
        lemma_lines_chars_take_bound(ls, i + 1);
        lemma_lines_chars_nonneg(ls.take(i + 1));
    } else {
        assert(ls.take(i) =~= ls);
    }
}

/// Parses a function block from its collected lines.
pub fn parse_function_block(lines: &Vec<&str>) -> (r: Result<Function, String>)
    ensures
        match ({
            if strs_view(lines@).len() == 0 {
                Err("Empty function block"@)
            } else {
                spec_parse_function(strs_view(lines@))
            }
        }) {
            Ok(f) => r matches Ok(rf) && fun_view(rf) == f,
            Err(m) => r matches Err(s) && s@ == m,
        },
{
    if lines.len() == 0 {
        return Err(String::from_str("Empty function block"));
    }
    parse_function(lines)
}

proof fn lemma_funs_assoc(a: Seq<SpecFun>, x: SpecFun, b: Seq<SpecFun>)
    ensures
        (a + seq![x]) + b == a + (seq![x] + b),
{
    assert((a + seq![x]) + b =~= a + (seq![x] + b));
}

proof fn lemma_funs_view_push(fs: Seq<Function>, f: Function)
    ensures
        funs_view(fs.push(f)) == funs_view(fs) + seq![fun_view(f)],
{
    assert(funs_view(fs.push(f)) =~= funs_view(fs) + seq![fun_view(f)]);
}

/// Parses a complete program: line splitting, comment filtering, block
/// segmentation by brace depth, and function parsing for each block.
#[verifier::rlimit(100)]
pub fn parse_program(source: &str) -> (r: Result<Program, String>)
    requires
        source@.len() <= 0x7fff_ffff,
    ensures
        match spec_parse_program(source@) {
            Ok(fs) => r matches Ok(p) && program_view(p) == fs,
            Err(m) => r matches Err(s) && s@ == m,
        },
{
    let all_lines = split_lines(source);
    let ghost raw_views = strs_view(all_lines@);
    proof {
        lemma_lines_chars_bound(source@);
    }

    // Drop pure comment lines.
    let mut processed: Vec<&str> = Vec::new();
    let nall = all_lines.len();
    let mut i: usize = 0;
    proof {
        assert(raw_views.skip(0) =~= raw_views);
        assert(strs_view(processed@) =~= Seq::<Seq<char>>::empty());
        assert(strs_view(processed@) + spec_filter_lines(raw_views) =~= spec_filter_lines(
            raw_views,
        ));
    }
    while i < nall
        invariant
            i <= nall,
            nall == all_lines@.len(),
            raw_views == strs_view(all_lines@),
            raw_views.len() == nall,
            spec_filter_lines(raw_views) == strs_view(processed@) + spec_filter_lines(
                raw_views.skip(i as int),
            ),
        decreases nall - i,
    {
        proof {
            assert(raw_views.skip(i as int)[0] == raw_views[i as int]);
            assert(raw_views[i as int] == all_lines@[i as int]@);
            assert(raw_views.skip(i as int).drop_first() =~= raw_views.skip(i as int + 1));
        }
        let line = all_lines[i];
        let t = trim(line);
        let ghost processed_prev = processed@;
        if !str_starts_with(t, "//") {
            processed.push(line);
            proof {
                assert(strs_view(processed@) =~= strs_view(processed_prev) + seq![line@]);
                assert(strs_view(processed@) + spec_filter_lines(raw_views.skip(i as int + 1))
                    =~= strs_view(processed_prev) + (seq![line@] + spec_filter_lines(
                    raw_views.skip(i as int + 1),
                )));
            }
        }
        i = i + 1;
    }
    proof {
        assert(raw_views.skip(nall as int) =~= Seq::<Seq<char>>::empty());
        assert(strs_view(processed@) + Seq::<Seq<char>>::empty() =~= strs_view(processed@));
    }
    let ghost fl = strs_view(processed@);
    proof {
        lemma_filter_lines_chars(raw_views);
        assert(spec_lines_chars(fl) <= source@.len());
    }

    let current_block: Vec<&str> = Vec::new();
    proof {
        assert(strs_view(current_block@) =~= Seq::<Seq<char>>::empty());
        assert(fl.take(0) =~= Seq::<Seq<char>>::empty());
        assert(fl.skip(0) =~= fl);
    }
    match scan_program_from(&processed, 0, current_block, 0, false, Ghost(source@.len() as int)) {
        Ok(functions) => Ok(Program { functions }),
        Err(m) => Err(m),
    }
}

/// Walks the filtered lines from position `j`, carrying the block collected
/// so far, the brace depth, and whether a function block is open; yields the
/// functions of the remaining lines.
fn scan_program_from<'a>(
    processed: &Vec<&'a str>,
    j: usize,
    current_block: Vec<&'a str>,
    depth: i64,
    in_function: bool,
    Ghost(chars_cap): Ghost<int>,
) -> (r: Result<Vec<Function>, String>)
    requires
        j <= processed@.len(),
        spec_lines_chars(strs_view(processed@)) <= chars_cap,
        chars_cap <= 0x7fff_ffff,
        0 <= depth as int <= 1 + spec_lines_chars(strs_view(processed@).take(j as int)),
    ensures
        match spec_scan_program(
            strs_view(processed@).skip(j as int),
            strs_view(current_block@),
            depth as int,
            in_function,
        ) {
            Ok(fs) => r matches Ok(v) && funs_view(v@) == fs,
            Err(m) => r matches Err(s) && s@ == m,
        },
    decreases processed@.len() - j,
{
    let ghost fl = strs_view(processed@);
    let np = processed.len();
    if j == np {
        proof {
            assert(fl.skip(np as int) =~= Seq::<Seq<char>>::empty());
        }
        if in_function {
            return Err(String::from_str("Incomplete function block found at end of source."));
        }
        if current_block.len() > 0 {
            return Err(String::from_str("Unexpected content found outside function blocks."));
        }
        let functions: Vec<Function> = Vec::new();
        proof {
            assert(funs_view(functions@) =~= Seq::<SpecFun>::empty());
        }
        return Ok(functions);
    }
    proof {
        assert(fl.skip(j as int)[0] == fl[j as int]);
        assert(fl[j as int] == processed@[j as int]@);
        assert(fl.skip(j as int).drop_first() =~= fl.skip(j as int + 1));
        lemma_lines_chars_take_step(fl, j as int);
        lemma_lines_chars_take_bound(fl, j as int + 1);
        lemma_lines_chars_nonneg(fl.take(j as int));
        lemma_trim_len(fl[j as int]);
    }
    let line = processed[j];
    let t = trim(line);
    if !in_function && t.unicode_len() == 0 {
        return scan_program_from(processed, j + 1, current_block, depth, in_function, Ghost(chars_cap));
    }
    let ghost block_prev = current_block@;
    let mut block = current_block;
    block.push(line);
    proof {
        assert(strs_view(block@) =~= strs_view(block_prev).push(line@));
    }
    if contains_str(t, ": function(") && str_ends_with(t, "{") {
        scan_program_from(processed, j + 1, block, 1, true, Ghost(chars_cap))
    } else if in_function {
        let net = count_net_braces(t);
        proof {
            lemma_net_braces_bound(t@, false, false);
        }
        let d2: i64 = depth + (net as i64);
        if d2 == 0 && str_ends_with(t, "};") {
            match parse_function_block(&block) {
                Ok(func) => {
                    let fresh: Vec<&str> = Vec::new();
                    proof {
                        assert(strs_view(fresh@) =~= Seq::<Seq<char>>::empty());
                    }
                    match scan_program_from(processed, j + 1, fresh, 0, false, Ghost(chars_cap)) {
                        Ok(rest) => {
                            let ghost fv = fun_view(func);
                            let ghost rest_view = funs_view(rest@);
                            let mut functions: Vec<Function> = Vec::new();
                            functions.push(func);
                            let mut rest_mut = rest;
                            functions.append(&mut rest_mut);
                            proof {
                                assert(functions@ =~= seq![functions@[0]] + rest@);
                                assert(funs_view(functions@) =~= seq![fv] + rest_view);
                            }
                            Ok(functions)
                        },
                        Err(m) => Err(m),
                    }
                },
                Err(m) => Err(m),
            }
        } else if d2 < 0 {
            Err(String::from_str("Unmatched closing brace in function"))
        } else {
            scan_program_from(processed, j + 1, block, d2, true, Ghost(chars_cap))
        }
    } else {
        scan_program_from(processed, j + 1, block, depth, false, Ghost(chars_cap))
    }
}

} // verus!
