//! Verified string helpers: trimming, prefix/suffix tests, first-occurrence
//! search, line splitting, and decimal rendering of integers.
//!
//! Every executable function is specified against a spec function over
//! `Seq<char>`; the rest of the crate states its contracts in those terms.

use vstd::prelude::*;
use vstd::string::*;

verus! {

/// The whitespace characters that line trimming removes.
pub open spec fn is_space_char(c: char) -> bool {
    c == ' ' || c == '\t' || c == '\r' || c == '\n'
}

/// Whether `c` is one of the whitespace characters that trimming removes.
pub fn is_space(c: char) -> (r: bool)
    ensures
        r == is_space_char(c),
{
    c == ' ' || c == '\t' || c == '\r' || c == '\n'
}

pub open spec fn spec_trim_start(s: Seq<char>) -> Seq<char>
    decreases s.len(),
{
    if s.len() == 0 {
        s
    } else if is_space_char(s[0]) {
        spec_trim_start(s.drop_first())
    } else {
        s
    }
}

pub open spec fn spec_trim_end(s: Seq<char>) -> Seq<char>
    decreases s.len(),
{
    if s.len() == 0 {
        s
    } else if is_space_char(s.last()) {
        spec_trim_end(s.drop_last())
    } else {
        s
    }
}

/// The sequence with leading and trailing whitespace removed.
pub open spec fn spec_trim(s: Seq<char>) -> Seq<char> {
    spec_trim_end(spec_trim_start(s))
}

proof fn lemma_trim_start_skip(s: Seq<char>, i: int)
    requires
        0 <= i <= s.len(),
        forall|j: int| 0 <= j < i ==> is_space_char(s[j]),
    ensures
        spec_trim_start(s) == spec_trim_start(s.skip(i)),
    decreases i,
{
    if i > 0 {
        lemma_trim_start_skip(s.drop_first(), i - 1);
        assert(s.drop_first().skip(i - 1) =~= s.skip(i));
    } else {
        assert(s.skip(0) =~= s);
    }
}

proof fn lemma_trim_end_take(t: Seq<char>, k: int)
    requires
        0 <= k <= t.len(),
        forall|j: int| k <= j < t.len() ==> is_space_char(t[j]),
        k == 0 || !is_space_char(t[k - 1]),
    ensures
        spec_trim_end(t) == t.take(k),
    decreases t.len(),
{
    if k == t.len() {
        assert(t.take(k) =~= t);
    } else {
        lemma_trim_end_take(t.drop_last(), k);
        assert(t.drop_last().take(k) =~= t.take(k));
    }
}

/// Returns `s` with leading and trailing whitespace removed.
pub fn trim<'a>(s: &'a str) -> (r: &'a str)
    ensures
        r@ == spec_trim(s@),
{
    let n = s.unicode_len();
    let mut start: usize = 0;
    while start < n && is_space(s.get_char(start))
        invariant
            start <= n,
            n == s@.len(),
            forall|j: int| 0 <= j < start ==> is_space_char(s@[j]),
        decreases n - start,
    {
        start = start + 1;
    }
    proof {
        lemma_trim_start_skip(s@, start as int);
    }
    if start == n {
        proof {
            assert(s@.skip(start as int) =~= Seq::<char>::empty());
        }
        return s.substring_char(n, n);
    }
    let mut end: usize = n;
    while end > start + 1 && is_space(s.get_char(end - 1))
        invariant
            start < end <= n,
            n == s@.len(),
            forall|j: int| end <= j < n ==> is_space_char(s@[j]),
        decreases end,
    {
        end = end - 1;
    }
    proof {
        let t = s@.skip(start as int);
        assert(t == spec_trim_start(s@));
        assert(forall|j: int|
            0 <= j < t.len() ==> t[j] == s@[start as int + j]);
        lemma_trim_end_take(t, end - start);
        assert(t.take(end - start) =~= s@.subrange(start as int, end as int));
    }
    s.substring_char(start, end)
}

/// A trimmed-from-the-front sequence starts with a non-space character.
pub proof fn lemma_trim_start_head(s: Seq<char>)
    ensures
        spec_trim_start(s).len() > 0 ==> !is_space_char(spec_trim_start(s)[0]),
    decreases s.len(),
{
    if s.len() > 0 && is_space_char(s[0]) {
        lemma_trim_start_head(s.drop_first());
    }
}

/// Trimming from the back keeps the first character.
pub proof fn lemma_trim_end_head(s: Seq<char>)
    ensures
        spec_trim_end(s).len() > 0 ==> spec_trim_end(s)[0] == s[0],
    decreases s.len(),
{
    if s.len() > 0 && is_space_char(s.last()) {
        lemma_trim_end_head(s.drop_last());
    }
}

/// `p` occurs in `s` starting at position `i`.
pub open spec fn spec_occurs_at(s: Seq<char>, p: Seq<char>, i: int) -> bool {
    0 <= i && i + p.len() <= s.len() && s.subrange(i, i + p.len()) == p
}

/// Whether `p` occurs in `s` at position `i`.
pub fn match_at(s: &str, p: &str, i: usize) -> (r: bool)
    requires
        i <= s@.len(),
    ensures
        r == spec_occurs_at(s@, p@, i as int),
{
    let n = s.unicode_len();
    let m = p.unicode_len();
    if m > n - i {
        return false;
    }
    let mut j: usize = 0;
    while j < m
        invariant
            j <= m,
            m == p@.len(),
            n == s@.len(),
            i + m <= n,
            forall|k: int| 0 <= k < j ==> s@[i as int + k] == p@[k],
        decreases m - j,
    {
        if s.get_char(i + j) != p.get_char(j) {
            proof {
                assert(s@.subrange(i as int, i + p@.len()) != p@) by {
                    assert(s@.subrange(i as int, i + p@.len())[j as int] != p@[j as int]);
                }
            }
            return false;
        }
        j = j + 1;
    }
    proof {
        assert(s@.subrange(i as int, i + p@.len()) =~= p@);
    }
    true
}

/// Whether `p` is a prefix of `s`.
pub fn str_starts_with(s: &str, p: &str) -> (r: bool)
    ensures
        r == spec_occurs_at(s@, p@, 0),
{
    match_at(s, p, 0)
}

/// Whether `p` is a suffix of `s`.
pub fn str_ends_with(s: &str, p: &str) -> (r: bool)
    ensures
        r == (p@.len() <= s@.len() && spec_occurs_at(s@, p@, s@.len() - p@.len())),
{
    let n = s.unicode_len();
    let m = p.unicode_len();
    if m > n {
        return false;
    }
    match_at(s, p, n - m)
}

/// Whether the two strings hold the same characters.
pub fn str_eq(a: &str, b: &str) -> (r: bool)
    ensures
        r == (a@ == b@),
{
    let na = a.unicode_len();
    let nb = b.unicode_len();
    if na != nb {
        return false;
    }
    let mut i: usize = 0;
    while i < na
        invariant
            i <= na,
            na == a@.len(),
            na == b@.len(),
            forall|j: int| 0 <= j < i ==> a@[j] == b@[j],
        decreases na - i,
    {
        if a.get_char(i) != b.get_char(i) {
            return false;
        }
        i = i + 1;
    }
    proof {
        assert(a@ =~= b@);
    }
    true
}

/// Position of the first occurrence of `p` in `s`, if any.
pub open spec fn spec_find_str(s: Seq<char>, p: Seq<char>) -> Option<int>
    decreases s.len(),
{
    if spec_occurs_at(s, p, 0) {
        Some(0)
    } else if s.len() == 0 {
        None
    } else {
        match spec_find_str(s.drop_first(), p) {
            Some(i) => Some(i + 1),
            None => None,
        }
    }
}

proof fn lemma_occurs_shift(s: Seq<char>, p: Seq<char>, j: int)
    requires
        s.len() > 0,
        0 <= j,
    ensures
        spec_occurs_at(s.drop_first(), p, j) == spec_occurs_at(s, p, j + 1),
{
    if j + 1 + p.len() <= s.len() {
        assert(s.drop_first().subrange(j, j + p.len() as int) =~= s.subrange(
            j + 1,
            j + 1 + p.len() as int,
        ));
    }
}

proof fn lemma_find_str_some(s: Seq<char>, p: Seq<char>, i: int)
    requires
        spec_occurs_at(s, p, i),
        forall|j: int| 0 <= j < i ==> !spec_occurs_at(s, p, j),
    ensures
        spec_find_str(s, p) == Some(i),
    decreases i,
{
    if i > 0 {
        assert forall|j: int| 0 <= j < i - 1 implies !spec_occurs_at(s.drop_first(), p, j) by {
            lemma_occurs_shift(s, p, j);
        }
        lemma_occurs_shift(s, p, i - 1);
        lemma_find_str_some(s.drop_first(), p, i - 1);
    }
}

proof fn lemma_find_str_none(s: Seq<char>, p: Seq<char>)
    requires
        forall|j: int| 0 <= j ==> !spec_occurs_at(s, p, j),
    ensures
        spec_find_str(s, p) == None::<int>,
    decreases s.len(),
{
    if s.len() > 0 {
        assert forall|j: int| 0 <= j implies !spec_occurs_at(s.drop_first(), p, j) by {
            lemma_occurs_shift(s, p, j);
        }
        lemma_find_str_none(s.drop_first(), p);
    }
}

/// Position of the first occurrence of `p` in `s`, or `None` if `p` does not
/// occur. An empty `p` occurs at position 0.
pub fn find_str(s: &str, p: &str) -> (r: Option<usize>)
    ensures
        match r {
            Some(i) => spec_find_str(s@, p@) == Some(i as int),
            None => spec_find_str(s@, p@) == None::<int>,
        },
{
    let n = s.unicode_len();
    let m = p.unicode_len();
    if m > n {
        proof {
            lemma_find_str_none(s@, p@);
        }
        return None;
    }
    let limit = n - m;
    let mut i: usize = 0;
    loop
        invariant
            m == p@.len(),
            n == s@.len(),
            m <= n,
            limit == n - m,
            i <= limit,
            forall|j: int| 0 <= j < i ==> !spec_occurs_at(s@, p@, j),
        decreases limit - i,
    {
        if match_at(s, p, i) {
            proof {
                lemma_find_str_some(s@, p@, i as int);
            }
            return Some(i);
        }
        if i == limit {
            proof {
                lemma_find_str_none(s@, p@);
            }
            return None;
        }
        i = i + 1;
    }
}

/// Whether `p` occurs anywhere in `s`.
pub fn contains_str(s: &str, p: &str) -> (r: bool)
    ensures
        r == (spec_find_str(s@, p@) is Some),
{
    match find_str(s, p) {
        Some(_) => true,
        None => false,
    }
}

/// A sequence with one trailing carriage return removed, if present.
pub open spec fn spec_strip_cr(s: Seq<char>) -> Seq<char> {
    if s.len() > 0 && s.last() == '\r' {
        s.drop_last()
    } else {
        s
    }
}

/// The logical lines of a text: split at each newline, dropping one trailing
/// carriage return per line, and ignoring a final empty piece after a
/// trailing newline.
pub open spec fn spec_lines(s: Seq<char>) -> Seq<Seq<char>>
    decreases s.len(),
{
    if s.len() == 0 {
        Seq::empty()
    } else {
        match spec_find_str(s, seq!['\n']) {
            Some(k) => if 0 <= k < s.len() {
                seq![spec_strip_cr(s.take(k))] + spec_lines(s.skip(k + 1))
            } else {
                seq![spec_strip_cr(s)]
            },
            None => seq![spec_strip_cr(s)],
        }
    }
}

pub open spec fn strs_view(v: Seq<&str>) -> Seq<Seq<char>> {
    v.map_values(|t: &str| t@)
}

pub proof fn lemma_find_str_in_bounds(s: Seq<char>, p: Seq<char>)
    ensures
        match spec_find_str(s, p) {
            Some(i) => spec_occurs_at(s, p, i) && forall|j: int|
                0 <= j < i ==> !spec_occurs_at(s, p, j),
            None => forall|j: int| !spec_occurs_at(s, p, j),
        },
    decreases s.len(),
{
    if !spec_occurs_at(s, p, 0) && s.len() > 0 {
        lemma_find_str_in_bounds(s.drop_first(), p);
        assert forall|j: int| 0 <= j implies spec_occurs_at(s.drop_first(), p, j - 1)
            == spec_occurs_at(s, p, j) by {
            if j >= 1 {
                lemma_occurs_shift(s, p, j - 1);
            }
        }
        match spec_find_str(s.drop_first(), p) {
            Some(i) => {
                lemma_occurs_shift(s, p, i);
            },
            None => {
                assert forall|j: int| !spec_occurs_at(s, p, j) by {
                    if j >= 1 {
                        lemma_occurs_shift(s, p, j - 1);
                    }
                }
            },
        }
    }
}

/// Splits a text into its logical lines.
pub fn split_lines<'a>(s: &'a str) -> (r: Vec<&'a str>)
    ensures
        strs_view(r@) == spec_lines(s@),
{
    let n = s.unicode_len();
    let mut r: Vec<&'a str> = Vec::new();
    let mut pos: usize = 0;
    proof {
        assert(s@.skip(0) =~= s@);
        assert(strs_view(r@) =~= Seq::<Seq<char>>::empty());
        assert(strs_view(r@) + spec_lines(s@) =~= spec_lines(s@));
    }
    while pos < n
        invariant
            pos <= n,
            n == s@.len(),
            spec_lines(s@) == strs_view(r@) + spec_lines(s@.skip(pos as int)),
        decreases n - pos,
    {
        let rest = s.substring_char(pos, n);
        proof {
            assert(rest@ =~= s@.skip(pos as int));
        }
        let ghost r_prev = r@;
        match find_str(rest, "\n") {
            Some(k) => {
                proof {
                    lemma_find_str_in_bounds(rest@, "\n"@);
                    reveal_strlit("\n");
                    assert(spec_occurs_at(rest@, "\n"@, k as int));
                    assert("\n"@ =~= seq!['\n']);
                    assert(spec_find_str(rest@, seq!['\n']) == Some(k as int));
                }
                let raw = rest.substring_char(0, k);
                proof {
                    assert(raw@ =~= rest@.take(k as int));
                }
                let line = strip_cr_line(raw);
                r.push(line);
                proof {
                    assert(strs_view(r@) =~= strs_view(r_prev) + seq![line@]);
                    assert(spec_lines(s@.skip(pos as int)) == seq![spec_strip_cr(
                        rest@.take(k as int),
                    )] + spec_lines(rest@.skip(k as int + 1)));
                    assert(rest@.skip(k as int + 1) =~= s@.skip(pos + k + 1 as int));
                    assert(strs_view(r@) + spec_lines(s@.skip(pos + k + 1 as int)) =~= strs_view(
                        r_prev,
                    ) + spec_lines(s@.skip(pos as int)));
                }
                pos = pos + k + 1;
            },
            None => {
                proof {
                    reveal_strlit("\n");
                    assert("\n"@ =~= seq!['\n']);
                    assert(spec_find_str(rest@, seq!['\n']) == None::<int>);
                }
                let line = strip_cr_line(rest);
                r.push(line);
                proof {
                    assert(strs_view(r@) =~= strs_view(r_prev) + seq![line@]);
                    assert(spec_lines(s@.skip(pos as int)) == seq![spec_strip_cr(rest@)]);
                    assert(s@.skip(n as int) =~= Seq::<char>::empty());
                    assert(strs_view(r@) + spec_lines(s@.skip(n as int)) =~= strs_view(r_prev)
                        + spec_lines(s@.skip(pos as int)));
                }
                pos = n;
            },
        }
    }
    proof {
        assert(s@.skip(pos as int) =~= Seq::<char>::empty());
        assert(strs_view(r@) =~= strs_view(r@) + spec_lines(Seq::<char>::empty()));
    }
    r
}

fn strip_cr_line<'a>(s: &'a str) -> (r: &'a str)
    ensures
        r@ == spec_strip_cr(s@),
{
    let n = s.unicode_len();
    if n > 0 && s.get_char(n - 1) == '\r' {
        let r = s.substring_char(0, n - 1);
        proof {
            assert(r@ =~= s@.drop_last());
        }
        r
    } else {
        s
    }
}

/// The decimal digit character for `d` (meaningful for `d < 10`).
pub open spec fn digit_char(d: nat) -> char {
    if d == 0 {
        '0'
    } else if d == 1 {
        '1'
    } else if d == 2 {
        '2'
    } else if d == 3 {
        '3'
    } else if d == 4 {
        '4'
    } else if d == 5 {
        '5'
    } else if d == 6 {
        '6'
    } else if d == 7 {
        '7'
    } else if d == 8 {
        '8'
    } else {
        '9'
    }
}

/// The decimal rendering of a nonnegative integer, without sign.
pub open spec fn spec_dec_digits(n: nat) -> Seq<char>
    decreases n,
{
    if n < 10 {
        seq![digit_char(n)]
    } else {
        spec_dec_digits(n / 10) + seq![digit_char(n % 10)]
    }
}

/// The decimal rendering of an integer, with a leading minus sign when
/// negative.
pub open spec fn spec_int_dec(v: int) -> Seq<char> {
    if v < 0 {
        seq!['-'] + spec_dec_digits((-v) as nat)
    } else {
        spec_dec_digits(v as nat)
    }
}

fn digit_str(d: u64) -> (r: &'static str)
    requires
        d < 10,
    ensures
        r@ == seq![digit_char(d as nat)],
{
    proof {
        reveal_strlit("0");
        reveal_strlit("1");
        reveal_strlit("2");
        reveal_strlit("3");
        reveal_strlit("4");
        reveal_strlit("5");
        reveal_strlit("6");
        reveal_strlit("7");
        reveal_strlit("8");
        reveal_strlit("9");
    }
    let r = match d {
        0 => "0",
        1 => "1",
        2 => "2",
        3 => "3",
        4 => "4",
        5 => "5",
        6 => "6",
        7 => "7",
        8 => "8",
        _ => "9",
    };
    proof {
        assert(r@ =~= seq![digit_char(d as nat)]);
    }
    r
}

/// Renders an unsigned integer in decimal.
pub fn u64_to_string(n: u64) -> (r: String)
    ensures
        r@ == spec_dec_digits(n as nat),
    decreases n,
{
    if n < 10 {
        String::from_str(digit_str(n))
    } else {
        let mut s = u64_to_string(n / 10);
        s.append(digit_str(n % 10));
        s
    }
}

/// Renders a signed 32-bit integer in decimal.
pub fn i32_to_string(v: i32) -> (r: String)
    ensures
        r@ == spec_int_dec(v as int),
{
    if v >= 0 {
        u64_to_string(v as u64)
    } else {
        let magnitude = (-(v as i64)) as u64;
        let mut s = String::from_str("-");
        let digits = u64_to_string(magnitude);
        s.append(digits.as_str());
        proof {
            reveal_strlit("-");
            assert(s@ =~= seq!['-'] + spec_dec_digits(magnitude as nat));
        }
        s
    }
}

} // verus!
