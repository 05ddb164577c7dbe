//! The variable-binding layer used during evaluation: one `Environment` per
//! function-call frame, holding that frame's variable bindings, a shared
//! reference to the program's function table, and the call-depth budget that
//! remains for nested calls.

use vstd::prelude::*;
use crate::ast::{Expression, Function, SpecExpr, SpecFun, expr_view, fun_view, funs_view};
use crate::strutil::str_eq;

verus! {

/// The call-depth budget given to a whole program evaluation. Each nested
/// user-function call consumes one unit; the budget is large enough that the
/// host call stack is exhausted long before it is.
pub const MAX_CALL_DEPTH: u64 = 0xffff_ffff_ffff_ffff;

/// Variable bindings for one call frame, plus the shared, read-only function
/// table. The table is passed by reference into every frame: function bodies
/// are never copied.
pub struct Environment<'a> {
    pub variables: Vec<(String, Expression)>,
    pub functions: &'a Vec<Function>,
    pub fuel: u64,
}

/// First binding of `n` in a binding list; newer bindings stand in front.
pub open spec fn spec_vars_lookup(s: Seq<(String, Expression)>, n: Seq<char>) -> Option<Expression>
    decreases s.len(),
{
    if s.len() == 0 {
        None
    } else if s[0].0@ == n {
        Some(s[0].1)
    } else {
        spec_vars_lookup(s.drop_first(), n)
    }
}

/// The binding list as a map from variable name to bound value.
pub open spec fn vars_map(s: Seq<(String, Expression)>) -> Map<Seq<char>, SpecExpr> {
    Map::new(
        |k: Seq<char>| spec_vars_lookup(s, k) is Some,
        |k: Seq<char>|
            match spec_vars_lookup(s, k) {
                Some(e) => expr_view(e),
                None => arbitrary(),
            },
    )
}

/// First function named `n` in a function table.
pub open spec fn spec_fun_lookup(fns: Seq<SpecFun>, n: Seq<char>) -> Option<SpecFun>
    decreases fns.len(),
{
    if fns.len() == 0 {
        None
    } else if fns[0].name == n {
        Some(fns[0])
    } else {
        spec_fun_lookup(fns.drop_first(), n)
    }
}

proof fn lemma_vars_lookup_at(s: Seq<(String, Expression)>, n: Seq<char>, i: int)
    requires
        0 <= i < s.len(),
        s[i].0@ == n,
        forall|j: int| 0 <= j < i ==> (#[trigger] s[j]).0@ != n,
    ensures
        spec_vars_lookup(s, n) == Some(s[i].1),
    decreases i,
{
    if i > 0 {
        lemma_vars_lookup_at(s.drop_first(), n, i - 1);
    }
}

proof fn lemma_vars_lookup_none(s: Seq<(String, Expression)>, n: Seq<char>)
    requires
        forall|j: int| 0 <= j < s.len() ==> (#[trigger] s[j]).0@ != n,
    ensures
        spec_vars_lookup(s, n) == None::<Expression>,
    decreases s.len(),
{
    if s.len() > 0 {
        lemma_vars_lookup_none(s.drop_first(), n);
    }
}

proof fn lemma_fun_lookup_at(fns: Seq<SpecFun>, n: Seq<char>, i: int)
    requires
        0 <= i < fns.len(),
        fns[i].name == n,
        forall|j: int| 0 <= j < i ==> (#[trigger] fns[j]).name != n,
    ensures
        spec_fun_lookup(fns, n) == Some(fns[i]),
    decreases i,
{
    if i > 0 {
        lemma_fun_lookup_at(fns.drop_first(), n, i - 1);
    }
}

proof fn lemma_fun_lookup_none(fns: Seq<SpecFun>, n: Seq<char>)
    requires
        forall|j: int| 0 <= j < fns.len() ==> (#[trigger] fns[j]).name != n,
    ensures
        spec_fun_lookup(fns, n) == None::<SpecFun>,
    decreases fns.len(),
{
    if fns.len() > 0 {
        lemma_fun_lookup_none(fns.drop_first(), n);
    }
}

impl<'a> Environment<'a> {
    /// The frame's variable bindings as a map from name to value.
    pub open spec fn vars_view(&self) -> Map<Seq<char>, SpecExpr> {
        vars_map(self.variables@)
    }

    /// The shared function table as a sequence of function mirrors.
    pub open spec fn funs(&self) -> Seq<SpecFun> {
        funs_view(self.functions@)
    }

    /// A fresh top-level frame over the given function table, with no
    /// variable bindings and the full call-depth budget.
    pub fn new(functions: &'a Vec<Function>) -> (r: Self)
        ensures
            r.vars_view() == Map::<Seq<char>, SpecExpr>::empty(),
            r.functions == functions,
            r.fuel == MAX_CALL_DEPTH,
    {
        let r = Environment { variables: Vec::new(), functions, fuel: MAX_CALL_DEPTH };
        proof {
            assert(r.vars_view() =~= Map::<Seq<char>, SpecExpr>::empty());
        }
        r
    }

    /// Looks a variable up in this frame's bindings.
    pub fn get(&self, name: &str) -> (r: Option<&Expression>)
        ensures
            match r {
                Some(e) => self.vars_view().contains_key(name@) && expr_view(*e)
                    == self.vars_view()[name@],
                None => !self.vars_view().contains_key(name@),
            },
    {
        let n = self.variables.len();
        let mut i: usize = 0;
        while i < n
            invariant
                i <= n,
                n == self.variables@.len(),
                forall|j: int| 0 <= j < i ==> (#[trigger] self.variables@[j]).0@ != name@,
            decreases n - i,
        {
            if str_eq(self.variables[i].0.as_str(), name) {
                proof {
                    lemma_vars_lookup_at(self.variables@, name@, i as int);
                }
                return Some(&self.variables[i].1);
            }
            i = i + 1;
        }
        proof {
            lemma_vars_lookup_none(self.variables@, name@);
        }
        None
    }

    /// Looks a function up in the shared function table.
    pub fn get_function(&self, name: &str) -> (r: Option<&'a Function>)
        ensures
            match r {
                Some(f) => spec_fun_lookup(self.funs(), name@) == Some(fun_view(*f)),
                None => spec_fun_lookup(self.funs(), name@) == None::<SpecFun>,
            },
    {
        let n = self.functions.len();
        let mut i: usize = 0;
        while i < n
            invariant
                i <= n,
                n == self.functions@.len(),
                forall|j: int| 0 <= j < i ==> (#[trigger] self.funs()[j]).name != name@,
            decreases n - i,
        {
            if str_eq(self.functions[i].name.as_str(), name) {
                proof {
                    assert(self.funs()[i as int] == fun_view(self.functions@[i as int]));
                    lemma_fun_lookup_at(self.funs(), name@, i as int);
                }
                return Some(&self.functions[i]);
            }
            i = i + 1;
        }
        proof {
            lemma_fun_lookup_none(self.funs(), name@);
        }
        None
    }

    /// Binds `name` to `value` in this frame, overwriting any prior binding
    /// of the same name.
    pub fn insert_variable(&mut self, name: String, value: Expression)
        ensures
            final(self).vars_view() == old(self).vars_view().insert(name@, expr_view(value)),
            final(self).functions == old(self).functions,
            final(self).fuel == old(self).fuel,
    {
        let ghost old_vars = self.variables@;
        let ghost key = name@;
        let ghost val = expr_view(value);
        self.variables.insert(0, (name, value));
        proof {
            assert(self.variables@.drop_first() =~= old_vars);
            assert(self.vars_view() =~= vars_map(old_vars).insert(key, val));
        }
    }
}

} // verus!
