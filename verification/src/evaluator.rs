//! The tree-walking reference evaluator over surface S-expressions.
//!
//! Evaluation is defined twice: once as a family of specification
//! functions over `SLisp` models (`eval_s` and friends), and once as
//! executable code whose contracts say it returns exactly what the
//! specification does. Scopes are immutable association lists; a
//! binding added later shadows an earlier one.
//!
//! The specification threads explicit fuel, and every result is
//! `Err` once the fuel runs out, so evaluation of self-referential
//! programs is still a total function.

use vstd::prelude::*;
use vstd::string::StringExecFns;

use crate::sexpr::LispValue;
use crate::sexpr::SLisp;
use crate::sexpr::deep_clone_vec;
use crate::sexpr::names_of;
use crate::sexpr::smodels_of;
use crate::value::BuiltinFn;

verus! {

/// Evaluation depth available to the fixed-fuel entry points.
pub const EVAL_FUEL: u64 = 4096;

/// A scope model: name/value pairs, latest binding first in lookup.
pub type SScope = Seq<(Seq<char>, SLisp)>;

/// The root scope: the builtin table under its surface names.
pub open spec fn root_scope_s() -> SScope {
    seq![
        ("+"@, SLisp::BuiltIn(BuiltinFn::Add)),
        ("-"@, SLisp::BuiltIn(BuiltinFn::Sub)),
        ("*"@, SLisp::BuiltIn(BuiltinFn::Mul)),
        ("/"@, SLisp::BuiltIn(BuiltinFn::Div)),
        ("inc"@, SLisp::BuiltIn(BuiltinFn::Inc)),
        ("list"@, SLisp::BuiltIn(BuiltinFn::ListFn)),
    ]
}

/// Scope lookup; the latest binding of a name wins.
pub open spec fn lookup_s(sc: SScope, k: Seq<char>) -> Option<SLisp>
    decreases sc.len(),
{
    if sc.len() == 0 {
        None
    } else if sc.last().0 == k {
        Some(sc.last().1)
    } else {
        lookup_s(sc.drop_last(), k)
    }
}

/// Pairs parameter names with argument values, positionally.
pub open spec fn zip_bindings_s(ns: Seq<Seq<char>>, vs: Seq<SLisp>) -> SScope {
    Seq::new(ns.len(), |i: int| (ns[i], vs[i]))
}

/// The names of a parameter list; every element must be a symbol.
pub open spec fn symbols_of_s(items: Seq<SLisp>) -> Result<Seq<Seq<char>>, Seq<char>>
    decreases items.len(),
{
    if items.len() == 0 {
        Ok(Seq::empty())
    } else {
        match items[0] {
            SLisp::Symbol(name) => match symbols_of_s(items.drop_first()) {
                Ok(rest) => Ok(seq![name] + rest),
                Err(e) => Err(e),
            },
            _ => Err("Function arguments must be identifiers"@),
        }
    }
}

/// Parses a `(a b c)` parameter list form into its names.
pub open spec fn parse_args_s(e: SLisp) -> Result<Seq<Seq<char>>, Seq<char>> {
    match e {
        SLisp::List(items) => symbols_of_s(items),
        _ => Err("Function arguments must be a list"@),
    }
}

/// A `fn` declaration: `(fn (name params…) body…)` yields the function
/// and a scope in which the name is bound to it.
pub open spec fn fn_decl_s(rest: Seq<SLisp>, sc: SScope) -> Result<(SLisp, SScope), Seq<char>> {
    if rest.len() == 0 {
        Err("Function declaration must have a list of arguments"@)
    } else {
        match rest[0] {
            SLisp::List(sexprs) => if sexprs.len() == 0 {
                Err("Function declaration must start with a symbol"@)
            } else {
                match sexprs[0] {
                    SLisp::Symbol(func_name) => match symbols_of_s(sexprs.drop_first()) {
                        Ok(arg_names) => {
                            let function = SLisp::Function {
                                parameters: arg_names,
                                body: rest.drop_first(),
                            };
                            Ok((function, sc.push((func_name, function))))
                        },
                        Err(e) => Err(e),
                    },
                    _ => Err("Function declaration must start with a symbol"@),
                }
            },
            _ => Err("Function declaration must have a list of arguments"@),
        }
    }
}

/// What a builtin returns in the evaluator: variadic integer
/// arithmetic, `inc`, and `list`.
pub open spec fn fold_builtin_s(b: BuiltinFn, acc: i64, args: Seq<SLisp>) -> Result<
    i64,
    Seq<char>,
>
    decreases args.len(),
{
    if args.len() == 0 {
        Ok(acc)
    } else {
        match args[0] {
            SLisp::Int(x) => match b {
                BuiltinFn::Add => fold_builtin_s(b, acc.wrapping_add(x), args.drop_first()),
                BuiltinFn::Sub => fold_builtin_s(b, acc.wrapping_sub(x), args.drop_first()),
                BuiltinFn::Mul => fold_builtin_s(b, acc.wrapping_mul(x), args.drop_first()),
                BuiltinFn::Div => if x == 0 {
                    Err("Division by zero"@)
                } else {
                    fold_builtin_s(b, crate::vm::div_wrap(acc, x), args.drop_first())
                },
                _ => Err("builtin expects integer arguments"@),
            },
            _ => Err("builtin expects integer arguments"@),
        }
    }
}

pub open spec fn apply_builtin_s(b: BuiltinFn, args: Seq<SLisp>) -> Result<SLisp, Seq<char>> {
    match b {
        BuiltinFn::Add => match fold_builtin_s(b, 0, args) {
            Ok(v) => Ok(SLisp::Int(v)),
            Err(e) => Err(e),
        },
        BuiltinFn::Mul => match fold_builtin_s(b, 1, args) {
            Ok(v) => Ok(SLisp::Int(v)),
            Err(e) => Err(e),
        },
        BuiltinFn::Sub | BuiltinFn::Div => {
            if args.len() == 0 {
                Err("builtin expects at least one argument"@)
            } else {
                match args[0] {
                    SLisp::Int(first) => match fold_builtin_s(b, first, args.drop_first()) {
                        Ok(v) => Ok(SLisp::Int(v)),
                        Err(e) => Err(e),
                    },
                    _ => Err("builtin expects integer arguments"@),
                }
            }
        },
        BuiltinFn::Inc => {
            if args.len() != 1 {
                Err("inc takes exactly one argument"@)
            } else {
                match args[0] {
                    SLisp::Int(x) => Ok(SLisp::Int(x.wrapping_add(1))),
                    _ => Err("builtin expects integer arguments"@),
                }
            }
        },
        BuiltinFn::ListFn => Ok(SLisp::List(args)),
    }
}

/// Evaluates one expression. Lists dispatch to `eval_list_s`; a quote
/// yields its datum unevaluated; a symbol is looked up; everything
/// else evaluates to itself.
pub open spec fn eval_s(e: SLisp, sc: SScope, fuel: nat) -> Result<(SLisp, SScope), Seq<char>>
    decreases fuel, 0int,
{
    if fuel == 0 {
        Err("recursion depth exceeded"@)
    } else {
        match e {
            SLisp::List(items) => eval_list_s(items, sc, (fuel - 1) as nat),
            SLisp::QuasiQuotedList(items) => match eval_quasi_s(items, sc, (fuel - 1) as nat) {
                Ok(vs) => Ok((SLisp::List(vs), sc)),
                Err(err) => Err(err),
            },
            SLisp::Quote(inner) => Ok((*inner, sc)),
            SLisp::Symbol(sym) => if sym == "nil"@ {
                Ok((SLisp::Nil, sc))
            } else {
                match lookup_s(sc, sym) {
                    Some(v) => Ok((v, sc)),
                    None => Err("Symbol "@ + sym + " not found in scope"@),
                }
            },
            _ => Ok((e, sc)),
        }
    }
}

/// Evaluates the elements of a quasi-quoted list: only comma-unquoted
/// elements evaluate, the rest pass through.
pub open spec fn eval_quasi_s(items: Seq<SLisp>, sc: SScope, fuel: nat) -> Result<
    Seq<SLisp>,
    Seq<char>,
>
    decreases fuel, items.len(),
{
    if items.len() == 0 {
        Ok(Seq::empty())
    } else if fuel == 0 {
        Err("recursion depth exceeded"@)
    } else {
        let head = match items[0] {
            SLisp::CommaUnquote(inner) => match eval_s(*inner, sc, (fuel - 1) as nat) {
                Ok(r) => Ok(r.0),
                Err(e) => Err(e),
            },
            _ => Ok(items[0]),
        };
        match head {
            Ok(h) => match eval_quasi_s(items.drop_first(), sc, fuel) {
                Ok(rest) => Ok(seq![h] + rest),
                Err(e) => Err(e),
            },
            Err(e) => Err(e),
        }
    }
}

/// Evaluates each argument in order, left to right, under one scope.
pub open spec fn eval_args_s(items: Seq<SLisp>, sc: SScope, fuel: nat) -> Result<
    Seq<SLisp>,
    Seq<char>,
>
    decreases fuel, items.len(),
{
    if items.len() == 0 {
        Ok(Seq::empty())
    } else if fuel == 0 {
        Err("recursion depth exceeded"@)
    } else {
        match eval_s(items[0], sc, (fuel - 1) as nat) {
            Ok(r) => match eval_args_s(items.drop_first(), sc, fuel) {
                Ok(rest) => Ok(seq![r.0] + rest),
                Err(e) => Err(e),
            },
            Err(e) => Err(e),
        }
    }
}

/// Evaluates `(name expr)` binding forms for `let`.
pub open spec fn gen_let_bindings_s(items: Seq<SLisp>, sc: SScope, fuel: nat) -> Result<
    SScope,
    Seq<char>,
>
    decreases fuel, items.len(),
{
    if items.len() == 0 {
        Ok(Seq::empty())
    } else if fuel == 0 {
        Err("recursion depth exceeded"@)
    } else {
        match items[0] {
            SLisp::List(pair) => if pair.len() != 2 {
                Err("let binding must be a list of two elements"@)
            } else {
                match pair[0] {
                    SLisp::Symbol(ident) => match eval_s(pair[1], sc, (fuel - 1) as nat) {
                        Ok(r) => match gen_let_bindings_s(items.drop_first(), sc, fuel) {
                            Ok(rest) => Ok(seq![(ident, r.0)] + rest),
                            Err(e) => Err(e),
                        },
                        Err(e) => Err(e),
                    },
                    _ => Err("left side of let binding must be an identifier"@),
                }
            },
            _ => Err("All bindings must be lists"@),
        }
    }
}

/// Evaluates a body in sequence, threading the scope; yields the last
/// value, or nil for an empty body.
pub open spec fn sequential_eval_s(items: Seq<SLisp>, sc: SScope, fuel: nat) -> Result<
    (SLisp, SScope),
    Seq<char>,
>
    decreases fuel, items.len(),
{
    if items.len() == 0 {
        Ok((SLisp::Nil, sc))
    } else if fuel == 0 {
        Err("recursion depth exceeded"@)
    } else {
        match eval_s(items[0], sc, (fuel - 1) as nat) {
            Ok(r) => if items.len() == 1 {
                Ok(r)
            } else {
                sequential_eval_s(items.drop_first(), r.1, fuel)
            },
            Err(e) => Err(e),
        }
    }
}

/// Evaluates a compound form: special forms dispatch on the head
/// symbol, a callable head applies, and any other head is evaluated
/// and the form retried with the result in its place.
pub open spec fn eval_list_s(items: Seq<SLisp>, sc: SScope, fuel: nat) -> Result<
    (SLisp, SScope),
    Seq<char>,
>
    decreases fuel, 0int,
{
    if fuel == 0 {
        Err("recursion depth exceeded"@)
    } else if items.len() == 0 {
        Ok((SLisp::List(Seq::empty()), sc))
    } else {
        let first = items[0];
        let rest = items.drop_first();
        match first {
            SLisp::Quote(inner) => Ok((*inner, sc)),
            SLisp::Symbol(sym) => {
                if sym == "lambda"@ {
                    if rest.len() == 0 {
                        Err("Function arguments must be a list"@)
                    } else {
                        match parse_args_s(rest[0]) {
                            Ok(params) => Ok(
                                (
                                    SLisp::Function {
                                        parameters: params,
                                        body: rest.drop_first(),
                                    },
                                    sc,
                                ),
                            ),
                            Err(e) => Err(e),
                        }
                    }
                } else if sym == "macro"@ {
                    if rest.len() < 2 {
                        Err("Function arguments must be a list"@)
                    } else {
                        match parse_args_s(rest[0]) {
                            Ok(params) => Ok(
                                (
                                    SLisp::Macro {
                                        parameters: params,
                                        body: Box::new(rest[1]),
                                    },
                                    sc,
                                ),
                            ),
                            Err(e) => Err(e),
                        }
                    }
                } else if sym == "if"@ {
                    if rest.len() != 3 {
                        Err("malformed if statement: Must have 3 arguments"@)
                    } else {
                        match eval_s(rest[0], sc, (fuel - 1) as nat) {
                            Ok(c) => match c.0 {
                                SLisp::Bool(cond) => eval_s(
                                    if cond {
                                        rest[1]
                                    } else {
                                        rest[2]
                                    },
                                    sc,
                                    (fuel - 1) as nat,
                                ),
                                _ => Err("If condition must be a boolean"@),
                            },
                            Err(e) => Err(e),
                        }
                    }
                } else if sym == "let"@ {
                    if rest.len() == 0 {
                        Err("let must have at least one argument"@)
                    } else {
                        match gen_let_bindings_s(
                            rest.drop_last(),
                            sc,
                            (fuel - 1) as nat,
                        ) {
                            Ok(bindings) => eval_s(rest.last(), sc + bindings, (fuel - 1) as nat),
                            Err(e) => Err(e),
                        }
                    }
                } else if sym == "fn"@ {
                    // besides the function's own name, the head symbol
                    // itself ends up bound to the new function
                    match fn_decl_s(rest, sc) {
                        Ok(r) => Ok((r.0, r.1.push((sym, r.0)))),
                        Err(e) => Err(e),
                    }
                } else if sym == "quote"@ {
                    if items.len() == 2 {
                        Ok((items[1], sc))
                    } else {
                        Err("quote must be called with one argument"@)
                    }
                } else if sym == "nil"@ {
                    Err("cannot call 'nil'"@)
                } else {
                    match eval_s(first, sc, (fuel - 1) as nat) {
                        Ok(h) => eval_list_s(seq![h.0] + rest, sc, (fuel - 1) as nat),
                        Err(e) => Err(e),
                    }
                }
            },
            SLisp::Function { parameters, body } => {
                match eval_args_s(rest, sc, (fuel - 1) as nat) {
                    Ok(args) => if parameters.len() != args.len() {
                        Err("Function called with incorrect number of arguments"@)
                    } else {
                        sequential_eval_s(
                            body,
                            sc + zip_bindings_s(parameters, args),
                            (fuel - 1) as nat,
                        )
                    },
                    Err(e) => Err(e),
                }
            },
            SLisp::Macro { parameters, body } => {
                if parameters.len() != rest.len() {
                    Err("Macro called with incorrect number of arguments"@)
                } else {
                    match eval_s(*body, sc + zip_bindings_s(parameters, rest), (fuel - 1) as nat) {
                        Ok(expanded) => match eval_s(expanded.0, sc, (fuel - 1) as nat) {
                            Ok(r) => Ok((r.0, sc)),
                            Err(e) => Err(e),
                        },
                        Err(e) => Err(e),
                    }
                }
            },
            // a compound head is evaluated and then applied to the
            // tail of the head's own form
            SLisp::List(inner) => if inner.len() == 0 {
                Err("cannot call an empty list"@)
            } else {
                match eval_list_s(inner, sc, (fuel - 1) as nat) {
                    Ok(h) => eval_list_s(
                        seq![h.0] + inner.drop_first(),
                        sc,
                        (fuel - 1) as nat,
                    ),
                    Err(e) => Err(e),
                }
            },
            SLisp::QuasiQuotedList(_) => Err("cannot call a quasi-quoted list"@),
            SLisp::BuiltIn(b) => {
                match eval_args_s(rest, sc, (fuel - 1) as nat) {
                    Ok(args) => match apply_builtin_s(b, args) {
                        Ok(v) => Ok((v, sc)),
                        Err(e) => Err(e),
                    },
                    Err(e) => Err(e),
                }
            },
            SLisp::CommaUnquote(_) => Err("CommaUnquote in wrong context"@),
            SLisp::Str(_) => Err("Cannot call string value"@),
            SLisp::Bool(_) => Err("Cannot call boolean value"@),
            SLisp::Int(_) => Err("Cannot call int value"@),
            SLisp::Nil => Err("Cannot call nil"@),
        }
    }
}


/// The outcome of evaluation matches its model: same success value
/// and scope, or the same error text.
pub open spec fn res_models(
    r: Result<(LispValue, Scope), String>,
    rs: Result<(SLisp, SScope), Seq<char>>,
) -> bool {
    match (r, rs) {
        (Ok(p), Ok(sp)) => p.0.model() == sp.0 && p.1.model() == sp.1,
        (Err(m), Err(sm)) => m@ == sm,
        _ => false,
    }
}

/// The scope model of an exec binding vector.
pub open spec fn bindings_model(v: Vec<(String, LispValue)>) -> SScope {
    Seq::new(v@.len(), |i: int| (v@[i].0@, v@[i].1.model()))
}

/// An immutable association of names to values; later entries shadow
/// earlier ones.
pub struct Scope {
    pub bindings: Vec<(String, LispValue)>,
}

impl Scope {
    pub open spec fn model(self) -> SScope {
        bindings_model(self.bindings)
    }

    /// A scope holding exactly the builtin table.
    pub fn new() -> (s: Scope)
        ensures
            s.model() == root_scope_s(),
    {
        let mut bindings: Vec<(String, LispValue)> = Vec::new();
        bindings.push((BuiltinFn::Add.name().to_owned(), LispValue::BuiltIn(BuiltinFn::Add)));
        bindings.push((BuiltinFn::Sub.name().to_owned(), LispValue::BuiltIn(BuiltinFn::Sub)));
        bindings.push((BuiltinFn::Mul.name().to_owned(), LispValue::BuiltIn(BuiltinFn::Mul)));
        bindings.push((BuiltinFn::Div.name().to_owned(), LispValue::BuiltIn(BuiltinFn::Div)));
        bindings.push((BuiltinFn::Inc.name().to_owned(), LispValue::BuiltIn(BuiltinFn::Inc)));
        bindings.push(
            (BuiltinFn::ListFn.name().to_owned(), LispValue::BuiltIn(BuiltinFn::ListFn)),
        );
        let s = Scope { bindings };
        proof {
            assert(s.model() =~= root_scope_s());
        }
        s
    }

    /// A structural copy with the same model.
    pub fn deep_clone(&self) -> (r: Scope)
        ensures
            r.model() == self.model(),
    {
        let mut out: Vec<(String, LispValue)> = Vec::new();
        let mut i: usize = 0;
        while i < self.bindings.len()
            invariant
                i <= self.bindings@.len(),
                out@.len() == i,
                forall|j: int|
                    0 <= j < i ==> out@[j].0@ == self.bindings@[j].0@ && out@[j].1.model()
                        == self.bindings@[j].1.model(),
            decreases self.bindings@.len() - i,
        {
            let name: String = self.bindings[i].0.clone();
            let value: LispValue = self.bindings[i].1.deep_clone();
            out.push((name, value));
            i = i + 1;
        }
        let r = Scope { bindings: out };
        proof {
            assert(r.model() =~= self.model());
        }
        r
    }

    /// This scope extended with further bindings, which shadow.
    pub fn with_bindings(&self, extra: &Vec<(String, LispValue)>) -> (r: Scope)
        ensures
            r.model() == self.model() + bindings_model(*extra),
    {
        let n: usize = self.bindings.len();
        let mut out: Vec<(String, LispValue)> = Vec::new();
        let mut i: usize = 0;
        while i < n
            invariant
                n == self.bindings@.len(),
                i <= n,
                out@.len() == i,
                forall|j: int|
                    0 <= j < i ==> out@[j].0@ == self.bindings@[j].0@ && out@[j].1.model()
                        == self.bindings@[j].1.model(),
            decreases n - i,
        {
            let name: String = self.bindings[i].0.clone();
            let value: LispValue = self.bindings[i].1.deep_clone();
            out.push((name, value));
            i = i + 1;
        }
        let mut k: usize = 0;
        while k < extra.len()
            invariant
                n == self.bindings@.len(),
                k <= extra@.len(),
                out@.len() == n + k,
                forall|j: int|
                    0 <= j < n ==> out@[j].0@ == self.bindings@[j].0@ && out@[j].1.model()
                        == self.bindings@[j].1.model(),
                forall|j: int|
                    0 <= j < k ==> out@[n + j].0@ == extra@[j].0@ && out@[n + j].1.model()
                        == extra@[j].1.model(),
            decreases extra@.len() - k,
        {
            let name: String = extra[k].0.clone();
            let value: LispValue = extra[k].1.deep_clone();
            out.push((name, value));
            k = k + 1;
        }
        let r = Scope { bindings: out };
        proof {
            assert(r.model() =~= self.model() + bindings_model(*extra));
        }
        r
    }
}

/// Whether a name equals a literal.
fn str_is(s: &String, lit: &str) -> (r: bool)
    ensures
        r == (s@ == lit@),
{
    let t: String = lit.to_owned();
    s.eq(&t)
}

/// A fresh owned error message.
fn err_str(lit: &str) -> (r: String)
    ensures
        r@ == lit@,
{
    lit.to_owned()
}

/// Looks a symbol up, newest binding first.
fn lookup(scope: &Scope, name: &String) -> (r: Option<LispValue>)
    ensures
        match lookup_s(scope.model(), name@) {
            Some(sv) => r matches Some(v) && v.model() == sv,
            None => r is None,
        },
{
    let ghost m = scope.model();
    let mut i: usize = scope.bindings.len();
    proof {
        assert(m.subrange(0, i as int) =~= m);
    }
    while i > 0
        invariant
            i <= scope.bindings@.len(),
            m == scope.model(),
            lookup_s(m.subrange(0, i as int), name@) == lookup_s(m, name@),
        decreases i,
    {
        i = i - 1;
        if scope.bindings[i].0.eq(name) {
            proof {
                assert(m.subrange(0, i + 1).last() == m[i as int]);
            }
            return Some(scope.bindings[i].1.deep_clone());
        }
        proof {
            assert(m.subrange(0, i + 1).drop_last() =~= m.subrange(0, i as int));
            assert(m.subrange(0, i + 1).last() == m[i as int]);
        }
    }
    proof {
        assert(m.subrange(0, 0) =~= Seq::<(Seq<char>, SLisp)>::empty());
    }
    None
}

/// Structural copies of the values from `from` onward.
fn clone_range(items: &Vec<LispValue>, from: usize) -> (r: Vec<LispValue>)
    requires
        from <= items@.len(),
    ensures
        smodels_of(r) == smodels_of(*items).skip(from as int),
        r@.len() == items@.len() - from,
{
    let mut out: Vec<LispValue> = Vec::new();
    let mut i: usize = from;
    while i < items.len()
        invariant
            from <= i <= items@.len(),
            out@.len() == i - from,
            forall|j: int| 0 <= j < i - from ==> out[j].model() == items[from + j].model(),
        decreases items@.len() - i,
    {
        let item: LispValue = items[i].deep_clone();
        out.push(item);
        i = i + 1;
    }
    proof {
        assert(smodels_of(out) =~= smodels_of(*items).skip(from as int));
    }
    out
}

/// Parameter names from `items[from..]`; each must be a symbol.
fn symbols_from(items: &Vec<LispValue>, from: usize) -> (r: Result<Vec<String>, String>)
    requires
        from <= items@.len(),
    ensures
        match (r, symbols_of_s(smodels_of(*items).skip(from as int))) {
            (Ok(v), Ok(ns)) => names_of(v) == ns,
            (Err(m), Err(sm)) => m@ == sm,
            _ => false,
        },
    decreases items@.len() - from,
{
    let ghost tail = smodels_of(*items).skip(from as int);
    if from == items.len() {
        let out: Vec<String> = Vec::new();
        proof {
            assert(tail.len() == 0);
            assert(names_of(out) =~= Seq::<Seq<char>>::empty());
        }
        return Ok(out);
    }
    proof {
        assert(tail[0] == items[from as int].model());
        assert(tail.drop_first() =~= smodels_of(*items).skip(from + 1));
    }
    match &items[from] {
        LispValue::Symbol(name) => {
            let rest: Vec<String> = match symbols_from(items, from + 1) {
                Ok(v) => v,
                Err(e) => {
                    return Err(e);
                },
            };
            let mut out: Vec<String> = Vec::new();
            out.push(name.clone());
            let mut k: usize = 0;
            while k < rest.len()
                invariant
                    k <= rest@.len(),
                    out@.len() == 1 + k,
                    out@[0]@ == name@,
                    forall|j: int| 0 <= j < k ==> out@[1 + j]@ == rest@[j]@,
                decreases rest@.len() - k,
            {
                let nm: String = rest[k].clone();
                out.push(nm);
                k = k + 1;
            }
            proof {
                assert(names_of(out) =~= seq![name@] + names_of(rest));
            }
            Ok(out)
        },
        _ => Err(err_str("Function arguments must be identifiers")),
    }
}

/// Parses a parameter-list form.
fn parse_args(e: &LispValue) -> (r: Result<Vec<String>, String>)
    ensures
        match (r, parse_args_s(e.model())) {
            (Ok(v), Ok(ns)) => names_of(v) == ns,
            (Err(m), Err(sm)) => m@ == sm,
            _ => false,
        },
{
    match e {
        LispValue::List(items) => {
            proof {
                assert(smodels_of(*items).skip(0) =~= smodels_of(*items));
            }
            symbols_from(items, 0)
        },
        _ => Err(err_str("Function arguments must be a list")),
    }
}

/// Pairs parameter names with values, positionally.
fn make_bindings(params: &Vec<String>, args: &Vec<LispValue>) -> (r: Vec<(String, LispValue)>)
    requires
        params@.len() == args@.len(),
    ensures
        bindings_model(r) == zip_bindings_s(names_of(*params), smodels_of(*args)),
{
    let mut out: Vec<(String, LispValue)> = Vec::new();
    let mut i: usize = 0;
    while i < params.len()
        invariant
            i <= params@.len(),
            params@.len() == args@.len(),
            out@.len() == i,
            forall|j: int|
                0 <= j < i ==> out@[j].0@ == params@[j]@ && out@[j].1.model() == args[j].model(),
        decreases params@.len() - i,
    {
        let name: String = params[i].clone();
        let value: LispValue = args[i].deep_clone();
        out.push((name, value));
        i = i + 1;
    }
    proof {
        assert(bindings_model(out) =~= zip_bindings_s(names_of(*params), smodels_of(*args)));
    }
    out
}

/// Applies a builtin to already-evaluated arguments.
fn apply_builtin_lisp(b: BuiltinFn, args: &Vec<LispValue>) -> (r: Result<LispValue, String>)
    ensures
        match (r, apply_builtin_s(b, smodels_of(*args))) {
            (Ok(v), Ok(sv)) => v.model() == sv,
            (Err(m), Err(sm)) => m@ == sm,
            _ => false,
        },
{
    match b {
        BuiltinFn::ListFn => Ok(LispValue::List(deep_clone_vec(args))),
        BuiltinFn::Inc => {
            if args.len() != 1 {
                return Err(err_str("inc takes exactly one argument"));
            }
            proof {
                assert(smodels_of(*args)[0] == args[0].model());
            }
            match &args[0] {
                LispValue::Int(x) => Ok(LispValue::Int(x.wrapping_add(1))),
                _ => Err(err_str("builtin expects integer arguments")),
            }
        },
        BuiltinFn::Add => {
            proof {
                assert(smodels_of(*args).subrange(0, args@.len() as int) =~= smodels_of(*args));
            }
            fold_builtin(b, 0, args, 0)
        },
        BuiltinFn::Mul => {
            proof {
                assert(smodels_of(*args).subrange(0, args@.len() as int) =~= smodels_of(*args));
            }
            fold_builtin(b, 1, args, 0)
        },
        BuiltinFn::Sub | BuiltinFn::Div => {
            if args.len() == 0 {
                return Err(err_str("builtin expects at least one argument"));
            }
            proof {
                assert(smodels_of(*args)[0] == args[0].model());
                assert(smodels_of(*args).subrange(1, args@.len() as int) =~= smodels_of(
                    *args,
                ).drop_first());
            }
            match &args[0] {
                LispValue::Int(first) => fold_builtin(b, *first, args, 1),
                _ => Err(err_str("builtin expects integer arguments")),
            }
        },
    }
}

/// The iterative fold behind the variadic integer builtins.
fn fold_builtin(b: BuiltinFn, start_acc: i64, args: &Vec<LispValue>, from: usize) -> (r: Result<
    LispValue,
    String,
>)
    requires
        from <= args@.len(),
        b == BuiltinFn::Add || b == BuiltinFn::Sub || b == BuiltinFn::Mul || b == BuiltinFn::Div,
    ensures
        match (
            r,
            fold_builtin_s(b, start_acc, smodels_of(*args).subrange(from as int, args@.len() as int)),
        ) {
            (Ok(v), Ok(sv)) => v.model() == SLisp::Int(sv),
            (Err(m), Err(sm)) => m@ == sm,
            _ => false,
        },
{
    let ghost sm = smodels_of(*args);
    let mut acc: i64 = start_acc;
    let mut i: usize = from;
    while i < args.len()
        invariant
            from <= i <= args@.len(),
            sm == smodels_of(*args),
            b == BuiltinFn::Add || b == BuiltinFn::Sub || b == BuiltinFn::Mul || b
                == BuiltinFn::Div,
            fold_builtin_s(b, start_acc, sm.subrange(from as int, sm.len() as int))
                == fold_builtin_s(b, acc, sm.subrange(i as int, sm.len() as int)),
        decreases args@.len() - i,
    {
        proof {
            assert(sm.subrange(i as int, sm.len() as int)[0] == sm[i as int]);
            assert(sm[i as int] == args[i as int].model());
            assert(sm.subrange(i as int, sm.len() as int).drop_first() =~= sm.subrange(
                i + 1,
                sm.len() as int,
            ));
        }
        let x: i64 = match &args[i] {
            LispValue::Int(x) => *x,
            _ => {
                return Err(err_str("builtin expects integer arguments"));
            },
        };
        acc = match b {
            BuiltinFn::Add => acc.wrapping_add(x),
            BuiltinFn::Sub => acc.wrapping_sub(x),
            BuiltinFn::Mul => acc.wrapping_mul(x),
            _ => {
                if x == 0 {
                    return Err(err_str("Division by zero"));
                }
                match acc.checked_div(x) {
                    Some(q) => q,
                    None => i64::MIN,
                }
            },
        };
        i = i + 1;
    }
    proof {
        assert(sm.subrange(i as int, sm.len() as int).len() == 0);
    }
    Ok(LispValue::Int(acc))
}


/// Evaluates one expression under a scope; returns exactly what the
/// specification `eval_s` does at the same fuel.
pub fn eval_fueled(e: &LispValue, scope: &Scope, fuel: u64) -> (r: Result<
    (LispValue, Scope),
    String,
>)
    ensures
        res_models(r, eval_s(e.model(), scope.model(), fuel as nat)),
    decreases fuel, 0int,
{
    if fuel == 0 {
        return Err(err_str("recursion depth exceeded"));
    }
    match e {
        LispValue::List(items) => eval_list_fueled(items, scope, fuel - 1),
        LispValue::QuasiQuotedList(items) => {
            proof {
                assert(smodels_of(*items).skip(0) =~= smodels_of(*items));
            }
            match eval_quasi(items, 0, scope, fuel - 1) {
                Ok(vs) => Ok((LispValue::List(vs), scope.deep_clone())),
                Err(err) => Err(err),
            }
        },
        LispValue::Quote(inner) => Ok(((*inner).deep_clone(), scope.deep_clone())),
        LispValue::Symbol(sym) => {
            if str_is(sym, "nil") {
                Ok((LispValue::Nil, scope.deep_clone()))
            } else {
                match lookup(scope, sym) {
                    Some(v) => Ok((v, scope.deep_clone())),
                    None => {
                        let mut m: String = err_str("Symbol ");
                        m.append(sym.as_str());
                        m.append(" not found in scope");
                        Err(m)
                    },
                }
            }
        },
        _ => Ok((e.deep_clone(), scope.deep_clone())),
    }
}

/// Evaluates the elements of a quasi-quoted list from `from` onward.
fn eval_quasi(items: &Vec<LispValue>, from: usize, scope: &Scope, fuel: u64) -> (r: Result<
    Vec<LispValue>,
    String,
>)
    requires
        from <= items@.len(),
    ensures
        match (r, eval_quasi_s(smodels_of(*items).skip(from as int), scope.model(), fuel as nat)) {
            (Ok(vs), Ok(svs)) => smodels_of(vs) == svs,
            (Err(m), Err(sm)) => m@ == sm,
            _ => false,
        },
    decreases fuel, items@.len() - from,
{
    let ghost tail = smodels_of(*items).skip(from as int);
    if from == items.len() {
        let out: Vec<LispValue> = Vec::new();
        proof {
            assert(smodels_of(out) =~= Seq::<SLisp>::empty());
        }
        return Ok(out);
    }
    if fuel == 0 {
        return Err(err_str("recursion depth exceeded"));
    }
    proof {
        assert(tail[0] == items[from as int].model());
        assert(tail.drop_first() =~= smodels_of(*items).skip(from + 1));
    }
    let head: LispValue = match &items[from] {
        LispValue::CommaUnquote(inner) => {
            match eval_fueled(inner, scope, fuel - 1) {
                Ok(p) => p.0,
                Err(e) => {
                    return Err(e);
                },
            }
        },
        other => other.deep_clone(),
    };
    let rest: Vec<LispValue> = match eval_quasi(items, from + 1, scope, fuel) {
        Ok(v) => v,
        Err(e) => {
            return Err(e);
        },
    };
    let mut out: Vec<LispValue> = Vec::new();
    out.push(head);
    let ghost head_model = out@[0].model();
    let mut k: usize = 0;
    while k < rest.len()
        invariant
            k <= rest@.len(),
            out@.len() == 1 + k,
            out@[0].model() == head_model,
            forall|j: int| 0 <= j < k ==> out[1 + j].model() == rest[j].model(),
        decreases rest@.len() - k,
    {
        let item: LispValue = rest[k].deep_clone();
        out.push(item);
        k = k + 1;
    }
    proof {
        assert(smodels_of(out) =~= seq![head_model] + smodels_of(rest));
    }
    Ok(out)
}

/// Evaluates arguments `items[from..]` in order under one scope.
fn eval_args(items: &Vec<LispValue>, from: usize, scope: &Scope, fuel: u64) -> (r: Result<
    Vec<LispValue>,
    String,
>)
    requires
        from <= items@.len(),
    ensures
        match (r, eval_args_s(smodels_of(*items).skip(from as int), scope.model(), fuel as nat)) {
            (Ok(vs), Ok(svs)) => smodels_of(vs) == svs,
            (Err(m), Err(sm)) => m@ == sm,
            _ => false,
        },
    decreases fuel, items@.len() - from,
{
    let ghost tail = smodels_of(*items).skip(from as int);
    if from == items.len() {
        let out: Vec<LispValue> = Vec::new();
        proof {
            assert(smodels_of(out) =~= Seq::<SLisp>::empty());
        }
        return Ok(out);
    }
    if fuel == 0 {
        return Err(err_str("recursion depth exceeded"));
    }
    proof {
        assert(tail[0] == items[from as int].model());
        assert(tail.drop_first() =~= smodels_of(*items).skip(from + 1));
    }
    let head: LispValue = match eval_fueled(&items[from], scope, fuel - 1) {
        Ok(p) => p.0,
        Err(e) => {
            return Err(e);
        },
    };
    let rest: Vec<LispValue> = match eval_args(items, from + 1, scope, fuel) {
        Ok(v) => v,
        Err(e) => {
            return Err(e);
        },
    };
    let mut out: Vec<LispValue> = Vec::new();
    out.push(head);
    let ghost head_model = out@[0].model();
    let mut k: usize = 0;
    while k < rest.len()
        invariant
            k <= rest@.len(),
            out@.len() == 1 + k,
            out@[0].model() == head_model,
            forall|j: int| 0 <= j < k ==> out[1 + j].model() == rest[j].model(),
        decreases rest@.len() - k,
    {
        let item: LispValue = rest[k].deep_clone();
        out.push(item);
        k = k + 1;
    }
    proof {
        assert(smodels_of(out) =~= seq![head_model] + smodels_of(rest));
    }
    Ok(out)
}

/// Evaluates the `(name expr)` binding forms `items[from..to]`.
fn gen_let_bindings(
    items: &Vec<LispValue>,
    from: usize,
    to: usize,
    scope: &Scope,
    fuel: u64,
) -> (r: Result<Vec<(String, LispValue)>, String>)
    requires
        from <= to <= items@.len(),
    ensures
        match (
            r,
            gen_let_bindings_s(
                smodels_of(*items).subrange(from as int, to as int),
                scope.model(),
                fuel as nat,
            ),
        ) {
            (Ok(bs), Ok(sbs)) => bindings_model(bs) == sbs,
            (Err(m), Err(sm)) => m@ == sm,
            _ => false,
        },
    decreases fuel, to - from,
{
    let ghost tail = smodels_of(*items).subrange(from as int, to as int);
    if from == to {
        let out: Vec<(String, LispValue)> = Vec::new();
        proof {
            assert(bindings_model(out) =~= Seq::<(Seq<char>, SLisp)>::empty());
        }
        return Ok(out);
    }
    if fuel == 0 {
        return Err(err_str("recursion depth exceeded"));
    }
    proof {
        assert(tail[0] == items[from as int].model());
        assert(tail.drop_first() =~= smodels_of(*items).subrange(from + 1, to as int));
    }
    let (name, value): (String, LispValue) = match &items[from] {
        LispValue::List(pair) => {
            if pair.len() != 2 {
                return Err(err_str("let binding must be a list of two elements"));
            }
            proof {
                assert(smodels_of(*pair)[0] == pair[0].model());
                assert(smodels_of(*pair)[1] == pair[1].model());
            }
            match &pair[0] {
                LispValue::Symbol(ident) => {
                    let v: LispValue = match eval_fueled(&pair[1], scope, fuel - 1) {
                        Ok(p) => p.0,
                        Err(e) => {
                            return Err(e);
                        },
                    };
                    (ident.clone(), v)
                },
                _ => {
                    return Err(err_str("left side of let binding must be an identifier"));
                },
            }
        },
        _ => {
            return Err(err_str("All bindings must be lists"));
        },
    };
    let rest: Vec<(String, LispValue)> = match gen_let_bindings(items, from + 1, to, scope, fuel) {
        Ok(v) => v,
        Err(e) => {
            return Err(e);
        },
    };
    let mut out: Vec<(String, LispValue)> = Vec::new();
    let ghost name_view = name@;
    let ghost value_model = value.model();
    out.push((name, value));
    let mut k: usize = 0;
    while k < rest.len()
        invariant
            k <= rest@.len(),
            out@.len() == 1 + k,
            out@[0].0@ == name_view,
            out@[0].1.model() == value_model,
            forall|j: int|
                0 <= j < k ==> out@[1 + j].0@ == rest@[j].0@ && out@[1 + j].1.model()
                    == rest@[j].1.model(),
        decreases rest@.len() - k,
    {
        let nm: String = rest[k].0.clone();
        let vl: LispValue = rest[k].1.deep_clone();
        out.push((nm, vl));
        k = k + 1;
    }
    proof {
        assert(bindings_model(out) =~= seq![(name_view, value_model)] + bindings_model(rest));
    }
    Ok(out)
}

/// Evaluates a body in sequence from `from`, threading the scope.
fn sequential_eval_fueled(items: &Vec<LispValue>, from: usize, scope: Scope, fuel: u64) -> (r:
    Result<(LispValue, Scope), String>)
    requires
        from <= items@.len(),
    ensures
        res_models(
            r,
            sequential_eval_s(smodels_of(*items).skip(from as int), scope.model(), fuel as nat),
        ),
    decreases fuel, items@.len() - from,
{
    let ghost tail = smodels_of(*items).skip(from as int);
    if from == items.len() {
        return Ok((LispValue::Nil, scope));
    }
    if fuel == 0 {
        return Err(err_str("recursion depth exceeded"));
    }
    proof {
        assert(tail[0] == items[from as int].model());
        assert(tail.drop_first() =~= smodels_of(*items).skip(from + 1));
    }
    let (v, sc2): (LispValue, Scope) = match eval_fueled(&items[from], &scope, fuel - 1) {
        Ok(p) => p,
        Err(e) => {
            return Err(e);
        },
    };
    if from + 1 == items.len() {
        Ok((v, sc2))
    } else {
        sequential_eval_fueled(items, from + 1, sc2, fuel)
    }
}

/// A `fn` declaration over `items[1..]`: builds the function value
/// and the scope that binds its name to it.
fn fn_decl(items: &Vec<LispValue>, scope: &Scope) -> (r: Result<(LispValue, Scope), String>)
    requires
        items@.len() >= 1,
    ensures
        res_models(r, fn_decl_s(smodels_of(*items).drop_first(), scope.model())),
{
    let ghost rest = smodels_of(*items).drop_first();
    if items.len() == 1 {
        return Err(err_str("Function declaration must have a list of arguments"));
    }
    proof {
        assert(rest[0] == items[1].model());
    }
    match &items[1] {
        LispValue::List(sexprs) => {
            if sexprs.len() == 0 {
                return Err(err_str("Function declaration must start with a symbol"));
            }
            proof {
                assert(smodels_of(*sexprs)[0] == sexprs[0].model());
                assert(smodels_of(*sexprs).drop_first() =~= smodels_of(*sexprs).skip(1));
            }
            match &sexprs[0] {
                LispValue::Symbol(func_name) => {
                    let arg_names: Vec<String> = match symbols_from(sexprs, 1) {
                        Ok(v) => v,
                        Err(e) => {
                            return Err(e);
                        },
                    };
                    proof {
                        assert(rest.drop_first() =~= smodels_of(*items).skip(2));
                    }
                    let function = LispValue::Function {
                        parameters: arg_names,
                        body: clone_range(items, 2),
                    };
                    let function2: LispValue = function.deep_clone();
                    let mut extra: Vec<(String, LispValue)> = Vec::new();
                    extra.push((func_name.clone(), function2));
                    let new_scope: Scope = scope.with_bindings(&extra);
                    proof {
                        assert(bindings_model(extra) =~= seq![
                            (func_name@, function.model()),
                        ]);
                        assert(scope.model() + seq![(func_name@, function.model())]
                            =~= scope.model().push((func_name@, function.model())));
                    }
                    Ok((function, new_scope))
                },
                _ => Err(err_str("Function declaration must start with a symbol")),
            }
        },
        _ => Err(err_str("Function declaration must have a list of arguments")),
    }
}

/// Evaluates a compound form; returns exactly what `eval_list_s`
/// does at the same fuel.
#[verifier::rlimit(100)]
pub fn eval_list_fueled(items: &Vec<LispValue>, scope: &Scope, fuel: u64) -> (r: Result<
    (LispValue, Scope),
    String,
>)
    ensures
        res_models(r, eval_list_s(smodels_of(*items), scope.model(), fuel as nat)),
    decreases fuel, 0int,
{
    let ghost m = smodels_of(*items);
    if fuel == 0 {
        return Err(err_str("recursion depth exceeded"));
    }
    if items.len() == 0 {
        let empty: Vec<LispValue> = Vec::new();
        proof {
            assert(smodels_of(empty) =~= Seq::<SLisp>::empty());
        }
        return Ok((LispValue::List(empty), scope.deep_clone()));
    }
    proof {
        assert(m[0] == items[0].model());
        assert(m.drop_first() =~= smodels_of(*items).skip(1));
    }
    let ghost rest = m.drop_first();
    match &items[0] {
        LispValue::Quote(inner) => Ok(((*inner).deep_clone(), scope.deep_clone())),
        LispValue::Symbol(sym) => {
            if str_is(sym, "lambda") {
                if items.len() == 1 {
                    return Err(err_str("Function arguments must be a list"));
                }
                proof {
                    assert(rest[0] == items[1].model());
                }
                let params: Vec<String> = match parse_args(&items[1]) {
                    Ok(v) => v,
                    Err(e) => {
                        return Err(e);
                    },
                };
                proof {
                    assert(rest.drop_first() =~= smodels_of(*items).skip(2));
                }
                Ok(
                    (
                        LispValue::Function { parameters: params, body: clone_range(items, 2) },
                        scope.deep_clone(),
                    ),
                )
            } else if str_is(sym, "macro") {
                if items.len() < 3 {
                    return Err(err_str("Function arguments must be a list"));
                }
                proof {
                    assert(rest[0] == items[1].model());
                    assert(rest[1] == items[2].model());
                }
                let params: Vec<String> = match parse_args(&items[1]) {
                    Ok(v) => v,
                    Err(e) => {
                        return Err(e);
                    },
                };
                Ok(
                    (
                        LispValue::Macro {
                            parameters: params,
                            body: Box::new(items[2].deep_clone()),
                        },
                        scope.deep_clone(),
                    ),
                )
            } else if str_is(sym, "if") {
                if items.len() != 4 {
                    return Err(err_str("malformed if statement: Must have 3 arguments"));
                }
                proof {
                    assert(rest[0] == items[1].model());
                    assert(rest[1] == items[2].model());
                    assert(rest[2] == items[3].model());
                }
                let c: (LispValue, Scope) = match eval_fueled(&items[1], scope, fuel - 1) {
                    Ok(p) => p,
                    Err(e) => {
                        return Err(e);
                    },
                };
                match c.0 {
                    LispValue::Bool(cond) => {
                        if cond {
                            eval_fueled(&items[2], scope, fuel - 1)
                        } else {
                            eval_fueled(&items[3], scope, fuel - 1)
                        }
                    },
                    _ => Err(err_str("If condition must be a boolean")),
                }
            } else if str_is(sym, "let") {
                if items.len() == 1 {
                    return Err(err_str("let must have at least one argument"));
                }
                proof {
                    assert(rest.drop_last() =~= smodels_of(*items).subrange(
                        1,
                        items@.len() - 1,
                    ));
                    assert(rest.last() == items[items@.len() - 1].model());
                }
                let bindings: Vec<(String, LispValue)> = match gen_let_bindings(
                    items,
                    1,
                    items.len() - 1,
                    scope,
                    fuel - 1,
                ) {
                    Ok(v) => v,
                    Err(e) => {
                        return Err(e);
                    },
                };
                let inner_scope: Scope = scope.with_bindings(&bindings);
                eval_fueled(&items[items.len() - 1], &inner_scope, fuel - 1)
            } else if str_is(sym, "fn") {
                let declared: (LispValue, Scope) = match fn_decl(items, scope) {
                    Ok(p) => p,
                    Err(e) => {
                        return Err(e);
                    },
                };
                let result2: LispValue = declared.0.deep_clone();
                let mut extra: Vec<(String, LispValue)> = Vec::new();
                extra.push((sym.clone(), result2));
                let out_scope: Scope = declared.1.with_bindings(&extra);
                proof {
                    assert(bindings_model(extra) =~= seq![(sym@, declared.0.model())]);
                    assert(declared.1.model() + seq![(sym@, declared.0.model())]
                        =~= declared.1.model().push((sym@, declared.0.model())));
                }
                Ok((declared.0, out_scope))
            } else if str_is(sym, "quote") {
                if items.len() == 2 {
                    proof {
                        assert(m[1] == items[1].model());
                    }
                    Ok((items[1].deep_clone(), scope.deep_clone()))
                } else {
                    Err(err_str("quote must be called with one argument"))
                }
            } else if str_is(sym, "nil") {
                Err(err_str("cannot call 'nil'"))
            } else {
                let head: (LispValue, Scope) = match eval_fueled(&items[0], scope, fuel - 1) {
                    Ok(p) => p,
                    Err(e) => {
                        return Err(e);
                    },
                };
                let mut new_items: Vec<LispValue> = Vec::new();
                let ghost head_model = head.0.model();
                new_items.push(head.0);
                let mut k: usize = 1;
                while k < items.len()
                    invariant
                        1 <= k <= items@.len(),
                        new_items@.len() == k,
                        new_items@[0].model() == head_model,
                        forall|j: int|
                            1 <= j < k ==> new_items[j].model() == items[j].model(),
                    decreases items@.len() - k,
                {
                    let item: LispValue = items[k].deep_clone();
                    new_items.push(item);
                    k = k + 1;
                }
                proof {
                    assert(smodels_of(new_items) =~= seq![head_model] + rest);
                }
                eval_list_fueled(&new_items, scope, fuel - 1)
            }
        },
        LispValue::Function { parameters, body } => {
            let args: Vec<LispValue> = match eval_args(items, 1, scope, fuel - 1) {
                Ok(v) => v,
                Err(e) => {
                    return Err(e);
                },
            };
            if parameters.len() != args.len() {
                return Err(err_str("Function called with incorrect number of arguments"));
            }
            let bindings: Vec<(String, LispValue)> = make_bindings(parameters, &args);
            let func_scope: Scope = scope.with_bindings(&bindings);
            proof {
                assert(smodels_of(*body).skip(0) =~= smodels_of(*body));
            }
            sequential_eval_fueled(body, 0, func_scope, fuel - 1)
        },
        LispValue::Macro { parameters, body } => {
            if parameters.len() != items.len() - 1 {
                return Err(err_str("Macro called with incorrect number of arguments"));
            }
            let raw_args: Vec<LispValue> = clone_range(items, 1);
            let bindings: Vec<(String, LispValue)> = make_bindings(parameters, &raw_args);
            let macro_scope: Scope = scope.with_bindings(&bindings);
            let expanded: (LispValue, Scope) = match eval_fueled(body, &macro_scope, fuel - 1) {
                Ok(p) => p,
                Err(e) => {
                    return Err(e);
                },
            };
            let evaluated: (LispValue, Scope) = match eval_fueled(&expanded.0, scope, fuel - 1) {
                Ok(p) => p,
                Err(e) => {
                    return Err(e);
                },
            };
            Ok((evaluated.0, scope.deep_clone()))
        },
        LispValue::List(inner) => {
            proof {
                assert(m[0] == SLisp::List(smodels_of(*inner)));
                assert(smodels_of(*inner).len() == inner@.len());
            }
            if inner.len() == 0 {
                return Err(err_str("cannot call an empty list"));
            }
            let head: (LispValue, Scope) = match eval_list_fueled(inner, scope, fuel - 1) {
                Ok(p) => p,
                Err(e) => {
                    return Err(e);
                },
            };
            let mut new_items: Vec<LispValue> = Vec::new();
            let ghost head_model = head.0.model();
            new_items.push(head.0);
            let mut k: usize = 1;
            while k < inner.len()
                invariant
                    1 <= k <= inner@.len(),
                    new_items@.len() == k,
                    new_items@[0].model() == head_model,
                    forall|j: int| 1 <= j < k ==> new_items[j].model() == inner[j].model(),
                decreases inner@.len() - k,
            {
                let item: LispValue = inner[k].deep_clone();
                new_items.push(item);
                k = k + 1;
            }
            proof {
                assert(smodels_of(new_items) =~= seq![head_model] + smodels_of(
                    *inner,
                ).drop_first());
            }
            eval_list_fueled(&new_items, scope, fuel - 1)
        },
        LispValue::QuasiQuotedList(_) => Err(err_str("cannot call a quasi-quoted list")),
        LispValue::BuiltIn(b) => {
            let args: Vec<LispValue> = match eval_args(items, 1, scope, fuel - 1) {
                Ok(v) => v,
                Err(e) => {
                    return Err(e);
                },
            };
            match apply_builtin_lisp(*b, &args) {
                Ok(v) => Ok((v, scope.deep_clone())),
                Err(e) => Err(e),
            }
        },
        LispValue::CommaUnquote(_) => Err(err_str("CommaUnquote in wrong context")),
        LispValue::String(_) => Err(err_str("Cannot call string value")),
        LispValue::Bool(_) => Err(err_str("Cannot call boolean value")),
        LispValue::Int(_) => Err(err_str("Cannot call int value")),
        LispValue::Nil => Err(err_str("Cannot call nil")),
    }
}

impl LispValue {
    /// Evaluates this expression under a scope, with the default
    /// evaluation depth.
    pub fn eval(self, scope: &Scope) -> (r: Result<(LispValue, Scope), String>)
        ensures
            res_models(r, eval_s(self.model(), scope.model(), EVAL_FUEL as nat)),
    {
        eval_fueled(&self, scope, EVAL_FUEL)
    }
}

/// Evaluates a program, one top-level expression after another under
/// the root scope, and yields the value of the last one.
pub fn evaluate(exprs: Vec<LispValue>) -> (r: Result<LispValue, String>)
    ensures
        match (r, sequential_eval_s(smodels_of(exprs), root_scope_s(), EVAL_FUEL as nat)) {
            (Ok(v), Ok(p)) => v.model() == p.0,
            (Err(m), Err(sm)) => m@ == sm,
            _ => false,
        },
{
    let scope: Scope = Scope::new();
    proof {
        assert(smodels_of(exprs).skip(0) =~= smodels_of(exprs));
    }
    match sequential_eval_fueled(&exprs, 0, scope, EVAL_FUEL) {
        Ok(p) => Ok(p.0),
        Err(e) => Err(e),
    }
}

/// A read-eval session: evaluation threads one scope across calls.
pub struct Session {
    pub scope: Scope,
}

impl Session {
    pub fn new() -> (s: Session)
        ensures
            s.scope.model() == root_scope_s(),
    {
        Session { scope: Scope::new() }
    }

    /// Evaluates a single expression, mutating the session's scope and
    /// returning the result of the evaluation.
    pub fn eval(&mut self, expr: LispValue) -> (r: Result<LispValue, String>)
        ensures
            match (r, eval_s(expr.model(), old(self).scope.model(), EVAL_FUEL as nat)) {
                (Ok(v), Ok(p)) => v.model() == p.0 && final(self).scope.model() == p.1,
                (Err(m), Err(sm)) => m@ == sm && final(self).scope.model() == old(
                    self,
                ).scope.model(),
                _ => false,
            },
    {
        match eval_fueled(&expr, &self.scope, EVAL_FUEL) {
            Ok(p) => {
                self.scope = p.1;
                Ok(p.0)
            },
            Err(e) => Err(e),
        }
    }
}


/// Quote round-trip: evaluating `(quote x)` — equally `'x` — yields
/// `x` itself, structurally unchanged, under an unchanged scope.
pub proof fn lemma_quote_round_trip(x: SLisp, sc: SScope, fuel: nat)
    requires
        fuel > 0,
    ensures
        eval_s(SLisp::Quote(Box::new(x)), sc, fuel) == Ok::<(SLisp, SScope), Seq<char>>((x, sc)),
{
}

} // verus!
