//! The surface S-expression values that the reference evaluator works
//! on, and their mathematical models.
//!
//! `LispValue` is the tree a reader would produce: atoms, lists,
//! quoted forms, and the callable values (functions, macros and
//! builtins) that evaluation itself creates. Its model `SLisp` mirrors
//! it with text as `Seq<char>`; every evaluator contract speaks of
//! models.

use vstd::prelude::*;
use vstd::string::StringExecFns;

use crate::value::BuiltinFn;

verus! {

#[derive(Debug, PartialEq)]
pub enum LispValue {
    List(Vec<LispValue>),
    Quote(Box<LispValue>),
    QuasiQuotedList(Vec<LispValue>),
    Symbol(String),
    String(String),
    Bool(bool),
    Int(i64),
    BuiltIn(BuiltinFn),
    CommaUnquote(Box<LispValue>),
    Function { parameters: Vec<String>, body: Vec<LispValue> },
    Macro { parameters: Vec<String>, body: Box<LispValue> },
    Nil,
}

/// Mathematical model of a surface value.
pub enum SLisp {
    List(Seq<SLisp>),
    Quote(Box<SLisp>),
    QuasiQuotedList(Seq<SLisp>),
    Symbol(Seq<char>),
    Str(Seq<char>),
    Bool(bool),
    Int(i64),
    BuiltIn(BuiltinFn),
    CommaUnquote(Box<SLisp>),
    Function { parameters: Seq<Seq<char>>, body: Seq<SLisp> },
    Macro { parameters: Seq<Seq<char>>, body: Box<SLisp> },
    Nil,
}

/// The models of a vector of values, elementwise.
pub open spec fn smodels_of(items: Vec<LispValue>) -> Seq<SLisp>
    decreases items,
{
    Seq::new(
        items@.len(),
        |i: int|
            if 0 <= i < items@.len() {
                items[i].model()
            } else {
                SLisp::Nil
            },
    )
}

/// The views of a vector of names.
pub open spec fn names_of(names: Vec<String>) -> Seq<Seq<char>> {
    Seq::new(names@.len(), |i: int| names@[i]@)
}

impl LispValue {
    pub open spec fn model(self) -> SLisp
        decreases self,
    {
        match self {
            LispValue::List(items) => SLisp::List(smodels_of(items)),
            LispValue::Quote(inner) => SLisp::Quote(Box::new(inner.model())),
            LispValue::QuasiQuotedList(items) => SLisp::QuasiQuotedList(smodels_of(items)),
            LispValue::Symbol(s) => SLisp::Symbol(s@),
            LispValue::String(s) => SLisp::Str(s@),
            LispValue::Bool(b) => SLisp::Bool(b),
            LispValue::Int(i) => SLisp::Int(i),
            LispValue::BuiltIn(b) => SLisp::BuiltIn(b),
            LispValue::CommaUnquote(inner) => SLisp::CommaUnquote(Box::new(inner.model())),
            LispValue::Function { parameters, body } => SLisp::Function {
                parameters: names_of(parameters),
                body: smodels_of(body),
            },
            LispValue::Macro { parameters, body } => SLisp::Macro {
                parameters: names_of(parameters),
                body: Box::new(body.model()),
            },
            LispValue::Nil => SLisp::Nil,
        }
    }

    /// A structural copy with the same model.
    pub fn deep_clone(&self) -> (r: Self)
        ensures
            r.model() == self.model(),
        decreases self,
    {
        match self {
            LispValue::List(items) => LispValue::List(deep_clone_vec(items)),
            LispValue::Quote(inner) => LispValue::Quote(Box::new((*inner).deep_clone())),
            LispValue::QuasiQuotedList(items) => LispValue::QuasiQuotedList(
                deep_clone_vec(items),
            ),
            LispValue::Symbol(s) => LispValue::Symbol(s.clone()),
            LispValue::String(s) => LispValue::String(s.clone()),
            LispValue::Bool(b) => LispValue::Bool(*b),
            LispValue::Int(i) => LispValue::Int(*i),
            LispValue::BuiltIn(b) => LispValue::BuiltIn(*b),
            LispValue::CommaUnquote(inner) => LispValue::CommaUnquote(
                Box::new((*inner).deep_clone()),
            ),
            LispValue::Function { parameters, body } => LispValue::Function {
                parameters: clone_names(parameters),
                body: deep_clone_vec(body),
            },
            LispValue::Macro { parameters, body } => LispValue::Macro {
                parameters: clone_names(parameters),
                body: Box::new((*body).deep_clone()),
            },
            LispValue::Nil => LispValue::Nil,
        }
    }
}

/// An elementwise structural copy of a value vector.
pub fn deep_clone_vec(items: &Vec<LispValue>) -> (r: Vec<LispValue>)
    ensures
        smodels_of(r) == smodels_of(*items),
        r@.len() == items@.len(),
    decreases items,
{
    let mut out: Vec<LispValue> = Vec::new();
    let mut i: usize = 0;
    while i < items.len()
        invariant
            i <= items.len(),
            out@.len() == i,
            forall|j: int| 0 <= j < i ==> out[j].model() == items[j].model(),
        decreases items.len() - i,
    {
        let item: LispValue = items[i].deep_clone();
        out.push(item);
        i = i + 1;
    }
    assert(smodels_of(out) =~= smodels_of(*items));
    out
}

/// A copy of a vector of names with the same views.
pub fn clone_names(names: &Vec<String>) -> (r: Vec<String>)
    ensures
        names_of(r) == names_of(*names),
        r@.len() == names@.len(),
{
    let mut out: Vec<String> = Vec::new();
    let mut i: usize = 0;
    while i < names.len()
        invariant
            i <= names.len(),
            out@.len() == i,
            forall|j: int| 0 <= j < i ==> out@[j]@ == names@[j]@,
        decreases names.len() - i,
    {
        let name: String = names[i].clone();
        out.push(name);
        i = i + 1;
    }
    assert(names_of(out) =~= names_of(*names));
    out
}


/// The display form of a surface value: lists parenthesised with
/// comma-separated elements, strings quoted, quotes and comma-unquotes
/// prefixed, functions and macros by their kind, builtins by name.
pub open spec fn spec_display_lisp(v: SLisp) -> Seq<char>
    decreases v, 1int,
{
    match v {
        SLisp::List(items) => "("@ + spec_display_items(items) + ")"@,
        SLisp::Quote(b) => "'"@ + spec_display_lisp(*b),
        SLisp::QuasiQuotedList(items) => "`("@ + spec_display_items(items) + ")"@,
        SLisp::Symbol(s) => s,
        SLisp::Str(s) => "\""@ + s + "\""@,
        SLisp::Bool(b) => if b {
            "true"@
        } else {
            "false"@
        },
        SLisp::Int(i) => crate::fmt::i64_dec(i as int),
        SLisp::Function { parameters, body } => "Function"@,
        SLisp::Macro { parameters, body } => "Macro"@,
        SLisp::BuiltIn(b) => "<builtin: "@ + b.spec_name() + ">"@,
        SLisp::CommaUnquote(b) => ","@ + spec_display_lisp(*b),
        SLisp::Nil => "nil"@,
    }
}

/// The elements of a list form, separated by `", "`.
pub open spec fn spec_display_items(items: Seq<SLisp>) -> Seq<char>
    decreases items, 0int,
{
    if items.len() == 0 {
        Seq::<char>::empty()
    } else if items.len() == 1 {
        spec_display_lisp(items[0])
    } else {
        spec_display_lisp(items[0]) + ", "@ + spec_display_items(items.drop_first())
    }
}

impl LispValue {
    /// Renders this value in its display form.
    pub fn display(&self) -> (s: String)
        ensures
            s@ == spec_display_lisp(self.model()),
        decreases self, 1int,
    {
        match self {
            LispValue::List(items) => {
                let mut s: String = "(".to_owned();
                let inner: String = display_items(items, 0);
                s.append(inner.as_str());
                s.append(")");
                proof {
                    assert(smodels_of(*items).skip(0) =~= smodels_of(*items));
                }
                s
            },
            LispValue::Quote(b) => {
                let mut s: String = "'".to_owned();
                let inner: String = (*b).display();
                s.append(inner.as_str());
                s
            },
            LispValue::QuasiQuotedList(items) => {
                let mut s: String = "`(".to_owned();
                let inner: String = display_items(items, 0);
                s.append(inner.as_str());
                s.append(")");
                proof {
                    assert(smodels_of(*items).skip(0) =~= smodels_of(*items));
                }
                s
            },
            LispValue::Symbol(sym) => sym.clone(),
            LispValue::String(st) => {
                let mut s: String = "\"".to_owned();
                s.append(st.as_str());
                s.append("\"");
                s
            },
            LispValue::Bool(b) => if *b {
                "true".to_owned()
            } else {
                "false".to_owned()
            },
            LispValue::Int(i) => crate::fmt::i64_to_string(*i),
            LispValue::Function { parameters, body } => "Function".to_owned(),
            LispValue::Macro { parameters, body } => "Macro".to_owned(),
            LispValue::BuiltIn(b) => {
                let mut s: String = "<builtin: ".to_owned();
                s.append(b.name());
                s.append(">");
                s
            },
            LispValue::CommaUnquote(b) => {
                let mut s: String = ",".to_owned();
                let inner: String = (*b).display();
                s.append(inner.as_str());
                s
            },
            LispValue::Nil => "nil".to_owned(),
        }
    }
}

/// Renders `items[from..]` separated by `", "`.
fn display_items(items: &Vec<LispValue>, from: usize) -> (s: String)
    requires
        from <= items@.len(),
    ensures
        s@ == spec_display_items(smodels_of(*items).skip(from as int)),
    decreases items, items@.len() - from,
{
    let ghost tail = smodels_of(*items).skip(from as int);
    if from == items.len() {
        let s: String = String::new();
        return s;
    }
    proof {
        assert(tail[0] == items[from as int].model());
        assert(tail.drop_first() =~= smodels_of(*items).skip(from + 1));
    }
    let mut s: String = items[from].display();
    if from + 1 < items.len() {
        s.append(", ");
        let rest: String = display_items(items, from + 1);
        s.append(rest.as_str());
    }
    s
}

} // verus!
