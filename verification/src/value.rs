//! Runtime values: the small tagged value, the heap object union, the
//! `truthy` predicate and the display format.
//!
//! Heap references are indices into the engine's append-only object
//! vector, so a `SmallVal` is cheap to copy and structural equality on
//! it is pointer identity for heap objects, as the runtime requires.

use vstd::prelude::*;

use crate::bytecode::Closure;

verus! {

/// A host-provided callable, exposed to programs through the global
/// environment (and to the reference evaluator through its root scope).
#[derive(Clone, Copy, Debug, PartialEq, Eq, Structural)]
pub enum BuiltinFn {
    Add,
    Sub,
    Mul,
    Div,
    Inc,
    ListFn,
}

impl BuiltinFn {
    /// The name under which the callable is installed.
    pub fn name(self) -> (s: &'static str)
        ensures
            s@ == self.spec_name(),
    {
        match self {
            BuiltinFn::Add => "+",
            BuiltinFn::Sub => "-",
            BuiltinFn::Mul => "*",
            BuiltinFn::Div => "/",
            BuiltinFn::Inc => "inc",
            BuiltinFn::ListFn => "list",
        }
    }

    pub open spec fn spec_name(self) -> Seq<char> {
        match self {
            BuiltinFn::Add => "+"@,
            BuiltinFn::Sub => "-"@,
            BuiltinFn::Mul => "*"@,
            BuiltinFn::Div => "/"@,
            BuiltinFn::Inc => "inc"@,
            BuiltinFn::ListFn => "list"@,
        }
    }
}

/// The small tagged value held on the operand stack and in globals.
/// `ObjectPtr` and `Quote` carry indices into the heap.
#[derive(Clone, Copy, Debug, PartialEq, Eq, Structural)]
pub enum SmallVal {
    Integer(i64),
    Bool(bool),
    Nil,
    ObjectPtr(usize),
    Quote(usize),
}

impl SmallVal {
    /// The payload of an integer value, or nothing.
    pub fn as_integer(&self) -> (r: Option<&i64>)
        ensures
            self matches SmallVal::Integer(i) ==> (r matches Some(v) && *v == i),
            !(self is Integer) ==> r is None,
    {
        if let SmallVal::Integer(v) = self {
            Some(v)
        } else {
            None
        }
    }
}

/// A pair of heap references; a `None` cdr stands for nil.
#[derive(Clone, Copy, Debug, PartialEq, Eq, Structural)]
pub struct ConsCell(pub usize, pub Option<usize>);

impl ConsCell {
    pub fn new(car: usize, cdr: Option<usize>) -> (c: Self)
        ensures
            c == ConsCell(car, cdr),
    {
        ConsCell(car, cdr)
    }
}

/// An indirection cell for a captured variable. While open, `location`
/// is the stack slot of the variable; once closed, the moved value
/// lives in `closed_val` and `location` is no longer meaningful.
/// The engine keeps the indices of all open cells in a list ordered by
/// decreasing location.
#[derive(Clone, Copy, Debug, PartialEq, Eq, Structural)]
pub struct UpValue {
    pub location: usize,
    pub closed_val: Option<SmallVal>,
}

impl UpValue {
    pub fn new(stack_location: usize) -> (u: Self)
        ensures
            u == (UpValue { location: stack_location, closed_val: None }),
    {
        UpValue { location: stack_location, closed_val: None }
    }

}

/// The discriminated union stored in each heap object.
#[derive(Debug)]
pub enum ObjectValue {
    SmallValue(SmallVal),
    String(String),
    Closure(Closure),
    Symbol(String),
    ConsCell(ConsCell),
    BuiltIn(BuiltinFn),
    UpValue(UpValue),
}

/// One node of the heap. The heap is an append-only vector, so the
/// vector itself plays the role of the allocation list and an index
/// identifies an object for the whole run.
#[derive(Debug)]
pub struct HeapObject {
    pub value: ObjectValue,
}

/// Truthiness, decided on the small value alone: only `Nil` and
/// `Bool(false)` are falsy; `Int(0)`, a quote and every heap object
/// are truthy.
pub open spec fn sv_truthy(v: SmallVal) -> bool {
    match v {
        SmallVal::Nil => false,
        SmallVal::Bool(b) => b,
        _ => true,
    }
}

} // verus!
