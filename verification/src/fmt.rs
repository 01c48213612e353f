//! The display format of runtime values, computed in verified code.
//!
//! Integers render in decimal, strings in double quotes, cons cells as
//! `(car . cdr)` with a nil cdr rendered as `nil`, closures and
//! builtins by name, and a quote as `'` followed by the quoted form.
//!
//! Rendering follows heap references, and reference chains shorten at
//! every step for every value the engine can build, so the recursion
//! carries explicit fuel; the specification mirrors the fuel exactly.

use vstd::prelude::*;
use vstd::string::StringExecFns;

use crate::value::HeapObject;
use crate::value::ObjectValue;
use crate::value::SmallVal;

verus! {

pub open spec fn digit_char(d: nat) -> char {
    if d == 0 {
        '0'
    } else if d == 1 {
        '1'
    } else if d == 2 {
        '2'
    } else if d == 3 {
        '3'
    } else if d == 4 {
        '4'
    } else if d == 5 {
        '5'
    } else if d == 6 {
        '6'
    } else if d == 7 {
        '7'
    } else if d == 8 {
        '8'
    } else {
        '9'
    }
}

/// The decimal digit sequence of a natural number, most significant
/// digit first.
pub open spec fn dec_digits(n: nat) -> Seq<char>
    decreases n,
{
    if n < 10 {
        seq![digit_char(n)]
    } else {
        dec_digits(n / 10) + seq![digit_char(n % 10)]
    }
}

/// The decimal rendering of a signed integer.
pub open spec fn i64_dec(i: int) -> Seq<char> {
    if i < 0 {
        seq!['-'] + dec_digits((-i) as nat)
    } else {
        dec_digits(i as nat)
    }
}

fn digit_str(d: u64) -> (s: &'static str)
    requires
        d < 10,
    ensures
        s@ == seq![digit_char(d as nat)],
{
    proof {
        reveal_strlit("0");
        reveal_strlit("1");
        reveal_strlit("2");
        reveal_strlit("3");
        reveal_strlit("4");
        reveal_strlit("5");
        reveal_strlit("6");
        reveal_strlit("7");
        reveal_strlit("8");
        reveal_strlit("9");
    }
    let s: &'static str = if d == 0 {
        "0"
    } else if d == 1 {
        "1"
    } else if d == 2 {
        "2"
    } else if d == 3 {
        "3"
    } else if d == 4 {
        "4"
    } else if d == 5 {
        "5"
    } else if d == 6 {
        "6"
    } else if d == 7 {
        "7"
    } else if d == 8 {
        "8"
    } else {
        "9"
    };
    proof {
        assert(s@ =~= seq![digit_char(d as nat)]);
    }
    s
}

pub fn u64_to_string(n: u64) -> (s: String)
    ensures
        s@ == dec_digits(n as nat),
    decreases n,
{
    if n < 10 {
        let d: &str = digit_str(n);
        d.to_owned()
    } else {
        let mut s: String = u64_to_string(n / 10);
        let d: &str = digit_str(n % 10);
        s.append(d);
        s
    }
}

pub fn i64_to_string(i: i64) -> (s: String)
    ensures
        s@ == i64_dec(i as int),
{
    if i >= 0 {
        u64_to_string(i as u64)
    } else {
        let mag: u64 = if i == i64::MIN {
            9223372036854775808u64
        } else {
            (0 - i) as u64
        };
        let mut s: String = String::from_str("-");
        let rest: String = u64_to_string(mag);
        s.append(rest.as_str());
        proof {
            reveal_strlit("-");
            assert(s@ =~= i64_dec(i as int));
        }
        s
    }
}

/// The display form of a small value. Fuel bounds how many heap
/// references are followed; an exhausted rendering is empty.
pub open spec fn spec_display_sv(heap: Seq<HeapObject>, v: SmallVal, fuel: nat) -> Seq<char>
    decreases fuel,
{
    if fuel == 0 {
        Seq::<char>::empty()
    } else {
        match v {
            SmallVal::Integer(i) => i64_dec(i as int),
            SmallVal::Bool(b) => if b {
                "true"@
            } else {
                "false"@
            },
            SmallVal::Nil => "nil"@,
            SmallVal::Quote(i) => "'"@ + spec_display_obj(heap, i, (fuel - 1) as nat),
            SmallVal::ObjectPtr(i) => spec_display_obj(heap, i, (fuel - 1) as nat),
        }
    }
}

/// The display form of the heap object at index `i`.
pub open spec fn spec_display_obj(heap: Seq<HeapObject>, i: usize, fuel: nat) -> Seq<char>
    decreases fuel,
{
    if fuel == 0 || i >= heap.len() {
        Seq::<char>::empty()
    } else {
        match heap[i as int].value {
            ObjectValue::SmallValue(v) => spec_display_sv(heap, v, (fuel - 1) as nat),
            ObjectValue::String(s) => "\""@ + s@ + "\""@,
            ObjectValue::Symbol(s) => s@,
            ObjectValue::ConsCell(c) => "("@ + spec_display_obj(heap, c.0, (fuel - 1) as nat)
                + " . "@ + (match c.1 {
                Some(j) => spec_display_obj(heap, j, (fuel - 1) as nat),
                None => "nil"@,
            }) + ")"@,
            ObjectValue::BuiltIn(b) => "builtin <"@ + b.spec_name() + ">"@,
            ObjectValue::Closure(c) => "closure <"@ + c.f.name@ + ">"@,
            ObjectValue::UpValue(u) => match u.closed_val {
                Some(v) => spec_display_sv(heap, v, (fuel - 1) as nat),
                None => "upvalue"@,
            },
        }
    }
}

pub fn display_sv(heap: &Vec<HeapObject>, v: SmallVal, fuel: usize) -> (s: String)
    ensures
        s@ == spec_display_sv(heap@, v, fuel as nat),
    decreases fuel,
{
    if fuel == 0 {
        return String::new();
    }
    match v {
        SmallVal::Integer(i) => i64_to_string(i),
        SmallVal::Bool(b) => if b {
            String::from_str("true")
        } else {
            String::from_str("false")
        },
        SmallVal::Nil => String::from_str("nil"),
        SmallVal::Quote(i) => {
            let mut s: String = String::from_str("'");
            let inner: String = display_obj(heap, i, fuel - 1);
            s.append(inner.as_str());
            s
        },
        SmallVal::ObjectPtr(i) => display_obj(heap, i, fuel - 1),
    }
}

pub fn display_obj(heap: &Vec<HeapObject>, i: usize, fuel: usize) -> (s: String)
    ensures
        s@ == spec_display_obj(heap@, i, fuel as nat),
    decreases fuel,
{
    if fuel == 0 || i >= heap.len() {
        return String::new();
    }
    match &heap[i].value {
        ObjectValue::SmallValue(v) => display_sv(heap, *v, fuel - 1),
        ObjectValue::String(st) => {
            let mut s: String = String::from_str("\"");
            s.append(st.as_str());
            s.append("\"");
            s
        },
        ObjectValue::Symbol(st) => st.clone(),
        ObjectValue::ConsCell(c) => {
            let car_idx: usize = c.0;
            let cdr_idx: Option<usize> = c.1;
            let mut s: String = String::from_str("(");
            let car: String = display_obj(heap, car_idx, fuel - 1);
            s.append(car.as_str());
            s.append(" . ");
            match cdr_idx {
                Some(j) => {
                    let cdr: String = display_obj(heap, j, fuel - 1);
                    s.append(cdr.as_str());
                },
                None => {
                    s.append("nil");
                },
            }
            s.append(")");
            s
        },
        ObjectValue::BuiltIn(b) => {
            let mut s: String = String::from_str("builtin <");
            s.append(b.name());
            s.append(">");
            s
        },
        ObjectValue::Closure(c) => {
            let mut s: String = String::from_str("closure <");
            s.append(c.f.name.as_str());
            s.append(">");
            s
        },
        ObjectValue::UpValue(u) => {
            match u.closed_val {
                Some(v) => display_sv(heap, v, fuel - 1),
                None => String::from_str("upvalue"),
            }
        },
    }
}

} // verus!
