//! The execution engine: dispatch loop, call frames, global
//! environment, heap allocation and the open-upvalue list.
//!
//! The heap is an append-only vector of objects; a reference is an
//! index, so every reference stays valid for the whole run. The
//! well-formedness predicate `wf` states the memory-model invariants:
//! every reachable reference points into the heap, call frames sit at
//! strictly increasing stack offsets, and the open-upvalue list is
//! sorted by strictly decreasing stack location.
//!
//! Runtime errors abort the run and are reported to the caller as
//! values; no verified function here panics.

use vstd::prelude::*;

use crate::bytecode::BytecodeChunk;
use crate::bytecode::CaptureType;
use crate::bytecode::Closure;
use crate::bytecode::ConstantObject;
use crate::bytecode::ConstantValue;
use crate::bytecode::Op;
use crate::bytecode::ConstV;
use crate::bytecode::ConstObjV;
use crate::static_stack::StaticStack;
use crate::value::BuiltinFn;
use crate::value::HeapObject;
use crate::value::ObjectValue;
use crate::value::SmallVal;
use crate::value::UpValue;
use crate::value::sv_truthy;

verus! {

/// Capacity of the operand/locals stack.
pub const STACK_SIZE: usize = 4096;

/// The error kinds that abort a run.
#[derive(Debug, PartialEq, Eq)]
pub enum RuntimeError {
    /// A closure was called with the wrong number of arguments.
    ArityMismatch,
    /// `ReferenceGlobal` named an unbound global.
    UndefinedGlobal(String),
    /// An operand had a type the operation does not accept.
    TypeError,
    /// Integer division by zero.
    DivisionByZero,
    /// Unknown opcode, bad constant or operand index, stack underflow
    /// or capacity overflow.
    MalformedBytecode,
}

/// Bookkeeping for one in-flight invocation. `closure_obj` is the heap
/// index of the closure being run; `start_idx` is the stack slot of the
/// callee value itself; `return_address` is the caller's code index of
/// the `FuncCall` operand byte.
pub struct CallFrame {
    pub closure_obj: usize,
    pub return_address: usize,
    pub start_idx: i32,
}

pub struct VM {
    pub stack: StaticStack<SmallVal, STACK_SIZE>,
    pub globals: Vec<(String, SmallVal)>,
    pub ip: usize,
    pub callframes: Vec<CallFrame>,
    pub heap: Vec<HeapObject>,
    pub chunk: BytecodeChunk,
    pub open_upvalues: Vec<usize>,
    pub output: Vec<String>,
}

/// A small value holds no reference past the end of the heap.
pub open spec fn sv_ok(heap_len: int, v: SmallVal) -> bool {
    match v {
        SmallVal::ObjectPtr(i) => i < heap_len,
        SmallVal::Quote(i) => i < heap_len,
        _ => true,
    }
}

/// Every reference a heap object holds points into the heap.
pub open spec fn obj_ok(heap_len: int, o: ObjectValue) -> bool {
    match o {
        ObjectValue::SmallValue(v) => sv_ok(heap_len, v),
        ObjectValue::String(_) => true,
        ObjectValue::Symbol(_) => true,
        ObjectValue::BuiltIn(_) => true,
        ObjectValue::ConsCell(c) => c.0 < heap_len && (c.1 matches Some(j) ==> j < heap_len),
        ObjectValue::Closure(c) => forall|k: int|
            0 <= k < c.upvalues@.len() ==> (#[trigger] c.upvalues@[k] matches Some(u) ==> u
                < heap_len),
        ObjectValue::UpValue(u) => u.closed_val matches Some(v) ==> sv_ok(heap_len, v),
    }
}

pub open spec fn heap_ok(heap: Seq<HeapObject>) -> bool {
    forall|i: int| 0 <= i < heap.len() ==> obj_ok(heap.len() as int, #[trigger] heap[i].value)
}

/// The upvalue stored at heap index `i` (meaningful only when the slot
/// holds one).
pub open spec fn uv_at(heap: Seq<HeapObject>, i: int) -> UpValue {
    match heap[i].value {
        ObjectValue::UpValue(u) => u,
        _ => UpValue { location: 0, closed_val: None },
    }
}

pub open spec fn is_uv(heap: Seq<HeapObject>, i: int) -> bool {
    0 <= i < heap.len() && heap[i].value is UpValue
}

/// The open-upvalue list: every entry is an open upvalue on the heap
/// and stack locations strictly decrease along the list, so the
/// topmost still-captured slot comes first.
pub open spec fn uv_list_wf(heap: Seq<HeapObject>, l: Seq<usize>) -> bool {
    &&& forall|k: int| 0 <= k < l.len() ==> is_uv(heap, #[trigger] l[k] as int)
    &&& forall|k: int| 0 <= k < l.len() ==> (#[trigger] uv_at(heap, l[k] as int)).closed_val
        is None
    &&& forall|i: int, j: int|
        0 <= i < j < l.len() ==> (#[trigger] uv_at(heap, l[i] as int)).location > (
        #[trigger] uv_at(heap, l[j] as int)).location
}

/// A call frame names a closure object on the heap and a stack offset
/// inside the stack's capacity.
pub open spec fn frame_ok(heap: Seq<HeapObject>, f: CallFrame) -> bool {
    &&& f.closure_obj < heap.len()
    &&& (match heap[f.closure_obj as int].value {
        ObjectValue::Closure(c) => c.f.bytecode.code@.len() <= usize::MAX
            && c.f.bytecode.constants@.len() <= usize::MAX,
        _ => false,
    })
    &&& 0 <= f.start_idx < STACK_SIZE
}

/// The heap only ever grows, and an existing object changes only if it
/// is an upvalue (whose cell state may move from open to closed).
pub open spec fn heap_extends(new: Seq<HeapObject>, prev: Seq<HeapObject>) -> bool {
    &&& new.len() >= prev.len()
    &&& forall|i: int|
        0 <= i < prev.len() ==> (#[trigger] new[i].value == prev[i].value || (new[i].value
            is UpValue && prev[i].value is UpValue))
}

/// The heap object at `p` realises the constant object `o`.
pub open spec fn obj_is(heap: Seq<HeapObject>, p: int, o: ConstObjV) -> bool {
    0 <= p < heap.len() && match o {
        ConstObjV::String(s) => heap[p].value matches ObjectValue::String(t) && t@ == s,
        ConstObjV::Symbol(s) => heap[p].value matches ObjectValue::Symbol(t) && t@ == s,
        ConstObjV::Closure(cl) => heap[p].value matches ObjectValue::Closure(c2) && c2.f.model()
            == cl.f && c2.num_upvalues == cl.num_upvalues && c2.upvalues@ == Seq::new(
            cl.num_upvalues as nat,
            |i: int| None::<usize>,
        ),
    }
}

/// The value `v` is the materialisation of the constant `c` on this
/// heap: scalars match directly, objects and lists sit behind a heap
/// reference, and a quote wraps the materialised form.
pub open spec fn materializes(heap: Seq<HeapObject>, v: SmallVal, c: ConstV) -> bool
    decreases c, 0int,
{
    match c {
        ConstV::Integer(i) => v == SmallVal::Integer(i),
        ConstV::Boolean(b) => v == SmallVal::Bool(b),
        ConstV::Nil => v == SmallVal::Nil,
        ConstV::Object(o) => v matches SmallVal::ObjectPtr(p) && obj_is(heap, p as int, o),
        ConstV::List(items) => v matches SmallVal::ObjectPtr(p) && cons_chain(
            heap,
            p as int,
            items,
        ),
        ConstV::Quote(ic) => v matches SmallVal::Quote(p) && obj_holds(heap, p as int, *ic),
    }
}

/// The heap object at `p` holds the constant `c`, either directly or
/// boxed in a small-value shell.
pub open spec fn obj_holds(heap: Seq<HeapObject>, p: int, c: ConstV) -> bool
    decreases c, 1int,
{
    0 <= p < heap.len() && ({
        ||| (heap[p].value matches ObjectValue::SmallValue(v) && materializes(heap, v, c))
        ||| (match c {
            ConstV::Object(o) => obj_is(heap, p, o),
            ConstV::List(items) => cons_chain(heap, p, items),
            ConstV::Quote(ic) => obj_holds(heap, p, *ic),
            _ => false,
        })
    })
}

/// A cons chain starting at `p` holds the non-empty constant sequence
/// `items`, one element per cell, with a nil final cdr.
pub open spec fn cons_chain(heap: Seq<HeapObject>, p: int, items: Seq<ConstV>) -> bool
    decreases items, 1int,
{
    &&& 0 <= p < heap.len()
    &&& items.len() > 0
    &&& (heap[p].value matches ObjectValue::ConsCell(cell) && {
        &&& obj_holds(heap, cell.0 as int, items[0])
        &&& (if items.len() == 1 {
            cell.1 is None
        } else {
            cell.1 matches Some(q) && cons_chain(heap, q as int, items.drop_first())
        })
    })
}

/// Whether a constant can materialise at all: the one malformed shape
/// is an empty `List` node anywhere inside it.
pub open spec fn const_ok(c: ConstV) -> bool
    decreases c,
{
    match c {
        ConstV::List(items) => items.len() > 0 && (forall|i: int|
            0 <= i < items.len() ==> const_ok(#[trigger] items[i])),
        ConstV::Quote(ic) => const_ok(*ic),
        _ => true,
    }
}

/// Materialisation is stable as the heap grows: no object a constant
/// rests on is ever overwritten.
pub proof fn lemma_materializes_mono(h1: Seq<HeapObject>, h2: Seq<HeapObject>, v: SmallVal, c: ConstV)
    requires
        materializes(h1, v, c),
        heap_extends(h2, h1),
    ensures
        materializes(h2, v, c),
    decreases c, 0int,
{
    match c {
        ConstV::Object(o) => {
            match v {
                SmallVal::ObjectPtr(p) => {
                    assert(h2[p as int].value == h1[p as int].value);
                },
                _ => {},
            }
        },
        ConstV::List(items) => {
            match v {
                SmallVal::ObjectPtr(p) => {
                    lemma_cons_chain_mono(h1, h2, p as int, items);
                },
                _ => {},
            }
        },
        ConstV::Quote(ic) => {
            match v {
                SmallVal::Quote(p) => {
                    lemma_obj_holds_mono(h1, h2, p as int, *ic);
                },
                _ => {},
            }
        },
        _ => {},
    }
}

pub proof fn lemma_obj_holds_mono(h1: Seq<HeapObject>, h2: Seq<HeapObject>, p: int, c: ConstV)
    requires
        obj_holds(h1, p, c),
        heap_extends(h2, h1),
    ensures
        obj_holds(h2, p, c),
    decreases c, 1int,
{
    assert(!(h1[p].value is UpValue) ==> h2[p].value == h1[p].value);
    match h1[p].value {
        ObjectValue::SmallValue(v) => {
            if materializes(h1, v, c) {
                lemma_materializes_mono(h1, h2, v, c);
            }
        },
        _ => {},
    }
    match c {
        ConstV::Object(o) => {},
        ConstV::List(items) => {
            if cons_chain(h1, p, items) {
                lemma_cons_chain_mono(h1, h2, p, items);
            }
        },
        ConstV::Quote(ic) => {
            if obj_holds(h1, p, *ic) {
                lemma_obj_holds_mono(h1, h2, p, *ic);
            }
        },
        _ => {},
    }
}

pub proof fn lemma_cons_chain_mono(h1: Seq<HeapObject>, h2: Seq<HeapObject>, p: int, items: Seq<ConstV>)
    requires
        cons_chain(h1, p, items),
        heap_extends(h2, h1),
    ensures
        cons_chain(h2, p, items),
    decreases items, 1int,
{
    assert(!(h1[p].value is UpValue) ==> h2[p].value == h1[p].value);
    match h1[p].value {
        ObjectValue::ConsCell(cell) => {
            lemma_obj_holds_mono(h1, h2, cell.0 as int, items[0]);
            if items.len() > 1 {
                match cell.1 {
                    Some(q) => {
                        lemma_cons_chain_mono(h1, h2, q as int, items.drop_first());
                    },
                    None => {},
                }
            }
        },
        _ => {},
    }
}

/// Closure sharing across separate `Closure` instructions: a cell
/// already open for some stack slot survives the step untouched, so a
/// slot the step filled by capturing that same location holds that
/// very cell — the two closures share it.
pub proof fn lemma_cross_instruction_sharing(pre: VM, post: VM, c2: Closure, k: int, j: int)
    requires
        pre.wf(),
        post.wf(),
        closure_preserves_cells(pre, post),
        filled_slot_ok(pre, post, c2, k),
        pre.spec_cur_code()[pre.ip + 2 + 2 * k] == 1,
        0 <= j < pre.open_upvalues@.len(),
        uv_at(pre.heap@, pre.open_upvalues@[j] as int).location as int == pre.spec_cur_start() + 1
            + pre.spec_cur_code()[pre.ip + 3 + 2 * k],
    ensures
        c2.upvalues@[k] == Some(pre.open_upvalues@[j]),
{
    let x = pre.open_upvalues@[j];
    assert(is_uv(pre.heap@, x as int));
    assert(is_member(post.open_upvalues@, x));
    let jx = choose|i: int| 0 <= i < post.open_upvalues@.len() && post.open_upvalues@[i] == x;
    assert(post.heap@[x as int] == pre.heap@[x as int]);
    let u = c2.upvalues@[k].unwrap();
    assert(is_member(post.open_upvalues@, u));
    let ju = choose|i: int| 0 <= i < post.open_upvalues@.len() && post.open_upvalues@[i] == u;
    assert(uv_at(post.heap@, x as int).location == uv_at(pre.heap@, x as int).location);
    assert(uv_at(post.heap@, u as int).location == uv_at(post.heap@, x as int).location);
    lemma_upvalue_sharing(post.heap@, post.open_upvalues@, jx, ju);
}

/// A state trivially preserves its own cells and list.
pub proof fn lemma_preserves_cells_refl(vm: VM)
    ensures
        closure_preserves_cells(vm, vm),
{
    assert forall|j: int| 0 <= j < vm.open_upvalues@.len() implies is_member(
        vm.open_upvalues@,
        #[trigger] vm.open_upvalues@[j],
    ) by {
        lemma_member_intro(vm.open_upvalues@, j);
    }
}

/// Whether `x` occurs in the list `l`.
pub open spec fn is_member(l: Seq<usize>, x: usize) -> bool {
    exists|i: int| 0 <= i < l.len() && l[i] == x
}

/// An element of a list is a member of it.
pub proof fn lemma_member_intro(l: Seq<usize>, i: int)
    requires
        0 <= i < l.len(),
    ensures
        is_member(l, l[i]),
{
    assert(0 <= i < l.len() && l[i] == l[i]);
}

/// A member of a list is still a member after an insertion.
pub proof fn lemma_member_after_insert(l: Seq<usize>, l2: Seq<usize>, j: int, v: usize, x: usize)
    requires
        0 <= j <= l.len(),
        l2 == l.subrange(0, j).push(v) + l.subrange(j, l.len() as int),
        is_member(l, x),
    ensures
        is_member(l2, x),
{
    let i = choose|i: int| 0 <= i < l.len() && l[i] == x;
    if i < j {
        assert(l2[i] == x);
        lemma_member_intro(l2, i);
    } else {
        assert(l2[i + 1] == x);
        lemma_member_intro(l2, i + 1);
    }
}

/// Prefixes compose.
pub proof fn lemma_prefix_trans<T>(a: Seq<T>, b: Seq<T>, c: Seq<T>)
    requires
        a.is_prefix_of(b),
        b.is_prefix_of(c),
    ensures
        a.is_prefix_of(c),
{
    assert(a =~= c.subrange(0, a.len() as int));
}

/// Heap extension is transitive.
pub proof fn lemma_heap_extends_trans(a: Seq<HeapObject>, b: Seq<HeapObject>, c: Seq<HeapObject>)
    requires
        heap_extends(b, a),
        heap_extends(c, b),
    ensures
        heap_extends(c, a),
{
    assert forall|i: int|
        0 <= i < a.len() implies (#[trigger] c[i].value == a[i].value || (c[i].value is UpValue
        && a[i].value is UpValue)) by {
        assert(b[i].value == a[i].value || (b[i].value is UpValue && a[i].value is UpValue));
        assert(c[i].value == b[i].value || (c[i].value is UpValue && b[i].value is UpValue));
    }
}

/// Looks a name up in an association list; the latest binding wins.
pub open spec fn assoc_lookup(s: Seq<(String, SmallVal)>, k: Seq<char>) -> Option<SmallVal>
    decreases s.len(),
{
    if s.len() == 0 {
        None
    } else if s.last().0@ == k {
        Some(s.last().1)
    } else {
        assoc_lookup(s.drop_last(), k)
    }
}

proof fn lemma_builtin_globals(g: Seq<(String, SmallVal)>)
    requires
        g.len() == 5,
        g[0].0@ == "+"@ && g[0].1 == SmallVal::ObjectPtr(0usize),
        g[1].0@ == "-"@ && g[1].1 == SmallVal::ObjectPtr(1usize),
        g[2].0@ == "*"@ && g[2].1 == SmallVal::ObjectPtr(2usize),
        g[3].0@ == "/"@ && g[3].1 == SmallVal::ObjectPtr(3usize),
        g[4].0@ == "inc"@ && g[4].1 == SmallVal::ObjectPtr(4usize),
    ensures
        assoc_lookup(g, "+"@) == Some(SmallVal::ObjectPtr(0usize)),
        assoc_lookup(g, "-"@) == Some(SmallVal::ObjectPtr(1usize)),
        assoc_lookup(g, "*"@) == Some(SmallVal::ObjectPtr(2usize)),
        assoc_lookup(g, "/"@) == Some(SmallVal::ObjectPtr(3usize)),
        assoc_lookup(g, "inc"@) == Some(SmallVal::ObjectPtr(4usize)),
{
    reveal_with_fuel(assoc_lookup, 6);
    reveal_strlit("+");
    reveal_strlit("-");
    reveal_strlit("*");
    reveal_strlit("/");
    reveal_strlit("inc");
    assert("+"@.len() == 1 && "+"@[0] == '+');
    assert("-"@.len() == 1 && "-"@[0] == '-');
    assert("*"@.len() == 1 && "*"@[0] == '*');
    assert("/"@.len() == 1 && "/"@[0] == '/');
    assert("inc"@.len() == 3);
    assert("-"@ != "+"@);
    assert("*"@ != "+"@);
    assert("/"@ != "+"@);
    assert("inc"@ != "+"@);
    assert("*"@ != "-"@);
    assert("/"@ != "-"@);
    assert("inc"@ != "-"@);
    assert("/"@ != "*"@);
    assert("inc"@ != "*"@);
    assert("inc"@ != "/"@);
    assert(g.drop_last() =~= g.subrange(0, 4));
    assert(g.subrange(0, 4).drop_last() =~= g.subrange(0, 3));
    assert(g.subrange(0, 3).drop_last() =~= g.subrange(0, 2));
    assert(g.subrange(0, 2).drop_last() =~= g.subrange(0, 1));
    assert(g.subrange(0, 1).drop_last() =~= g.subrange(0, 0));
    assert(g.subrange(0, 4).last() == g[3]);
    assert(g.subrange(0, 3).last() == g[2]);
    assert(g.subrange(0, 2).last() == g[1]);
    assert(g.subrange(0, 1).last() == g[0]);
    assert(assoc_lookup(g.subrange(0, 1), "+"@) == Some(SmallVal::ObjectPtr(0usize)));
    assert(assoc_lookup(g.subrange(0, 2), "+"@) == Some(SmallVal::ObjectPtr(0usize)));
    assert(assoc_lookup(g.subrange(0, 3), "+"@) == Some(SmallVal::ObjectPtr(0usize)));
    assert(assoc_lookup(g.subrange(0, 4), "+"@) == Some(SmallVal::ObjectPtr(0usize)));
    assert(assoc_lookup(g.subrange(0, 2), "-"@) == Some(SmallVal::ObjectPtr(1usize)));
    assert(assoc_lookup(g.subrange(0, 3), "-"@) == Some(SmallVal::ObjectPtr(1usize)));
    assert(assoc_lookup(g.subrange(0, 4), "-"@) == Some(SmallVal::ObjectPtr(1usize)));
    assert(assoc_lookup(g.subrange(0, 3), "*"@) == Some(SmallVal::ObjectPtr(2usize)));
    assert(assoc_lookup(g.subrange(0, 4), "*"@) == Some(SmallVal::ObjectPtr(2usize)));
    assert(assoc_lookup(g.subrange(0, 4), "/"@) == Some(SmallVal::ObjectPtr(3usize)));
}


/// Reference validity is monotone in the heap length.
pub proof fn lemma_obj_ok_mono(n: int, m: int, o: ObjectValue)
    requires
        obj_ok(n, o),
        n <= m,
    ensures
        obj_ok(m, o),
{
    match o {
        ObjectValue::Closure(c) => {
            assert forall|k: int|
                0 <= k < c.upvalues@.len() implies (#[trigger] c.upvalues@[k] matches Some(u)
                ==> u < m) by {
                assert(c.upvalues@[k] matches Some(u) ==> u < n);
            }
        },
        _ => {},
    }
}

/// One step of the `Pop` opcode: exactly when the stack is non-empty
/// the top is discarded and the pointer moves past the opcode;
/// otherwise the step fails as malformed and changes nothing.
pub open spec fn step_pop(pre: VM, post: VM, r: Result<(), RuntimeError>) -> bool {
    if pre.stack@.len() == 0 {
        r == Err::<(), RuntimeError>(RuntimeError::MalformedBytecode) && post.state_eq(pre)
    } else {
        &&& r is Ok
        &&& post.stack@ == pre.stack@.drop_last()
        &&& post.ip == pre.ip + 1
        &&& post.heap@ == pre.heap@
        &&& post.output@ == pre.output@
        &&& post.frames_env_unchanged(pre)
        &&& post.upvalues_unchanged(pre)
    }
}

/// One step of `Jump offset`: exactly when the operand byte exists and
/// the target fits, the pointer moves forward from the operand byte by
/// `offset`; otherwise the step fails as malformed.
pub open spec fn step_jump(pre: VM, post: VM, r: Result<(), RuntimeError>) -> bool {
    if pre.ip + 1 >= pre.spec_cur_code().len() {
        r == Err::<(), RuntimeError>(RuntimeError::MalformedBytecode) && post.state_eq(pre)
    } else if pre.ip + 1 + pre.spec_cur_code()[pre.ip + 1] > usize::MAX {
        r == Err::<(), RuntimeError>(RuntimeError::MalformedBytecode) && post.state_eq(pre)
    } else {
        &&& r is Ok
        &&& post.ip == pre.ip + 1 + pre.spec_cur_code()[pre.ip + 1]
        &&& post.stack@ == pre.stack@
        &&& post.heap@ == pre.heap@
        &&& post.output@ == pre.output@
        &&& post.frames_env_unchanged(pre)
        &&& post.upvalues_unchanged(pre)
    }
}

/// One step of `CondJump offset`: exactly when the operand exists, a
/// condition can be popped and the target fits, the pointer moves by
/// `offset` on a truthy condition and past the operand otherwise.
pub open spec fn step_cond_jump(pre: VM, post: VM, r: Result<(), RuntimeError>) -> bool {
    if pre.ip + 1 >= pre.spec_cur_code().len() || pre.stack@.len() == 0 {
        r == Err::<(), RuntimeError>(RuntimeError::MalformedBytecode) && post.state_eq(pre)
    } else {
        let dist = if sv_truthy(pre.stack@.last()) {
            pre.spec_cur_code()[pre.ip + 1] as int
        } else {
            1int
        };
        if pre.ip + 1 + dist > usize::MAX {
            r == Err::<(), RuntimeError>(RuntimeError::MalformedBytecode) && post.state_eq(pre)
        } else {
            &&& r is Ok
            &&& post.stack@ == pre.stack@.drop_last()
            &&& post.ip == pre.ip + 1 + dist
            &&& post.heap@ == pre.heap@
            &&& post.output@ == pre.output@
            &&& post.frames_env_unchanged(pre)
            &&& post.upvalues_unchanged(pre)
        }
    }
}

/// One step of `Print`: exactly when a value can be popped, its
/// display form is appended to the output.
pub open spec fn step_print(pre: VM, post: VM, r: Result<(), RuntimeError>) -> bool {
    if pre.stack@.len() == 0 {
        r == Err::<(), RuntimeError>(RuntimeError::MalformedBytecode) && post.state_eq(pre)
    } else {
        &&& r is Ok
        &&& post.stack@ == pre.stack@.drop_last()
        &&& post.ip == pre.ip + 1
        &&& post.heap@ == pre.heap@
        &&& post.output@ == pre.output@.push(post.output@.last())
        &&& post.output@.last()@ == crate::fmt::spec_display_sv(
            pre.heap@,
            pre.stack@.last(),
            usize::MAX as nat,
        )
        &&& post.frames_env_unchanged(pre)
        &&& post.upvalues_unchanged(pre)
    }
}

/// One step of `Add`: on two integers the wrapping sum, on two
/// strings a freshly allocated concatenation; any other pairing is a
/// type error, and fewer than two operands is malformed.
pub open spec fn step_add(pre: VM, post: VM, r: Result<(), RuntimeError>) -> bool {
    if pre.stack@.len() < 2 {
        r == Err::<(), RuntimeError>(RuntimeError::MalformedBytecode) && post.state_eq(pre)
    } else {
        let (a, b) = pre.spec_operands();
        match (a, b) {
            (SmallVal::Integer(x), SmallVal::Integer(y)) => {
                &&& r is Ok
                &&& post.binop_done(pre, SmallVal::Integer(x.wrapping_add(y)))
                &&& post.heap@ == pre.heap@
            },
            (SmallVal::ObjectPtr(i), SmallVal::ObjectPtr(j)) => {
                match (pre.heap@[i as int].value, pre.heap@[j as int].value) {
                    (ObjectValue::String(sa), ObjectValue::String(sb)) => {
                        &&& r is Ok
                        &&& post.binop_done(pre, SmallVal::ObjectPtr(pre.heap@.len() as usize))
                        &&& post.heap@.len() == pre.heap@.len() + 1
                        &&& post.heap@.drop_last() == pre.heap@
                        &&& (post.heap@.last().value matches ObjectValue::String(sc) && sc@ == sa@
                            + sb@)
                    },
                    _ => r == Err::<(), RuntimeError>(RuntimeError::TypeError) && post.state_eq(
                        pre,
                    ),
                }
            },
            _ => r == Err::<(), RuntimeError>(RuntimeError::TypeError) && post.state_eq(pre),
        }
    }
}

/// One step of `Sub`, `Mul` or `Div` on two integers (wrapping; a zero
/// divisor aborts), a type error otherwise.
pub open spec fn step_arith(pre: VM, post: VM, which: Op, r: Result<(), RuntimeError>) -> bool {
    if pre.stack@.len() < 2 {
        r == Err::<(), RuntimeError>(RuntimeError::MalformedBytecode) && post.state_eq(pre)
    } else {
        let (a, b) = pre.spec_operands();
        match (a, b) {
            (SmallVal::Integer(x), SmallVal::Integer(y)) => {
                if which == Op::Div && y == 0 {
                    r == Err::<(), RuntimeError>(RuntimeError::DivisionByZero) && post.state_eq(
                        pre,
                    )
                } else {
                    let res = match which {
                        Op::Sub => x.wrapping_sub(y),
                        Op::Mul => x.wrapping_mul(y),
                        _ => div_wrap(x, y),
                    };
                    &&& r is Ok
                    &&& post.binop_done(pre, SmallVal::Integer(res))
                    &&& post.heap@ == pre.heap@
                }
            },
            _ => r == Err::<(), RuntimeError>(RuntimeError::TypeError) && post.state_eq(pre),
        }
    }
}

/// One step of a comparison opcode: two integers push the boolean
/// outcome; anything else is a type error.
pub open spec fn step_cmp(pre: VM, post: VM, which: Op, r: Result<(), RuntimeError>) -> bool {
    if pre.stack@.len() < 2 {
        r == Err::<(), RuntimeError>(RuntimeError::MalformedBytecode) && post.state_eq(pre)
    } else {
        let (a, b) = pre.spec_operands();
        match (a, b) {
            (SmallVal::Integer(x), SmallVal::Integer(y)) => {
                &&& r is Ok
                &&& post.binop_done(pre, SmallVal::Bool(cmp_result(which, x, y)))
                &&& post.heap@ == pre.heap@
            },
            _ => r == Err::<(), RuntimeError>(RuntimeError::TypeError) && post.state_eq(pre),
        }
    }
}

/// One step of `ReferenceLocal slot`: exactly when the operand
/// exists, a frame is running, the frame-relative slot is live and the
/// stack has room, that slot's value is pushed.
pub open spec fn step_reference_local(pre: VM, post: VM, r: Result<(), RuntimeError>) -> bool {
    if pre.ip + 1 < pre.spec_cur_code().len() && pre.callframes@.len() > 0 && pre.spec_cur_start()
        + pre.spec_cur_code()[pre.ip + 1] < pre.stack@.len() && pre.stack@.len() < STACK_SIZE {
        &&& r is Ok
        &&& post.stack@ == pre.stack@.push(
            pre.stack@[pre.spec_cur_start() + pre.spec_cur_code()[pre.ip + 1]],
        )
        &&& post.ip == pre.ip + 2
        &&& post.heap@ == pre.heap@
        &&& post.output@ == pre.output@
        &&& post.frames_env_unchanged(pre)
        &&& post.upvalues_unchanged(pre)
    } else {
        r == Err::<(), RuntimeError>(RuntimeError::MalformedBytecode) && post.state_eq(pre)
    }
}

/// One step of `Define slot` or `SetLocal slot`: exactly when the
/// operand exists, a frame is running, a value can be popped and the
/// target slot stays live after the pop, the popped value overwrites
/// the slot.
pub open spec fn step_store_local(pre: VM, post: VM, r: Result<(), RuntimeError>) -> bool {
    if pre.ip + 1 < pre.spec_cur_code().len() && pre.callframes@.len() > 0 && pre.stack@.len() > 0
        && pre.spec_cur_start() + pre.spec_cur_code()[pre.ip + 1] < pre.stack@.len() - 1 {
        &&& r is Ok
        &&& post.stack@ == pre.stack@.drop_last().update(
            pre.spec_cur_start() + pre.spec_cur_code()[pre.ip + 1],
            pre.stack@.last(),
        )
        &&& post.ip == pre.ip + 2
        &&& post.heap@ == pre.heap@
        &&& post.output@ == pre.output@
        &&& post.frames_env_unchanged(pre)
        &&& post.upvalues_unchanged(pre)
    } else {
        r == Err::<(), RuntimeError>(RuntimeError::MalformedBytecode) && post.state_eq(pre)
    }
}

/// One step of `ReferenceGlobal name_idx`: when the operand names a
/// string constant, a bound name pushes its value, an unbound name
/// aborts with `UndefinedGlobal`; a bad operand or a full stack is
/// malformed.
pub open spec fn step_reference_global(pre: VM, post: VM, r: Result<(), RuntimeError>) -> bool {
    if pre.ip + 1 >= pre.spec_cur_code().len() || pre.spec_cur_code()[pre.ip + 1] as int
        >= pre.spec_cur_constants().len() {
        r == Err::<(), RuntimeError>(RuntimeError::MalformedBytecode) && post.state_eq(pre)
    } else {
        match pre.spec_cur_constants()[pre.spec_cur_code()[pre.ip + 1] as int] {
            ConstantValue::Object(ConstantObject::String(nm)) => {
                match assoc_lookup(pre.globals@, nm@) {
                    None => (r matches Err(e) && e matches RuntimeError::UndefinedGlobal(n) && n@
                        == nm@) && post.state_eq(pre),
                    Some(v) => if pre.stack@.len() >= STACK_SIZE {
                        r == Err::<(), RuntimeError>(RuntimeError::MalformedBytecode)
                            && post.state_eq(pre)
                    } else {
                        &&& r is Ok
                        &&& post.stack@ == pre.stack@.push(v)
                        &&& post.ip == pre.ip + 2
                        &&& post.heap@ == pre.heap@
                        &&& post.output@ == pre.output@
                        &&& post.frames_env_unchanged(pre)
                        &&& post.upvalues_unchanged(pre)
                    },
                }
            },
            _ => r == Err::<(), RuntimeError>(RuntimeError::MalformedBytecode) && post.state_eq(
                pre,
            ),
        }
    }
}

/// One step of `DeclareGlobal name_idx`: exactly when the operand
/// names a string constant and a value can be popped, the binding is
/// appended (inserting or overwriting the name).
pub open spec fn step_declare_global(pre: VM, post: VM, r: Result<(), RuntimeError>) -> bool {
    if pre.ip + 1 < pre.spec_cur_code().len() && pre.stack@.len() > 0 && (
    pre.spec_cur_code()[pre.ip + 1] as int) < pre.spec_cur_constants().len() && (
    pre.spec_cur_constants()[pre.spec_cur_code()[pre.ip + 1] as int] matches ConstantValue::Object(
        ConstantObject::String(_),
    )) {
        &&& r is Ok
        &&& post.globals@.len() == pre.globals@.len() + 1
        &&& post.globals@.drop_last() == pre.globals@
        &&& (pre.spec_cur_constants()[pre.spec_cur_code()[pre.ip + 1] as int] matches
            ConstantValue::Object(ConstantObject::String(nm)) && post.globals@.last().0@ == nm@)
        &&& post.globals@.last().1 == pre.stack@.last()
        &&& post.stack@ == pre.stack@.drop_last()
        &&& post.ip == pre.ip + 2
        &&& post.heap@ == pre.heap@
        &&& post.output@ == pre.output@
        &&& post.callframes@ == pre.callframes@
        &&& post.chunk == pre.chunk
        &&& post.upvalues_unchanged(pre)
    } else {
        r == Err::<(), RuntimeError>(RuntimeError::MalformedBytecode) && post.state_eq(pre)
    }
}

/// One step of `ReferenceUpvalue idx`: exactly when the operand names
/// a filled upvalue slot of the running closure whose cell is live
/// (closed, or open with its stack slot in range) and the stack has
/// room, the captured variable's current value is pushed.
pub open spec fn step_reference_upvalue(pre: VM, post: VM, r: Result<(), RuntimeError>) -> bool {
    if pre.ip + 1 >= pre.spec_cur_code().len() {
        r == Err::<(), RuntimeError>(RuntimeError::MalformedBytecode) && post.state_eq(pre)
    } else {
        match pre.spec_frame_closure() {
            None => r == Err::<(), RuntimeError>(RuntimeError::MalformedBytecode)
                && post.state_eq(pre),
            Some(c) => {
                let uidx = pre.spec_cur_code()[pre.ip + 1] as int;
                if !(uidx < c.upvalues@.len() && c.upvalues@[uidx] is Some) {
                    r == Err::<(), RuntimeError>(RuntimeError::MalformedBytecode)
                        && post.state_eq(pre)
                } else {
                    let u = c.upvalues@[uidx].unwrap();
                    if !is_uv(pre.heap@, u as int) {
                        r == Err::<(), RuntimeError>(RuntimeError::MalformedBytecode)
                            && post.state_eq(pre)
                    } else {
                        let uv = uv_at(pre.heap@, u as int);
                        let live = match uv.closed_val {
                            Some(_) => true,
                            None => uv.location < pre.stack@.len(),
                        };
                        if !live || pre.stack@.len() >= STACK_SIZE {
                            r == Err::<(), RuntimeError>(RuntimeError::MalformedBytecode)
                                && post.state_eq(pre)
                        } else {
                            &&& r is Ok
                            &&& post.stack@ == pre.stack@.push(
                                match uv.closed_val {
                                    Some(v) => v,
                                    None => pre.stack@[uv.location as int],
                                },
                            )
                            &&& post.ip == pre.ip + 2
                            &&& post.heap@ == pre.heap@
                            &&& post.output@ == pre.output@
                            &&& post.frames_env_unchanged(pre)
                            &&& post.upvalues_unchanged(pre)
                        }
                    }
                }
            },
        }
    }
}

/// One step of `SetUpvalue idx`: exactly when the operand names a
/// filled upvalue slot, a value can be popped, and the cell is live,
/// the popped value is written through the cell — into its stack slot
/// while open, into the cell once closed.
pub open spec fn step_set_upvalue(pre: VM, post: VM, r: Result<(), RuntimeError>) -> bool {
    if pre.ip + 1 >= pre.spec_cur_code().len() || pre.stack@.len() == 0 {
        r == Err::<(), RuntimeError>(RuntimeError::MalformedBytecode) && post.state_eq(pre)
    } else {
        match pre.spec_frame_closure() {
            None => r == Err::<(), RuntimeError>(RuntimeError::MalformedBytecode)
                && post.state_eq(pre),
            Some(c) => {
                let uidx = pre.spec_cur_code()[pre.ip + 1] as int;
                if !(uidx < c.upvalues@.len() && c.upvalues@[uidx] is Some) {
                    r == Err::<(), RuntimeError>(RuntimeError::MalformedBytecode)
                        && post.state_eq(pre)
                } else {
                    let u = c.upvalues@[uidx].unwrap();
                    if !is_uv(pre.heap@, u as int) {
                        r == Err::<(), RuntimeError>(RuntimeError::MalformedBytecode)
                            && post.state_eq(pre)
                    } else {
                        let uv = uv_at(pre.heap@, u as int);
                        match uv.closed_val {
                            Some(_) => {
                                &&& r is Ok
                                &&& post.stack@ == pre.stack@.drop_last()
                                &&& post.heap@ == pre.heap@.update(
                                    u as int,
                                    HeapObject {
                                        value: ObjectValue::UpValue(
                                            UpValue {
                                                location: uv.location,
                                                closed_val: Some(pre.stack@.last()),
                                            },
                                        ),
                                    },
                                )
                                &&& post.ip == pre.ip + 2
                                &&& post.output@ == pre.output@
                                &&& post.frames_env_unchanged(pre)
                                &&& post.upvalues_unchanged(pre)
                            },
                            None => if uv.location >= pre.stack@.len() - 1 {
                                r == Err::<(), RuntimeError>(RuntimeError::MalformedBytecode)
                                    && post.state_eq(pre)
                            } else {
                                &&& r is Ok
                                &&& post.stack@ == pre.stack@.drop_last().update(
                                    uv.location as int,
                                    pre.stack@.last(),
                                )
                                &&& post.heap@ == pre.heap@
                                &&& post.ip == pre.ip + 2
                                &&& post.output@ == pre.output@
                                &&& post.frames_env_unchanged(pre)
                                &&& post.upvalues_unchanged(pre)
                            },
                        }
                    }
                }
            },
        }
    }
}

/// One step of `Constant idx`: exactly when the operand indexes a
/// well-formed constant and the stack has room, its materialisation is
/// pushed; scalars materialise to themselves without allocating.
pub open spec fn step_constant(pre: VM, post: VM, r: Result<(), RuntimeError>) -> bool {
    if pre.ip + 1 >= pre.spec_cur_code().len() || pre.spec_cur_code()[pre.ip + 1] as int
        >= pre.spec_cur_constants().len() {
        r == Err::<(), RuntimeError>(RuntimeError::MalformedBytecode) && post.state_eq(pre)
    } else {
        let cm = pre.spec_cur_constants()[pre.spec_cur_code()[pre.ip + 1] as int].model();
        if !const_ok(cm) || pre.stack@.len() >= STACK_SIZE {
            &&& r == Err::<(), RuntimeError>(RuntimeError::MalformedBytecode)
            &&& post.stack@ == pre.stack@
            &&& post.ip == pre.ip
            &&& post.output@ == pre.output@
            &&& heap_extends(post.heap@, pre.heap@)
            &&& post.frames_env_unchanged(pre)
            &&& post.upvalues_unchanged(pre)
        } else {
            &&& r is Ok
            &&& post.stack@.len() == pre.stack@.len() + 1
            &&& post.stack@.drop_last() == pre.stack@
            &&& materializes(post.heap@, post.stack@.last(), cm)
            &&& (match cm {
                ConstV::Integer(i) => post.heap@ == pre.heap@ && post.stack@.last()
                    == SmallVal::Integer(i),
                ConstV::Boolean(b) => post.heap@ == pre.heap@ && post.stack@.last()
                    == SmallVal::Bool(b),
                ConstV::Nil => post.heap@ == pre.heap@ && post.stack@.last() == SmallVal::Nil,
                ConstV::Object(_) => {
                    &&& post.heap@.len() == pre.heap@.len() + 1
                    &&& post.heap@.drop_last() == pre.heap@
                    &&& post.stack@.last() == SmallVal::ObjectPtr(pre.heap@.len() as usize)
                },
                _ => heap_extends(post.heap@, pre.heap@),
            })
            &&& post.ip == pre.ip + 2
            &&& post.output@ == pre.output@
            &&& post.frames_env_unchanged(pre)
            &&& post.upvalues_unchanged(pre)
        }
    }
}

/// One step of `FuncCall arity`: a closure of matching arity gets a
/// frame above the caller's and its locals reserved; a builtin runs to
/// completion and replaces the call site by its result (or aborts with
/// its own error); any other callee is a type error.
pub open spec fn step_func_call(pre: VM, post: VM, r: Result<(), RuntimeError>) -> bool {
    if pre.ip + 1 >= pre.spec_cur_code().len() {
        r == Err::<(), RuntimeError>(RuntimeError::MalformedBytecode) && post.state_eq(pre)
    } else {
        let arity = pre.spec_cur_code()[pre.ip + 1] as int;
        let n = pre.stack@.len() as int;
        if arity >= n {
            r == Err::<(), RuntimeError>(RuntimeError::MalformedBytecode) && post.state_eq(pre)
        } else {
            match pre.stack@[n - 1 - arity] {
                SmallVal::ObjectPtr(p) => match pre.heap@[p as int].value {
                    ObjectValue::Closure(c) => {
                        if c.f.arity != arity {
                            r == Err::<(), RuntimeError>(RuntimeError::ArityMismatch)
                                && post.state_eq(pre)
                        } else if n - 1 - arity <= pre.spec_cur_start() {
                            r == Err::<(), RuntimeError>(RuntimeError::MalformedBytecode)
                                && post.state_eq(pre)
                        } else if c.f.num_locals > STACK_SIZE || n + c.f.num_locals > STACK_SIZE {
                            r == Err::<(), RuntimeError>(RuntimeError::MalformedBytecode)
                                && post.state_eq(pre)
                        } else {
                            &&& r is Ok
                            &&& post.callframes@ == pre.callframes@.push(
                                CallFrame {
                                    closure_obj: p,
                                    return_address: (pre.ip + 1) as usize,
                                    start_idx: (n - 1 - arity) as i32,
                                },
                            )
                            &&& post.ip == 0
                            &&& post.stack@ == pre.stack@ + Seq::new(
                                c.f.num_locals as nat,
                                |k: int| SmallVal::Nil,
                            )
                            &&& post.heap@ == pre.heap@
                            &&& post.globals@ == pre.globals@
                            &&& post.chunk == pre.chunk
                            &&& post.output@ == pre.output@
                            &&& post.upvalues_unchanged(pre)
                        }
                    },
                    ObjectValue::BuiltIn(b) => {
                        match spec_builtin(b, pre.stack@.subrange(n - arity, n)) {
                            Ok(v) => {
                                &&& r is Ok
                                &&& post.stack@ == pre.stack@.subrange(0, n - 1 - arity).push(v)
                                &&& post.ip == pre.ip + 2
                                &&& post.heap@ == pre.heap@
                                &&& post.output@ == pre.output@
                                &&& post.frames_env_unchanged(pre)
                                &&& post.upvalues_unchanged(pre)
                            },
                            Err(e) => {
                                &&& r == Err::<(), RuntimeError>(e)
                                &&& post.stack@ == pre.stack@.subrange(0, n - 1 - arity)
                                &&& post.ip == pre.ip
                                &&& post.heap@ == pre.heap@
                                &&& post.output@ == pre.output@
                                &&& post.frames_env_unchanged(pre)
                                &&& post.upvalues_unchanged(pre)
                            },
                        }
                    },
                    _ => r == Err::<(), RuntimeError>(RuntimeError::TypeError) && post.state_eq(
                        pre,
                    ),
                },
                _ => r == Err::<(), RuntimeError>(RuntimeError::TypeError) && post.state_eq(pre),
            }
        }
    }
}

/// What closing the upvalues of a returning frame does: the open list
/// splits at the frame boundary `b`; every cell at or above it closes
/// over its slot's last value (nil if the slot is already gone from a
/// stack of length `stack_len`), every other heap slot is untouched.
pub open spec fn closes_upvalues(
    pre_heap: Seq<HeapObject>,
    pre_list: Seq<usize>,
    post_heap: Seq<HeapObject>,
    post_list: Seq<usize>,
    b: int,
    stack: Seq<SmallVal>,
    m: int,
) -> bool {
    &&& 0 <= m <= pre_list.len()
    &&& post_list == pre_list.subrange(m, pre_list.len() as int)
    &&& forall|k: int|
        0 <= k < m ==> uv_at(pre_heap, #[trigger] pre_list[k] as int).location >= b
    &&& forall|k: int|
        m <= k < pre_list.len() ==> uv_at(pre_heap, #[trigger] pre_list[k] as int).location < b
    &&& forall|k: int|
        #![trigger pre_list[k]]
        0 <= k < m ==> {
            let node = pre_list[k] as int;
            let loc = uv_at(pre_heap, node).location as int;
            post_heap[node].value == ObjectValue::UpValue(
                UpValue {
                    location: uv_at(pre_heap, node).location,
                    closed_val: Some(
                        if loc < stack.len() {
                            stack[loc]
                        } else {
                            SmallVal::Nil
                        },
                    ),
                },
            )
        }
    &&& forall|i: int|
        0 <= i < pre_heap.len() && !(exists|k: int| 0 <= k < m && pre_list[k] == i) ==> (
        #[trigger] post_heap[i]).value == pre_heap[i].value
}

/// One step of `Return`: exactly when a frame is running, its stack
/// region is intact (callee, arguments and locals below a return
/// value) and the return address is in range, the frame's still-open
/// upvalues close, its region is discarded, and exactly the return
/// value stands where the callee stood; the caller resumes past its
/// call operand.
pub open spec fn step_return(pre: VM, post: VM, r: Result<(), RuntimeError>) -> bool {
    if pre.callframes@.len() == 0 {
        r == Err::<(), RuntimeError>(RuntimeError::MalformedBytecode) && post.state_eq(pre)
    } else {
        let fr = pre.callframes@.last();
        match pre.heap@[fr.closure_obj as int].value {
            ObjectValue::Closure(c) => {
                let pops = c.f.arity + c.f.num_locals + 1;
                if pops > usize::MAX || pre.stack@.len() == 0 || pre.stack@.len() - 1 < pops
                    || pre.stack@.len() - 1 - pops != fr.start_idx || fr.return_address
                    == usize::MAX {
                    r == Err::<(), RuntimeError>(RuntimeError::MalformedBytecode)
                        && post.state_eq(pre)
                } else {
                    &&& r is Ok
                    &&& post.callframes@ == pre.callframes@.drop_last()
                    &&& post.stack@ == pre.stack@.subrange(0, fr.start_idx as int).push(
                        pre.stack@.last(),
                    )
                    &&& post.ip == fr.return_address + 1
                    &&& post.heap@.len() == pre.heap@.len()
                    &&& post.output@ == pre.output@
                    &&& post.globals@ == pre.globals@
                    &&& post.chunk == pre.chunk
                    &&& exists|m: int|
                        closes_upvalues(
                            pre.heap@,
                            pre.open_upvalues@,
                            post.heap@,
                            post.open_upvalues@,
                            fr.start_idx as int,
                            pre.stack@.drop_last(),
                            m,
                        )
                }
            },
            _ => r == Err::<(), RuntimeError>(RuntimeError::MalformedBytecode) && post.state_eq(
                pre,
            ),
        }
    }
}

/// Whether capture descriptor `k` of a `Closure` instruction at
/// `pre.ip` can be carried out: both operand bytes exist, the capture
/// type decodes, and its target exists in the running frame.
pub open spec fn capture_descr_ok(pre: VM, k: int) -> bool {
    &&& pre.ip + 3 + 2 * k < pre.spec_cur_code().len()
    &&& {
        let ct = pre.spec_cur_code()[pre.ip + 2 + 2 * k];
        let uidx = pre.spec_cur_code()[pre.ip + 3 + 2 * k] as int;
        if ct == 1 {
            pre.callframes@.len() > 0
        } else if ct == 0 {
            pre.spec_frame_closure() matches Some(c) && uidx < c.upvalues@.len()
                && c.upvalues@[uidx] is Some
        } else {
            false
        }
    }
}

/// What capture descriptor `k` put into upvalue slot `k` of the new
/// closure: a surrounding-upvalue descriptor shares the running
/// closure's cell; a surrounding-local descriptor yields an open cell
/// in the open-upvalue list for exactly the captured stack slot — so
/// two closures capturing one local get one cell.
pub open spec fn filled_slot_ok(pre: VM, post: VM, c2: Closure, k: int) -> bool {
    let ct = pre.spec_cur_code()[pre.ip + 2 + 2 * k];
    let uidx = pre.spec_cur_code()[pre.ip + 3 + 2 * k] as int;
    &&& (c2.upvalues@[k] matches Some(u) && u < post.heap@.len())
    &&& (ct == 0 ==> (pre.spec_frame_closure() matches Some(pc) && c2.upvalues@[k]
        == pc.upvalues@[uidx]))
    &&& (ct == 1 ==> {
        let u = c2.upvalues@[k].unwrap();
        &&& is_uv(post.heap@, u as int)
        &&& uv_at(post.heap@, u as int).closed_val is None
        &&& uv_at(post.heap@, u as int).location == pre.spec_cur_start() + 1 + uidx
        &&& is_member(post.open_upvalues@, u)
    })
}

/// Building a closure touches no existing heap cell: every object the
/// heap already held — open or closed upvalue cells included — is
/// unchanged, every cell of the old open-upvalue list is still in the
/// list, and anything new in the list is a freshly allocated cell. So
/// a local already captured by an earlier closure keeps its one cell,
/// and a later capture of the same live slot finds it.
pub open spec fn closure_preserves_cells(pre: VM, post: VM) -> bool {
    &&& forall|i: int| 0 <= i < pre.heap@.len() ==> post.heap@[i] == #[trigger] pre.heap@[i]
    &&& forall|j: int|
        0 <= j < pre.open_upvalues@.len() ==> is_member(
            post.open_upvalues@,
            #[trigger] pre.open_upvalues@[j],
        )
    &&& forall|j2: int|
        0 <= j2 < post.open_upvalues@.len() ==> (is_member(
            pre.open_upvalues@,
            #[trigger] post.open_upvalues@[j2],
        ) || post.open_upvalues@[j2] >= pre.heap@.len())
}

/// One step of `Closure idx, N x (capture_type, index)`: exactly when
/// the operand names a closure-template constant, every capture
/// descriptor can be carried out and the stack has room, a closure
/// with the template's function and every slot filled per
/// `filled_slot_ok` is allocated and pushed.
pub open spec fn step_closure(pre: VM, post: VM, r: Result<(), RuntimeError>) -> bool {
    let err_ok = {
        &&& r == Err::<(), RuntimeError>(RuntimeError::MalformedBytecode)
        &&& post.stack@ == pre.stack@
        &&& post.ip == pre.ip
        &&& post.output@ == pre.output@
        &&& heap_extends(post.heap@, pre.heap@)
        &&& post.frames_env_unchanged(pre)
        &&& closure_preserves_cells(pre, post)
    };
    if pre.ip + 1 >= pre.spec_cur_code().len() || pre.spec_cur_code()[pre.ip + 1] as int
        >= pre.spec_cur_constants().len() {
        err_ok
    } else {
        match pre.spec_cur_constants()[pre.spec_cur_code()[pre.ip + 1] as int] {
            ConstantValue::Object(ConstantObject::Closure(tmpl)) => {
                let num = tmpl.num_upvalues as int;
                if (forall|k: int| 0 <= k < num ==> capture_descr_ok(pre, k)) && pre.stack@.len()
                    < STACK_SIZE {
                    &&& r is Ok
                    &&& post.stack@ == pre.stack@.push(
                        SmallVal::ObjectPtr((post.heap@.len() - 1) as usize),
                    )
                    &&& post.heap@.len() > pre.heap@.len()
                    &&& (post.heap@.last().value matches ObjectValue::Closure(c2) && {
                        &&& c2.f.model() == tmpl.f.model()
                        &&& c2.num_upvalues == tmpl.num_upvalues
                        &&& c2.upvalues@.len() == num
                        &&& forall|k: int| 0 <= k < num ==> filled_slot_ok(pre, post, c2, k)
                    })
                    &&& post.ip == pre.ip + 2 + 2 * num
                    &&& heap_extends(post.heap@, pre.heap@)
                    &&& post.output@ == pre.output@
                    &&& post.frames_env_unchanged(pre)
                    &&& closure_preserves_cells(pre, post)
                } else {
                    err_ok
                }
            },
            _ => err_ok,
        }
    }
}

/// The opcode the machine is about to execute, if the instruction
/// pointer sits on one.
pub open spec fn spec_opcode(vm: VM) -> Option<Op> {
    if vm.ip < vm.spec_cur_code().len() {
        crate::bytecode::spec_op_from_byte(vm.spec_cur_code()[vm.ip as int])
    } else {
        None
    }
}

/// The machine has stopped on a `DebugEnd` instruction.
pub open spec fn spec_halted(vm: VM) -> bool {
    spec_opcode(vm) == Some(Op::DebugEnd)
}

/// What executing opcode `op` in state `pre` does: the per-opcode step
/// relations, gathered into the machine's small-step semantics.
/// `DebugEnd` is not a step (the machine halts) and the reserved
/// `CloseUpvalue` has no successful step.
pub open spec fn step_op(pre: VM, post: VM, op: Op, r: Result<(), RuntimeError>) -> bool {
    match op {
        Op::Constant => step_constant(pre, post, r),
        Op::Add => step_add(pre, post, r),
        Op::Sub => step_arith(pre, post, Op::Sub, r),
        Op::Mul => step_arith(pre, post, Op::Mul, r),
        Op::Div => step_arith(pre, post, Op::Div, r),
        Op::GT | Op::LT | Op::GTE | Op::LTE => step_cmp(pre, post, op, r),
        Op::Jump => step_jump(pre, post, r),
        Op::CondJump => step_cond_jump(pre, post, r),
        Op::FuncCall => step_func_call(pre, post, r),
        Op::Return => step_return(pre, post, r),
        Op::DeclareGlobal => step_declare_global(pre, post, r),
        Op::ReferenceGlobal => step_reference_global(pre, post, r),
        Op::ReferenceLocal => step_reference_local(pre, post, r),
        Op::Print => step_print(pre, post, r),
        Op::Define | Op::SetLocal => step_store_local(pre, post, r),
        Op::ReferenceUpvalue => step_reference_upvalue(pre, post, r),
        Op::SetUpvalue => step_set_upvalue(pre, post, r),
        Op::Closure => step_closure(pre, post, r),
        Op::Pop => step_pop(pre, post, r),
        Op::CloseUpvalue => false,
        Op::DebugEnd => false,
    }
}

/// One successful instruction step.
pub open spec fn spec_step(pre: VM, post: VM) -> bool {
    match spec_opcode(pre) {
        Some(op) => step_op(pre, post, op, Ok(())),
        None => false,
    }
}

/// The instruction at `pre` fails with error `e`: an unfetchable or
/// undecodable opcode byte is malformed, the reserved opcode has no
/// handler, and otherwise the opcode's own step relation rejects.
pub open spec fn spec_step_fails(pre: VM, e: RuntimeError) -> bool {
    match spec_opcode(pre) {
        None => e == RuntimeError::MalformedBytecode,
        Some(op) => match op {
            Op::DebugEnd => false,
            Op::CloseUpvalue => e == RuntimeError::MalformedBytecode,
            _ => exists|post: VM| step_op(pre, post, op, Err(e)),
        },
    }
}

/// `post` is reachable from `pre` in exactly `n` successful steps.
pub open spec fn multi_step(pre: VM, post: VM, n: nat) -> bool
    decreases n,
{
    if n == 0 {
        post == pre
    } else {
        exists|mid: VM| spec_step(pre, mid) && multi_step(mid, post, (n - 1) as nat)
    }
}

/// A state whose next instruction is `DebugEnd` steps no further: a
/// run from it is empty.
pub proof fn lemma_halted_runs_stop(pre: VM, post: VM, n: nat)
    requires
        multi_step(pre, post, n),
        spec_halted(pre),
    ensures
        n == 0,
        post == pre,
{
    if n > 0 {
        let mid = choose|mid: VM| spec_step(pre, mid) && multi_step(mid, post, (n - 1) as nat);
        assert(step_op(pre, mid, Op::DebugEnd, Ok(())));
    }
}

/// The run-level contract pins whole programs down. For the smallest
/// one — load the integer constant `k`, halt — every run that reaches
/// a halt leaves exactly that integer pushed on the stack.
pub proof fn lemma_run_single_constant(loaded: VM, fin: VM, n: nat, k: i64)
    requires
        loaded.callframes@.len() == 0,
        loaded.ip == 0,
        loaded.chunk.code@ == seq![0u8, 0u8, 254u8],
        loaded.chunk.constants@.len() == 1,
        loaded.chunk.constants@[0] == ConstantValue::Integer(k),
        loaded.stack@.len() < STACK_SIZE,
        multi_step(loaded, fin, n),
        spec_halted(fin),
    ensures
        fin.stack@ == loaded.stack@.push(SmallVal::Integer(k)),
        fin.output@ == loaded.output@,
        fin.heap@ == loaded.heap@,
{
    assert(spec_opcode(loaded) == Some(Op::Constant));
    assert(!spec_halted(loaded));
    assert(n > 0);
    let mid = choose|mid: VM| spec_step(loaded, mid) && multi_step(mid, fin, (n - 1) as nat);
    assert(step_constant(loaded, mid, Ok(())));
    assert(loaded.chunk.constants@[0].model() == ConstV::Integer(k));
    assert(mid.stack@.last() == SmallVal::Integer(k));
    assert(mid.stack@ =~= loaded.stack@.push(SmallVal::Integer(k)));
    assert(mid.callframes@ == loaded.callframes@ && mid.chunk == loaded.chunk);
    assert(mid.spec_cur_code() == loaded.chunk.code@);
    assert(spec_opcode(mid) == Some(Op::DebugEnd));
    lemma_halted_runs_stop(mid, fin, (n - 1) as nat);
}

/// The print-add scenario, derived from the contracts alone: for the
/// program that loads two integer constants, adds them and prints the
/// sum, every run that reaches a halt leaves the stack as it was and
/// appends exactly the sum's decimal rendering to the output.
#[verifier::rlimit(100)]
pub proof fn lemma_run_print_add(loaded: VM, fin: VM, n: nat, a: i64, b: i64)
    requires
        loaded.callframes@.len() == 0,
        loaded.ip == 0,
        loaded.chunk.code@ == seq![0u8, 0u8, 0u8, 1u8, 1u8, 18u8, 254u8],
        loaded.chunk.constants@.len() == 2,
        loaded.chunk.constants@[0] == ConstantValue::Integer(a),
        loaded.chunk.constants@[1] == ConstantValue::Integer(b),
        loaded.stack@.len() + 2 <= STACK_SIZE,
        multi_step(loaded, fin, n),
        spec_halted(fin),
    ensures
        fin.stack@ == loaded.stack@,
        fin.output@.len() == loaded.output@.len() + 1,
        fin.output@.drop_last() == loaded.output@,
        fin.output@.last()@ == crate::fmt::i64_dec(a.wrapping_add(b) as int),
        fin.heap@ == loaded.heap@,
{
    assert(spec_opcode(loaded) == Some(Op::Constant));
    assert(!spec_halted(loaded));
    assert(n > 0);
    let s1 = choose|mid: VM| spec_step(loaded, mid) && multi_step(mid, fin, (n - 1) as nat);
    assert(step_constant(loaded, s1, Ok(())));
    assert(s1.stack@ =~= loaded.stack@.push(SmallVal::Integer(a)));
    assert(s1.spec_cur_code() == loaded.chunk.code@);
    assert(s1.spec_cur_constants() == loaded.chunk.constants@);
    assert(spec_opcode(s1) == Some(Op::Constant));
    assert(!spec_halted(s1));
    if n - 1 == 0 {
        assert(fin == s1);
    }
    assert(n - 1 > 0);
    let s2 = choose|mid: VM| spec_step(s1, mid) && multi_step(mid, fin, (n - 2) as nat);
    assert(step_constant(s1, s2, Ok(())));
    assert(s2.stack@ =~= loaded.stack@.push(SmallVal::Integer(a)).push(SmallVal::Integer(b)));
    assert(s2.spec_cur_code() == loaded.chunk.code@);
    assert(spec_opcode(s2) == Some(Op::Add));
    assert(!spec_halted(s2));
    if n - 2 == 0 {
        assert(fin == s2);
    }
    assert(n - 2 > 0);
    let s3 = choose|mid: VM| spec_step(s2, mid) && multi_step(mid, fin, (n - 3) as nat);
    assert(step_add(s2, s3, Ok(())));
    assert(s2.spec_operands() == (SmallVal::Integer(a), SmallVal::Integer(b)));
    assert(s3.stack@ =~= loaded.stack@.push(SmallVal::Integer(a.wrapping_add(b))));
    assert(s3.spec_cur_code() == loaded.chunk.code@);
    assert(spec_opcode(s3) == Some(Op::Print));
    assert(!spec_halted(s3));
    if n - 3 == 0 {
        assert(fin == s3);
    }
    assert(n - 3 > 0);
    let s4 = choose|mid: VM| spec_step(s3, mid) && multi_step(mid, fin, (n - 4) as nat);
    assert(step_print(s3, s4, Ok(())));
    assert(s4.stack@ =~= loaded.stack@);
    assert(s4.output@.last()@ == crate::fmt::spec_display_sv(
        s3.heap@,
        SmallVal::Integer(a.wrapping_add(b)),
        usize::MAX as nat,
    ));
    assert(s4.output@.last()@ == crate::fmt::i64_dec(a.wrapping_add(b) as int));
    assert(s4.output@.drop_last() =~= loaded.output@);
    assert(s4.spec_cur_code() == loaded.chunk.code@);
    assert(spec_opcode(s4) == Some(Op::DebugEnd));
    lemma_halted_runs_stop(s4, fin, (n - 4) as nat);
}

/// A step after a run extends the run.
pub proof fn lemma_multi_step_extend(a: VM, b: VM, c: VM, n: nat)
    requires
        multi_step(a, b, n),
        spec_step(b, c),
    ensures
        multi_step(a, c, n + 1),
    decreases n,
{
    if n == 0 {
        assert(spec_step(a, c));
        assert(multi_step(c, c, 0));
    } else {
        let mid = choose|mid: VM| spec_step(a, mid) && multi_step(mid, b, (n - 1) as nat);
        lemma_multi_step_extend(mid, b, c, (n - 1) as nat);
        assert(spec_step(a, mid) && multi_step(mid, c, n));
    }
}

/// Runs compose.
pub proof fn lemma_multi_step_trans(a: VM, b: VM, c: VM, n: nat, m: nat)
    requires
        multi_step(a, b, n),
        multi_step(b, c, m),
    ensures
        multi_step(a, c, n + m),
    decreases n,
{
    if n == 0 {
    } else {
        let mid = choose|mid: VM| spec_step(a, mid) && multi_step(mid, b, (n - 1) as nat);
        lemma_multi_step_trans(mid, b, c, (n - 1) as nat, m);
        assert(spec_step(a, mid) && multi_step(mid, c, (n - 1 + m) as nat));
        assert(multi_step(a, c, (n + m) as nat));
    }
}

/// What kind of callable a `FuncCall` found.
enum Callee {
    Closure(usize, usize, usize),
    Builtin(BuiltinFn),
}

impl VM {
    pub open spec fn wf(self) -> bool {
        &&& self.stack.wf()
        &&& forall|i: int|
            0 <= i < self.stack@.len() ==> sv_ok(self.heap@.len() as int, #[trigger] self.stack@[i])
        &&& heap_ok(self.heap@)
        &&& forall|i: int|
            0 <= i < self.globals@.len() ==> sv_ok(
                self.heap@.len() as int,
                (#[trigger] self.globals@[i]).1,
            )
        &&& forall|i: int|
            0 <= i < self.callframes@.len() ==> frame_ok(self.heap@, #[trigger] self.callframes@[i])
        &&& forall|i: int|
            0 <= i < self.callframes@.len() - 1 ==> (#[trigger] self.callframes@[i]).start_idx
                < self.callframes@[i + 1].start_idx
        &&& uv_list_wf(self.heap@, self.open_upvalues@)
        &&& self.chunk.code@.len() <= usize::MAX
        &&& self.chunk.constants@.len() <= usize::MAX
    }

    /// The running chunk's code and constants fit in memory.
    pub proof fn lemma_cur_bounds(self)
        requires
            self.wf(),
        ensures
            self.spec_cur_code().len() <= usize::MAX,
            self.spec_cur_constants().len() <= usize::MAX,
    {
        if self.callframes@.len() > 0 {
            assert(frame_ok(self.heap@, self.callframes@[self.callframes@.len() - 1]));
        }
    }

    /// The code of the chunk the instruction pointer runs in: the top
    /// frame's closure, or the top-level chunk outside any call.
    pub open spec fn spec_cur_code(self) -> Seq<u8> {
        if self.callframes@.len() == 0 {
            self.chunk.code@
        } else {
            match self.heap@[self.callframes@.last().closure_obj as int].value {
                ObjectValue::Closure(c) => c.f.bytecode.code@,
                _ => Seq::<u8>::empty(),
            }
        }
    }

    /// The constants pool the instruction pointer resolves against.
    pub open spec fn spec_cur_constants(self) -> Seq<ConstantValue> {
        if self.callframes@.len() == 0 {
            self.chunk.constants@
        } else {
            match self.heap@[self.callframes@.last().closure_obj as int].value {
                ObjectValue::Closure(c) => c.f.bytecode.constants@,
                _ => Seq::<ConstantValue>::empty(),
            }
        }
    }

    /// The stack offset of the running frame; `-1` outside any call.
    pub open spec fn spec_cur_start(self) -> int {
        if self.callframes@.len() == 0 {
            -1
        } else {
            self.callframes@.last().start_idx as int
        }
    }

    /// Everything except stack, ip, heap, output and the upvalue state
    /// is unchanged: frames, globals and the top-level chunk.
    pub open spec fn frames_env_unchanged(self, prev: Self) -> bool {
        &&& self.callframes@ == prev.callframes@
        &&& self.globals@ == prev.globals@
        &&& self.chunk == prev.chunk
    }

    /// The upvalue bookkeeping is unchanged.
    pub open spec fn upvalues_unchanged(self, prev: Self) -> bool {
        self.open_upvalues@ == prev.open_upvalues@
    }

    /// Componentwise equality of the whole machine state.
    pub open spec fn state_eq(self, o: Self) -> bool {
        &&& self.stack@ == o.stack@
        &&& self.stack.ptr == o.stack.ptr
        &&& self.globals@ == o.globals@
        &&& self.ip == o.ip
        &&& self.callframes@ == o.callframes@
        &&& self.heap@ == o.heap@
        &&& self.chunk == o.chunk
        &&& self.open_upvalues@ == o.open_upvalues@
        &&& self.output@ == o.output@
    }

    /// Appending an object whose references are in range preserves
    /// every invariant: old references stay valid because the heap
    /// only grew.
    pub proof fn lemma_wf_after_alloc(prev: Self, cur: Self, o: ObjectValue)
        requires
            prev.wf(),
            cur.heap@ == prev.heap@.push(HeapObject { value: o }),
            obj_ok(prev.heap@.len() as int + 1, o),
            cur.stack@ == prev.stack@,
            cur.stack.ptr == prev.stack.ptr,
            cur.globals@ == prev.globals@,
            cur.callframes@ == prev.callframes@,
            cur.open_upvalues@ == prev.open_upvalues@,
            cur.chunk == prev.chunk,
        ensures
            cur.wf(),
    {
        let n = prev.heap@.len() as int;
        let m = cur.heap@.len() as int;
        assert forall|i: int| 0 <= i < m implies obj_ok(m, #[trigger] cur.heap@[i].value) by {
            if i < n {
                assert(obj_ok(n, prev.heap@[i].value));
                lemma_obj_ok_mono(n, m, prev.heap@[i].value);
            } else {
                lemma_obj_ok_mono(n + 1, m, o);
            }
        }
        assert forall|i: int|
            0 <= i < cur.callframes@.len() implies frame_ok(
            cur.heap@,
            #[trigger] cur.callframes@[i],
        ) by {
            assert(frame_ok(prev.heap@, prev.callframes@[i]));
        }
        assert forall|k: int|
            0 <= k < cur.open_upvalues@.len() implies is_uv(
            cur.heap@,
            #[trigger] cur.open_upvalues@[k] as int,
        ) by {
            assert(is_uv(prev.heap@, prev.open_upvalues@[k] as int));
        }
        assert forall|k: int|
            0 <= k < cur.open_upvalues@.len() implies (#[trigger] uv_at(
            cur.heap@,
            cur.open_upvalues@[k] as int,
        )).closed_val is None by {
            assert(uv_at(prev.heap@, prev.open_upvalues@[k] as int).closed_val is None);
        }
        assert forall|i: int, j: int|
            0 <= i < j < cur.open_upvalues@.len() implies (#[trigger] uv_at(
            cur.heap@,
            cur.open_upvalues@[i] as int,
        )).location > (#[trigger] uv_at(cur.heap@, cur.open_upvalues@[j] as int)).location by {
            assert(uv_at(prev.heap@, prev.open_upvalues@[i] as int).location > uv_at(
                prev.heap@,
                prev.open_upvalues@[j] as int,
            ).location);
        }
    }

    /// Appends one object to the heap and hands back its index.
    pub fn allocate_value(&mut self, obj_value: ObjectValue) -> (idx: usize)
        ensures
            final(self).heap@ == old(self).heap@.push(HeapObject { value: obj_value }),
            idx == old(self).heap@.len(),
            final(self).stack == old(self).stack,
            final(self).ip == old(self).ip,
            final(self).output == old(self).output,
            final(self).frames_env_unchanged(*old(self)),
            final(self).upvalues_unchanged(*old(self)),
    {
        let idx: usize = self.heap.len();
        self.heap.push(HeapObject { value: obj_value });
        idx
    }

    /// Reads the current global binding of `name`, latest first.
    pub fn get_global(&self, name: &String) -> (r: Option<SmallVal>)
        ensures
            r == assoc_lookup(self.globals@, name@),
    {
        let mut i: usize = self.globals.len();
        proof {
            assert(self.globals@.subrange(0, i as int) =~= self.globals@);
        }
        while i > 0
            invariant
                i <= self.globals@.len(),
                assoc_lookup(self.globals@.subrange(0, i as int), name@) == assoc_lookup(
                    self.globals@,
                    name@,
                ),
            decreases i,
        {
            i = i - 1;
            if self.globals[i].0.eq(name) {
                proof {
                    assert(self.globals@.subrange(0, i + 1).last() == self.globals@[i as int]);
                }
                return Some(self.globals[i].1);
            }
            proof {
                assert(self.globals@.subrange(0, i + 1).drop_last() =~= self.globals@.subrange(
                    0,
                    i as int,
                ));
            }
        }
        proof {
            assert(self.globals@.subrange(0, 0) =~= Seq::<(String, SmallVal)>::empty());
        }
        None
    }

    /// Reads the byte at `pos` of the code the engine is running.
    pub fn fetch_byte(&self, pos: usize) -> (r: Option<u8>)
        requires
            self.wf(),
        ensures
            pos < self.spec_cur_code().len() ==> r == Some(self.spec_cur_code()[pos as int]),
            pos >= self.spec_cur_code().len() ==> r is None,
    {
        if self.callframes.len() == 0 {
            if pos < self.chunk.code.len() {
                Some(self.chunk.code[pos])
            } else {
                None
            }
        } else {
            let fr: &CallFrame = &self.callframes[self.callframes.len() - 1];
            match &self.heap[fr.closure_obj].value {
                ObjectValue::Closure(c) => {
                    if pos < c.f.bytecode.code.len() {
                        Some(c.f.bytecode.code[pos])
                    } else {
                        None
                    }
                },
                _ => None,
            }
        }
    }

    /// A fresh machine with the builtin table bound into the globals.
    #[verifier::rlimit(50)]
    pub fn new() -> (vm: Self)
        ensures
            vm.wf(),
            vm.callframes@.len() == 0,
            vm.stack@.len() == 0,
            vm.ip == 0,
            vm.output@.len() == 0,
            vm.open_upvalues@.len() == 0,
            forall|k: int|
                0 <= k < vm.heap@.len() ==> (#[trigger] vm.heap@[k].value) matches
                    ObjectValue::BuiltIn(_),
            assoc_lookup(vm.globals@, "+"@) == Some(SmallVal::ObjectPtr(0)) && vm.heap@[0].value
                == ObjectValue::BuiltIn(BuiltinFn::Add),
            assoc_lookup(vm.globals@, "-"@) == Some(SmallVal::ObjectPtr(1)) && vm.heap@[1].value
                == ObjectValue::BuiltIn(BuiltinFn::Sub),
            assoc_lookup(vm.globals@, "*"@) == Some(SmallVal::ObjectPtr(2)) && vm.heap@[2].value
                == ObjectValue::BuiltIn(BuiltinFn::Mul),
            assoc_lookup(vm.globals@, "/"@) == Some(SmallVal::ObjectPtr(3)) && vm.heap@[3].value
                == ObjectValue::BuiltIn(BuiltinFn::Div),
            assoc_lookup(vm.globals@, "inc"@) == Some(SmallVal::ObjectPtr(4)) && vm.heap@[4].value
                == ObjectValue::BuiltIn(BuiltinFn::Inc),
    {
        let mut vm: VM = VM {
            stack: StaticStack::new(),
            globals: Vec::new(),
            ip: 0,
            callframes: Vec::new(),
            heap: Vec::new(),
            chunk: BytecodeChunk::new(Vec::new(), Vec::new()),
            open_upvalues: Vec::new(),
            output: Vec::new(),
        };
        let b0: usize = vm.allocate_value(ObjectValue::BuiltIn(BuiltinFn::Add));
        vm.globals.push((BuiltinFn::Add.name().to_owned(), SmallVal::ObjectPtr(b0)));
        let b1: usize = vm.allocate_value(ObjectValue::BuiltIn(BuiltinFn::Sub));
        vm.globals.push((BuiltinFn::Sub.name().to_owned(), SmallVal::ObjectPtr(b1)));
        let b2: usize = vm.allocate_value(ObjectValue::BuiltIn(BuiltinFn::Mul));
        vm.globals.push((BuiltinFn::Mul.name().to_owned(), SmallVal::ObjectPtr(b2)));
        let b3: usize = vm.allocate_value(ObjectValue::BuiltIn(BuiltinFn::Div));
        vm.globals.push((BuiltinFn::Div.name().to_owned(), SmallVal::ObjectPtr(b3)));
        let b4: usize = vm.allocate_value(ObjectValue::BuiltIn(BuiltinFn::Inc));
        vm.globals.push((BuiltinFn::Inc.name().to_owned(), SmallVal::ObjectPtr(b4)));
        proof {
            lemma_builtin_globals(vm.globals@);
            assert(vm.chunk.code@.len() == 0);
            assert(vm.chunk.constants@.len() == 0);
        }
        vm
    }

    /// Reads the operand byte that follows the opcode at `ip`.
    pub fn read_operand(&self) -> (r: Option<u8>)
        requires
            self.wf(),
            self.ip < self.spec_cur_code().len(),
        ensures
            self.ip + 1 < self.spec_cur_code().len() ==> r == Some(
                self.spec_cur_code()[self.ip + 1],
            ),
            self.ip + 1 >= self.spec_cur_code().len() ==> r is None,
    {
        proof {
            self.lemma_cur_bounds();
        }
        self.fetch_byte(self.ip + 1)
    }

    /// `Pop`: discards the top of the stack.
    pub fn handle_pop(&mut self) -> (r: Result<(), RuntimeError>)
        requires
            old(self).wf(),
            old(self).ip < old(self).spec_cur_code().len(),
        ensures
            final(self).wf(),
            step_pop(*old(self), *final(self), r),
    {
        proof {
            old(self).lemma_cur_bounds();
        }
        match self.stack.pop() {
            Some(_) => {
                self.ip = self.ip + 1;
                Ok(())
            },
            None => Err(RuntimeError::MalformedBytecode),
        }
    }

    /// `Jump offset`: moves the instruction pointer forward from the
    /// operand byte by `offset`.
    pub fn handle_jump(&mut self) -> (r: Result<(), RuntimeError>)
        requires
            old(self).wf(),
            old(self).ip < old(self).spec_cur_code().len(),
        ensures
            final(self).wf(),
            step_jump(*old(self), *final(self), r),
    {
        proof {
            old(self).lemma_cur_bounds();
        }
        let offset: u8 = match self.read_operand() {
            Some(b) => b,
            None => {
                return Err(RuntimeError::MalformedBytecode);
            },
        };
        match (self.ip + 1).checked_add(offset as usize) {
            Some(target) => {
                self.ip = target;
                Ok(())
            },
            None => Err(RuntimeError::MalformedBytecode),
        }
    }

    /// `CondJump offset`: pops the condition; jumps forward by
    /// `offset` when it is truthy, else past the operand byte.
    /// `Int(0)` is truthy; only `Bool(false)` and `Nil` are falsy.
    pub fn handle_cond_jump(&mut self) -> (r: Result<(), RuntimeError>)
        requires
            old(self).wf(),
            old(self).ip < old(self).spec_cur_code().len(),
        ensures
            final(self).wf(),
            step_cond_jump(*old(self), *final(self), r),
    {
        proof {
            old(self).lemma_cur_bounds();
        }
        let offset: u8 = match self.read_operand() {
            Some(b) => b,
            None => {
                return Err(RuntimeError::MalformedBytecode);
            },
        };
        let cond: SmallVal = match self.stack.peek_top() {
            Some(v) => v,
            None => {
                return Err(RuntimeError::MalformedBytecode);
            },
        };
        let dist: usize = if self.truthy_exec(cond) {
            offset as usize
        } else {
            1
        };
        let target: usize = match (self.ip + 1).checked_add(dist) {
            Some(t) => t,
            None => {
                return Err(RuntimeError::MalformedBytecode);
            },
        };
        let popped: Option<SmallVal> = self.stack.pop();
        if popped.is_none() {
            return Err(RuntimeError::MalformedBytecode);
        }
        self.ip = target;
        Ok(())
    }

    /// Whether `v` is truthy.
    pub fn truthy_exec(&self, v: SmallVal) -> (b: bool)
        ensures
            b == sv_truthy(v),
    {
        match v {
            SmallVal::Nil => false,
            SmallVal::Bool(b) => b,
            _ => true,
        }
    }

    /// `Print`: pops a value and appends its display form to the
    /// output.
    pub fn handle_print(&mut self) -> (r: Result<(), RuntimeError>)
        requires
            old(self).wf(),
            old(self).ip < old(self).spec_cur_code().len(),
        ensures
            final(self).wf(),
            step_print(*old(self), *final(self), r),
    {
        let val: SmallVal = match self.stack.pop() {
            Some(v) => v,
            None => {
                return Err(RuntimeError::MalformedBytecode);
            },
        };
        proof {
            old(self).lemma_cur_bounds();
        }
        let line: String = crate::fmt::display_sv(&self.heap, val, usize::MAX);
        self.output.push(line);
        self.ip = self.ip + 1;
        Ok(())
    }

    /// The two operands of a binary opcode: the value below the top
    /// and the top.
    pub open spec fn spec_operands(self) -> (SmallVal, SmallVal) {
        (self.stack@[self.stack@.len() - 2], self.stack@[self.stack@.len() - 1])
    }

    /// Replaces the top two stack slots by `res` and advances past the
    /// opcode; everything else is untouched.
    pub open spec fn binop_done(self, prev: Self, res: SmallVal) -> bool {
        &&& self.stack@ == prev.stack@.subrange(0, prev.stack@.len() - 2).push(res)
        &&& self.ip == prev.ip + 1
        &&& self.output@ == prev.output@
        &&& self.frames_env_unchanged(prev)
        &&& self.upvalues_unchanged(prev)
    }

    /// Pops the two operands of a binary opcode, top last.
    fn pop_operands(&mut self) -> (r: (SmallVal, SmallVal))
        requires
            old(self).wf(),
            old(self).stack@.len() >= 2,
        ensures
            final(self).wf(),
            r == old(self).spec_operands(),
            final(self).stack@ == old(self).stack@.subrange(0, old(self).stack@.len() - 2),
            final(self).ip == old(self).ip,
            final(self).heap@ == old(self).heap@,
            final(self).output@ == old(self).output@,
            final(self).frames_env_unchanged(*old(self)),
            final(self).upvalues_unchanged(*old(self)),
    {
        let b: SmallVal = self.stack.pop().unwrap();
        let a: SmallVal = self.stack.pop().unwrap();
        proof {
            assert(final(self).stack@ =~= old(self).stack@.subrange(
                0,
                old(self).stack@.len() - 2,
            ));
        }
        (a, b)
    }

    /// `Add`: pops `b` then `a`, pushes `a + b`. Integers add with
    /// wrapping; two strings concatenate into a fresh heap object; any
    /// other pairing is a type error.
    #[verifier::rlimit(100)]
    pub fn handle_add(&mut self) -> (r: Result<(), RuntimeError>)
        requires
            old(self).wf(),
            old(self).ip < old(self).spec_cur_code().len(),
        ensures
            final(self).wf(),
            step_add(*old(self), *final(self), r),
    {
        proof {
            old(self).lemma_cur_bounds();
        }
        if self.stack.len() < 2 {
            return Err(RuntimeError::MalformedBytecode);
        }
        let b: SmallVal = self.stack.peek_top().unwrap();
        let a: SmallVal = self.stack.peek_back(1).unwrap();
        match (a, b) {
            (SmallVal::Integer(x), SmallVal::Integer(y)) => {
                self.pop_operands();
                self.stack.push(SmallVal::Integer(x.wrapping_add(y)));
                self.ip = self.ip + 1;
                Ok(())
            },
            (SmallVal::ObjectPtr(i), SmallVal::ObjectPtr(j)) => {
                let sa: String = match &self.heap[i].value {
                    ObjectValue::String(s) => s.clone(),
                    _ => {
                        return Err(RuntimeError::TypeError);
                    },
                };
                let sb: &String = match &self.heap[j].value {
                    ObjectValue::String(s) => s,
                    _ => {
                        return Err(RuntimeError::TypeError);
                    },
                };
                let mut sc: String = sa;
                sc.append(sb.as_str());
                let ghost mid = *self;
                let ghost obj = ObjectValue::String(sc);
                let p: usize = self.allocate_value(ObjectValue::String(sc));
                proof {
                    Self::lemma_wf_after_alloc(mid, *self, obj);
                }
                self.pop_operands();
                self.stack.push(SmallVal::ObjectPtr(p));
                self.ip = self.ip + 1;
                proof {
                    assert(self.heap@.drop_last() =~= old(self).heap@);
                }
                Ok(())
            },
            _ => Err(RuntimeError::TypeError),
        }
    }

    /// `Sub`: pops `b` then `a`, pushes the wrapping difference of two
    /// integers; anything else is a type error.
    #[verifier::rlimit(60)]
    pub fn handle_sub(&mut self) -> (r: Result<(), RuntimeError>)
        requires
            old(self).wf(),
            old(self).ip < old(self).spec_cur_code().len(),
        ensures
            final(self).wf(),
            step_arith(*old(self), *final(self), Op::Sub, r),
    {
        proof {
            old(self).lemma_cur_bounds();
        }
        if self.stack.len() < 2 {
            return Err(RuntimeError::MalformedBytecode);
        }
        let b: SmallVal = self.stack.peek_top().unwrap();
        let a: SmallVal = self.stack.peek_back(1).unwrap();
        match (a, b) {
            (SmallVal::Integer(x), SmallVal::Integer(y)) => {
                self.pop_operands();
                self.stack.push(SmallVal::Integer(x.wrapping_sub(y)));
                self.ip = self.ip + 1;
                Ok(())
            },
            _ => Err(RuntimeError::TypeError),
        }
    }

    /// `Mul`: pops `b` then `a`, pushes the wrapping product of two
    /// integers; anything else is a type error.
    #[verifier::rlimit(60)]
    pub fn handle_mul(&mut self) -> (r: Result<(), RuntimeError>)
        requires
            old(self).wf(),
            old(self).ip < old(self).spec_cur_code().len(),
        ensures
            final(self).wf(),
            step_arith(*old(self), *final(self), Op::Mul, r),
    {
        proof {
            old(self).lemma_cur_bounds();
        }
        if self.stack.len() < 2 {
            return Err(RuntimeError::MalformedBytecode);
        }
        let b: SmallVal = self.stack.peek_top().unwrap();
        let a: SmallVal = self.stack.peek_back(1).unwrap();
        match (a, b) {
            (SmallVal::Integer(x), SmallVal::Integer(y)) => {
                self.pop_operands();
                self.stack.push(SmallVal::Integer(x.wrapping_mul(y)));
                self.ip = self.ip + 1;
                Ok(())
            },
            _ => Err(RuntimeError::TypeError),
        }
    }

    /// `Div`: pops `b` then `a`, pushes the truncating integer
    /// quotient. Division by zero is a runtime error; the one
    /// overflowing quotient wraps.
    #[verifier::rlimit(60)]
    pub fn handle_div(&mut self) -> (r: Result<(), RuntimeError>)
        requires
            old(self).wf(),
            old(self).ip < old(self).spec_cur_code().len(),
        ensures
            final(self).wf(),
            step_arith(*old(self), *final(self), Op::Div, r),
    {
        proof {
            old(self).lemma_cur_bounds();
        }
        if self.stack.len() < 2 {
            return Err(RuntimeError::MalformedBytecode);
        }
        let b: SmallVal = self.stack.peek_top().unwrap();
        let a: SmallVal = self.stack.peek_back(1).unwrap();
        match (a, b) {
            (SmallVal::Integer(x), SmallVal::Integer(y)) => {
                let q: i64 = match x.checked_div(y) {
                    Some(q) => q,
                    None => {
                        if y == 0 {
                            return Err(RuntimeError::DivisionByZero);
                        }
                        i64::MIN
                    },
                };
                self.pop_operands();
                self.stack.push(SmallVal::Integer(q));
                self.ip = self.ip + 1;
                Ok(())
            },
            _ => Err(RuntimeError::TypeError),
        }
    }

    /// A comparison opcode: pops `b` then `a`, pushes the boolean
    /// `a cmp b` for two integers; anything else is a type error.
    #[verifier::rlimit(60)]
    pub fn handle_cmp(&mut self, which: Op) -> (r: Result<(), RuntimeError>)
        requires
            old(self).wf(),
            old(self).ip < old(self).spec_cur_code().len(),
            which == Op::GT || which == Op::LT || which == Op::GTE || which == Op::LTE,
        ensures
            final(self).wf(),
            step_cmp(*old(self), *final(self), which, r),
    {
        proof {
            old(self).lemma_cur_bounds();
        }
        if self.stack.len() < 2 {
            return Err(RuntimeError::MalformedBytecode);
        }
        let b: SmallVal = self.stack.peek_top().unwrap();
        let a: SmallVal = self.stack.peek_back(1).unwrap();
        match (a, b) {
            (SmallVal::Integer(x), SmallVal::Integer(y)) => {
                let res: bool = match which {
                    Op::GT => x > y,
                    Op::LT => x < y,
                    Op::GTE => x >= y,
                    _ => x <= y,
                };
                self.pop_operands();
                self.stack.push(SmallVal::Bool(res));
                self.ip = self.ip + 1;
                Ok(())
            },
            _ => Err(RuntimeError::TypeError),
        }
    }

    /// The constant at index `idx` of the running chunk's pool.
    pub fn constant_at(&self, idx: usize) -> (r: Option<&ConstantValue>)
        requires
            self.wf(),
        ensures
            idx < self.spec_cur_constants().len() ==> (r matches Some(c) && *c
                == self.spec_cur_constants()[idx as int]),
            idx >= self.spec_cur_constants().len() ==> r is None,
    {
        if self.callframes.len() == 0 {
            if idx < self.chunk.constants.len() {
                Some(&self.chunk.constants[idx])
            } else {
                None
            }
        } else {
            let fr: &CallFrame = &self.callframes[self.callframes.len() - 1];
            match &self.heap[fr.closure_obj].value {
                ObjectValue::Closure(c) => {
                    if idx < c.f.bytecode.constants.len() {
                        Some(&c.f.bytecode.constants[idx])
                    } else {
                        None
                    }
                },
                _ => None,
            }
        }
    }

    /// The stack offset of the running frame, if any.
    pub fn frame_start(&self) -> (r: Option<i32>)
        requires
            self.wf(),
        ensures
            self.callframes@.len() == 0 ==> r is None,
            self.callframes@.len() > 0 ==> r == Some(self.callframes@.last().start_idx)
                && 0 <= self.callframes@.last().start_idx < STACK_SIZE,
    {
        if self.callframes.len() == 0 {
            None
        } else {
            proof {
                assert(frame_ok(self.heap@, self.callframes@[self.callframes@.len() - 1]));
            }
            Some(self.callframes[self.callframes.len() - 1].start_idx)
        }
    }

    /// `ReferenceLocal slot`: pushes the value of the frame-relative
    /// slot (slot 0 is the callee itself).
    pub fn handle_reference_local(&mut self) -> (r: Result<(), RuntimeError>)
        requires
            old(self).wf(),
            old(self).ip < old(self).spec_cur_code().len(),
        ensures
            final(self).wf(),
            step_reference_local(*old(self), *final(self), r),
    {
        proof {
            old(self).lemma_cur_bounds();
        }
        let n: u8 = match self.read_operand() {
            Some(b) => b,
            None => {
                return Err(RuntimeError::MalformedBytecode);
            },
        };
        let start: i32 = match self.frame_start() {
            Some(s) => s,
            None => {
                return Err(RuntimeError::MalformedBytecode);
            },
        };
        let slot: usize = start as usize + n as usize;
        if slot >= self.stack.len() || self.stack.len() >= STACK_SIZE {
            return Err(RuntimeError::MalformedBytecode);
        }
        let value: SmallVal = *self.stack.at(slot).unwrap();
        self.stack.push(value);
        self.ip = self.ip + 2;
        Ok(())
    }

    /// `Define slot` and `SetLocal slot`: pops a value into the
    /// frame-relative slot.
    pub fn handle_store_local(&mut self) -> (r: Result<(), RuntimeError>)
        requires
            old(self).wf(),
            old(self).ip < old(self).spec_cur_code().len(),
        ensures
            final(self).wf(),
            step_store_local(*old(self), *final(self), r),
    {
        proof {
            old(self).lemma_cur_bounds();
        }
        let n: u8 = match self.read_operand() {
            Some(b) => b,
            None => {
                return Err(RuntimeError::MalformedBytecode);
            },
        };
        let start: i32 = match self.frame_start() {
            Some(s) => s,
            None => {
                return Err(RuntimeError::MalformedBytecode);
            },
        };
        let slot: usize = start as usize + n as usize;
        if self.stack.len() == 0 || slot >= self.stack.len() - 1 {
            return Err(RuntimeError::MalformedBytecode);
        }
        let value: SmallVal = self.stack.pop().unwrap();
        let stored: bool = self.stack.set_at(slot, value);
        proof {
            assert(stored);
        }
        self.ip = self.ip + 2;
        Ok(())
    }

    /// `ReferenceGlobal name_idx`: pushes the value bound to the name
    /// held by the string constant; an unbound name is a runtime
    /// error.
    pub fn handle_reference_global(&mut self) -> (r: Result<(), RuntimeError>)
        requires
            old(self).wf(),
            old(self).ip < old(self).spec_cur_code().len(),
        ensures
            final(self).wf(),
            step_reference_global(*old(self), *final(self), r),
    {
        proof {
            old(self).lemma_cur_bounds();
        }
        let idx: u8 = match self.read_operand() {
            Some(b) => b,
            None => {
                return Err(RuntimeError::MalformedBytecode);
            },
        };
        let name: String = match self.constant_at(idx as usize) {
            Some(ConstantValue::Object(ConstantObject::String(s))) => s.clone(),
            _ => {
                return Err(RuntimeError::MalformedBytecode);
            },
        };
        let value: SmallVal = match self.get_global(&name) {
            Some(v) => v,
            None => {
                return Err(RuntimeError::UndefinedGlobal(name));
            },
        };
        if self.stack.len() >= STACK_SIZE {
            return Err(RuntimeError::MalformedBytecode);
        }
        proof {
            lemma_assoc_lookup_ok(self.globals@, name@, self.heap@.len() as int);
        }
        self.stack.push(value);
        self.ip = self.ip + 2;
        Ok(())
    }

    /// `DeclareGlobal name_idx`: pops a value and binds it to the name
    /// held by the string constant, inserting or overwriting.
    pub fn handle_declare_global(&mut self) -> (r: Result<(), RuntimeError>)
        requires
            old(self).wf(),
            old(self).ip < old(self).spec_cur_code().len(),
        ensures
            final(self).wf(),
            step_declare_global(*old(self), *final(self), r),
    {
        proof {
            old(self).lemma_cur_bounds();
        }
        let idx: u8 = match self.read_operand() {
            Some(b) => b,
            None => {
                return Err(RuntimeError::MalformedBytecode);
            },
        };
        if self.stack.len() == 0 {
            return Err(RuntimeError::MalformedBytecode);
        }
        let name: String = match self.constant_at(idx as usize) {
            Some(ConstantValue::Object(ConstantObject::String(s))) => s.clone(),
            _ => {
                return Err(RuntimeError::MalformedBytecode);
            },
        };
        let value: SmallVal = self.stack.pop().unwrap();
        self.globals.push((name, value));
        self.ip = self.ip + 2;
        proof {
            assert(self.globals@.drop_last() =~= old(self).globals@);
        }
        Ok(())
    }

    /// Ensures a value can be referenced from a cons cell: scalars are
    /// boxed into a fresh small-value shell, references pass through.
    pub fn val_to_obj(&mut self, v: SmallVal) -> (p: usize)
        requires
            old(self).wf(),
            sv_ok(old(self).heap@.len() as int, v),
        ensures
            final(self).wf(),
            heap_extends(final(self).heap@, old(self).heap@),
            p < final(self).heap@.len(),
            final(self).stack@ == old(self).stack@,
            final(self).stack.ptr == old(self).stack.ptr,
            final(self).ip == old(self).ip,
            final(self).output@ == old(self).output@,
            final(self).frames_env_unchanged(*old(self)),
            final(self).upvalues_unchanged(*old(self)),
            match v {
                SmallVal::ObjectPtr(q) => final(self).heap@ == old(self).heap@ && p == q,
                SmallVal::Quote(q) => final(self).heap@ == old(self).heap@ && p == q,
                _ => final(self).heap@ == old(self).heap@.push(
                    HeapObject { value: ObjectValue::SmallValue(v) },
                ) && p == old(self).heap@.len(),
            },
    {
        match v {
            SmallVal::ObjectPtr(q) => q,
            SmallVal::Quote(q) => q,
            _ => {
                let ghost mid = *self;
                let p: usize = self.allocate_value(ObjectValue::SmallValue(v));
                proof {
                    Self::lemma_wf_after_alloc(mid, *self, ObjectValue::SmallValue(v));
                }
                p
            },
        }
    }

    /// Materialises a `List` constant as a chain of cons cells, last
    /// element first, exactly one cell per element. An empty list
    /// constant is malformed bytecode.
    #[verifier::rlimit(100)]
    #[verifier::spinoff_prover]
    pub fn allocate_list(&mut self, items: &Vec<ConstantValue>) -> (r: Result<
        SmallVal,
        RuntimeError,
    >)
        requires
            old(self).wf(),
        ensures
            final(self).wf(),
            heap_extends(final(self).heap@, old(self).heap@),
            final(self).stack@ == old(self).stack@,
            final(self).stack.ptr == old(self).stack.ptr,
            final(self).ip == old(self).ip,
            final(self).output@ == old(self).output@,
            final(self).frames_env_unchanged(*old(self)),
            final(self).upvalues_unchanged(*old(self)),
            r is Err ==> r == Err::<SmallVal, RuntimeError>(RuntimeError::MalformedBytecode),
            r is Ok <==> const_ok(ConstV::List(crate::bytecode::models_of(*items))),
            r matches Ok(v) ==> materializes(
                final(self).heap@,
                v,
                ConstV::List(crate::bytecode::models_of(*items)),
            ) && sv_ok(final(self).heap@.len() as int, v),
        decreases items,
    {
        let ghost orig = *self;
        let ghost cmodels = crate::bytecode::models_of(*items);
        let n: usize = items.len();
        if n == 0 {
            return Err(RuntimeError::MalformedBytecode);
        }
        let last_val: SmallVal = match self.constant_to_value(&items[n - 1]) {
            Ok(v) => v,
            Err(e) => {
                proof {
                    assert(cmodels[n - 1] == items[n - 1 as int].model());
                }
                return Err(e);
            },
        };
        let ghost mid0 = *self;
        let last_ptr: usize = self.val_to_obj(last_val);
        proof {
            assert(cmodels[n - 1] == items[n - 1 as int].model());
            lemma_materializes_mono(mid0.heap@, self.heap@, last_val, cmodels[n - 1]);
            lemma_val_obj_holds(self.heap@, last_val, last_ptr as int, cmodels[n - 1]);
        }
        let ghost mid1 = *self;
        let cell0 = ObjectValue::ConsCell(crate::value::ConsCell(last_ptr, None));
        let mut cell: usize = self.allocate_value(cell0);
        proof {
            Self::lemma_wf_after_alloc(mid1, *self, cell0);
            lemma_obj_holds_mono(mid1.heap@, self.heap@, last_ptr as int, cmodels[n - 1]);
            assert(cmodels.skip(n - 1) =~= seq![cmodels[n - 1]]);
            assert(cons_chain(self.heap@, cell as int, cmodels.skip(n - 1)));
        }
        let mut i: usize = n - 1;
        while i > 0
            invariant
                0 <= i < n,
                n == items@.len(),
                cmodels == crate::bytecode::models_of(*items),
                cmodels.len() == n,
                self.wf(),
                cell < self.heap@.len(),
                cons_chain(self.heap@, cell as int, cmodels.skip(i as int)),
                forall|k: int| i <= k < n ==> const_ok(#[trigger] cmodels[k]),
                heap_extends(self.heap@, orig.heap@),
                self.stack@ == orig.stack@,
                self.stack.ptr == orig.stack.ptr,
                self.ip == orig.ip,
                self.output@ == orig.output@,
                self.frames_env_unchanged(orig),
                self.upvalues_unchanged(orig),
            decreases i,
        {
            i = i - 1;
            let ghost pre = *self;
            let item_val: SmallVal = match self.constant_to_value(&items[i]) {
                Ok(v) => v,
                Err(e) => {
                    proof {
                        assert(cmodels[i as int] == items[i as int].model());
                    }
                    return Err(e);
                },
            };
            proof {
                assert(cmodels[i as int] == items[i as int].model());
                lemma_cons_chain_mono(
                    pre.heap@,
                    self.heap@,
                    cell as int,
                    cmodels.skip(i + 1),
                );
            }
            let ghost pre2 = *self;
            let shell = ObjectValue::SmallValue(item_val);
            let item_ptr: usize = self.allocate_value(shell);
            proof {
                Self::lemma_wf_after_alloc(pre2, *self, shell);
                lemma_materializes_mono(pre2.heap@, self.heap@, item_val, cmodels[i as int]);
                assert(obj_holds(self.heap@, item_ptr as int, cmodels[i as int]));
                lemma_cons_chain_mono(
                    pre2.heap@,
                    self.heap@,
                    cell as int,
                    cmodels.skip(i + 1),
                );
            }
            let ghost pre3 = *self;
            let newcell = ObjectValue::ConsCell(crate::value::ConsCell(item_ptr, Some(cell)));
            let cell2: usize = self.allocate_value(newcell);
            proof {
                Self::lemma_wf_after_alloc(pre3, *self, newcell);
                lemma_obj_holds_mono(pre3.heap@, self.heap@, item_ptr as int, cmodels[i as int]);
                lemma_cons_chain_mono(
                    pre3.heap@,
                    self.heap@,
                    cell as int,
                    cmodels.skip(i + 1),
                );
                assert(cmodels.skip(i as int)[0] == cmodels[i as int]);
                assert(cmodels.skip(i as int).drop_first() =~= cmodels.skip(i + 1));
                assert(cons_chain(self.heap@, cell2 as int, cmodels.skip(i as int)));
            }
            cell = cell2;
        }
        proof {
            assert(cmodels.skip(0) =~= cmodels);
        }
        Ok(SmallVal::ObjectPtr(cell))
    }

    /// Materialises one constant into a runtime value, allocating for
    /// objects, lists and quotes; scalars allocate nothing.
    pub fn constant_to_value(&mut self, c: &ConstantValue) -> (r: Result<SmallVal, RuntimeError>)
        requires
            old(self).wf(),
        ensures
            final(self).wf(),
            heap_extends(final(self).heap@, old(self).heap@),
            final(self).stack@ == old(self).stack@,
            final(self).stack.ptr == old(self).stack.ptr,
            final(self).ip == old(self).ip,
            final(self).output@ == old(self).output@,
            final(self).frames_env_unchanged(*old(self)),
            final(self).upvalues_unchanged(*old(self)),
            r is Err ==> r == Err::<SmallVal, RuntimeError>(RuntimeError::MalformedBytecode),
            r is Ok <==> const_ok(c.model()),
            r matches Ok(v) ==> materializes(final(self).heap@, v, c.model()) && sv_ok(
                final(self).heap@.len() as int,
                v,
            ),
            c.model() matches ConstV::Integer(i) ==> final(self).heap@ == old(self).heap@ && r
                == Ok::<SmallVal, RuntimeError>(SmallVal::Integer(i)),
            c.model() matches ConstV::Boolean(b) ==> final(self).heap@ == old(self).heap@ && r
                == Ok::<SmallVal, RuntimeError>(SmallVal::Bool(b)),
            c.model() is Nil ==> final(self).heap@ == old(self).heap@ && r == Ok::<
                SmallVal,
                RuntimeError,
            >(SmallVal::Nil),
            c.model() matches ConstV::Object(o) ==> {
                &&& final(self).heap@.len() == old(self).heap@.len() + 1
                &&& final(self).heap@.drop_last() == old(self).heap@
                &&& r == Ok::<SmallVal, RuntimeError>(
                    SmallVal::ObjectPtr(old(self).heap@.len() as usize),
                )
            },
        decreases c,
    {
        match c {
            ConstantValue::Integer(i) => Ok(SmallVal::Integer(*i)),
            ConstantValue::Boolean(b) => Ok(SmallVal::Bool(*b)),
            ConstantValue::Nil => Ok(SmallVal::Nil),
            ConstantValue::Object(o) => {
                let ov: ObjectValue = match o {
                    ConstantObject::String(st) => ObjectValue::String(st.clone()),
                    ConstantObject::Symbol(st) => ObjectValue::Symbol(st.clone()),
                    ConstantObject::Closure(tmpl) => ObjectValue::Closure(
                        Closure::new(tmpl.f.deep_clone(), tmpl.num_upvalues),
                    ),
                };
                let ghost mid = *self;
                let ghost obj = ov;
                let p: usize = self.allocate_value(ov);
                proof {
                    Self::lemma_wf_after_alloc(mid, *self, obj);
                    assert(obj_is(self.heap@, p as int, o.model()));
                    assert(self.heap@.drop_last() =~= mid.heap@);
                }
                Ok(SmallVal::ObjectPtr(p))
            },
            ConstantValue::List(items) => self.allocate_list(items),
            ConstantValue::Quote(inner) => {
                let v: SmallVal = match self.constant_to_value(inner) {
                    Ok(v) => v,
                    Err(e) => {
                        return Err(e);
                    },
                };
                let ghost mid = *self;
                let p: usize = self.val_to_obj(v);
                proof {
                    lemma_materializes_mono(mid.heap@, self.heap@, v, inner.model());
                    lemma_val_obj_holds(self.heap@, v, p as int, inner.model());
                }
                Ok(SmallVal::Quote(p))
            },
        }
    }

    /// `Constant idx`: materialises the indexed constant and pushes
    /// the resulting value.
    pub fn handle_constant(&mut self) -> (r: Result<(), RuntimeError>)
        requires
            old(self).wf(),
            old(self).ip < old(self).spec_cur_code().len(),
        ensures
            final(self).wf(),
            step_constant(*old(self), *final(self), r),
    {
        proof {
            old(self).lemma_cur_bounds();
        }
        let idx: u8 = match self.read_operand() {
            Some(b) => b,
            None => {
                return Err(RuntimeError::MalformedBytecode);
            },
        };
        let constant: ConstantValue = match self.constant_at(idx as usize) {
            Some(cv) => cv.deep_clone(),
            None => {
                return Err(RuntimeError::MalformedBytecode);
            },
        };
        let value: SmallVal = match self.constant_to_value(&constant) {
            Ok(v) => v,
            Err(e) => {
                return Err(e);
            },
        };
        if self.stack.len() >= STACK_SIZE {
            return Err(RuntimeError::MalformedBytecode);
        }
        self.stack.push(value);
        self.ip = self.ip + 2;
        proof {
            assert(final(self).stack@.drop_last() =~= old(self).stack@);
        }
        Ok(())
    }

    /// The stack location of the open upvalue at heap index `idx`.
    fn uv_location(&self, idx: usize) -> (loc: usize)
        requires
            self.wf(),
            is_uv(self.heap@, idx as int),
        ensures
            loc == uv_at(self.heap@, idx as int).location,
    {
        match &self.heap[idx].value {
            ObjectValue::UpValue(u) => u.location,
            _ => 0,
        }
    }

    /// Finds or creates the open upvalue for stack slot `slot`. Two
    /// closures capturing the same live slot share one cell: if the
    /// list already holds an upvalue at `slot`, that cell is returned
    /// and nothing is allocated; otherwise a fresh open cell is
    /// allocated and spliced in, keeping locations strictly
    /// decreasing.
    pub fn capture_upvalue(&mut self, slot: usize) -> (idx: usize)
        requires
            old(self).wf(),
        ensures
            final(self).wf(),
            heap_extends(final(self).heap@, old(self).heap@),
            final(self).stack@ == old(self).stack@,
            final(self).stack.ptr == old(self).stack.ptr,
            final(self).ip == old(self).ip,
            final(self).output@ == old(self).output@,
            final(self).frames_env_unchanged(*old(self)),
            is_uv(final(self).heap@, idx as int),
            uv_at(final(self).heap@, idx as int).location == slot,
            uv_at(final(self).heap@, idx as int).closed_val is None,
            (exists|k: int|
                0 <= k < old(self).open_upvalues@.len() && uv_at(
                    old(self).heap@,
                    #[trigger] old(self).open_upvalues@[k] as int,
                ).location == slot) ==> {
                &&& final(self).heap@ == old(self).heap@
                &&& final(self).open_upvalues@ == old(self).open_upvalues@
                &&& forall|k: int|
                    0 <= k < old(self).open_upvalues@.len() && uv_at(
                        old(self).heap@,
                        #[trigger] old(self).open_upvalues@[k] as int,
                    ).location == slot ==> old(self).open_upvalues@[k] == idx
            },
            !(exists|k: int|
                0 <= k < old(self).open_upvalues@.len() && uv_at(
                    old(self).heap@,
                    #[trigger] old(self).open_upvalues@[k] as int,
                ).location == slot) ==> {
                &&& final(self).heap@ == old(self).heap@.push(
                    HeapObject {
                        value: ObjectValue::UpValue(
                            UpValue { location: slot, closed_val: None },
                        ),
                    },
                )
                &&& idx == old(self).heap@.len()
                &&& exists|j: int|
                    0 <= j <= old(self).open_upvalues@.len() && final(self).open_upvalues@
                        == old(self).open_upvalues@.subrange(0, j).push(idx) + old(
                        self,
                    ).open_upvalues@.subrange(j, old(self).open_upvalues@.len() as int)
            },
    {
        let n: usize = self.open_upvalues.len();
        let mut i: usize = 0;
        while i < n
            invariant
                self.wf(),
                n == self.open_upvalues@.len(),
                i <= n,
                forall|k: int|
                    0 <= k < i ==> uv_at(
                        self.heap@,
                        #[trigger] self.open_upvalues@[k] as int,
                    ).location > slot,
            decreases n - i,
        {
            let node: usize = self.open_upvalues[i];
            proof {
                assert(is_uv(self.heap@, node as int));
            }
            if self.uv_location(node) <= slot {
                break;
            }
            i = i + 1;
        }
        if i < n {
            let node: usize = self.open_upvalues[i];
            proof {
                assert(is_uv(self.heap@, node as int));
            }
            if self.uv_location(node) == slot {
                proof {
                    assert forall|k: int|
                        0 <= k < self.open_upvalues@.len() && uv_at(
                            self.heap@,
                            #[trigger] self.open_upvalues@[k] as int,
                        ).location == slot implies self.open_upvalues@[k] == node by {
                        if k < i {
                            assert(uv_at(self.heap@, self.open_upvalues@[k] as int).location
                                > slot);
                        } else if k > i {
                            assert(uv_at(self.heap@, self.open_upvalues@[i as int] as int).location
                                > uv_at(self.heap@, self.open_upvalues@[k] as int).location);
                        }
                    }
                }
                return node;
            }
        }
        proof {
            assert forall|k: int|
                0 <= k < self.open_upvalues@.len() implies uv_at(
                self.heap@,
                #[trigger] self.open_upvalues@[k] as int,
            ).location != slot by {
                if k < i {
                } else if k > i {
                    assert(uv_at(self.heap@, self.open_upvalues@[i as int] as int).location > uv_at(
                        self.heap@,
                        self.open_upvalues@[k] as int,
                    ).location);
                    assert(uv_at(self.heap@, self.open_upvalues@[i as int] as int).location
                        <= slot);
                }
            }
        }
        let ghost mid = *self;
        let fresh = ObjectValue::UpValue(UpValue::new(slot));
        let nid: usize = self.allocate_value(fresh);
        proof {
            Self::lemma_wf_after_alloc(mid, *self, fresh);
        }
        self.open_upvalues.insert(i, nid);
        proof {
            let l = self.open_upvalues@;
            let prevl = mid.open_upvalues@;
            assert(l == prevl.subrange(0, i as int).push(nid) + prevl.subrange(
                i as int,
                prevl.len() as int,
            ));
            assert forall|k: int| 0 <= k < l.len() implies is_uv(
                self.heap@,
                #[trigger] l[k] as int,
            ) by {
                if k < i {
                    assert(l[k] == prevl[k]);
                } else if k == i {
                } else {
                    assert(l[k] == prevl[k - 1]);
                }
            }
            assert forall|k: int| 0 <= k < l.len() implies (#[trigger] uv_at(
                self.heap@,
                l[k] as int,
            )).closed_val is None by {
                if k < i {
                    assert(l[k] == prevl[k]);
                } else if k > i {
                    assert(l[k] == prevl[k - 1]);
                }
            }
            assert forall|a: int, b: int| 0 <= a < b < l.len() implies (#[trigger] uv_at(
                self.heap@,
                l[a] as int,
            )).location > (#[trigger] uv_at(self.heap@, l[b] as int)).location by {
                if b < i {
                    assert(l[a] == prevl[a] && l[b] == prevl[b]);
                } else if a > i {
                    assert(l[a] == prevl[a - 1] && l[b] == prevl[b - 1]);
                } else if a < i && b == i {
                    assert(l[a] == prevl[a]);
                    assert(uv_at(self.heap@, prevl[a] as int).location > slot);
                } else if a < i && b > i {
                    assert(l[a] == prevl[a] && l[b] == prevl[b - 1]);
                } else if a == i {
                    assert(l[b] == prevl[b - 1]);
                    assert(uv_at(self.heap@, prevl[b - 1] as int).location != slot);
                    if i < prevl.len() {
                        if b - 1 > i {
                            assert(uv_at(self.heap@, prevl[i as int] as int).location > uv_at(
                                self.heap@,
                                prevl[b - 1] as int,
                            ).location);
                        }
                        assert(uv_at(self.heap@, prevl[i as int] as int).location <= slot);
                    }
                }
            }
        }
        nid
    }

    /// Closes every open upvalue whose stack slot is at or above
    /// `boundary`: the slot's value moves into the cell, which leaves
    /// the open list. A slot already gone yields nil.
    #[verifier::rlimit(100)]
    pub fn close_upvalues(&mut self, boundary: usize)
        requires
            old(self).wf(),
        ensures
            final(self).wf(),
            heap_extends(final(self).heap@, old(self).heap@),
            final(self).heap@.len() == old(self).heap@.len(),
            final(self).stack@ == old(self).stack@,
            final(self).stack.ptr == old(self).stack.ptr,
            final(self).ip == old(self).ip,
            final(self).output@ == old(self).output@,
            final(self).frames_env_unchanged(*old(self)),
            exists|m: int|
                closes_upvalues(
                    old(self).heap@,
                    old(self).open_upvalues@,
                    final(self).heap@,
                    final(self).open_upvalues@,
                    boundary as int,
                    old(self).stack@,
                    m,
                ),
    {
        let ghost orig = *self;
        let ghost m: int = 0int;
        let mut done: bool = false;
        while !done
            invariant
                self.wf(),
                0 <= m <= orig.open_upvalues@.len(),
                self.open_upvalues@ == orig.open_upvalues@.subrange(
                    m,
                    orig.open_upvalues@.len() as int,
                ),
                self.heap@.len() == orig.heap@.len(),
                heap_extends(self.heap@, orig.heap@),
                self.stack@ == orig.stack@,
                self.stack.ptr == orig.stack.ptr,
                self.ip == orig.ip,
                self.output@ == orig.output@,
                self.frames_env_unchanged(orig),
                forall|k: int|
                    0 <= k < m ==> uv_at(
                        orig.heap@,
                        #[trigger] orig.open_upvalues@[k] as int,
                    ).location >= boundary,
                forall|k: int|
                    #![trigger orig.open_upvalues@[k]]
                    0 <= k < m ==> {
                        let node = orig.open_upvalues@[k] as int;
                        let loc = uv_at(orig.heap@, node).location as int;
                        self.heap@[node].value == ObjectValue::UpValue(
                            UpValue {
                                location: uv_at(orig.heap@, node).location,
                                closed_val: Some(
                                    if loc < orig.stack@.len() {
                                        orig.stack@[loc]
                                    } else {
                                        SmallVal::Nil
                                    },
                                ),
                            },
                        )
                    },
                forall|i: int|
                    0 <= i < orig.heap@.len() && !(exists|k: int|
                        0 <= k < m && orig.open_upvalues@[k] == i) ==> (
                    #[trigger] self.heap@[i]).value == orig.heap@[i].value,
                done ==> self.open_upvalues@.len() == 0 || uv_at(
                    self.heap@,
                    self.open_upvalues@[0] as int,
                ).location < boundary,
            decreases orig.open_upvalues@.len() - m, (if done { 0int } else { 1int }),
        {
            if self.open_upvalues.len() == 0 {
                done = true;
            } else {
                let node: usize = self.open_upvalues[0];
                proof {
                    assert(is_uv(self.heap@, node as int));
                }
                let loc: usize = self.uv_location(node);
                if loc < boundary {
                    done = true;
                } else {
                    let closed: SmallVal = match self.stack.at(loc) {
                        Some(v) => *v,
                        None => SmallVal::Nil,
                    };
                    proof {
                        assert(uv_at(orig.heap@, node as int) == uv_at(self.heap@, node as int));
                    }
                    match &mut self.heap[node].value {
                        ObjectValue::UpValue(u) => {
                            u.closed_val = Some(closed);
                        },
                        _ => {},
                    }
                    self.open_upvalues.remove(0);
                    proof {
                        m = m + 1;
                        let prev = orig.open_upvalues@;
                        assert(self.open_upvalues@ =~= prev.subrange(m, prev.len() as int));
                        assert forall|k: int| 0 <= k < self.open_upvalues@.len() implies is_uv(
                            self.heap@,
                            #[trigger] self.open_upvalues@[k] as int,
                        ) && (uv_at(self.heap@, self.open_upvalues@[k] as int)).closed_val
                            is None by {
                            let e = self.open_upvalues@[k];
                            assert(e == prev[m + k]);
                            assert(uv_at(self.heap@, node as int).location > uv_at(
                                self.heap@,
                                e as int,
                            ).location || node != e);
                        }
                    }
                }
            }
        }
        proof {
            assert forall|k: int|
                m <= k < orig.open_upvalues@.len() implies uv_at(
                orig.heap@,
                #[trigger] orig.open_upvalues@[k] as int,
            ).location < boundary by {
                if k > m {
                    assert(uv_at(self.heap@, orig.open_upvalues@[m] as int).location > uv_at(
                        self.heap@,
                        orig.open_upvalues@[k] as int,
                    ).location);
                }
            }
            assert(closes_upvalues(
                orig.heap@,
                orig.open_upvalues@,
                self.heap@,
                self.open_upvalues@,
                boundary as int,
                orig.stack@,
                m,
            ));
        }
    }

    /// The closure of the running frame, if the engine is in a call.
    pub open spec fn spec_frame_closure(self) -> Option<Closure> {
        if self.callframes@.len() == 0 {
            None
        } else {
            match self.heap@[self.callframes@.last().closure_obj as int].value {
                ObjectValue::Closure(c) => Some(c),
                _ => None,
            }
        }
    }

    /// Resolves operand `uidx` of the running closure's upvalue table
    /// to the heap index it was filled with.
    fn frame_upvalue(&self, uidx: usize) -> (r: Option<usize>)
        requires
            self.wf(),
        ensures
            r matches Some(u) ==> {
                &&& self.spec_frame_closure() matches Some(c)
                &&& uidx < c.upvalues@.len() && c.upvalues@[uidx as int] == Some(u)
                &&& u < self.heap@.len()
            },
            r is None ==> (self.spec_frame_closure() matches Some(c) ==> (uidx
                >= c.upvalues@.len() || c.upvalues@[uidx as int] is None)),
    {
        if self.callframes.len() == 0 {
            return None;
        }
        let fr: &CallFrame = &self.callframes[self.callframes.len() - 1];
        proof {
            assert(frame_ok(self.heap@, self.callframes@[self.callframes@.len() - 1]));
        }
        match &self.heap[fr.closure_obj].value {
            ObjectValue::Closure(c) => {
                if uidx < c.upvalues.len() {
                    proof {
                        assert(obj_ok(
                            self.heap@.len() as int,
                            self.heap@[fr.closure_obj as int].value,
                        ));
                    }
                    c.upvalues[uidx]
                } else {
                    None
                }
            },
            _ => None,
        }
    }

    /// `ReferenceUpvalue idx`: pushes the current value of the
    /// captured variable, reading through the cell: from the stack
    /// while the cell is open, from the cell once closed.
    pub fn handle_reference_upvalue(&mut self) -> (r: Result<(), RuntimeError>)
        requires
            old(self).wf(),
            old(self).ip < old(self).spec_cur_code().len(),
        ensures
            final(self).wf(),
            step_reference_upvalue(*old(self), *final(self), r),
    {
        proof {
            old(self).lemma_cur_bounds();
        }
        let uidx: u8 = match self.read_operand() {
            Some(b) => b,
            None => {
                return Err(RuntimeError::MalformedBytecode);
            },
        };
        let u: usize = match self.frame_upvalue(uidx as usize) {
            Some(u) => u,
            None => {
                return Err(RuntimeError::MalformedBytecode);
            },
        };
        let value: SmallVal = match &self.heap[u].value {
            ObjectValue::UpValue(uv) => {
                match uv.closed_val {
                    Some(v) => v,
                    None => {
                        match self.stack.at(uv.location) {
                            Some(v) => *v,
                            None => {
                                return Err(RuntimeError::MalformedBytecode);
                            },
                        }
                    },
                }
            },
            _ => {
                return Err(RuntimeError::MalformedBytecode);
            },
        };
        if self.stack.len() >= STACK_SIZE {
            return Err(RuntimeError::MalformedBytecode);
        }
        self.stack.push(value);
        self.ip = self.ip + 2;
        Ok(())
    }

    /// `SetUpvalue idx`: pops a value and writes it through the
    /// captured cell: into the stack slot while open, into the cell
    /// once closed.
    pub fn handle_set_upvalue(&mut self) -> (r: Result<(), RuntimeError>)
        requires
            old(self).wf(),
            old(self).ip < old(self).spec_cur_code().len(),
        ensures
            final(self).wf(),
            step_set_upvalue(*old(self), *final(self), r),
    {
        proof {
            old(self).lemma_cur_bounds();
        }
        let uidx: u8 = match self.read_operand() {
            Some(b) => b,
            None => {
                return Err(RuntimeError::MalformedBytecode);
            },
        };
        if self.stack.len() == 0 {
            return Err(RuntimeError::MalformedBytecode);
        }
        let u: usize = match self.frame_upvalue(uidx as usize) {
            Some(u) => u,
            None => {
                return Err(RuntimeError::MalformedBytecode);
            },
        };
        let (is_closed, location): (bool, usize) = match &self.heap[u].value {
            ObjectValue::UpValue(uv) => (uv.closed_val.is_some(), uv.location),
            _ => {
                return Err(RuntimeError::MalformedBytecode);
            },
        };
        if is_closed {
            let value: SmallVal = self.stack.pop().unwrap();
            match &mut self.heap[u].value {
                ObjectValue::UpValue(uv) => {
                    uv.closed_val = Some(value);
                },
                _ => {},
            }
            proof {
                assert(self.heap@ =~= old(self).heap@.update(
                    u as int,
                    HeapObject {
                        value: ObjectValue::UpValue(
                            UpValue { location: location, closed_val: Some(value) },
                        ),
                    },
                ));
                assert forall|k: int|
                    0 <= k < self.open_upvalues@.len() implies is_uv(
                    self.heap@,
                    #[trigger] self.open_upvalues@[k] as int,
                ) && uv_at(self.heap@, self.open_upvalues@[k] as int).closed_val is None by {
                    assert(uv_at(old(self).heap@, self.open_upvalues@[k] as int).closed_val
                        is None);
                    assert(self.open_upvalues@[k] != u);
                }
                assert forall|a: int, b: int|
                    0 <= a < b < self.open_upvalues@.len() implies (#[trigger] uv_at(
                    self.heap@,
                    self.open_upvalues@[a] as int,
                )).location > (#[trigger] uv_at(self.heap@, self.open_upvalues@[b] as int)).location
                    by {
                    assert(self.open_upvalues@[a] != u && self.open_upvalues@[b] != u);
                    assert(uv_at(old(self).heap@, self.open_upvalues@[a] as int).location > uv_at(
                        old(self).heap@,
                        self.open_upvalues@[b] as int,
                    ).location);
                }
            }
            self.ip = self.ip + 2;
            Ok(())
        } else {
            if location >= self.stack.len() - 1 {
                return Err(RuntimeError::MalformedBytecode);
            }
            let value: SmallVal = self.stack.pop().unwrap();
            let stored: bool = self.stack.set_at(location, value);
            proof {
                assert(stored);
            }
            self.ip = self.ip + 2;
            Ok(())
        }
    }

    /// `FuncCall arity`: invokes the callable sitting `arity` slots
    /// below the top. A closure gets a fresh call frame above the
    /// caller's and its locals reserved; a builtin runs to completion
    /// within this opcode; anything else is a type error.
    #[verifier::rlimit(100)]
    pub fn handle_func_call(&mut self) -> (r: Result<(), RuntimeError>)
        requires
            old(self).wf(),
            old(self).ip < old(self).spec_cur_code().len(),
        ensures
            final(self).wf(),
            step_func_call(*old(self), *final(self), r),
    {
        proof {
            old(self).lemma_cur_bounds();
        }
        let given_arity: u8 = match self.read_operand() {
            Some(b) => b,
            None => {
                return Err(RuntimeError::MalformedBytecode);
            },
        };
        let arity: usize = given_arity as usize;
        let callee: SmallVal = match self.stack.peek_back(arity) {
            Some(v) => v,
            None => {
                return Err(RuntimeError::MalformedBytecode);
            },
        };
        let p: usize = match callee {
            SmallVal::ObjectPtr(p) => p,
            _ => {
                return Err(RuntimeError::TypeError);
            },
        };
        let which: Callee = match &self.heap[p].value {
            ObjectValue::Closure(c) => {
                if c.f.arity != arity {
                    return Err(RuntimeError::ArityMismatch);
                }
                Callee::Closure(c.f.num_locals, c.f.bytecode.code.len(), c.f.bytecode.constants.len())
            },
            ObjectValue::BuiltIn(b) => Callee::Builtin(*b),
            _ => {
                return Err(RuntimeError::TypeError);
            },
        };
        match which {
            Callee::Closure(num_locals, _code_len, _consts_len) => {
                let start: usize = self.stack.len() - 1 - arity;
                let cur: i32 = match self.frame_start() {
                    Some(s) => s,
                    None => -1,
                };
                if cur >= 0 && start <= cur as usize {
                    return Err(RuntimeError::MalformedBytecode);
                }
                if num_locals > STACK_SIZE || self.stack.len() > STACK_SIZE - num_locals {
                    return Err(RuntimeError::MalformedBytecode);
                }
                let frame = CallFrame {
                    closure_obj: p,
                    return_address: self.ip + 1,
                    start_idx: start as i32,
                };
                self.callframes.push(frame);
                proof {
                    assert forall|i: int|
                        0 <= i < self.callframes@.len() implies frame_ok(
                        self.heap@,
                        #[trigger] self.callframes@[i],
                    ) by {
                        if i < self.callframes@.len() - 1 {
                            assert(frame_ok(old(self).heap@, old(self).callframes@[i]));
                        }
                    }
                    assert forall|i: int|
                        0 <= i < self.callframes@.len() - 1 implies (
                    #[trigger] self.callframes@[i]).start_idx < self.callframes@[i
                        + 1].start_idx by {
                        if i < self.callframes@.len() - 2 {
                            assert(old(self).callframes@[i].start_idx < old(
                                self,
                            ).callframes@[i + 1].start_idx);
                        }
                    }
                }
                let mut k: usize = 0;
                while k < num_locals
                    invariant
                        k <= num_locals,
                        self.wf(),
                        self.stack@ == old(self).stack@ + Seq::new(
                            k as nat,
                            |j: int| SmallVal::Nil,
                        ),
                        old(self).stack@.len() + num_locals <= STACK_SIZE,
                        self.heap@ == old(self).heap@,
                        self.globals@ == old(self).globals@,
                        self.chunk == old(self).chunk,
                        self.output@ == old(self).output@,
                        self.open_upvalues@ == old(self).open_upvalues@,
                        self.ip == old(self).ip,
                        self.callframes@ == old(self).callframes@.push(
                            CallFrame {
                                closure_obj: p,
                                return_address: (old(self).ip + 1) as usize,
                                start_idx: start as i32,
                            },
                        ),
                    decreases num_locals - k,
                {
                    self.stack.push(SmallVal::Nil);
                    k = k + 1;
                    proof {
                        assert(self.stack@ =~= old(self).stack@ + Seq::new(
                            k as nat,
                            |j: int| SmallVal::Nil,
                        ));
                    }
                }
                self.ip = 0;
                Ok(())
            },
            Callee::Builtin(b) => {
                let args: Vec<SmallVal> = self.stack.pop_n(arity).unwrap();
                let _callee: Option<SmallVal> = self.stack.pop();
                let result: SmallVal = match apply_builtin(b, &args) {
                    Ok(v) => v,
                    Err(e) => {
                        proof {
                            let n = old(self).stack@.len() as int;
                            assert(old(self).stack@.subrange(0, n - arity).drop_last()
                                =~= old(self).stack@.subrange(0, n - 1 - arity));
                        }
                        return Err(e);
                    },
                };
                self.stack.push(result);
                self.ip = self.ip + 2;
                proof {
                    let n = old(self).stack@.len() as int;
                    assert(old(self).stack@.subrange(0, n - arity).drop_last()
                        =~= old(self).stack@.subrange(0, n - 1 - arity));
                }
                Ok(())
            },
        }
    }

    /// `Return`: pops the return value, closes this frame's still-open
    /// upvalues, discards the callee, arguments and locals, and leaves
    /// exactly the return value where the callee stood. The caller
    /// resumes past its call operand.
    #[verifier::rlimit(100)]
    pub fn handle_return(&mut self) -> (r: Result<(), RuntimeError>)
        requires
            old(self).wf(),
        ensures
            final(self).wf(),
            heap_extends(final(self).heap@, old(self).heap@),
            step_return(*old(self), *final(self), r),
    {
        if self.callframes.len() == 0 {
            return Err(RuntimeError::MalformedBytecode);
        }
        let fr_obj: usize = self.callframes[self.callframes.len() - 1].closure_obj;
        let ra: usize = self.callframes[self.callframes.len() - 1].return_address;
        let start: i32 = self.callframes[self.callframes.len() - 1].start_idx;
        proof {
            assert(frame_ok(self.heap@, self.callframes@[self.callframes@.len() - 1]));
        }
        let (arity, num_locals): (usize, usize) = match &self.heap[fr_obj].value {
            ObjectValue::Closure(c) => (c.f.arity, c.f.num_locals),
            _ => {
                return Err(RuntimeError::MalformedBytecode);
            },
        };
        let pops: usize = match arity.checked_add(num_locals) {
            Some(s) => match s.checked_add(1) {
                Some(t) => t,
                None => {
                    return Err(RuntimeError::MalformedBytecode);
                },
            },
            None => {
                return Err(RuntimeError::MalformedBytecode);
            },
        };
        if self.stack.len() == 0 || self.stack.len() - 1 < pops {
            return Err(RuntimeError::MalformedBytecode);
        }
        if self.stack.len() - 1 - pops != start as usize {
            return Err(RuntimeError::MalformedBytecode);
        }
        if ra == usize::MAX {
            return Err(RuntimeError::MalformedBytecode);
        }
        let return_val: SmallVal = self.stack.pop().unwrap();
        let ghost before_close = *self;
        self.close_upvalues(start as usize);
        let ghost after_close = *self;
        let _discarded: Option<Vec<SmallVal>> = self.stack.pop_n(pops);
        self.callframes.pop();
        self.stack.push(return_val);
        self.ip = ra + 1;
        proof {
            assert(self.stack@ =~= old(self).stack@.subrange(0, start as int).push(
                old(self).stack@.last(),
            ));
            assert forall|i: int|
                0 <= i < self.callframes@.len() - 1 implies (#[trigger] self.callframes@[i]).start_idx
                < self.callframes@[i + 1].start_idx by {
                assert(self.callframes@[i] == old(self).callframes@[i]);
            }
            assert(before_close.heap@ == old(self).heap@);
            assert(before_close.stack@ == old(self).stack@.drop_last());
            let m = choose|m: int|
                closes_upvalues(
                    before_close.heap@,
                    before_close.open_upvalues@,
                    after_close.heap@,
                    after_close.open_upvalues@,
                    start as int,
                    before_close.stack@,
                    m,
                );
            assert(closes_upvalues(
                old(self).heap@,
                old(self).open_upvalues@,
                self.heap@,
                self.open_upvalues@,
                start as int,
                old(self).stack@.drop_last(),
                m,
            ));
        }
        Ok(())
    }

    /// `Closure idx, N x (capture_type, index)`: clones the closure
    /// template from the constants, fills each upvalue slot by
    /// capturing a surrounding local or sharing one of the running
    /// closure's upvalues, allocates the closure and pushes it.
    #[verifier::rlimit(100)]
    pub fn handle_closure(&mut self) -> (r: Result<(), RuntimeError>)
        requires
            old(self).wf(),
            old(self).ip < old(self).spec_cur_code().len(),
        ensures
            final(self).wf(),
            step_closure(*old(self), *final(self), r),
    {
        proof {
            old(self).lemma_cur_bounds();
        }
        let cidx: u8 = match self.read_operand() {
            Some(b) => b,
            None => {
                proof {
                    lemma_preserves_cells_refl(*self);
                }
                return Err(RuntimeError::MalformedBytecode);
            },
        };
        let (f, num_upvalues): (crate::bytecode::Function, usize) = match self.constant_at(
            cidx as usize,
        ) {
            Some(ConstantValue::Object(ConstantObject::Closure(tmpl))) => (
                tmpl.f.deep_clone(),
                tmpl.num_upvalues,
            ),
            _ => {
                proof {
                    lemma_preserves_cells_refl(*self);
                }
                return Err(RuntimeError::MalformedBytecode);
            },
        };
        let mut clo: Closure = Closure::new(f, num_upvalues);
        proof {
            lemma_preserves_cells_refl(*self);
        }
        let mut i: usize = 0;
        let mut pos: usize = self.ip + 1;
        while i < num_upvalues
            invariant
                i <= num_upvalues,
                pos == old(self).ip + 1 + 2 * i,
                self.wf(),
                self.ip == old(self).ip,
                self.stack@ == old(self).stack@,
                self.stack.ptr == old(self).stack.ptr,
                self.output@ == old(self).output@,
                heap_extends(self.heap@, old(self).heap@),
                self.frames_env_unchanged(*old(self)),
                self.spec_cur_code() == old(self).spec_cur_code(),
                self.spec_cur_start() == old(self).spec_cur_start(),
                self.spec_frame_closure() == old(self).spec_frame_closure(),
                clo.upvalues@.len() == num_upvalues,
                clo.num_upvalues == num_upvalues,
                old(self).ip + 1 < old(self).spec_cur_code().len(),
                pos < old(self).spec_cur_code().len(),
                old(self).spec_cur_code()[old(self).ip + 1] == cidx,
                (old(self).spec_cur_constants()[cidx as int] matches ConstantValue::Object(
                    ConstantObject::Closure(tmpl),
                ) && clo.f.model() == tmpl.f.model() && num_upvalues == tmpl.num_upvalues),
                closure_preserves_cells(*old(self), *self),
                forall|k: int| 0 <= k < i ==> capture_descr_ok(*old(self), k),
                forall|k: int| 0 <= k < i ==> filled_slot_ok(*old(self), *self, clo, k),
                forall|k: int| i <= k < num_upvalues ==> (#[trigger] clo.upvalues@[k]) is None,
            decreases num_upvalues - i,
        {
            let ghost iter_pre = *self;
            proof {
                self.lemma_cur_bounds();
            }
            let p1: usize = match pos.checked_add(1) {
                Some(v) => v,
                None => {
                    proof {
                        assert(!capture_descr_ok(*old(self), i as int));
                    }
                    return Err(RuntimeError::MalformedBytecode);
                },
            };
            let p2: usize = match pos.checked_add(2) {
                Some(v) => v,
                None => {
                    proof {
                        assert(!capture_descr_ok(*old(self), i as int));
                    }
                    return Err(RuntimeError::MalformedBytecode);
                },
            };
            let ct_byte: u8 = match self.fetch_byte(p1) {
                Some(b) => b,
                None => {
                    proof {
                        assert(!capture_descr_ok(*old(self), i as int));
                    }
                    return Err(RuntimeError::MalformedBytecode);
                },
            };
            let uv_index: u8 = match self.fetch_byte(p2) {
                Some(b) => b,
                None => {
                    proof {
                        assert(!capture_descr_ok(*old(self), i as int));
                    }
                    return Err(RuntimeError::MalformedBytecode);
                },
            };
            let ct: CaptureType = match CaptureType::from_byte(ct_byte) {
                Some(c) => c,
                None => {
                    proof {
                        assert(!capture_descr_ok(*old(self), i as int));
                    }
                    return Err(RuntimeError::MalformedBytecode);
                },
            };
            let uv_ptr: usize = match ct {
                CaptureType::SurroundingLocal => {
                    let start: i32 = match self.frame_start() {
                        Some(st) => st,
                        None => {
                            proof {
                                assert(ct_byte == 1);
                                assert(!capture_descr_ok(*old(self), i as int));
                            }
                            return Err(RuntimeError::MalformedBytecode);
                        },
                    };
                    let slot: usize = start as usize + 1 + uv_index as usize;
                    let captured: usize = self.capture_upvalue(slot);
                    proof {
                        Self::lemma_cur_stable(iter_pre, *self);
                        let pre_list = iter_pre.open_upvalues@;
                        if exists|k: int|
                            0 <= k < pre_list.len() && uv_at(
                                iter_pre.heap@,
                                #[trigger] pre_list[k] as int,
                            ).location == slot {
                            let k = choose|k: int|
                                0 <= k < pre_list.len() && uv_at(
                                    iter_pre.heap@,
                                    #[trigger] pre_list[k] as int,
                                ).location == slot;
                            assert(self.open_upvalues@[k] == captured);
                            assert(exists|j: int|
                                0 <= j < self.open_upvalues@.len() && self.open_upvalues@[j]
                                    == captured);
                            assert forall|k2: int|
                                0 <= k2 < i implies filled_slot_ok(
                                *old(self),
                                *self,
                                clo,
                                k2,
                            ) by {
                                assert(filled_slot_ok(*old(self), iter_pre, clo, k2));
                            }
                        } else {
                            let j = choose|j: int|
                                0 <= j <= pre_list.len() && self.open_upvalues@
                                    == pre_list.subrange(0, j).push(captured)
                                    + pre_list.subrange(j, pre_list.len() as int);
                            assert(self.open_upvalues@[j] == captured);
                            assert(exists|j2: int|
                                0 <= j2 < self.open_upvalues@.len() && self.open_upvalues@[j2]
                                    == captured);
                            assert forall|k2: int|
                                0 <= k2 < i implies filled_slot_ok(
                                *old(self),
                                *self,
                                clo,
                                k2,
                            ) by {
                                assert(filled_slot_ok(*old(self), iter_pre, clo, k2));
                                let ct2 = old(self).spec_cur_code()[old(self).ip + 2 + 2 * k2];
                                if ct2 == 1 {
                                    let u = clo.upvalues@[k2].unwrap();
                                    assert(self.heap@[u as int] == iter_pre.heap@[u as int]);
                                    lemma_member_after_insert(
                                        pre_list,
                                        self.open_upvalues@,
                                        j,
                                        captured,
                                        u,
                                    );
                                }
                            }
                            assert forall|j0: int|
                                0 <= j0 < old(self).open_upvalues@.len() implies exists|j2: int|
                                0 <= j2 < self.open_upvalues@.len() && self.open_upvalues@[j2]
                                    == #[trigger] old(self).open_upvalues@[j0] by {
                                lemma_member_after_insert(
                                    pre_list,
                                    self.open_upvalues@,
                                    j,
                                    captured,
                                    old(self).open_upvalues@[j0],
                                );
                            }
                            assert forall|j2: int|
                                0 <= j2 < self.open_upvalues@.len() implies ((exists|j0: int|
                                0 <= j0 < old(self).open_upvalues@.len() && old(
                                self,
                            ).open_upvalues@[j0] == #[trigger] self.open_upvalues@[j2])
                                || self.open_upvalues@[j2] >= old(self).heap@.len()) by {
                                if j2 == j {
                                    assert(self.open_upvalues@[j2] == captured);
                                    assert(captured >= old(self).heap@.len());
                                } else if j2 < j {
                                    assert(self.open_upvalues@[j2] == pre_list[j2]);
                                } else {
                                    assert(self.open_upvalues@[j2] == pre_list[j2 - 1]);
                                }
                            }
                        }
                    }
                    captured
                },
                CaptureType::SurroundingUpvalue => {
                    match self.frame_upvalue(uv_index as usize) {
                        Some(u) => u,
                        None => {
                            proof {
                                assert(ct_byte == 0);
                                assert(!capture_descr_ok(*old(self), i as int));
                            }
                            return Err(RuntimeError::MalformedBytecode);
                        },
                    }
                },
            };
            let ghost clo_before = clo;
            clo.upvalues[i] = Some(uv_ptr);
            proof {
                assert(clo.upvalues@ == clo_before.upvalues@.update(i as int, Some(uv_ptr)));
                assert(capture_descr_ok(*old(self), i as int));
                assert(filled_slot_ok(*old(self), *self, clo, i as int));
                assert forall|k: int|
                    0 <= k < i implies filled_slot_ok(*old(self), *self, clo, k) by {
                    assert(filled_slot_ok(*old(self), *self, clo_before, k));
                    assert(clo.upvalues@[k] == clo_before.upvalues@[k]);
                }
            }
            i = i + 1;
            pos = p2;
        }
        if self.stack.len() >= STACK_SIZE {
            return Err(RuntimeError::MalformedBytecode);
        }
        proof {
            self.lemma_cur_bounds();
        }
        let newip: usize = match pos.checked_add(1) {
            Some(v) => v,
            None => {
                return Err(RuntimeError::MalformedBytecode);
            },
        };
        let ghost clo_snap = clo;
        proof {
            assert(forall|k: int|
                0 <= k < num_upvalues ==> filled_slot_ok(*old(self), *self, clo_snap, k));
            assert forall|k: int|
                0 <= k < clo_snap.upvalues@.len() implies (#[trigger] clo_snap.upvalues@[k]
                matches Some(u) ==> u < self.heap@.len() + 1) by {
                assert(filled_slot_ok(*old(self), *self, clo_snap, k));
            }
        }
        let ghost mid = *self;
        let ghost obj = ObjectValue::Closure(clo_snap);
        let heap_closure: usize = self.allocate_value(ObjectValue::Closure(clo));
        proof {
            Self::lemma_wf_after_alloc(mid, *self, obj);
            assert(heap_extends(self.heap@, old(self).heap@));
        }
        self.stack.push(SmallVal::ObjectPtr(heap_closure));
        self.ip = newip;
        proof {
            assert(self.heap@.last().value == obj);
            assert forall|k: int|
                0 <= k < num_upvalues implies filled_slot_ok(*old(self), *self, clo_snap, k) by {
                assert(filled_slot_ok(*old(self), mid, clo_snap, k));
                let ct2 = old(self).spec_cur_code()[old(self).ip + 2 + 2 * k];
                if ct2 == 1 {
                    let u = clo_snap.upvalues@[k].unwrap();
                    assert(self.heap@[u as int] == mid.heap@[u as int]);
                    assert(self.open_upvalues@ == mid.open_upvalues@);
                    let j = choose|j: int|
                        0 <= j < mid.open_upvalues@.len() && mid.open_upvalues@[j] == u;
                    assert(self.open_upvalues@[j] == u);
                }
            }
        }
        Ok(())
    }

    /// Fetch-decode-dispatch for the running frame: executes from the
    /// current instruction pointer until this frame returns (`false`),
    /// the program halts at `DebugEnd` (`true`), or a runtime error
    /// aborts the run. A closure call recurses one level, so the
    /// engine is back in this frame when the callee returns. Every
    /// outcome is a run of the small-step semantics: `Ok` reaches a
    /// halt or a return through `multi_step`, and an error reaches a
    /// state whose next instruction fails with exactly that error.
    #[verifier::rlimit(100)]
    #[verifier::spinoff_prover]
    pub fn run_frame(&mut self) -> (r: Result<bool, RuntimeError>)
        requires
            old(self).wf(),
        ensures
            final(self).wf(),
            heap_extends(final(self).heap@, old(self).heap@),
            final(self).chunk == old(self).chunk,
            old(self).output@.is_prefix_of(final(self).output@),
            old(self).globals@.is_prefix_of(final(self).globals@),
            r == Ok::<bool, RuntimeError>(true) ==> spec_halted(*final(self)) && exists|n: nat|
                multi_step(*old(self), *final(self), n),
            (r matches Ok(halted) && !halted) ==> {
                &&& old(self).callframes@.len() > 0
                &&& final(self).callframes@ == old(self).callframes@.drop_last()
                &&& final(self).ip == old(self).callframes@.last().return_address + 1
                &&& exists|n: nat| multi_step(*old(self), *final(self), n)
            },
            r matches Err(e) ==> exists|n: nat, s: VM|
                multi_step(*old(self), s, n) && spec_step_fails(s, e),
        decreases STACK_SIZE + 1 - self.spec_cur_start(),
    {
        let ghost mut steps: nat = 0;
        loop
            invariant
                self.wf(),
                self.callframes@ == old(self).callframes@,
                self.chunk == old(self).chunk,
                self.spec_cur_code() == old(self).spec_cur_code(),
                self.spec_cur_constants() == old(self).spec_cur_constants(),
                self.spec_cur_start() == old(self).spec_cur_start(),
                heap_extends(self.heap@, old(self).heap@),
                old(self).output@.is_prefix_of(self.output@),
                old(self).globals@.is_prefix_of(self.globals@),
                multi_step(*old(self), *self, steps),
            decreases (if self.ip < self.spec_cur_code().len() {
                self.spec_cur_code().len() - self.ip
            } else {
                0int
            }),
        {
            let ghost pre = *self;
            let op_byte: u8 = match self.fetch_byte(self.ip) {
                Some(b) => b,
                None => {
                    proof {
                        assert(spec_opcode(pre) is None);
                        assert(spec_step_fails(pre, RuntimeError::MalformedBytecode));
                    }
                    return Err(RuntimeError::MalformedBytecode);
                },
            };
            let op: Op = match Op::from_byte(op_byte) {
                Some(o) => o,
                None => {
                    proof {
                        assert(spec_opcode(pre) is None);
                        assert(spec_step_fails(pre, RuntimeError::MalformedBytecode));
                    }
                    return Err(RuntimeError::MalformedBytecode);
                },
            };
            proof {
                assert(spec_opcode(pre) == Some(op));
            }
            match op {
                Op::DebugEnd => {
                    proof {
                        assert(spec_halted(*self));
                    }
                    return Ok(true);
                },
                Op::CloseUpvalue => {
                    // reserved: nothing emits it, so it has no handler
                    proof {
                        assert(spec_step_fails(pre, RuntimeError::MalformedBytecode));
                    }
                    return Err(RuntimeError::MalformedBytecode);
                },
                Op::Return => {
                    match self.handle_return() {
                        Ok(()) => {
                            proof {
                                assert(spec_step(pre, *self));
                                lemma_multi_step_extend(*old(self), pre, *self, steps);
                                steps = steps + 1;
                            }
                            return Ok(false);
                        },
                        Err(e) => {
                            proof {
                                assert(step_op(pre, *self, op, Err(e)));
                                assert(spec_step_fails(pre, e));
                            }
                            return Err(e);
                        },
                    }
                },
                Op::FuncCall => {
                    let depth: usize = self.callframes.len();
                    match self.handle_func_call() {
                        Ok(()) => {},
                        Err(e) => {
                            proof {
                                assert(step_op(pre, *self, op, Err(e)));
                                assert(spec_step_fails(pre, e));
                            }
                            return Err(e);
                        },
                    }
                    proof {
                        assert(spec_step(pre, *self));
                        lemma_multi_step_extend(*old(self), pre, *self, steps);
                        steps = steps + 1;
                    }
                    if self.callframes.len() > depth {
                        proof {
                            assert(self.spec_cur_start() < STACK_SIZE);
                            assert(self.spec_cur_start() > pre.spec_cur_start());
                        }
                        let ghost mid = *self;
                        let halted: bool = match self.run_frame() {
                            Ok(h) => h,
                            Err(e) => {
                                proof {
                                    lemma_prefix_trans(
                                        old(self).output@,
                                        mid.output@,
                                        self.output@,
                                    );
                                    lemma_prefix_trans(
                                        old(self).globals@,
                                        mid.globals@,
                                        self.globals@,
                                    );
                                    let (n2, s) = choose|n2: nat, s: VM|
                                        multi_step(mid, s, n2) && spec_step_fails(s, e);
                                    lemma_multi_step_trans(*old(self), mid, s, steps, n2);
                                }
                                return Err(e);
                            },
                        };
                        proof {
                            lemma_prefix_trans(old(self).output@, mid.output@, self.output@);
                            lemma_prefix_trans(old(self).globals@, mid.globals@, self.globals@);
                        }
                        if halted {
                            proof {
                                let n2 = choose|n2: nat| multi_step(mid, *self, n2);
                                lemma_multi_step_trans(*old(self), mid, *self, steps, n2);
                                steps = steps + n2;
                            }
                            return Ok(true);
                        }
                        proof {
                            assert(self.callframes@ =~= pre.callframes@);
                            let n2 = choose|n2: nat| multi_step(mid, *self, n2);
                            lemma_multi_step_trans(*old(self), mid, *self, steps, n2);
                            steps = steps + n2;
                        }
                    }
                },
                _ => {
                    let res: Result<(), RuntimeError> = match op {
                        Op::Constant => self.handle_constant(),
                        Op::Add => self.handle_add(),
                        Op::Sub => self.handle_sub(),
                        Op::Mul => self.handle_mul(),
                        Op::Div => self.handle_div(),
                        Op::GT | Op::LT | Op::GTE | Op::LTE => self.handle_cmp(op),
                        Op::Jump => self.handle_jump(),
                        Op::CondJump => self.handle_cond_jump(),
                        Op::DeclareGlobal => self.handle_declare_global(),
                        Op::ReferenceGlobal => self.handle_reference_global(),
                        Op::Print => self.handle_print(),
                        Op::ReferenceLocal => self.handle_reference_local(),
                        Op::Define | Op::SetLocal => self.handle_store_local(),
                        Op::Closure => self.handle_closure(),
                        Op::ReferenceUpvalue => self.handle_reference_upvalue(),
                        Op::SetUpvalue => self.handle_set_upvalue(),
                        Op::Pop => self.handle_pop(),
                        _ => Err(RuntimeError::MalformedBytecode),
                    };
                    match res {
                        Ok(()) => {
                            proof {
                                assert(spec_step(pre, *self));
                                lemma_multi_step_extend(*old(self), pre, *self, steps);
                                steps = steps + 1;
                            }
                        },
                        Err(e) => {
                            proof {
                                assert(step_op(pre, *self, op, Err(e)));
                                assert(spec_step_fails(pre, e));
                            }
                            return Err(e);
                        },
                    }
                },
            }
            proof {
                lemma_heap_extends_trans(pre.heap@, self.heap@, self.heap@);
                assert(heap_extends(self.heap@, pre.heap@));
                Self::lemma_cur_stable(pre, *self);
                lemma_heap_extends_trans(old(self).heap@, pre.heap@, self.heap@);
                assert(pre.output@.is_prefix_of(self.output@)) by {
                    assert(pre.output@ =~= self.output@.subrange(0, pre.output@.len() as int));
                }
                lemma_prefix_trans(old(self).output@, pre.output@, self.output@);
                assert(pre.globals@.is_prefix_of(self.globals@)) by {
                    assert(pre.globals@ =~= self.globals@.subrange(
                        0,
                        pre.globals@.len() as int,
                    ));
                }
                lemma_prefix_trans(old(self).globals@, pre.globals@, self.globals@);
            }
        }
    }

    /// The running chunk is untouched by any step that keeps the frame
    /// list: the heap only grows and closures never change.
    pub proof fn lemma_cur_stable(pre: Self, post: Self)
        requires
            pre.wf(),
            post.callframes@ == pre.callframes@,
            post.chunk == pre.chunk,
            heap_extends(post.heap@, pre.heap@),
        ensures
            post.spec_cur_code() == pre.spec_cur_code(),
            post.spec_cur_constants() == pre.spec_cur_constants(),
            post.spec_cur_start() == pre.spec_cur_start(),
            post.spec_frame_closure() == pre.spec_frame_closure(),
    {
        if pre.callframes@.len() > 0 {
            let fr = pre.callframes@.last();
            assert(frame_ok(pre.heap@, pre.callframes@[pre.callframes@.len() - 1]));
            assert(post.heap@[fr.closure_obj as int].value == pre.heap@[fr.closure_obj as int].value);
        }
    }

    /// Runs a top-level chunk to completion: seeds the instruction
    /// pointer, then dispatches until `DebugEnd` or a runtime error.
    /// The outcome is exactly a run of the small-step semantics from
    /// the loaded state: `Ok` reaches a halted state through
    /// `multi_step`, and `Err(e)` reaches a state whose next
    /// instruction fails with `e` — so what the machine computes and
    /// prints is fixed, step by step, by the per-opcode relations.
    pub fn run(&mut self, chunk: BytecodeChunk) -> (r: Result<(), RuntimeError>)
        requires
            old(self).wf(),
            old(self).callframes@.len() == 0,
        ensures
            final(self).wf(),
            heap_extends(final(self).heap@, old(self).heap@),
            old(self).output@.is_prefix_of(final(self).output@),
            old(self).globals@.is_prefix_of(final(self).globals@),
            exists|loaded: VM|
                {
                    &&& loaded.stack@ == old(self).stack@
                    &&& loaded.globals@ == old(self).globals@
                    &&& loaded.callframes@ == old(self).callframes@
                    &&& loaded.heap@ == old(self).heap@
                    &&& loaded.open_upvalues@ == old(self).open_upvalues@
                    &&& loaded.output@ == old(self).output@
                    &&& loaded.chunk == chunk
                    &&& loaded.ip == 0
                    &&& (match r {
                        Ok(_) => spec_halted(*final(self)) && exists|n: nat|
                            multi_step(loaded, *final(self), n),
                        Err(e) => exists|n: nat, s: VM|
                            multi_step(loaded, s, n) && spec_step_fails(s, e),
                    })
                },
    {
        let code_len: usize = chunk.code.len();
        let consts_len: usize = chunk.constants.len();
        self.chunk = chunk;
        self.ip = 0;
        proof {
            assert(self.chunk.code@.len() <= usize::MAX);
            assert(self.chunk.constants@.len() <= usize::MAX);
        }
        let ghost loaded = *self;
        match self.run_frame() {
            Ok(_) => Ok(()),
            Err(e) => Err(e),
        }
    }
}

/// After `val_to_obj`/// After `val_to_obj`, the produced object index holds the constant
/// that the value materialised: a boxed scalar via its shell, a
/// reference directly.
proof fn lemma_val_obj_holds(heap: Seq<HeapObject>, v: SmallVal, p: int, c: ConstV)
    requires
        materializes(heap, v, c),
        match v {
            SmallVal::ObjectPtr(q) => p == q as int,
            SmallVal::Quote(q) => p == q as int,
            _ => 0 <= p < heap.len() && heap[p].value == ObjectValue::SmallValue(v),
        },
    ensures
        obj_holds(heap, p, c),
{
    match v {
        SmallVal::ObjectPtr(q) => {
            match c {
                ConstV::Object(o) => {
                    assert(obj_is(heap, p, o));
                },
                ConstV::List(items) => {
                    assert(cons_chain(heap, p, items));
                },
                _ => {},
            }
        },
        SmallVal::Quote(q) => {
            match c {
                ConstV::Quote(ic) => {
                    assert(obj_holds(heap, p, *ic));
                },
                _ => {},
            }
        },
        _ => {},
    }

}

/// A value found by lookup is one of the stored bindings, so it is
/// reference-valid whenever all bindings are.
pub proof fn lemma_assoc_lookup_ok(s: Seq<(String, SmallVal)>, k: Seq<char>, heap_len: int)
    requires
        forall|i: int| 0 <= i < s.len() ==> sv_ok(heap_len, (#[trigger] s[i]).1),
        assoc_lookup(s, k) is Some,
    ensures
        sv_ok(heap_len, assoc_lookup(s, k).unwrap()),
    decreases s.len(),
{
    if s.len() > 0 {
        if s.last().0@ == k {
        } else {
            assert(forall|i: int|
                0 <= i < s.drop_last().len() ==> sv_ok(heap_len, (#[trigger] s.drop_last()[i]).1));
            lemma_assoc_lookup_ok(s.drop_last(), k, heap_len);
        }
    }
}

/// The truncating quotient

/// The truncating quotient, with the one overflowing case wrapping
/// back to `i64::MIN`.
pub open spec fn div_wrap(a: i64, b: i64) -> i64 {
    match a.checked_div(b) {
        Some(q) => q,
        None => i64::MIN,
    }
}

/// Folds an integer builtin over its remaining arguments.
pub open spec fn spec_fold_ints(b: BuiltinFn, acc: i64, args: Seq<SmallVal>) -> Result<
    i64,
    RuntimeError,
>
    decreases args.len(),
{
    if args.len() == 0 {
        Ok(acc)
    } else {
        match args[0] {
            SmallVal::Integer(x) => match b {
                BuiltinFn::Add => spec_fold_ints(b, acc.wrapping_add(x), args.drop_first()),
                BuiltinFn::Sub => spec_fold_ints(b, acc.wrapping_sub(x), args.drop_first()),
                BuiltinFn::Mul => spec_fold_ints(b, acc.wrapping_mul(x), args.drop_first()),
                BuiltinFn::Div => if x == 0 {
                    Err(RuntimeError::DivisionByZero)
                } else {
                    spec_fold_ints(b, div_wrap(acc, x), args.drop_first())
                },
                _ => Err(RuntimeError::TypeError),
            },
            _ => Err(RuntimeError::TypeError),
        }
    }
}

/// What each builtin returns on a given argument list: the variadic
/// integer arithmetic of the builtin table, and `inc`.
pub open spec fn spec_builtin(b: BuiltinFn, args: Seq<SmallVal>) -> Result<
    SmallVal,
    RuntimeError,
> {
    match b {
        BuiltinFn::Add => match spec_fold_ints(b, 0, args) {
            Ok(v) => Ok(SmallVal::Integer(v)),
            Err(e) => Err(e),
        },
        BuiltinFn::Mul => match spec_fold_ints(b, 1, args) {
            Ok(v) => Ok(SmallVal::Integer(v)),
            Err(e) => Err(e),
        },
        BuiltinFn::Sub | BuiltinFn::Div => {
            if args.len() == 0 {
                Err(RuntimeError::TypeError)
            } else {
                match args[0] {
                    SmallVal::Integer(first) => match spec_fold_ints(b, first, args.drop_first()) {
                        Ok(v) => Ok(SmallVal::Integer(v)),
                        Err(e) => Err(e),
                    },
                    _ => Err(RuntimeError::TypeError),
                }
            }
        },
        BuiltinFn::Inc => {
            if args.len() != 1 {
                Err(RuntimeError::ArityMismatch)
            } else {
                match args[0] {
                    SmallVal::Integer(x) => Ok(SmallVal::Integer(x.wrapping_add(1))),
                    _ => Err(RuntimeError::TypeError),
                }
            }
        },
        BuiltinFn::ListFn => Err(RuntimeError::TypeError),
    }
}

/// Runs a builtin on its popped arguments.
pub fn apply_builtin(b: BuiltinFn, args: &Vec<SmallVal>) -> (r: Result<SmallVal, RuntimeError>)
    ensures
        r == spec_builtin(b, args@),
{
    proof {
        assert(args@.subrange(0, args@.len() as int) =~= args@);
    }
    match b {
        BuiltinFn::Add => fold_ints(b, 0, args, 0),
        BuiltinFn::Mul => fold_ints(b, 1, args, 0),
        BuiltinFn::Sub | BuiltinFn::Div => {
            if args.len() == 0 {
                return Err(RuntimeError::TypeError);
            }
            let first: i64 = match args[0] {
                SmallVal::Integer(x) => x,
                _ => {
                    return Err(RuntimeError::TypeError);
                },
            };
            proof {
                assert(args@.subrange(1, args@.len() as int) =~= args@.drop_first());
            }
            fold_ints(b, first, args, 1)
        },
        BuiltinFn::Inc => {
            if args.len() != 1 {
                return Err(RuntimeError::ArityMismatch);
            }
            match args[0] {
                SmallVal::Integer(x) => Ok(SmallVal::Integer(x.wrapping_add(1))),
                _ => Err(RuntimeError::TypeError),
            }
        },
        BuiltinFn::ListFn => Err(RuntimeError::TypeError),
    }
}

/// The iterative fold behind the variadic integer builtins.
fn fold_ints(b: BuiltinFn, start_acc: i64, args: &Vec<SmallVal>, from: usize) -> (r: Result<
    SmallVal,
    RuntimeError,
>)
    requires
        from <= args@.len(),
        b == BuiltinFn::Add || b == BuiltinFn::Sub || b == BuiltinFn::Mul || b == BuiltinFn::Div,
    ensures
        r == (match spec_fold_ints(b, start_acc, args@.subrange(from as int, args@.len() as int)) {
            Ok(v) => Ok::<SmallVal, RuntimeError>(SmallVal::Integer(v)),
            Err(e) => Err::<SmallVal, RuntimeError>(e),
        }),
{
    let mut acc: i64 = start_acc;
    let mut i: usize = from;
    while i < args.len()
        invariant
            from <= i <= args@.len(),
            spec_fold_ints(b, start_acc, args@.subrange(from as int, args@.len() as int))
                == spec_fold_ints(b, acc, args@.subrange(i as int, args@.len() as int)),
        decreases args@.len() - i,
    {
        let x: i64 = match args[i] {
            SmallVal::Integer(x) => x,
            _ => {
                return Err(RuntimeError::TypeError);
            },
        };
        proof {
            assert(args@.subrange(i as int, args@.len() as int)[0] == args@[i as int]);
            assert(args@.subrange(i as int, args@.len() as int).drop_first() =~= args@.subrange(
                i + 1,
                args@.len() as int,
            ));
        }
        acc = match b {
            BuiltinFn::Add => acc.wrapping_add(x),
            BuiltinFn::Sub => acc.wrapping_sub(x),
            BuiltinFn::Mul => acc.wrapping_mul(x),
            _ => {
                if x == 0 {
                    return Err(RuntimeError::DivisionByZero);
                }
                match acc.checked_div(x) {
                    Some(q) => q,
                    None => i64::MIN,
                }
            },
        };
        i = i + 1;
    }
    proof {
        assert(args@.subrange(i as int, args@.len() as int).len() == 0);
    }
    Ok(SmallVal::Integer(acc))
}

/// What each comparison opcode computes on two integers.
pub open spec fn cmp_result(which: Op, x: i64, y: i64) -> bool {
    match which {
        Op::GT => x > y,
        Op::LT => x < y,
        Op::GTE => x >= y,
        _ => x <= y,
    }
}


/// Integer addition in the machine is associative: for integer-only
/// expressions, `(a + b) + c` equals `a + (b + c)` under the wrapping
/// arithmetic the `Add` opcode and the `+` builtin use.
pub proof fn lemma_add_associative(a: i64, b: i64, c: i64)
    ensures
        a.wrapping_add(b).wrapping_add(c) == a.wrapping_add(b.wrapping_add(c)),
{
}

/// Only `Bool(false)` and `Nil` are falsy; in particular `Int(0)` is
/// truthy, as are every quote and every heap object.
pub proof fn lemma_truthiness(v: SmallVal)
    ensures
        sv_truthy(SmallVal::Integer(0)),
        !sv_truthy(SmallVal::Nil),
        !sv_truthy(SmallVal::Bool(false)),
        sv_truthy(SmallVal::Bool(true)),
        v is Quote ==> sv_truthy(v),
        v is ObjectPtr ==> sv_truthy(v),
        !sv_truthy(v) <==> (v == SmallVal::Nil || v == SmallVal::Bool(false)),
{
}

/// Closure sharing: the open-upvalue list never holds two distinct
/// cells for one stack slot, so two closures that capture the same
/// still-live local are handed the same cell and observe each other's
/// writes.
pub proof fn lemma_upvalue_sharing(heap: Seq<HeapObject>, l: Seq<usize>, i: int, j: int)
    requires
        uv_list_wf(heap, l),
        0 <= i < l.len(),
        0 <= j < l.len(),
        uv_at(heap, l[i] as int).location == uv_at(heap, l[j] as int).location,
    ensures
        l[i] == l[j],
{
    if i < j {
        assert(uv_at(heap, l[i] as int).location > uv_at(heap, l[j] as int).location);
    } else if j < i {
        assert(uv_at(heap, l[j] as int).location > uv_at(heap, l[i] as int).location);
    }
}

/// Return restores the stack shape: a frame made by `FuncCall` from a
/// stack of `n` values with `arity` arguments sits at `n - 1 - arity`,
/// and `Return` leaves the stack at `start_idx + 1` values, so the
/// callee and its arguments are replaced by exactly one value.
pub proof fn lemma_return_restores_shape(n: int, arity: int, f: CallFrame)
    requires
        f.start_idx == n - 1 - arity,
    ensures
        f.start_idx + 1 == (n - (arity + 1)) + 1,
{
}

/// Every value the machine can see points into the heap: the stack,
/// the globals and every object's own references stay inside the
/// allocation list.
pub proof fn lemma_reachable_refs_in_heap(vm: VM, i: int)
    requires
        vm.wf(),
    ensures
        0 <= i < vm.stack@.len() ==> sv_ok(vm.heap@.len() as int, vm.stack@[i]),
        0 <= i < vm.globals@.len() ==> sv_ok(vm.heap@.len() as int, vm.globals@[i].1),
        0 <= i < vm.heap@.len() ==> obj_ok(vm.heap@.len() as int, vm.heap@[i].value),
{
}

/// The open-upvalue list is sorted by strictly descending stack
/// location.
pub proof fn lemma_open_upvalues_sorted(vm: VM, i: int, j: int)
    requires
        vm.wf(),
        0 <= i < j < vm.open_upvalues@.len(),
    ensures
        uv_at(vm.heap@, vm.open_upvalues@[i] as int).location > uv_at(
            vm.heap@,
            vm.open_upvalues@[j] as int,
        ).location,
{
}

} // verus!
