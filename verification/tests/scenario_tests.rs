use lisp_vm::bytecode::{
    BytecodeChunk, CaptureType, Closure, ConstantObject, ConstantValue, Function, Op,
};
use lisp_vm::static_stack::StaticStack;
use lisp_vm::value::SmallVal;
use lisp_vm::vm::{RuntimeError, VM};

fn closure_const(
    name: &str,
    arity: usize,
    num_locals: usize,
    num_upvalues: usize,
    code: Vec<u8>,
    constants: Vec<ConstantValue>,
) -> ConstantValue {
    ConstantValue::Object(ConstantObject::Closure(Closure {
        f: Function {
            name: name.to_string(),
            arity,
            num_locals,
            bytecode: Box::new(BytecodeChunk { code, constants }),
        },
        upvalues: vec![],
        num_upvalues,
    }))
}

/// `(print (+ 1 2))` prints `3`.
#[test]
fn scenario_print_add() {
    let chunk = BytecodeChunk {
        code: vec![
            Op::Constant.code(),
            0,
            Op::Constant.code(),
            1,
            Op::Add.code(),
            Op::Print.code(),
            Op::DebugEnd.code(),
        ],
        constants: vec![ConstantValue::Integer(1), ConstantValue::Integer(2)],
    };
    let mut vm = VM::new();
    vm.run(chunk).unwrap();
    assert_eq!(vm.output, vec!["3".to_string()]);
}

/// `(print (if 0 "t" "f"))` prints the true branch: 0 is truthy.
#[test]
fn scenario_zero_is_truthy() {
    let chunk = BytecodeChunk {
        code: vec![
            Op::Constant.code(),
            0,
            Op::CondJump.code(),
            5,
            Op::Constant.code(),
            1,
            Op::Jump.code(),
            3,
            Op::Constant.code(),
            2,
            Op::Print.code(),
            Op::DebugEnd.code(),
        ],
        constants: vec![
            ConstantValue::Integer(0),
            ConstantValue::Object(ConstantObject::String("f".to_string())),
            ConstantValue::Object(ConstantObject::String("t".to_string())),
        ],
    };
    let mut vm = VM::new();
    vm.run(chunk).unwrap();
    assert_eq!(vm.output, vec!["\"t\"".to_string()]);
}

/// `(print '(1 2))` prints `(1 . (2 . nil))`.
#[test]
fn scenario_print_list() {
    let chunk = BytecodeChunk {
        code: vec![Op::Constant.code(), 0, Op::Print.code(), Op::DebugEnd.code()],
        constants: vec![ConstantValue::List(vec![
            ConstantValue::Integer(1),
            ConstantValue::Integer(2),
        ])],
    };
    let mut vm = VM::new();
    vm.run(chunk).unwrap();
    assert_eq!(vm.output, vec!["(1 . (2 . nil))".to_string()]);
}

/// `(print '1)` prints `'1`: a quoted datum displays behind a quote.
#[test]
fn scenario_print_quote() {
    let chunk = BytecodeChunk {
        code: vec![Op::Constant.code(), 0, Op::Print.code(), Op::DebugEnd.code()],
        constants: vec![ConstantValue::Quote(Box::new(ConstantValue::Integer(1)))],
    };
    let mut vm = VM::new();
    vm.run(chunk).unwrap();
    assert_eq!(vm.output, vec!["'1".to_string()]);
}

/// `(defun (a b) ((if b * +) 2 3))` `(defun (_add d e) (+ d e))`
/// `(print (* (a true) (_add 2 3)))` prints `30`.
#[test]
fn scenario_first_class_builtins() {
    // a: pick * or + from the globals by the flag, then call it on 2 3.
    let a_closure = closure_const(
        "a",
        1,
        0,
        0,
        vec![
            Op::ReferenceLocal.code(),
            1,
            Op::CondJump.code(),
            5,
            Op::ReferenceGlobal.code(),
            0, // "+"
            Op::Jump.code(),
            3,
            Op::ReferenceGlobal.code(),
            1, // "*"
            Op::Constant.code(),
            2,
            Op::Constant.code(),
            3,
            Op::FuncCall.code(),
            2,
            Op::Return.code(),
        ],
        vec![
            ConstantValue::Object(ConstantObject::String("+".to_string())),
            ConstantValue::Object(ConstantObject::String("*".to_string())),
            ConstantValue::Integer(2),
            ConstantValue::Integer(3),
        ],
    );
    let add_closure = closure_const(
        "_add",
        2,
        0,
        0,
        vec![
            Op::ReferenceLocal.code(),
            1,
            Op::ReferenceLocal.code(),
            2,
            Op::Add.code(),
            Op::Return.code(),
        ],
        vec![],
    );
    let chunk = BytecodeChunk {
        code: vec![
            Op::Constant.code(),
            0,
            Op::DeclareGlobal.code(),
            1,
            Op::Constant.code(),
            2,
            Op::DeclareGlobal.code(),
            3,
            Op::ReferenceGlobal.code(),
            4, // "*"
            Op::ReferenceGlobal.code(),
            1, // "a"
            Op::Constant.code(),
            5, // true
            Op::FuncCall.code(),
            1,
            Op::ReferenceGlobal.code(),
            3, // "_add"
            Op::Constant.code(),
            6, // 2
            Op::Constant.code(),
            7, // 3
            Op::FuncCall.code(),
            2,
            Op::FuncCall.code(),
            2,
            Op::Print.code(),
            Op::DebugEnd.code(),
        ],
        constants: vec![
            a_closure,
            ConstantValue::Object(ConstantObject::String("a".to_string())),
            add_closure,
            ConstantValue::Object(ConstantObject::String("_add".to_string())),
            ConstantValue::Object(ConstantObject::String("*".to_string())),
            ConstantValue::Boolean(true),
            ConstantValue::Integer(2),
            ConstantValue::Integer(3),
        ],
    };
    let mut vm = VM::new();
    vm.run(chunk).unwrap();
    assert_eq!(vm.output, vec!["30".to_string()]);
}

/// The counter closure: `(defun (make-counter) (define x 0)
/// (defun (count) (print x) (set x (inc x))) count)`, then three calls
/// print `0`, `1`, `2`: the closure keeps writing the one captured
/// cell it observed.
#[test]
fn scenario_counter_closure() {
    // count: capture x; print it; store (inc x) back through the cell.
    let count_closure = closure_const(
        "count",
        0,
        0,
        1,
        vec![
            Op::ReferenceUpvalue.code(),
            0,
            Op::Print.code(),
            Op::ReferenceGlobal.code(),
            0, // "inc"
            Op::ReferenceUpvalue.code(),
            0,
            Op::FuncCall.code(),
            1,
            Op::SetUpvalue.code(),
            0,
            Op::Constant.code(),
            1, // nil
            Op::Return.code(),
        ],
        vec![
            ConstantValue::Object(ConstantObject::String("inc".to_string())),
            ConstantValue::Nil,
        ],
    );
    // make-counter: define local x = 0, build count capturing x, return it.
    let make_counter = closure_const(
        "make-counter",
        0,
        1,
        0,
        vec![
            Op::Constant.code(),
            0, // 0
            Op::Define.code(),
            1, // x
            Op::Closure.code(),
            1, // count template
            CaptureType::SurroundingLocal.code(),
            0, // capture local slot 1 (x)
            Op::Return.code(),
        ],
        vec![ConstantValue::Integer(0), count_closure],
    );
    let chunk = BytecodeChunk {
        code: vec![
            Op::Constant.code(),
            0,
            Op::FuncCall.code(),
            0,
            Op::DeclareGlobal.code(),
            1, // c
            Op::ReferenceGlobal.code(),
            1,
            Op::FuncCall.code(),
            0,
            Op::Pop.code(),
            Op::ReferenceGlobal.code(),
            1,
            Op::FuncCall.code(),
            0,
            Op::Pop.code(),
            Op::ReferenceGlobal.code(),
            1,
            Op::FuncCall.code(),
            0,
            Op::Pop.code(),
            Op::DebugEnd.code(),
        ],
        constants: vec![
            make_counter,
            ConstantValue::Object(ConstantObject::String("c".to_string())),
        ],
    };
    let mut vm = VM::new();
    vm.run(chunk).unwrap();
    assert_eq!(
        vm.output,
        vec!["0".to_string(), "1".to_string(), "2".to_string()]
    );
}

/// `(defun (f) (defun (g) "asdf") g) (print ((f)))` prints `"asdf"`.
#[test]
fn scenario_returned_closure() {
    let g_closure = closure_const(
        "g",
        0,
        0,
        0,
        vec![Op::Constant.code(), 0, Op::Return.code()],
        vec![ConstantValue::Object(ConstantObject::String(
            "asdf".to_string(),
        ))],
    );
    let f_closure = closure_const(
        "f",
        0,
        1,
        0,
        vec![
            Op::Closure.code(),
            0,
            Op::Define.code(),
            1,
            Op::ReferenceLocal.code(),
            1,
            Op::Return.code(),
        ],
        vec![g_closure],
    );
    let chunk = BytecodeChunk {
        code: vec![
            Op::Constant.code(),
            0,
            Op::FuncCall.code(),
            0,
            Op::FuncCall.code(),
            0,
            Op::Print.code(),
            Op::DebugEnd.code(),
        ],
        constants: vec![f_closure],
    };
    let mut vm = VM::new();
    vm.run(chunk).unwrap();
    assert_eq!(vm.output, vec!["\"asdf\"".to_string()]);
}

/// Division by zero aborts the run with a runtime error.
#[test]
fn division_by_zero_aborts() {
    let chunk = BytecodeChunk {
        code: vec![
            Op::Constant.code(),
            0,
            Op::Constant.code(),
            1,
            Op::Div.code(),
            Op::DebugEnd.code(),
        ],
        constants: vec![ConstantValue::Integer(1), ConstantValue::Integer(0)],
    };
    let mut vm = VM::new();
    assert_eq!(vm.run(chunk), Err(RuntimeError::DivisionByZero));
}

/// Calling a closure with the wrong number of arguments aborts.
#[test]
fn wrong_arity_aborts() {
    let one_arg = closure_const(
        "one",
        1,
        0,
        0,
        vec![Op::ReferenceLocal.code(), 1, Op::Return.code()],
        vec![],
    );
    let chunk = BytecodeChunk {
        code: vec![
            Op::Constant.code(),
            0,
            Op::Constant.code(),
            1,
            Op::Constant.code(),
            2,
            Op::FuncCall.code(),
            2,
            Op::DebugEnd.code(),
        ],
        constants: vec![
            one_arg,
            ConstantValue::Integer(1),
            ConstantValue::Integer(2),
        ],
    };
    let mut vm = VM::new();
    assert_eq!(vm.run(chunk), Err(RuntimeError::ArityMismatch));
}

/// Referencing an unbound global aborts with its name.
#[test]
fn undefined_global_aborts() {
    let chunk = BytecodeChunk {
        code: vec![Op::ReferenceGlobal.code(), 0, Op::DebugEnd.code()],
        constants: vec![ConstantValue::Object(ConstantObject::String(
            "nope".to_string(),
        ))],
    };
    let mut vm = VM::new();
    assert_eq!(
        vm.run(chunk),
        Err(RuntimeError::UndefinedGlobal("nope".to_string()))
    );
}

/// Adding a boolean to an integer is a type error.
#[test]
fn add_type_error() {
    let chunk = BytecodeChunk {
        code: vec![
            Op::Constant.code(),
            0,
            Op::Constant.code(),
            1,
            Op::Add.code(),
            Op::DebugEnd.code(),
        ],
        constants: vec![ConstantValue::Boolean(true), ConstantValue::Integer(1)],
    };
    let mut vm = VM::new();
    assert_eq!(vm.run(chunk), Err(RuntimeError::TypeError));
}

/// String addition concatenates into a fresh object.
#[test]
fn string_concatenation() {
    let chunk = BytecodeChunk {
        code: vec![
            Op::Constant.code(),
            0,
            Op::Constant.code(),
            1,
            Op::Add.code(),
            Op::Print.code(),
            Op::DebugEnd.code(),
        ],
        constants: vec![
            ConstantValue::Object(ConstantObject::String("foo".to_string())),
            ConstantValue::Object(ConstantObject::String("bar".to_string())),
        ],
    };
    let mut vm = VM::new();
    vm.run(chunk).unwrap();
    assert_eq!(vm.output, vec!["\"foobar\"".to_string()]);
}

/// Display forms: negative numbers, booleans, nil, symbols, builtins.
#[test]
fn display_forms() {
    let chunk = BytecodeChunk {
        code: vec![
            Op::Constant.code(),
            0,
            Op::Print.code(),
            Op::Constant.code(),
            1,
            Op::Print.code(),
            Op::Constant.code(),
            2,
            Op::Print.code(),
            Op::Constant.code(),
            3,
            Op::Print.code(),
            Op::ReferenceGlobal.code(),
            4,
            Op::Print.code(),
            Op::DebugEnd.code(),
        ],
        constants: vec![
            ConstantValue::Integer(-42),
            ConstantValue::Boolean(false),
            ConstantValue::Nil,
            ConstantValue::Object(ConstantObject::Symbol("abc".to_string())),
            ConstantValue::Object(ConstantObject::String("inc".to_string())),
        ],
    };
    let mut vm = VM::new();
    vm.run(chunk).unwrap();
    assert_eq!(
        vm.output,
        vec![
            "-42".to_string(),
            "false".to_string(),
            "nil".to_string(),
            "abc".to_string(),
            "builtin <inc>".to_string(),
        ]
    );
}

/// Comparisons push booleans.
#[test]
fn comparisons() {
    let chunk = BytecodeChunk {
        code: vec![
            Op::Constant.code(),
            0,
            Op::Constant.code(),
            1,
            Op::LT.code(),
            Op::Print.code(),
            Op::Constant.code(),
            0,
            Op::Constant.code(),
            1,
            Op::GTE.code(),
            Op::Print.code(),
            Op::DebugEnd.code(),
        ],
        constants: vec![ConstantValue::Integer(2), ConstantValue::Integer(3)],
    };
    let mut vm = VM::new();
    vm.run(chunk).unwrap();
    assert_eq!(vm.output, vec!["true".to_string(), "false".to_string()]);
}

/// Integer division truncates.
#[test]
fn division_truncates() {
    let chunk = BytecodeChunk {
        code: vec![
            Op::Constant.code(),
            0,
            Op::Constant.code(),
            1,
            Op::Div.code(),
            Op::Print.code(),
            Op::DebugEnd.code(),
        ],
        constants: vec![ConstantValue::Integer(-7), ConstantValue::Integer(2)],
    };
    let mut vm = VM::new();
    vm.run(chunk).unwrap();
    assert_eq!(vm.output, vec!["-3".to_string()]);
}

/// An unknown opcode byte is malformed bytecode.
#[test]
fn unknown_opcode_is_malformed() {
    let chunk = BytecodeChunk {
        code: vec![5],
        constants: vec![],
    };
    let mut vm = VM::new();
    assert_eq!(vm.run(chunk), Err(RuntimeError::MalformedBytecode));
}

/// Opcode bytes decode back to the opcode they encode.
#[test]
fn opcode_round_trip() {
    let ops = [
        Op::Constant,
        Op::Add,
        Op::Sub,
        Op::Mul,
        Op::Div,
        Op::GT,
        Op::LT,
        Op::GTE,
        Op::LTE,
        Op::Jump,
        Op::CondJump,
        Op::FuncCall,
        Op::Return,
        Op::DeclareGlobal,
        Op::ReferenceGlobal,
        Op::ReferenceLocal,
        Op::Print,
        Op::Define,
        Op::ReferenceUpvalue,
        Op::SetUpvalue,
        Op::Closure,
        Op::Pop,
        Op::CloseUpvalue,
        Op::SetLocal,
        Op::DebugEnd,
    ];
    for op in ops {
        assert_eq!(Op::from_byte(op.code()), Some(op));
    }
    assert_eq!(Op::from_byte(5), None);
}

/// The stack keeps its elements in order and bounds its cursor.
#[test]
fn static_stack_basics() {
    let mut s: StaticStack<i64, 8> = StaticStack::from([1, 2, 3]);
    assert_eq!(s.ptr, 2);
    assert_eq!(s.len(), 3);
    assert_eq!(s.peek_top(), Some(3));
    assert_eq!(s.peek_back(2), Some(1));
    assert_eq!(s.peek_back(3), None);
    assert_eq!(s.at(1), Some(&2));
    assert_eq!(s.at(3), None);
    assert_eq!(s.pop(), Some(3));
    assert_eq!(s.pop(), Some(2));
    assert_eq!(s.pop(), Some(1));
    assert_eq!(s.pop(), None);
    assert_eq!(s.ptr, -1);
    s.push(9);
    assert_eq!(s.len(), 1);
    let popped = s.pop_n(1).unwrap();
    assert_eq!(popped, vec![9]);
    assert_eq!(s.len(), 0);
}

/// A local can be overwritten in place with `SetLocal`.
#[test]
fn set_local_overwrites() {
    let body = closure_const(
        "setter",
        0,
        1,
        0,
        vec![
            Op::Constant.code(),
            0, // 5
            Op::Define.code(),
            1,
            Op::Constant.code(),
            1, // 9
            Op::SetLocal.code(),
            1,
            Op::ReferenceLocal.code(),
            1,
            Op::Return.code(),
        ],
        vec![ConstantValue::Integer(5), ConstantValue::Integer(9)],
    );
    let chunk = BytecodeChunk {
        code: vec![
            Op::Constant.code(),
            0,
            Op::FuncCall.code(),
            0,
            Op::Print.code(),
            Op::DebugEnd.code(),
        ],
        constants: vec![body],
    };
    let mut vm = VM::new();
    vm.run(chunk).unwrap();
    assert_eq!(vm.output, vec!["9".to_string()]);
}

/// A doubly nested closure reaches an outer local through its parent's
/// upvalue: the innermost capture reuses the parent's cell.
#[test]
fn nested_upvalue_capture() {
    let h_closure = closure_const(
        "h",
        0,
        0,
        1,
        vec![Op::ReferenceUpvalue.code(), 0, Op::Return.code()],
        vec![],
    );
    let g_closure = closure_const(
        "g",
        0,
        0,
        1,
        vec![
            Op::Closure.code(),
            0,
            CaptureType::SurroundingUpvalue.code(),
            0,
            Op::Return.code(),
        ],
        vec![h_closure],
    );
    let f_closure = closure_const(
        "f",
        0,
        1,
        0,
        vec![
            Op::Constant.code(),
            0, // 7
            Op::Define.code(),
            1,
            Op::Closure.code(),
            1,
            CaptureType::SurroundingLocal.code(),
            0,
            Op::Return.code(),
        ],
        vec![ConstantValue::Integer(7), g_closure],
    );
    let chunk = BytecodeChunk {
        code: vec![
            Op::Constant.code(),
            0,
            Op::FuncCall.code(),
            0,
            Op::FuncCall.code(),
            0,
            Op::FuncCall.code(),
            0,
            Op::Print.code(),
            Op::DebugEnd.code(),
        ],
        constants: vec![f_closure],
    };
    let mut vm = VM::new();
    vm.run(chunk).unwrap();
    assert_eq!(vm.output, vec!["7".to_string()]);
}

/// The smallest integer displays with its full magnitude, and the one
/// overflowing quotient wraps back to it.
#[test]
fn integer_extremes() {
    let chunk = BytecodeChunk {
        code: vec![
            Op::Constant.code(),
            0,
            Op::Print.code(),
            Op::Constant.code(),
            0,
            Op::Constant.code(),
            1,
            Op::Div.code(),
            Op::Print.code(),
            Op::DebugEnd.code(),
        ],
        constants: vec![
            ConstantValue::Integer(i64::MIN),
            ConstantValue::Integer(-1),
        ],
    };
    let mut vm = VM::new();
    vm.run(chunk).unwrap();
    assert_eq!(
        vm.output,
        vec![
            "-9223372036854775808".to_string(),
            "-9223372036854775808".to_string(),
        ]
    );
}

/// `as_integer` exposes the integer payload and nothing else.
#[test]
fn as_integer_accessor() {
    assert_eq!(SmallVal::Integer(7).as_integer(), Some(&7));
    assert_eq!(SmallVal::Nil.as_integer(), None);
    assert_eq!(SmallVal::Bool(true).as_integer(), None);
}

/// Stack equality compares the live prefix only: two stacks that went
/// through different histories but hold the same values are equal.
#[test]
fn static_stack_live_prefix_equality() {
    let a: StaticStack<i64, 8> = StaticStack::from([1, 2, 3]);
    let mut b: StaticStack<i64, 8> = StaticStack::from([1, 2, 9]);
    assert!(a != b);
    b.pop();
    b.push(3);
    assert!(a == b);
    b.pop();
    assert!(a != b);
}
