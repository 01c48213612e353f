use lisp_vm::bytecode::{BytecodeChunk, Closure, ConstantObject, ConstantValue, Function, Op};
use lisp_vm::value::SmallVal;
use lisp_vm::vm::VM;

#[test]
fn test_load() {
    let mut vm = VM::new();
    let chunk = BytecodeChunk {
        code: vec![Op::Constant.code(), 0x00, Op::DebugEnd.code()],
        constants: vec![ConstantValue::Integer(5)],
    };
    vm.run(chunk).unwrap();
    assert_eq!(vm.stack.len(), 1);
    assert_eq!(vm.stack.at(0).unwrap(), &SmallVal::Integer(5));
}

#[test]
fn test_simple_math() {
    let mut vm = VM::new();
    // push 5 push 6 add
    // 5 + 6 = 11
    let chunk = BytecodeChunk {
        code: vec![
            Op::Constant.code(),
            0,
            Op::Constant.code(),
            1,
            Op::Add.code(),
            Op::DebugEnd.code(),
        ],
        constants: vec![ConstantValue::Integer(5), ConstantValue::Integer(6)],
    };
    vm.run(chunk).unwrap();
    assert_eq!(vm.stack.peek_top().unwrap(), SmallVal::Integer(11))
}

#[test]
fn test_cond() {
    let bytecode = vec![
        Op::Constant.code(),
        0,
        Op::CondJump.code(),
        5, // jump to the load
        Op::Constant.code(),
        1,
        Op::Jump.code(),
        3, // jump to the end
        Op::Constant.code(),
        2,
        Op::DebugEnd.code(),
    ];

    let mut vm = VM::new();
    vm.run(BytecodeChunk {
        code: bytecode,
        constants: vec![
            ConstantValue::Integer(1),
            ConstantValue::Integer(3),
            ConstantValue::Integer(2),
        ],
    })
    .unwrap();
    assert_eq!(vm.stack.len(), 1);
    assert_eq!(vm.stack.at(0).unwrap(), &SmallVal::Integer(2));
    assert_eq!(vm.ip, 10); // index of the last byte
}

#[test]
fn test_cond_not() {
    let chunk = BytecodeChunk {
        // (if 0 2 3)
        // 0 is truthy
        code: vec![
            Op::Constant.code(),
            0,
            Op::CondJump.code(),
            5,
            Op::Constant.code(),
            1,
            Op::Jump.code(),
            3,
            Op::Constant.code(),
            2,
            Op::DebugEnd.code(),
        ],
        constants: vec![
            ConstantValue::Integer(0),
            ConstantValue::Integer(3),
            ConstantValue::Integer(2),
        ],
    };

    let mut vm = VM::new();
    vm.run(chunk).unwrap();
    assert_eq!(vm.stack.len(), 1);
    assert_eq!(vm.stack.at(0).unwrap(), &SmallVal::Integer(2));
    assert_eq!(vm.ip, 10);
}

#[test]
fn test_string() {
    let chunk = BytecodeChunk {
        code: vec![Op::Constant.code(), 0, Op::DebugEnd.code()],
        constants: vec![ConstantValue::Object(ConstantObject::String(
            "Hello, world!".to_string(),
        ))],
    };

    let mut vm = VM::new();
    vm.run(chunk).unwrap();
    assert_eq!(vm.stack.len(), 1);

    let string = match vm.stack.peek_top().unwrap() {
        SmallVal::ObjectPtr(ptr) => match &vm.heap[ptr].value {
            lisp_vm::value::ObjectValue::String(str) => str.clone(),
            _ => panic!(),
        },
        _ => panic!(),
    };

    assert_eq!(string, "Hello, world!");
    assert_eq!(vm.ip, 2);
}

fn adder_closure() -> ConstantValue {
    ConstantValue::Object(ConstantObject::Closure(Closure {
        f: Function {
            num_locals: 0,
            name: "asdf".to_string(),
            arity: 2,
            bytecode: Box::new(BytecodeChunk {
                code: vec![
                    Op::ReferenceLocal.code(),
                    1,
                    Op::ReferenceLocal.code(),
                    2,
                    Op::Add.code(),
                    Op::Return.code(),
                ],
                constants: vec![],
            }),
        },
        upvalues: vec![],
        num_upvalues: 0,
    }))
}

#[test]
fn test_function() {
    let bc = BytecodeChunk {
        code: vec![
            Op::Constant.code(),
            0, // load the function
            Op::Constant.code(),
            1, // load the argument 20
            Op::Constant.code(),
            2, // load the argument 30
            Op::FuncCall.code(),
            2, // call the function with 2 arguments
            Op::DebugEnd.code(),
        ],
        constants: vec![
            adder_closure(),
            ConstantValue::Integer(20),
            ConstantValue::Integer(30),
        ],
    };

    let mut vm = VM::new();
    vm.run(bc).unwrap();
    assert_eq!(vm.stack.peek_top().unwrap(), SmallVal::Integer(50));
    assert_eq!(vm.stack.len(), 1);
    assert_eq!(vm.stack.at(0).unwrap(), &SmallVal::Integer(50));
}

#[test]
fn test_advanced() {
    let bc = BytecodeChunk {
        code: vec![
            Op::Constant.code(),
            0, // load the function
            Op::Constant.code(),
            1, // load the argument 20
            Op::Constant.code(),
            2, // load the argument 30
            Op::FuncCall.code(),
            2, // call the function with 2 arguments
            Op::DebugEnd.code(),
        ],
        constants: vec![
            adder_closure(),
            ConstantValue::Integer(20),
            ConstantValue::Integer(30),
        ],
    };

    let mut vm = VM::new();
    vm.run(bc).unwrap();
    assert_eq!(vm.stack.peek_top().unwrap(), SmallVal::Integer(50));
    assert_eq!(vm.stack.len(), 1);
    assert_eq!(vm.stack.at(0).unwrap(), &SmallVal::Integer(50));
}
