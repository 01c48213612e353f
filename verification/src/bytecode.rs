//! The bytecode model: opcodes, constants pools, chunks, and closure
//! templates.
//!
//! Every opcode is one byte; an opcode that takes operands reads one
//! trailing byte per operand. A chunk's constants may themselves hold
//! nested closure templates, so the constant type is recursive.
//!
//! Each executable type has a mathematical `model`: constants map to
//! `ConstV`, chunks to `ChunkV`, and so on, with text as `Seq<char>`.
//! Contracts throughout the crate speak of these models.

use vstd::prelude::*;

verus! {

/// How one upvalue slot of a fresh closure is filled: by capturing a
/// local of the running frame, or by sharing one of its upvalues.
#[derive(Clone, Copy, Debug, PartialEq, Eq, Structural)]
pub enum CaptureType {
    SurroundingUpvalue,
    SurroundingLocal,
}

/// The instruction set. Stack effects are documented in the dispatch
/// handlers of the engine.
#[derive(Clone, Copy, Debug, PartialEq, Eq, Structural)]
pub enum Op {
    Constant,
    Add,
    Sub,
    Mul,
    Div,
    GT,
    LT,
    GTE,
    LTE,
    Jump,
    CondJump,
    FuncCall,
    Return,
    DeclareGlobal,
    ReferenceGlobal,
    ReferenceLocal,
    Print,
    Define,
    ReferenceUpvalue,
    SetUpvalue,
    Closure,
    Pop,
    CloseUpvalue,
    SetLocal,
    DebugEnd,
}

pub open spec fn spec_op_code(op: Op) -> u8 {
    match op {
        Op::Constant => 0,
        Op::Add => 1,
        Op::Sub => 2,
        Op::Mul => 3,
        Op::Div => 4,
        Op::GT => 6,
        Op::LT => 7,
        Op::GTE => 8,
        Op::LTE => 9,
        Op::Jump => 10,
        Op::CondJump => 11,
        Op::FuncCall => 12,
        Op::Return => 13,
        Op::DeclareGlobal => 14,
        Op::ReferenceGlobal => 15,
        Op::ReferenceLocal => 16,
        Op::Print => 18,
        Op::Define => 19,
        Op::ReferenceUpvalue => 20,
        Op::SetUpvalue => 21,
        Op::Closure => 22,
        Op::Pop => 23,
        Op::CloseUpvalue => 24,
        Op::SetLocal => 25,
        Op::DebugEnd => 254,
    }
}

pub open spec fn spec_op_from_byte(b: u8) -> Option<Op> {
    match b {
        0u8 => Some(Op::Constant),
        1u8 => Some(Op::Add),
        2u8 => Some(Op::Sub),
        3u8 => Some(Op::Mul),
        4u8 => Some(Op::Div),
        6u8 => Some(Op::GT),
        7u8 => Some(Op::LT),
        8u8 => Some(Op::GTE),
        9u8 => Some(Op::LTE),
        10u8 => Some(Op::Jump),
        11u8 => Some(Op::CondJump),
        12u8 => Some(Op::FuncCall),
        13u8 => Some(Op::Return),
        14u8 => Some(Op::DeclareGlobal),
        15u8 => Some(Op::ReferenceGlobal),
        16u8 => Some(Op::ReferenceLocal),
        18u8 => Some(Op::Print),
        19u8 => Some(Op::Define),
        20u8 => Some(Op::ReferenceUpvalue),
        21u8 => Some(Op::SetUpvalue),
        22u8 => Some(Op::Closure),
        23u8 => Some(Op::Pop),
        24u8 => Some(Op::CloseUpvalue),
        25u8 => Some(Op::SetLocal),
        254u8 => Some(Op::DebugEnd),
        _ => None,
    }
}

impl Op {
    /// The encoding byte of this opcode.
    pub fn code(self) -> (b: u8)
        ensures
            b == spec_op_code(self),
    {
        match self {
            Op::Constant => 0,
            Op::Add => 1,
            Op::Sub => 2,
            Op::Mul => 3,
            Op::Div => 4,
            Op::GT => 6,
            Op::LT => 7,
            Op::GTE => 8,
            Op::LTE => 9,
            Op::Jump => 10,
            Op::CondJump => 11,
            Op::FuncCall => 12,
            Op::Return => 13,
            Op::DeclareGlobal => 14,
            Op::ReferenceGlobal => 15,
            Op::ReferenceLocal => 16,
            Op::Print => 18,
            Op::Define => 19,
            Op::ReferenceUpvalue => 20,
            Op::SetUpvalue => 21,
            Op::Closure => 22,
            Op::Pop => 23,
            Op::CloseUpvalue => 24,
            Op::SetLocal => 25,
            Op::DebugEnd => 254,
        }
    }

    /// Decodes one byte; an unknown byte is malformed bytecode.
    pub fn from_byte(b: u8) -> (r: Option<Op>)
        ensures
            r == spec_op_from_byte(b),
    {
        match b {
            0u8 => Some(Op::Constant),
            1u8 => Some(Op::Add),
            2u8 => Some(Op::Sub),
            3u8 => Some(Op::Mul),
            4u8 => Some(Op::Div),
            6u8 => Some(Op::GT),
            7u8 => Some(Op::LT),
            8u8 => Some(Op::GTE),
            9u8 => Some(Op::LTE),
            10u8 => Some(Op::Jump),
            11u8 => Some(Op::CondJump),
            12u8 => Some(Op::FuncCall),
            13u8 => Some(Op::Return),
            14u8 => Some(Op::DeclareGlobal),
            15u8 => Some(Op::ReferenceGlobal),
            16u8 => Some(Op::ReferenceLocal),
            18u8 => Some(Op::Print),
            19u8 => Some(Op::Define),
            20u8 => Some(Op::ReferenceUpvalue),
            21u8 => Some(Op::SetUpvalue),
            22u8 => Some(Op::Closure),
            23u8 => Some(Op::Pop),
            24u8 => Some(Op::CloseUpvalue),
            25u8 => Some(Op::SetLocal),
            254u8 => Some(Op::DebugEnd),
            _ => None,
        }
    }
}

/// Decoding the encoding byte of any opcode yields that opcode back.
pub proof fn lemma_op_byte_round_trip(op: Op)
    ensures
        spec_op_from_byte(spec_op_code(op)) == Some(op),
{
}

impl CaptureType {
    pub fn code(self) -> (b: u8)
        ensures
            self is SurroundingUpvalue ==> b == 0,
            self is SurroundingLocal ==> b == 1,
    {
        match self {
            CaptureType::SurroundingUpvalue => 0,
            CaptureType::SurroundingLocal => 1,
        }
    }

    pub fn from_byte(b: u8) -> (r: Option<CaptureType>)
        ensures
            b == 0 ==> r == Some(CaptureType::SurroundingUpvalue),
            b == 1 ==> r == Some(CaptureType::SurroundingLocal),
            b > 1 ==> r is None,
    {
        match b {
            0u8 => Some(CaptureType::SurroundingUpvalue),
            1u8 => Some(CaptureType::SurroundingLocal),
            _ => None,
        }
    }
}

/// An elementwise copy of a vector of copyable values.
pub fn copy_vec<T: Copy>(v: &Vec<T>) -> (r: Vec<T>)
    ensures
        r@ == v@,
{
    let mut out: Vec<T> = Vec::new();
    let mut i: usize = 0;
    while i < v.len()
        invariant
            i <= v.len(),
            out@ == v@.subrange(0, i as int),
        decreases v.len() - i,
    {
        out.push(v[i]);
        i = i + 1;
    }
    assert(out@ =~= v@);
    out
}

/// A compile-time constant: a pure, heap-free mirror of runtime values.
#[derive(Debug)]
pub enum ConstantValue {
    Integer(i64),
    Boolean(bool),
    Nil,
    Object(ConstantObject),
    List(Vec<ConstantValue>),
    Quote(Box<ConstantValue>),
}

/// A constant that materialises as a heap object.
#[derive(Debug)]
pub enum ConstantObject {
    String(String),
    Closure(Closure),
    Symbol(String),
}

/// A function template: name, arity, local count, and its own chunk.
#[derive(Debug)]
pub struct Function {
    pub name: String,
    pub arity: usize,
    pub num_locals: usize,
    pub bytecode: Box<BytecodeChunk>,
}

/// A closure: a function template plus the heap slots of its captured
/// upvalues. `upvalues[i]` is `None` until the slot is filled at
/// closure-construction time.
#[derive(Debug)]
pub struct Closure {
    pub f: Function,
    pub upvalues: Vec<Option<usize>>,
    pub num_upvalues: usize,
}

/// A compiled unit: code bytes plus the constants they index.
#[derive(Debug)]
pub struct BytecodeChunk {
    pub code: Vec<u8>,
    pub constants: Vec<ConstantValue>,
}

/// Mathematical model of a constant.
pub enum ConstV {
    Integer(i64),
    Boolean(bool),
    Nil,
    Object(ConstObjV),
    List(Seq<ConstV>),
    Quote(Box<ConstV>),
}

pub enum ConstObjV {
    String(Seq<char>),
    Closure(ClosureV),
    Symbol(Seq<char>),
}

pub struct FunctionV {
    pub name: Seq<char>,
    pub arity: usize,
    pub num_locals: usize,
    pub bytecode: ChunkV,
}

pub struct ClosureV {
    pub f: FunctionV,
    pub upvalues: Seq<Option<usize>>,
    pub num_upvalues: usize,
}

pub struct ChunkV {
    pub code: Seq<u8>,
    pub constants: Seq<ConstV>,
}

/// The models of a constants vector, elementwise.
pub open spec fn models_of(items: Vec<ConstantValue>) -> Seq<ConstV>
    decreases items,
{
    Seq::new(
        items@.len(),
        |i: int|
            if 0 <= i < items@.len() {
                items[i].model()
            } else {
                ConstV::Nil
            },
    )
}

impl ConstantValue {
    pub open spec fn model(self) -> ConstV
        decreases self,
    {
        match self {
            ConstantValue::Integer(i) => ConstV::Integer(i),
            ConstantValue::Boolean(b) => ConstV::Boolean(b),
            ConstantValue::Nil => ConstV::Nil,
            ConstantValue::Object(o) => ConstV::Object(o.model()),
            ConstantValue::List(items) => ConstV::List(models_of(items)),
            ConstantValue::Quote(inner) => ConstV::Quote(Box::new(inner.model())),
        }
    }
}

impl ConstantValue {
    /// A structural copy; the copy has the same model as the original.
    pub fn deep_clone(&self) -> (r: Self)
        ensures
            r.model() == self.model(),
        decreases self,
    {
        match self {
            ConstantValue::Integer(i) => ConstantValue::Integer(*i),
            ConstantValue::Boolean(b) => ConstantValue::Boolean(*b),
            ConstantValue::Nil => ConstantValue::Nil,
            ConstantValue::Object(o) => ConstantValue::Object(o.deep_clone()),
            ConstantValue::List(items) => {
                let mut out: Vec<ConstantValue> = Vec::new();
                let mut i: usize = 0;
                while i < items.len()
                    invariant
                        i <= items.len(),
                        out@.len() == i,
                        forall|j: int| 0 <= j < i ==> out[j].model() == items[j].model(),
                    decreases items.len() - i,
                {
                    let item: ConstantValue = items[i].deep_clone();
                    out.push(item);
                    i = i + 1;
                }
                assert(models_of(out) =~= models_of(*items));
                ConstantValue::List(out)
            },
            ConstantValue::Quote(inner) => ConstantValue::Quote(Box::new((*inner).deep_clone())),
        }
    }
}

impl ConstantObject {
    pub fn deep_clone(&self) -> (r: Self)
        ensures
            r.model() == self.model(),
        decreases self,
    {
        match self {
            ConstantObject::String(s) => ConstantObject::String(s.clone()),
            ConstantObject::Closure(c) => ConstantObject::Closure(c.deep_clone()),
            ConstantObject::Symbol(s) => ConstantObject::Symbol(s.clone()),
        }
    }
}

impl Function {
    pub fn deep_clone(&self) -> (r: Self)
        ensures
            r.model() == self.model(),
        decreases self,
    {
        Function {
            name: self.name.clone(),
            arity: self.arity,
            num_locals: self.num_locals,
            bytecode: Box::new(self.bytecode.deep_clone()),
        }
    }
}

impl Closure {
    pub fn deep_clone(&self) -> (r: Self)
        ensures
            r.model() == self.model(),
        decreases self,
    {
        Closure {
            f: self.f.deep_clone(),
            upvalues: copy_vec(&self.upvalues),
            num_upvalues: self.num_upvalues,
        }
    }
}

impl BytecodeChunk {
    pub fn deep_clone(&self) -> (r: Self)
        ensures
            r.model() == self.model(),
        decreases self,
    {
        let mut constants: Vec<ConstantValue> = Vec::new();
        let mut i: usize = 0;
        while i < self.constants.len()
            invariant
                i <= self.constants.len(),
                constants@.len() == i,
                forall|j: int| 0 <= j < i ==> constants[j].model() == self.constants[j].model(),
            decreases self.constants.len() - i,
        {
            let item: ConstantValue = self.constants[i].deep_clone();
            constants.push(item);
            i = i + 1;
        }
        assert(models_of(constants) =~= models_of(self.constants));
        BytecodeChunk { code: copy_vec(&self.code), constants }
    }
}

impl ConstantObject {
    pub open spec fn model(self) -> ConstObjV
        decreases self,
    {
        match self {
            ConstantObject::String(s) => ConstObjV::String(s@),
            ConstantObject::Closure(c) => ConstObjV::Closure(c.model()),
            ConstantObject::Symbol(s) => ConstObjV::Symbol(s@),
        }
    }
}

impl Function {
    pub open spec fn model(self) -> FunctionV
        decreases self,
    {
        FunctionV {
            name: self.name@,
            arity: self.arity,
            num_locals: self.num_locals,
            bytecode: self.bytecode.model(),
        }
    }

    pub fn new(name: String, arity: usize, num_locals: usize, bytecode: BytecodeChunk) -> (f: Self)
        ensures
            f.model() == (FunctionV {
                name: name@,
                arity: arity,
                num_locals: num_locals,
                bytecode: bytecode.model(),
            }),
    {
        Function { name, arity, num_locals, bytecode: Box::new(bytecode) }
    }
}

impl Closure {
    pub open spec fn model(self) -> ClosureV
        decreases self,
    {
        ClosureV { f: self.f.model(), upvalues: self.upvalues@, num_upvalues: self.num_upvalues }
    }

    /// A fresh closure over `f` with all `num_upvalues` slots unfilled.
    pub fn new(f: Function, num_upvalues: usize) -> (c: Self)
        ensures
            c.model().f == f.model(),
            c.model().num_upvalues == num_upvalues,
            c.model().upvalues == Seq::new(num_upvalues as nat, |i: int| None::<usize>),
    {
        let mut upvalues: Vec<Option<usize>> = Vec::new();
        let mut i: usize = 0;
        while i < num_upvalues
            invariant
                i <= num_upvalues,
                upvalues@ == Seq::new(i as nat, |j: int| None::<usize>),
            decreases num_upvalues - i,
        {
            upvalues.push(None);
            i = i + 1;
            assert(upvalues@ =~= Seq::new(i as nat, |j: int| None::<usize>));
        }
        Closure { f, upvalues, num_upvalues }
    }
}

impl BytecodeChunk {
    pub open spec fn model(self) -> ChunkV
        decreases self,
    {
        ChunkV { code: self.code@, constants: models_of(self.constants) }
    }

    pub fn new(code: Vec<u8>, constants: Vec<ConstantValue>) -> (c: Self)
        ensures
            c.code@ == code@,
            c.constants@ == constants@,
            c.model().code == code@,
            c.model().constants == models_of(constants),
    {
        BytecodeChunk { code, constants }
    }
}

} // verus!
