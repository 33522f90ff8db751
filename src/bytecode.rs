//! The instruction set and the bytecode that the compiler hands to the machine.
use vstd::prelude::*;

verus! {

/// The instruction set shared by the compiler and the machine.
#[derive(Clone, Copy, Debug, PartialEq, Eq, Structural)]
pub enum Opcode {
    /// Push the constant-pool entry named by the operand.
    Const,
    Pop,
    /// Push a copy of the value that lies `operand` places below the top.
    Dup,
    Dup2,
    Swap,
    Over,
    Add,
    Minus,
    Mul,
    Div,
    Mod,
    Eq,
    Neq,
    Gt,
    Gte,
    Lt,
    Lte,
    Land,
    Lor,
    Shl,
    Shr,
    Bitand,
    Bitor,
    /// Jump to the absolute address in the operand.
    Jmp,
    /// Pop a value; jump when it is the truthy sentinel `1`.
    JmpIf,
    /// Pop a value; jump unless it is the truthy sentinel `1`.
    JmpIfNot,
    GlobalStore,
    GlobalLoad,
    /// Open a binding window over the top `operand` stack values.
    Bind,
    /// Close the innermost `operand` binding-window positions.
    Unbind,
    /// Push the value at binding-window position `operand`.
    PushBind,
    /// Call the builtin whose identifier is the operand.
    Buildin,
    Print,
    Println,
    Debug,
    Nop,
    Halt,
}

/// One instruction: an opcode and its optional operand.
#[derive(Clone, Copy, Debug, PartialEq, Eq, Structural)]
pub struct Instr {
    pub kind: Opcode,
    pub operand: Option<usize>,
}

impl Instr {
    pub fn new(kind: Opcode, operand: Option<usize>) -> (r: Instr)
        ensures
            r.kind == kind,
            r.operand == operand,
    {
        Instr { kind, operand }
    }
}

/// An entry of the constant pool.
#[derive(Clone, Debug)]
pub enum Constant {
    Int(i64),
    Str(String),
    List(Vec<i64>),
}

/// What the compiler produces: the instructions and the constant pool.
#[derive(Clone, Debug)]
pub struct Bytecode {
    pub program: Vec<Instr>,
    pub consts: Vec<Constant>,
}

/// Identifiers of the builtin table.
pub const BUILTIN_IDX_GET: usize = 0;
pub const BUILTIN_IDX_SET: usize = 1;
pub const BUILTIN_LEN: usize = 2;
pub const BUILTIN_PRINTLN: usize = 3;
pub const BUILTIN_PRINT: usize = 4;
pub const BUILTIN_DEBUG: usize = 5;
pub const BUILTIN_FUNC_CALL: usize = 12;

} // verus!
