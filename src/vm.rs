//! The stack machine: a fetch/decode/execute step specified by `step`, and
//! a bounded run loop.
use vstd::prelude::*;

use crate::bytecode::{
    Bytecode, Constant, Instr, Opcode, BUILTIN_DEBUG, BUILTIN_IDX_GET, BUILTIN_IDX_SET,
    BUILTIN_LEN, BUILTIN_PRINT, BUILTIN_PRINTLN,
};

verus! {

/// Number of values the operand stack can hold.
pub const STACK_CAPACITY: usize = 1024;

/// A runtime value. Strings are immutable and named by their constant-pool
/// index; a list is a window `(start, len)` into the machine's heap, so every
/// copy of a list value refers to the same cells.
#[derive(Clone, Copy, Debug, PartialEq, Eq, Structural)]
pub enum Value {
    Int(i64),
    Str(usize),
    List(usize, usize),
}

/// Something the program asked to show; the host decides how to render it.
#[derive(Clone, Copy, Debug, PartialEq, Eq, Structural)]
pub enum Output {
    Print(Value),
    Println(Value),
    /// A request to dump the stack and the machine's pointers.
    Debug,
}

/// A runtime fault. It ends a run. The pointer has already moved past the
/// faulting instruction, and a binary operation or conditional jump that
/// faults after its depth check has already popped its operands; nothing
/// else changes (see `fault_state`).
#[derive(Clone, Copy, Debug, PartialEq, Eq, Structural)]
pub enum Trap {
    StackOverflow,
    StackUnderflow,
    DivByZero,
    OperandNotProvided,
    AddersOutOfBounds,
    ProgramEndWithoutHalt,
    /// An operation met a value of the wrong kind (a list where an integer
    /// was needed, for instance).
    TypeMismatch,
    /// A list index outside the list.
    IndexOutOfBounds,
    /// A builtin identifier this machine does not provide.
    InvalidBuiltin,
}

/// The mathematical state of a machine.
pub struct MachineState {
    pub program: Seq<Instr>,
    pub pool: Seq<Value>,
    pub stack: Seq<Value>,
    pub ip: int,
    pub halted: bool,
    pub globals: Seq<Value>,
    pub binds: Seq<Value>,
    pub heap: Seq<Value>,
    pub output: Seq<Output>,
}

pub open spec fn bool_word(b: bool) -> i64 {
    if b {
        1
    } else {
        0
    }
}

/// Result of a binary integer operation; `a` was pushed before `b`.
/// Arithmetic wraps on overflow; comparisons read as `a OP b`.
pub open spec fn int_binary(op: Opcode, a: i64, b: i64) -> Result<i64, Trap> {
    match op {
        Opcode::Add => Ok(a.wrapping_add(b)),
        Opcode::Minus => Ok(a.wrapping_sub(b)),
        Opcode::Mul => Ok(a.wrapping_mul(b)),
        Opcode::Div => if b == 0 {
            Err(Trap::DivByZero)
        } else {
            match a.checked_div(b) {
                Some(q) => Ok(q),
                None => Ok(i64::MIN),
            }
        },
        Opcode::Mod => if b == 0 {
            Err(Trap::DivByZero)
        } else {
            match a.checked_rem(b) {
                Some(q) => Ok(q),
                None => Ok(0),
            }
        },
        Opcode::Eq => Ok(bool_word(a == b)),
        Opcode::Neq => Ok(bool_word(a != b)),
        Opcode::Gt => Ok(bool_word(a > b)),
        Opcode::Gte => Ok(bool_word(a >= b)),
        Opcode::Lt => Ok(bool_word(a < b)),
        Opcode::Lte => Ok(bool_word(a <= b)),
        Opcode::Land => Ok(bool_word(a != 0 && b != 0)),
        Opcode::Lor => Ok(bool_word(a != 0 || b != 0)),
        Opcode::Shl => Ok(a.wrapping_shl(b as u32)),
        Opcode::Shr => Ok(a.wrapping_shr(b as u32)),
        Opcode::Bitand => Ok(a & b),
        Opcode::Bitor => Ok(a | b),
        _ => Err(Trap::TypeMismatch),
    }
}

pub open spec fn is_binary(op: Opcode) -> bool {
    match op {
        Opcode::Add | Opcode::Minus | Opcode::Mul | Opcode::Div | Opcode::Mod | Opcode::Eq
        | Opcode::Neq | Opcode::Gt | Opcode::Gte | Opcode::Lt | Opcode::Lte | Opcode::Land
        | Opcode::Lor | Opcode::Shl | Opcode::Shr | Opcode::Bitand | Opcode::Bitor => true,
        _ => false,
    }
}

pub open spec fn top(s: Seq<Value>, k: int) -> Value {
    s[s.len() - 1 - k]
}

pub open spec fn drop_top(s: Seq<Value>, k: int) -> Seq<Value> {
    s.subrange(0, s.len() - k)
}

/// Pushing `v`: faults when the stack is full.
pub open spec fn push_value(s: MachineState, v: Value) -> Result<MachineState, Trap> {
    if s.stack.len() + 1 > STACK_CAPACITY {
        Err(Trap::StackOverflow)
    } else {
        Ok(MachineState { stack: s.stack.push(v), ..s })
    }
}

pub open spec fn binary_step(s: MachineState, op: Opcode) -> Result<MachineState, Trap> {
    if s.stack.len() < 2 {
        Err(Trap::StackUnderflow)
    } else {
        match (top(s.stack, 1), top(s.stack, 0)) {
            (Value::Int(a), Value::Int(b)) => match int_binary(op, a, b) {
                Ok(c) => Ok(MachineState { stack: drop_top(s.stack, 2).push(Value::Int(c)), ..s }),
                Err(t) => Err(t),
            },
            _ => Err(Trap::TypeMismatch),
        }
    }
}

/// The heap cell of element `i` of the list `(start, len)`, when there is one.
pub open spec fn list_cell(heap_len: int, start: int, len: int, i: int) -> Option<int> {
    if 0 <= i < len && start + i < heap_len {
        Some(start + i)
    } else {
        None
    }
}

/// The global table after storing `v` in `slot`; it grows with `Int(0)`
/// to hold the slot.
pub open spec fn store_global(g: Seq<Value>, slot: int, v: Value) -> Seq<Value> {
    if slot < g.len() {
        g.update(slot, v)
    } else {
        Seq::new(
            (slot + 1) as nat,
            |i: int|
                if i == slot {
                    v
                } else if i < g.len() {
                    g[i]
                } else {
                    Value::Int(0)
                },
        )
    }
}

/// Reading a slot that was never written gives `Int(0)`.
pub open spec fn load_global(g: Seq<Value>, slot: int) -> Value {
    if slot < g.len() {
        g[slot]
    } else {
        Value::Int(0)
    }
}

/// The top `k` stack values, topmost first.
pub open spec fn window_of(stack: Seq<Value>, k: int) -> Seq<Value> {
    Seq::new(k as nat, |i: int| top(stack, i))
}

pub open spec fn builtin_step(s: MachineState, id: usize) -> Result<MachineState, Trap> {
    let n = s.stack.len() as int;
    if id == BUILTIN_IDX_GET {
        if n < 2 {
            Err(Trap::StackUnderflow)
        } else {
            match (top(s.stack, 1), top(s.stack, 0)) {
                (Value::List(st, ln), Value::Int(i)) => match list_cell(
                    s.heap.len() as int,
                    st as int,
                    ln as int,
                    i as int,
                ) {
                    Some(c) => Ok(MachineState { stack: drop_top(s.stack, 2).push(s.heap[c]), ..s }),
                    None => Err(Trap::IndexOutOfBounds),
                },
                _ => Err(Trap::TypeMismatch),
            }
        }
    } else if id == BUILTIN_IDX_SET {
        if n < 3 {
            Err(Trap::StackUnderflow)
        } else {
            match (top(s.stack, 2), top(s.stack, 1)) {
                (Value::List(st, ln), Value::Int(i)) => match list_cell(
                    s.heap.len() as int,
                    st as int,
                    ln as int,
                    i as int,
                ) {
                    Some(c) => Ok(
                        MachineState {
                            stack: drop_top(s.stack, 3),
                            heap: s.heap.update(c, top(s.stack, 0)),
                            ..s
                        },
                    ),
                    None => Err(Trap::IndexOutOfBounds),
                },
                _ => Err(Trap::TypeMismatch),
            }
        }
    } else if id == BUILTIN_LEN {
        if n < 1 {
            Err(Trap::StackUnderflow)
        } else {
            match top(s.stack, 0) {
                Value::List(_, ln) => Ok(
                    MachineState { stack: drop_top(s.stack, 1).push(Value::Int(ln as i64)), ..s },
                ),
                _ => Err(Trap::TypeMismatch),
            }
        }
    } else if id == BUILTIN_PRINTLN || id == BUILTIN_PRINT {
        if n < 1 {
            Err(Trap::StackUnderflow)
        } else {
            let v = top(s.stack, 0);
            let o = if id == BUILTIN_PRINT {
                Output::Print(v)
            } else {
                Output::Println(v)
            };
            Ok(MachineState { stack: drop_top(s.stack, 1), output: s.output.push(o), ..s })
        }
    } else if id == BUILTIN_DEBUG {
        Ok(MachineState { output: s.output.push(Output::Debug), ..s })
    } else {
        Err(Trap::InvalidBuiltin)
    }
}

/// The effect of an instruction that needs no operand; `s` already has its
/// pointer advanced.
pub open spec fn plain_step(s: MachineState, op: Opcode) -> Result<MachineState, Trap> {
    let n = s.stack.len() as int;
    match op {
        Opcode::Pop => if n < 1 {
            Err(Trap::StackUnderflow)
        } else {
            Ok(MachineState { stack: drop_top(s.stack, 1), ..s })
        },
        Opcode::Dup2 => if n < 2 {
            Err(Trap::StackUnderflow)
        } else if n + 2 > STACK_CAPACITY {
            Err(Trap::StackOverflow)
        } else {
            Ok(MachineState { stack: s.stack.push(top(s.stack, 1)).push(top(s.stack, 0)), ..s })
        },
        Opcode::Over => if n < 2 {
            Err(Trap::StackUnderflow)
        } else {
            push_value(s, top(s.stack, 1))
        },
        Opcode::Swap => if n < 2 {
            Err(Trap::StackUnderflow)
        } else {
            Ok(
                MachineState {
                    stack: drop_top(s.stack, 2).push(top(s.stack, 0)).push(top(s.stack, 1)),
                    ..s
                },
            )
        },
        Opcode::Print | Opcode::Println => if n < 1 {
            Err(Trap::StackUnderflow)
        } else {
            let o = if op == Opcode::Print {
                Output::Print(top(s.stack, 0))
            } else {
                Output::Println(top(s.stack, 0))
            };
            Ok(MachineState { stack: drop_top(s.stack, 1), output: s.output.push(o), ..s })
        },
        Opcode::Debug => Ok(MachineState { output: s.output.push(Output::Debug), ..s }),
        Opcode::Halt => Ok(MachineState { halted: true, ..s }),
        _ => Ok(s),
    }
}

pub open spec fn needs_operand(op: Opcode) -> bool {
    match op {
        Opcode::Const | Opcode::Dup | Opcode::Jmp | Opcode::JmpIf | Opcode::JmpIfNot
        | Opcode::GlobalStore | Opcode::GlobalLoad | Opcode::Bind | Opcode::Unbind
        | Opcode::PushBind | Opcode::Buildin => true,
        _ => false,
    }
}

/// The effect of an instruction with operand `k`; `s` already has its
/// pointer advanced.
pub open spec fn operand_step(s: MachineState, op: Opcode, k: usize) -> Result<MachineState, Trap> {
    let n = s.stack.len() as int;
    match op {
        Opcode::Const => if k >= s.pool.len() {
            Err(Trap::AddersOutOfBounds)
        } else {
            push_value(s, s.pool[k as int])
        },
        Opcode::Dup => if k > s.program.len() {
            Err(Trap::StackOverflow)
        } else if k >= n {
            Err(Trap::StackUnderflow)
        } else {
            push_value(s, top(s.stack, k as int))
        },
        Opcode::Jmp => if k > s.program.len() {
            Err(Trap::AddersOutOfBounds)
        } else {
            Ok(MachineState { ip: k as int, ..s })
        },
        Opcode::GlobalStore => if n < 1 {
            Err(Trap::StackUnderflow)
        } else {
            Ok(
                MachineState {
                    stack: drop_top(s.stack, 1),
                    globals: store_global(s.globals, k as int, top(s.stack, 0)),
                    ..s
                },
            )
        },
        Opcode::GlobalLoad => push_value(s, load_global(s.globals, k as int)),
        Opcode::Bind => if k > n {
            Err(Trap::StackUnderflow)
        } else {
            Ok(MachineState { binds: s.binds + window_of(s.stack, k as int), ..s })
        },
        Opcode::Unbind => if k > s.binds.len() {
            Err(Trap::StackUnderflow)
        } else {
            Ok(MachineState { binds: drop_top(s.binds, k as int), ..s })
        },
        Opcode::PushBind => if k >= s.binds.len() {
            Err(Trap::StackUnderflow)
        } else {
            push_value(s, s.binds[k as int])
        },
        _ => builtin_step(s, k),
    }
}

pub open spec fn is_cond_jump(op: Opcode) -> bool {
    op == Opcode::JmpIf || op == Opcode::JmpIfNot
}

/// A conditional jump pops its condition first, then reads its target.
pub open spec fn cond_jump_step(s: MachineState, op: Opcode, operand: Option<usize>) -> Result<MachineState, Trap> {
    if s.stack.len() < 1 {
        Err(Trap::StackUnderflow)
    } else {
        match operand {
            None => Err(Trap::OperandNotProvided),
            Some(k) => if k > s.program.len() {
                Err(Trap::AddersOutOfBounds)
            } else {
                let truthy = top(s.stack, 0) == Value::Int(1);
                let taken = if op == Opcode::JmpIf {
                    truthy
                } else {
                    !truthy
                };
                Ok(
                    MachineState {
                        stack: drop_top(s.stack, 1),
                        ip: if taken {
                            k as int
                        } else {
                            s.ip
                        },
                        ..s
                    },
                )
            },
        }
    }
}

/// One fetch/decode/execute step. The pointer moves past the instruction
/// before it is decoded.
pub open spec fn step(s: MachineState) -> Result<MachineState, Trap> {
    if s.ip < 0 || s.ip >= s.program.len() {
        Err(Trap::ProgramEndWithoutHalt)
    } else {
        let ins = s.program[s.ip];
        let next = MachineState { ip: s.ip + 1, ..s };
        if is_binary(ins.kind) {
            binary_step(next, ins.kind)
        } else if is_cond_jump(ins.kind) {
            cond_jump_step(next, ins.kind, ins.operand)
        } else if needs_operand(ins.kind) {
            match ins.operand {
                None => Err(Trap::OperandNotProvided),
                Some(k) => operand_step(next, ins.kind, k),
            }
        } else {
            plain_step(next, ins.kind)
        }
    }
}

/// The pointer after a step: one past the current instruction (it cannot
/// pass the largest address).
pub open spec fn next_ip(ip: int) -> int {
    if ip < usize::MAX {
        ip + 1
    } else {
        ip
    }
}

/// How many stack values the instruction at `ip` has popped when it faults:
/// a binary operation that passed its depth check has taken both operands,
/// and a conditional jump that found a condition has taken it.
pub open spec fn taken_on_fault(s: MachineState) -> int {
    if 0 <= s.ip < s.program.len() {
        let op = s.program[s.ip].kind;
        if is_binary(op) && s.stack.len() >= 2 {
            2
        } else if is_cond_jump(op) && s.stack.len() >= 1 {
            1
        } else {
            0
        }
    } else {
        0
    }
}

/// The machine after the step from `s` faults.
pub open spec fn fault_state(s: MachineState) -> MachineState {
    MachineState { ip: next_ip(s.ip), stack: drop_top(s.stack, taken_on_fault(s)), ..s }
}

/// The outcome of running from `s` for at most `fuel` steps: `Ok(true)` when
/// the machine halted, `Ok(false)` when the steps ran out first.
pub open spec fn run_spec(s: MachineState, fuel: nat) -> (MachineState, Result<bool, Trap>)
    decreases fuel,
{
    if s.halted {
        (s, Ok(true))
    } else if fuel == 0 {
        (s, Ok(false))
    } else {
        match step(s) {
            Ok(t) => run_spec(t, (fuel - 1) as nat),
            Err(e) => (fault_state(s), Err(e)),
        }
    }
}

/// What constant `c`, at pool index `i`, becomes when a machine is built:
/// a list constant is laid out in the heap.
pub open spec fn loaded(c: Constant, i: int, v: Value, heap: Seq<Value>) -> bool {
    match c {
        Constant::Int(x) => v == Value::Int(x),
        Constant::Str(_) => v == Value::Str(i as usize),
        Constant::List(xs) => match v {
            Value::List(st, ln) => ln == xs.len() && st + ln <= heap.len() && forall|j: int|
                0 <= j < ln ==> #[trigger] heap[st + j] == Value::Int(xs[j]),
            _ => false,
        },
    }
}

/// Stack bounds. Loading a constant succeeds exactly while the stack is
/// below capacity and faults with `StackOverflow` on a full stack; `Pop`
/// on an empty stack faults with `StackUnderflow`; `Div` by zero faults
/// with `DivByZero`.
pub proof fn lemma_stack_bounds(s: MachineState)
    requires
        0 <= s.ip < s.program.len(),
    ensures
        s.program[s.ip].kind == Opcode::Const && s.program[s.ip].operand is Some
            && s.program[s.ip].operand.unwrap() < s.pool.len() ==> (step(s) is Ok <==> s.stack.len()
            < STACK_CAPACITY) && (s.stack.len() >= STACK_CAPACITY ==> step(s) == Err::<
            MachineState,
            Trap,
        >(Trap::StackOverflow)),
        s.program[s.ip].kind == Opcode::Pop && s.stack.len() == 0 ==> step(s) == Err::<
            MachineState,
            Trap,
        >(Trap::StackUnderflow),
        s.program[s.ip].kind == Opcode::Div && s.stack.len() >= 2 && top(s.stack, 1) is Int
            && top(s.stack, 0) == Value::Int(0) ==> step(s) == Err::<MachineState, Trap>(
            Trap::DivByZero,
        ),
{
}

/// Control through a loop laid out as the compiler lays it out: the
/// condition starts at `start`, the conditional exit jump sits at `c` and
/// the jump back sits at `end - 1`. A false condition leaves for `end`
/// without entering the body, a true one enters the body at `c + 1`, and
/// the end of the body goes back to the first instruction of the
/// condition, so the condition runs once per iteration and once more for
/// the final check.
pub proof fn lemma_loop_control(s: MachineState, start: int, c: int, end: int)
    requires
        0 <= start <= c < end - 1,
        end <= s.program.len() <= usize::MAX,
        s.program[c] == (Instr { kind: Opcode::JmpIfNot, operand: Some(end as usize) }),
        s.program[end - 1] == (Instr { kind: Opcode::Jmp, operand: Some(start as usize) }),
    ensures
        s.ip == c && s.stack.len() > 0 ==> step(s) == Ok::<MachineState, Trap>(
            MachineState {
                stack: drop_top(s.stack, 1),
                ip: if top(s.stack, 0) == Value::Int(1) {
                    c + 1
                } else {
                    end
                },
                ..s
            },
        ),
        s.ip == end - 1 ==> step(s) == Ok::<MachineState, Trap>(MachineState { ip: start, ..s }),
{
    if s.ip == c && s.stack.len() > 0 {
        let next = MachineState { ip: s.ip + 1, ..s };
        assert(step(s) == cond_jump_step(next, Opcode::JmpIfNot, Some(end as usize)));
    }
    if s.ip == end - 1 {
        let next = MachineState { ip: s.ip + 1, ..s };
        assert(step(s) == operand_step(next, Opcode::Jmp, start as usize));
    }
}

/// `r` and the state `after` are what `expected` says: the new state on
/// success; on a fault, the trap and the state `fault`.
pub open spec fn stepped(
    fault: MachineState,
    after: MachineState,
    r: Result<(), Trap>,
    expected: Result<MachineState, Trap>,
) -> bool {
    match expected {
        Ok(t) => r is Ok && after == t,
        Err(e) => r == Err::<(), Trap>(e) && after == fault,
    }
}

fn binary_kind(op: Opcode) -> (r: bool)
    ensures
        r == is_binary(op),
{
    matches!(
        op,
        Opcode::Add | Opcode::Minus | Opcode::Mul | Opcode::Div | Opcode::Mod | Opcode::Eq
            | Opcode::Neq | Opcode::Gt | Opcode::Gte | Opcode::Lt | Opcode::Lte | Opcode::Land
            | Opcode::Lor | Opcode::Shl | Opcode::Shr | Opcode::Bitand | Opcode::Bitor
    )
}

fn operand_kind(op: Opcode) -> (r: bool)
    ensures
        r == needs_operand(op),
{
    matches!(
        op,
        Opcode::Const | Opcode::Dup | Opcode::Jmp | Opcode::JmpIf | Opcode::JmpIfNot
            | Opcode::GlobalStore | Opcode::GlobalLoad | Opcode::Bind | Opcode::Unbind
            | Opcode::PushBind | Opcode::Buildin
    )
}

fn word(b: bool) -> (r: i64)
    ensures
        r == bool_word(b),
{
    if b {
        1
    } else {
        0
    }
}

fn int_op(op: Opcode, a: i64, b: i64) -> (r: Result<i64, Trap>)
    ensures
        r == int_binary(op, a, b),
{
    match op {
        Opcode::Add => Ok(a.wrapping_add(b)),
        Opcode::Minus => Ok(a.wrapping_sub(b)),
        Opcode::Mul => Ok(a.wrapping_mul(b)),
        Opcode::Div => if b == 0 {
            Err(Trap::DivByZero)
        } else {
            match a.checked_div(b) {
                Some(q) => Ok(q),
                None => Ok(i64::MIN),
            }
        },
        Opcode::Mod => if b == 0 {
            Err(Trap::DivByZero)
        } else {
            match a.checked_rem(b) {
                Some(q) => Ok(q),
                None => Ok(0),
            }
        },
        Opcode::Eq => Ok(word(a == b)),
        Opcode::Neq => Ok(word(a != b)),
        Opcode::Gt => Ok(word(a > b)),
        Opcode::Gte => Ok(word(a >= b)),
        Opcode::Lt => Ok(word(a < b)),
        Opcode::Lte => Ok(word(a <= b)),
        Opcode::Land => Ok(word(a != 0 && b != 0)),
        Opcode::Lor => Ok(word(a != 0 || b != 0)),
        Opcode::Shl => Ok(a.wrapping_shl(b as u32)),
        Opcode::Shr => Ok(a.wrapping_shr(b as u32)),
        Opcode::Bitand => Ok(a & b),
        Opcode::Bitor => Ok(a | b),
        _ => Err(Trap::TypeMismatch),
    }
}

/// The heap cell of element `i` of the list `(start, len)`.
fn cell_of(heap_len: usize, start: usize, len: usize, i: i64) -> (r: Option<usize>)
    ensures
        match list_cell(heap_len as int, start as int, len as int, i as int) {
            Some(c) => r == Some(c as usize) && c < heap_len,
            None => r is None,
        },
{
    if i < 0 || (i as i128) >= (len as i128) {
        return None;
    }
    let c: i128 = start as i128 + i as i128;
    if c < heap_len as i128 {
        Some(c as usize)
    } else {
        None
    }
}

/// A stack machine running one bytecode program.
#[derive(Debug)]
pub struct CHSVM {
    stack: Vec<Value>,
    is_halted: bool,
    ip: usize,
    sp: usize,
    program: Vec<Instr>,
    consts: Vec<Constant>,
    pool: Vec<Value>,
    globals: Vec<Value>,
    binds: Vec<Value>,
    heap: Vec<Value>,
    output: Vec<Output>,
}

impl View for CHSVM {
    type V = MachineState;

    closed spec fn view(&self) -> MachineState {
        MachineState {
            program: self.program@,
            pool: self.pool@,
            stack: self.stack@,
            ip: self.ip as int,
            halted: self.is_halted,
            globals: self.globals@,
            binds: self.binds@,
            heap: self.heap@,
            output: self.output@,
        }
    }
}

impl CHSVM {
    /// The stack counter agrees with the stack and the stack fits its
    /// capacity.
    pub closed spec fn wf(&self) -> bool {
        &&& self.sp == self.stack@.len()
        &&& self.stack@.len() <= STACK_CAPACITY
        &&& self.pool@.len() == self.consts@.len()
    }

    pub closed spec fn constants(&self) -> Seq<Constant> {
        self.consts@
    }

    fn pop_stack(&mut self) -> (r: Result<Value, Trap>)
        requires
            old(self).wf(),
        ensures
            final(self).wf(),
            old(self)@.stack.len() == 0 ==> r == Err::<Value, Trap>(Trap::StackUnderflow)
                && final(self)@ == old(self)@,
            old(self)@.stack.len() > 0 ==> r == Ok::<Value, Trap>(top(old(self)@.stack, 0))
                && final(self)@ == (MachineState { stack: drop_top(old(self)@.stack, 1), ..old(self)@ }),
    {
        match self.stack.pop() {
            Some(v) => {
                self.sp = self.sp - 1;
                Ok(v)
            },
            None => Err(Trap::StackUnderflow),
        }
    }

    fn push_stack(&mut self, value: Value) -> (r: Result<(), Trap>)
        requires
            old(self).wf(),
        ensures
            final(self).wf(),
            stepped(old(self)@, final(self)@, r, push_value(old(self)@, value)),
    {
        if self.sp + 1 > STACK_CAPACITY {
            return Err(Trap::StackOverflow);
        }
        self.sp = self.sp + 1;
        self.stack.push(value);
        Ok(())
    }

    fn exec_binary(&mut self, op: Opcode) -> (r: Result<(), Trap>)
        requires
            old(self).wf(),
        ensures
            final(self).wf(),
            stepped(
                if old(self)@.stack.len() >= 2 {
                    MachineState { stack: drop_top(old(self)@.stack, 2), ..old(self)@ }
                } else {
                    old(self)@
                },
                final(self)@,
                r,
                binary_step(old(self)@, op),
            ),
    {
        let n = self.stack.len();
        if n < 2 {
            return Err(Trap::StackUnderflow);
        }
        let ghost s0 = self@;
        let a = self.stack[n - 2];
        let b = self.stack[n - 1];
        let _ = self.pop_stack();
        let _ = self.pop_stack();
        assert(self@.stack =~= drop_top(s0.stack, 2));
        match (a, b) {
            (Value::Int(x), Value::Int(y)) => match int_op(op, x, y) {
                Ok(c) => {
                    let _ = self.push_stack(Value::Int(c));
                    Ok(())
                },
                Err(t) => Err(t),
            },
            _ => Err(Trap::TypeMismatch),
        }
    }

    fn exec_cond_jump(&mut self, op: Opcode, operand: Option<usize>) -> (r: Result<(), Trap>)
        requires
            old(self).wf(),
        ensures
            final(self).wf(),
            stepped(
                if old(self)@.stack.len() >= 1 {
                    MachineState { stack: drop_top(old(self)@.stack, 1), ..old(self)@ }
                } else {
                    old(self)@
                },
                final(self)@,
                r,
                cond_jump_step(old(self)@, op, operand),
            ),
    {
        let n = self.stack.len();
        if n < 1 {
            return Err(Trap::StackUnderflow);
        }
        let v = self.stack[n - 1];
        let _ = self.pop_stack();
        let k = match operand {
            Some(k) => k,
            None => {
                return Err(Trap::OperandNotProvided);
            },
        };
        if k > self.program.len() {
            return Err(Trap::AddersOutOfBounds);
        }
        let truthy = v == Value::Int(1);
        let taken = if op == Opcode::JmpIf {
            truthy
        } else {
            !truthy
        };
        if taken {
            self.ip = k;
        }
        Ok(())
    }

    fn exec_plain(&mut self, op: Opcode) -> (r: Result<(), Trap>)
        requires
            old(self).wf(),
        ensures
            final(self).wf(),
            stepped(old(self)@, final(self)@, r, plain_step(old(self)@, op)),
    {
        let ghost s0 = self@;
        let n = self.stack.len();
        match op {
            Opcode::Pop => {
                if n < 1 {
                    return Err(Trap::StackUnderflow);
                }
                let _ = self.pop_stack();
                Ok(())
            },
            Opcode::Dup2 => {
                if n < 2 {
                    return Err(Trap::StackUnderflow);
                }
                if n + 2 > STACK_CAPACITY {
                    return Err(Trap::StackOverflow);
                }
                let a = self.stack[n - 2];
                let b = self.stack[n - 1];
                let _ = self.push_stack(a);
                let _ = self.push_stack(b);
                Ok(())
            },
            Opcode::Over => {
                if n < 2 {
                    return Err(Trap::StackUnderflow);
                }
                let a = self.stack[n - 2];
                self.push_stack(a)
            },
            Opcode::Swap => {
                if n < 2 {
                    return Err(Trap::StackUnderflow);
                }
                let a = self.stack[n - 2];
                let b = self.stack[n - 1];
                let _ = self.pop_stack();
                let _ = self.pop_stack();
                let _ = self.push_stack(b);
                let _ = self.push_stack(a);
                assert(self@.stack =~= drop_top(s0.stack, 2).push(b).push(a));
                Ok(())
            },
            Opcode::Print | Opcode::Println => {
                if n < 1 {
                    return Err(Trap::StackUnderflow);
                }
                let v = self.stack[n - 1];
                let _ = self.pop_stack();
                let o = if op == Opcode::Print {
                    Output::Print(v)
                } else {
                    Output::Println(v)
                };
                self.output.push(o);
                Ok(())
            },
            Opcode::Debug => {
                self.output.push(Output::Debug);
                Ok(())
            },
            Opcode::Halt => {
                self.is_halted = true;
                Ok(())
            },
            _ => Ok(()),
        }
    }

    fn exec_builtin(&mut self, id: usize) -> (r: Result<(), Trap>)
        requires
            old(self).wf(),
        ensures
            final(self).wf(),
            stepped(old(self)@, final(self)@, r, builtin_step(old(self)@, id)),
    {
        let ghost s0 = self@;
        let n = self.stack.len();
        if id == BUILTIN_IDX_GET {
            if n < 2 {
                return Err(Trap::StackUnderflow);
            }
            match (self.stack[n - 2], self.stack[n - 1]) {
                (Value::List(st, ln), Value::Int(i)) => match cell_of(self.heap.len(), st, ln, i) {
                    Some(c) => {
                        let v = self.heap[c];
                        let _ = self.pop_stack();
                        let _ = self.pop_stack();
                        let _ = self.push_stack(v);
                        assert(self@.stack =~= drop_top(s0.stack, 2).push(v));
                        Ok(())
                    },
                    None => Err(Trap::IndexOutOfBounds),
                },
                _ => Err(Trap::TypeMismatch),
            }
        } else if id == BUILTIN_IDX_SET {
            if n < 3 {
                return Err(Trap::StackUnderflow);
            }
            match (self.stack[n - 3], self.stack[n - 2]) {
                (Value::List(st, ln), Value::Int(i)) => match cell_of(self.heap.len(), st, ln, i) {
                    Some(c) => {
                        let v = self.stack[n - 1];
                        let _ = self.pop_stack();
                        let _ = self.pop_stack();
                        let _ = self.pop_stack();
                        self.heap.set(c, v);
                        assert(self@.stack =~= drop_top(s0.stack, 3));
                        Ok(())
                    },
                    None => Err(Trap::IndexOutOfBounds),
                },
                _ => Err(Trap::TypeMismatch),
            }
        } else if id == BUILTIN_LEN {
            if n < 1 {
                return Err(Trap::StackUnderflow);
            }
            match self.stack[n - 1] {
                Value::List(_, ln) => {
                    let _ = self.pop_stack();
                    let _ = self.push_stack(Value::Int(ln as i64));
                    Ok(())
                },
                _ => Err(Trap::TypeMismatch),
            }
        } else if id == BUILTIN_PRINTLN || id == BUILTIN_PRINT {
            if n < 1 {
                return Err(Trap::StackUnderflow);
            }
            let v = self.stack[n - 1];
            let _ = self.pop_stack();
            let o = if id == BUILTIN_PRINT {
                Output::Print(v)
            } else {
                Output::Println(v)
            };
            self.output.push(o);
            Ok(())
        } else if id == BUILTIN_DEBUG {
            self.output.push(Output::Debug);
            Ok(())
        } else {
            Err(Trap::InvalidBuiltin)
        }
    }

    fn exec_operand(&mut self, op: Opcode, k: usize) -> (r: Result<(), Trap>)
        requires
            old(self).wf(),
        ensures
            final(self).wf(),
            stepped(old(self)@, final(self)@, r, operand_step(old(self)@, op, k)),
    {
        let ghost s0 = self@;
        let n = self.stack.len();
        match op {
            Opcode::Const => {
                if k >= self.pool.len() {
                    return Err(Trap::AddersOutOfBounds);
                }
                let v = self.pool[k];
                self.push_stack(v)
            },
            Opcode::Dup => {
                if k > self.program.len() {
                    return Err(Trap::StackOverflow);
                }
                if k >= n {
                    return Err(Trap::StackUnderflow);
                }
                let v = self.stack[n - 1 - k];
                self.push_stack(v)
            },
            Opcode::Jmp => {
                if k > self.program.len() {
                    return Err(Trap::AddersOutOfBounds);
                }
                self.ip = k;
                Ok(())
            },
            Opcode::GlobalStore => {
                if n < 1 {
                    return Err(Trap::StackUnderflow);
                }
                let v = self.stack[n - 1];
                let _ = self.pop_stack();
                let ghost g0 = self.globals@;
                let ghost s1 = self@;
                if k >= self.globals.len() {
                    while self.globals.len() <= k
                        invariant
                            self.wf(),
                            self@ == (MachineState { globals: self.globals@, ..s1 }),
                            g0.len() <= self.globals@.len() <= k + 1,
                            forall|i: int| 0 <= i < g0.len() ==> self.globals@[i] == g0[i],
                            forall|i: int|
                                g0.len() <= i < self.globals@.len() ==> self.globals@[i]
                                    == Value::Int(0),
                        decreases k + 1 - self.globals@.len(),
                    {
                        self.globals.push(Value::Int(0));
                    }
                }
                self.globals.set(k, v);
                assert(self.globals@ =~= store_global(g0, k as int, v));
                Ok(())
            },
            Opcode::GlobalLoad => {
                let v = if k < self.globals.len() {
                    self.globals[k]
                } else {
                    Value::Int(0)
                };
                self.push_stack(v)
            },
            Opcode::Bind => {
                if k > n {
                    return Err(Trap::StackUnderflow);
                }
                let mut i: usize = 0;
                while i < k
                    invariant
                        self.wf(),
                        i <= k <= n,
                        n == s0.stack.len(),
                        self@ == (MachineState { binds: s0.binds + window_of(s0.stack, i as int), ..s0 }),
                    decreases k - i,
                {
                    let v = self.stack[n - 1 - i];
                    self.binds.push(v);
                    i += 1;
                    assert(self.binds@ =~= s0.binds + window_of(s0.stack, i as int));
                }
                Ok(())
            },
            Opcode::Unbind => {
                if k > self.binds.len() {
                    return Err(Trap::StackUnderflow);
                }
                let keep = self.binds.len() - k;
                self.binds.truncate(keep);
                Ok(())
            },
            Opcode::PushBind => {
                if k >= self.binds.len() {
                    return Err(Trap::StackUnderflow);
                }
                let v = self.binds[k];
                self.push_stack(v)
            },
            _ => self.exec_builtin(k),
        }
    }

    /// Executes the instruction at `ip`. The pointer moves past it first, so
    /// a jump overrides the default successor; running off the end of the
    /// program faults with `ProgramEndWithoutHalt`.
    pub fn execute_next_instr(&mut self) -> (r: Result<(), Trap>)
        requires
            old(self).wf(),
        ensures
            final(self).wf(),
            stepped(fault_state(old(self)@), final(self)@, r, step(old(self)@)),
    {
        let ghost s0 = self@;
        assert(drop_top(s0.stack, 0) =~= s0.stack);
        if self.ip >= self.program.len() {
            if self.ip < usize::MAX {
                self.ip = self.ip + 1;
            }
            return Err(Trap::ProgramEndWithoutHalt);
        }
        let instr = self.program[self.ip];
        self.ip = self.ip + 1;
        if binary_kind(instr.kind) {
            self.exec_binary(instr.kind)
        } else if instr.kind == Opcode::JmpIf || instr.kind == Opcode::JmpIfNot {
            self.exec_cond_jump(instr.kind, instr.operand)
        } else if operand_kind(instr.kind) {
            match instr.operand {
                None => Err(Trap::OperandNotProvided),
                Some(k) => self.exec_operand(instr.kind, k),
            }
        } else {
            self.exec_plain(instr.kind)
        }
    }

    /// Steps until the machine halts, a trap occurs, or `max_steps` steps
    /// have run. Returns `Ok(true)` when halted, `Ok(false)` when the steps
    /// ran out first.
    pub fn run(&mut self, max_steps: usize) -> (r: Result<bool, Trap>)
        requires
            old(self).wf(),
        ensures
            final(self).wf(),
            (final(self)@, r) == run_spec(old(self)@, max_steps as nat),
    {
        let mut fuel = max_steps;
        while fuel > 0 && !self.is_halted
            invariant
                self.wf(),
                run_spec(self@, fuel as nat) == run_spec(old(self)@, max_steps as nat),
            decreases fuel,
        {
            match self.execute_next_instr() {
                Ok(()) => {},
                Err(e) => {
                    return Err(e);
                },
            }
            fuel = fuel - 1;
        }
        Ok(self.is_halted)
    }

    /// Builds a machine for `bytecode`, laying list constants out in the heap.
    pub fn new(bytecode: Bytecode) -> (r: Self)
        ensures
            r.wf(),
            r@.program == bytecode.program@,
            r.constants() == bytecode.consts@,
            r@.stack.len() == 0,
            r@.ip == 0,
            !r@.halted,
            r@.globals.len() == 0,
            r@.binds.len() == 0,
            r@.output.len() == 0,
            r@.pool.len() == bytecode.consts@.len(),
            forall|i: int|
                0 <= i < r@.pool.len() ==> loaded(bytecode.consts@[i], i, #[trigger] r@.pool[i], r@.heap),
    {
        let mut pool: Vec<Value> = Vec::new();
        let mut heap: Vec<Value> = Vec::new();
        let mut i: usize = 0;
        while i < bytecode.consts.len()
            invariant
                i <= bytecode.consts@.len(),
                pool@.len() == i,
                forall|j: int| 0 <= j < i ==> loaded(bytecode.consts@[j], j, #[trigger] pool@[j], heap@),
            decreases bytecode.consts@.len() - i,
        {
            let v = match &bytecode.consts[i] {
                Constant::Int(x) => Value::Int(*x),
                Constant::Str(_) => Value::Str(i),
                Constant::List(xs) => {
                    let start = heap.len();
                    let ghost before = heap@;
                    let mut j: usize = 0;
                    while j < xs.len()
                        invariant
                            j <= xs@.len(),
                            start == before.len(),
                            heap@.len() == start + j,
                            heap@.subrange(0, start as int) == before,
                            forall|m: int| 0 <= m < j ==> #[trigger] heap@[start + m] == Value::Int(xs@[m]),
                        decreases xs@.len() - j,
                    {
                        heap.push(Value::Int(xs[j]));
                        j += 1;
                    }
                    assert forall|m: int| 0 <= m < i implies loaded(bytecode.consts@[m], m, #[trigger] pool@[m], heap@) by {
                        match bytecode.consts@[m] {
                            Constant::List(ys) => {
                                match pool@[m] {
                                    Value::List(st, ln) => {
                                        assert forall|q: int| 0 <= q < ln implies #[trigger] heap@[st + q] == Value::Int(ys[q]) by {
                                            assert(heap@.subrange(0, start as int)[st + q] == before[st + q]);
                                        }
                                    },
                                    _ => {},
                                }
                            },
                            _ => {},
                        }
                    }
                    Value::List(start, xs.len())
                },
            };
            pool.push(v);
            i += 1;
        }
        CHSVM {
            stack: Vec::new(),
            is_halted: false,
            ip: 0,
            sp: 0,
            program: bytecode.program,
            consts: bytecode.consts,
            pool,
            globals: Vec::new(),
            binds: Vec::new(),
            heap,
            output: Vec::new(),
        }
    }

    pub fn stack(&self) -> (r: &Vec<Value>)
        ensures
            r@ == self@.stack,
    {
        &self.stack
    }

    pub fn ip(&self) -> (r: usize)
        ensures
            r == self@.ip,
    {
        self.ip
    }

    pub fn is_halted(&self) -> (r: bool)
        ensures
            r == self@.halted,
    {
        self.is_halted
    }

    /// What the program has asked to show so far, oldest first.
    pub fn output(&self) -> (r: &Vec<Output>)
        ensures
            r@ == self@.output,
    {
        &self.output
    }

    /// The cells that list values refer to.
    pub fn heap(&self) -> (r: &Vec<Value>)
        ensures
            r@ == self@.heap,
    {
        &self.heap
    }

    pub fn globals(&self) -> (r: &Vec<Value>)
        ensures
            r@ == self@.globals,
    {
        &self.globals
    }

    /// The constant-pool entry `k`, which holds the text of `Value::Str(k)`.
    pub fn constant(&self, k: usize) -> (r: Option<&Constant>)
        ensures
            k < self.constants().len() ==> r == Some(&self.constants()[k as int]),
            k >= self.constants().len() ==> r is None,
    {
        if k < self.consts.len() {
            Some(&self.consts[k])
        } else {
            None
        }
    }
}

} // verus!
