use chs::bytecode::{Bytecode, Constant, Instr, Opcode};
use chs::vm::{Output, Trap, Value, CHSVM, STACK_CAPACITY};

fn machine(program: Vec<Instr>, consts: Vec<Constant>) -> CHSVM {
    CHSVM::new(Bytecode { program, consts })
}

fn op(kind: Opcode) -> Instr {
    Instr::new(kind, None)
}

fn with(kind: Opcode, k: usize) -> Instr {
    Instr::new(kind, Some(k))
}

fn binary(a: i64, b: i64, kind: Opcode) -> Result<Vec<Value>, Trap> {
    let mut vm = machine(
        vec![with(Opcode::Const, 0), with(Opcode::Const, 1), op(kind), op(Opcode::Halt)],
        vec![Constant::Int(a), Constant::Int(b)],
    );
    vm.run(10)?;
    Ok(vm.stack().clone())
}

#[test]
fn pushing_up_to_capacity_succeeds() {
    let mut vm = machine(vec![with(Opcode::Const, 0); STACK_CAPACITY], vec![Constant::Int(1)]);
    for _ in 0..STACK_CAPACITY {
        assert_eq!(vm.execute_next_instr(), Ok(()));
    }
    assert_eq!(vm.stack().len(), STACK_CAPACITY);
}

#[test]
fn pushing_past_capacity_overflows() {
    let mut vm = machine(vec![with(Opcode::Const, 0); STACK_CAPACITY + 1], vec![Constant::Int(1)]);
    assert_eq!(vm.run(STACK_CAPACITY), Ok(false));
    assert_eq!(vm.execute_next_instr(), Err(Trap::StackOverflow));
    assert_eq!(vm.stack().len(), STACK_CAPACITY);
    assert_eq!(vm.ip(), STACK_CAPACITY + 1);
}

#[test]
fn popping_empty_stack_underflows() {
    let mut vm = machine(vec![op(Opcode::Pop)], vec![]);
    assert_eq!(vm.execute_next_instr(), Err(Trap::StackUnderflow));
    assert_eq!(vm.ip(), 1);
}

#[test]
fn dividing_by_zero_faults() {
    assert_eq!(binary(7, 0, Opcode::Div), Err(Trap::DivByZero));
    assert_eq!(binary(7, 0, Opcode::Mod), Err(Trap::DivByZero));
}

#[test]
fn arithmetic_reads_left_operand_first() {
    assert_eq!(binary(2, 3, Opcode::Add), Ok(vec![Value::Int(5)]));
    assert_eq!(binary(10, 4, Opcode::Minus), Ok(vec![Value::Int(6)]));
    assert_eq!(binary(6, 7, Opcode::Mul), Ok(vec![Value::Int(42)]));
    assert_eq!(binary(7, 2, Opcode::Div), Ok(vec![Value::Int(3)]));
    assert_eq!(binary(-7, 2, Opcode::Div), Ok(vec![Value::Int(-3)]));
    assert_eq!(binary(7, 3, Opcode::Mod), Ok(vec![Value::Int(1)]));
    assert_eq!(binary(i64::MAX, 1, Opcode::Add), Ok(vec![Value::Int(i64::MIN)]));
    assert_eq!(binary(i64::MIN, -1, Opcode::Div), Ok(vec![Value::Int(i64::MIN)]));
}

#[test]
fn comparisons_read_naturally() {
    assert_eq!(binary(5, 3, Opcode::Gt), Ok(vec![Value::Int(1)]));
    assert_eq!(binary(3, 5, Opcode::Gt), Ok(vec![Value::Int(0)]));
    assert_eq!(binary(3, 3, Opcode::Gte), Ok(vec![Value::Int(1)]));
    assert_eq!(binary(3, 5, Opcode::Lt), Ok(vec![Value::Int(1)]));
    assert_eq!(binary(5, 5, Opcode::Lte), Ok(vec![Value::Int(1)]));
    assert_eq!(binary(4, 4, Opcode::Eq), Ok(vec![Value::Int(1)]));
    assert_eq!(binary(4, 5, Opcode::Neq), Ok(vec![Value::Int(1)]));
}

#[test]
fn logic_and_bit_operations() {
    assert_eq!(binary(1, 0, Opcode::Land), Ok(vec![Value::Int(0)]));
    assert_eq!(binary(1, 0, Opcode::Lor), Ok(vec![Value::Int(1)]));
    assert_eq!(binary(1, 4, Opcode::Shl), Ok(vec![Value::Int(16)]));
    assert_eq!(binary(16, 2, Opcode::Shr), Ok(vec![Value::Int(4)]));
    assert_eq!(binary(12, 10, Opcode::Bitand), Ok(vec![Value::Int(8)]));
    assert_eq!(binary(12, 10, Opcode::Bitor), Ok(vec![Value::Int(14)]));
}

#[test]
fn dup_counts_from_top() {
    let mut vm = machine(
        vec![with(Opcode::Const, 0), with(Opcode::Const, 1), with(Opcode::Dup, 1), op(Opcode::Halt)],
        vec![Constant::Int(10), Constant::Int(20)],
    );
    assert_eq!(vm.run(10), Ok(true));
    assert_eq!(vm.stack(), &vec![Value::Int(10), Value::Int(20), Value::Int(10)]);
}

#[test]
fn dup_past_depth_underflows_and_huge_offset_overflows() {
    let mut vm = machine(vec![with(Opcode::Const, 0), with(Opcode::Dup, 1)], vec![Constant::Int(1)]);
    assert_eq!(vm.run(10), Err(Trap::StackUnderflow));
    let mut vm = machine(vec![with(Opcode::Const, 0), with(Opcode::Dup, 3)], vec![Constant::Int(1)]);
    assert_eq!(vm.run(10), Err(Trap::StackOverflow));
}

#[test]
fn stack_shuffles() {
    let consts = vec![Constant::Int(1), Constant::Int(2)];
    let mut vm = machine(
        vec![with(Opcode::Const, 0), with(Opcode::Const, 1), op(Opcode::Swap), op(Opcode::Over), op(Opcode::Dup2), op(Opcode::Halt)],
        consts,
    );
    assert_eq!(vm.run(10), Ok(true));
    let ints: Vec<Value> = [2, 1, 2, 1, 2].iter().map(|v| Value::Int(*v)).collect();
    assert_eq!(vm.stack(), &ints);
}

#[test]
fn missing_operand_faults() {
    let mut vm = machine(vec![op(Opcode::Const)], vec![]);
    assert_eq!(vm.execute_next_instr(), Err(Trap::OperandNotProvided));
    let mut vm = machine(vec![op(Opcode::Jmp)], vec![]);
    assert_eq!(vm.execute_next_instr(), Err(Trap::OperandNotProvided));
}

#[test]
fn jump_out_of_program_faults() {
    let mut vm = machine(vec![with(Opcode::Jmp, 5), op(Opcode::Halt)], vec![]);
    assert_eq!(vm.execute_next_instr(), Err(Trap::AddersOutOfBounds));
    assert_eq!(vm.ip(), 1);
}

#[test]
fn faulting_division_has_popped_its_operands() {
    let mut vm = machine(
        vec![with(Opcode::Const, 0), with(Opcode::Const, 0), with(Opcode::Const, 1), op(Opcode::Div)],
        vec![Constant::Int(5), Constant::Int(0)],
    );
    assert_eq!(vm.run(10), Err(Trap::DivByZero));
    assert_eq!(vm.stack(), &vec![Value::Int(5)]);
    assert_eq!(vm.ip(), 4);
}

#[test]
fn faulting_conditional_jump_has_popped_its_condition() {
    let mut vm = machine(
        vec![with(Opcode::Const, 0), with(Opcode::Const, 0), with(Opcode::JmpIf, 9)],
        vec![Constant::Int(1)],
    );
    assert_eq!(vm.run(10), Err(Trap::AddersOutOfBounds));
    assert_eq!(vm.stack(), &vec![Value::Int(1)]);
    assert_eq!(vm.ip(), 3);
    let mut vm = machine(vec![with(Opcode::Const, 0), op(Opcode::JmpIf)], vec![Constant::Int(1)]);
    assert_eq!(vm.run(10), Err(Trap::OperandNotProvided));
    assert!(vm.stack().is_empty());
}

#[test]
fn running_past_the_end_keeps_advancing() {
    let mut vm = machine(vec![], vec![]);
    assert_eq!(vm.execute_next_instr(), Err(Trap::ProgramEndWithoutHalt));
    assert_eq!(vm.execute_next_instr(), Err(Trap::ProgramEndWithoutHalt));
    assert_eq!(vm.ip(), 2);
}

#[test]
fn jmp_if_jumps_only_on_one() {
    let program = vec![
        with(Opcode::Const, 0),
        with(Opcode::JmpIf, 4),
        with(Opcode::Const, 1),
        op(Opcode::Print),
        op(Opcode::Halt),
    ];
    let mut vm = machine(program.clone(), vec![Constant::Int(1), Constant::Int(9)]);
    assert_eq!(vm.run(10), Ok(true));
    assert!(vm.output().is_empty());
    let mut vm = machine(program, vec![Constant::Int(2), Constant::Int(9)]);
    assert_eq!(vm.run(10), Ok(true));
    assert_eq!(vm.output(), &vec![Output::Print(Value::Int(9))]);
}

#[test]
fn globals_grow_to_slot() {
    let mut vm = machine(
        vec![with(Opcode::Const, 0), with(Opcode::GlobalStore, 3), with(Opcode::GlobalLoad, 3), with(Opcode::GlobalLoad, 7), op(Opcode::Halt)],
        vec![Constant::Int(8)],
    );
    assert_eq!(vm.run(10), Ok(true));
    assert_eq!(vm.globals(), &vec![Value::Int(0), Value::Int(0), Value::Int(0), Value::Int(8)]);
    assert_eq!(vm.stack(), &vec![Value::Int(8), Value::Int(0)]);
}

#[test]
fn bind_window_misuse_underflows() {
    let mut vm = machine(vec![with(Opcode::Bind, 1)], vec![]);
    assert_eq!(vm.execute_next_instr(), Err(Trap::StackUnderflow));
    let mut vm = machine(vec![with(Opcode::Unbind, 1)], vec![]);
    assert_eq!(vm.execute_next_instr(), Err(Trap::StackUnderflow));
    let mut vm = machine(vec![with(Opcode::PushBind, 0)], vec![]);
    assert_eq!(vm.execute_next_instr(), Err(Trap::StackUnderflow));
}

#[test]
fn builtin_errors() {
    let mut vm = machine(vec![with(Opcode::Buildin, 12)], vec![]);
    assert_eq!(vm.execute_next_instr(), Err(Trap::InvalidBuiltin));
    let mut vm = machine(vec![with(Opcode::Const, 0), with(Opcode::Buildin, 2)], vec![Constant::Int(3)]);
    assert_eq!(vm.run(10), Err(Trap::TypeMismatch));
    let mut vm = machine(
        vec![with(Opcode::Const, 0), with(Opcode::Const, 1), with(Opcode::Buildin, 0)],
        vec![Constant::List(vec![1, 2]), Constant::Int(2)],
    );
    assert_eq!(vm.run(10), Err(Trap::IndexOutOfBounds));
    assert_eq!(vm.stack().len(), 2);
}

#[test]
fn debug_and_println_are_recorded() {
    let mut vm = machine(
        vec![op(Opcode::Debug), with(Opcode::Const, 0), op(Opcode::Println), op(Opcode::Nop), op(Opcode::Halt)],
        vec![Constant::Int(4)],
    );
    assert_eq!(vm.run(10), Ok(true));
    assert_eq!(vm.output(), &vec![Output::Debug, Output::Println(Value::Int(4))]);
}

#[test]
fn arithmetic_on_a_list_is_a_type_error() {
    let mut vm = machine(
        vec![with(Opcode::Const, 0), with(Opcode::Const, 1), op(Opcode::Add)],
        vec![Constant::List(vec![1]), Constant::Int(2)],
    );
    assert_eq!(vm.run(10), Err(Trap::TypeMismatch));
}
