use chs::bytecode::{Bytecode, Constant, Instr, Opcode};
use chs::ir::{
    compile, BuildinOp, Expr, IfExpr, ListLiteral, Operation, PeekExpr, Program, VarExpr, WhileExpr,
};
use chs::vm::{Output, Trap, Value, CHSVM};

fn num(s: &str) -> Expr {
    Expr::IntExpr(s.to_string())
}

fn ident(s: &str) -> Expr {
    Expr::IdentExpr(s.to_string())
}

fn print() -> Expr {
    Expr::Buildin(BuildinOp::Print)
}

fn run_program(exprs: Vec<Expr>) -> (CHSVM, Result<bool, Trap>) {
    let mut bc = compile(Program { exprs }).expect("program compiles");
    bc.program.push(Instr::new(Opcode::Halt, None));
    let mut vm = CHSVM::new(bc);
    let r = vm.run(10_000);
    (vm, r)
}

fn printed(vm: &CHSVM) -> Vec<Value> {
    vm.output()
        .iter()
        .map(|o| match o {
            Output::Print(v) | Output::Println(v) => *v,
            Output::Debug => panic!("unexpected debug output"),
        })
        .collect()
}

#[test]
fn var_sum_prints_five() {
    let (vm, r) = run_program(vec![
        Expr::Var(VarExpr {
            name: "x".to_string(),
            value: vec![num("2"), num("3"), Expr::Op(Operation::Add)],
        }),
        ident("x"),
        print(),
    ]);
    assert_eq!(r, Ok(true));
    assert_eq!(printed(&vm), vec![Value::Int(5)]);
}

#[test]
fn if_else_prints_only_true_branch() {
    let (vm, r) = run_program(vec![Expr::If(IfExpr {
        cond: vec![num("1"), num("1"), Expr::Op(Operation::Eq)],
        if_branch: vec![num("1"), print()],
        else_branch: Some(vec![num("0"), print()]),
    })]);
    assert_eq!(r, Ok(true));
    assert_eq!(printed(&vm), vec![Value::Int(1)]);
}

#[test]
fn if_else_false_condition_takes_else() {
    let (vm, r) = run_program(vec![Expr::If(IfExpr {
        cond: vec![num("1"), num("2"), Expr::Op(Operation::Eq)],
        if_branch: vec![num("1"), print()],
        else_branch: Some(vec![num("0"), print()]),
    })]);
    assert_eq!(r, Ok(true));
    assert_eq!(printed(&vm), vec![Value::Int(0)]);
}

fn countdown(start: &str) -> Vec<Expr> {
    vec![
        Expr::Var(VarExpr { name: "x".to_string(), value: vec![num(start)] }),
        Expr::Whlie(WhileExpr {
            cond: vec![ident("x"), num("0"), Expr::Op(Operation::Gt)],
            while_block: vec![
                ident("x"),
                print(),
                ident("x"),
                num("1"),
                Expr::Op(Operation::Minus),
                Expr::Assigin("x".to_string()),
            ],
        }),
    ]
}

#[test]
fn while_countdown_prints_three_two_one() {
    let (vm, r) = run_program(countdown("3"));
    assert_eq!(r, Ok(true));
    assert!(vm.is_halted());
    assert_eq!(printed(&vm), vec![Value::Int(3), Value::Int(2), Value::Int(1)]);
    assert_eq!(vm.globals()[0], Value::Int(0));
}

fn condition_entries(exprs: Vec<Expr>) -> (usize, Vec<Value>) {
    let mut bc = compile(Program { exprs }).expect("program compiles");
    bc.program.push(Instr::new(Opcode::Halt, None));
    // the loop's condition starts right after the declaration's two instructions
    let cond_start = 2;
    let mut vm = CHSVM::new(bc);
    let mut entries = 0;
    while !vm.is_halted() {
        if vm.ip() == cond_start {
            entries += 1;
        }
        vm.execute_next_instr().expect("no trap");
    }
    (entries, printed(&vm))
}

#[test]
fn while_false_condition_runs_body_zero_times() {
    let (entries, out) = condition_entries(countdown("0"));
    assert_eq!(entries, 1);
    assert!(out.is_empty());
}

#[test]
fn while_condition_runs_once_per_iteration_and_once_more() {
    let (entries, out) = condition_entries(countdown("3"));
    assert_eq!(entries, 4);
    assert_eq!(out.len(), 3);
}

#[test]
fn program_without_halt_faults() {
    let bc = Bytecode {
        program: vec![Instr::new(Opcode::Const, Some(0)), Instr::new(Opcode::Pop, None)],
        consts: vec![Constant::Int(7)],
    };
    let mut vm = CHSVM::new(bc);
    assert_eq!(vm.run(100), Err(Trap::ProgramEndWithoutHalt));
    assert!(!vm.is_halted());
    assert_eq!(vm.ip(), 3);
    assert!(vm.stack().is_empty());
}

#[test]
fn shadowed_binding_is_restored_at_runtime() {
    let (vm, r) = run_program(vec![
        num("10"),
        Expr::Peek(PeekExpr {
            names: vec!["a".to_string()],
            body: vec![
                num("20"),
                Expr::Peek(PeekExpr {
                    names: vec!["a".to_string()],
                    body: vec![ident("a"), print()],
                }),
                ident("a"),
                print(),
            ],
        }),
    ]);
    assert_eq!(r, Ok(true));
    assert_eq!(printed(&vm), vec![Value::Int(20), Value::Int(10)]);
}

#[test]
fn peek_binds_last_name_to_top_of_stack() {
    let (vm, r) = run_program(vec![
        num("1"),
        num("2"),
        Expr::Peek(PeekExpr {
            names: vec!["a".to_string(), "b".to_string()],
            body: vec![ident("a"), print(), ident("b"), print()],
        }),
    ]);
    assert_eq!(r, Ok(true));
    assert_eq!(printed(&vm), vec![Value::Int(1), Value::Int(2)]);
}

#[test]
fn list_constant_is_shared_between_loads() {
    // the same pool entry is loaded twice: an update through one copy is seen through the other
    let bc = Bytecode {
        program: vec![
            Instr::new(Opcode::Const, Some(0)),
            Instr::new(Opcode::Const, Some(1)),
            Instr::new(Opcode::Const, Some(2)),
            Instr::new(Opcode::Buildin, Some(1)),
            Instr::new(Opcode::Const, Some(0)),
            Instr::new(Opcode::Const, Some(1)),
            Instr::new(Opcode::Buildin, Some(0)),
            Instr::new(Opcode::Buildin, Some(4)),
            Instr::new(Opcode::Halt, None),
        ],
        consts: vec![Constant::List(vec![5, 6, 7]), Constant::Int(1), Constant::Int(99)],
    };
    let mut vm = CHSVM::new(bc);
    assert_eq!(vm.run(100), Ok(true));
    assert_eq!(printed(&vm), vec![Value::Int(99)]);
}

#[test]
fn list_literal_compiles_to_heap_list() {
    let (vm, r) = run_program(vec![
        Expr::ListExpr(ListLiteral { value: vec![4, 5, 6] }),
        Expr::Buildin(BuildinOp::Len),
        print(),
    ]);
    assert_eq!(r, Ok(true));
    assert_eq!(printed(&vm), vec![Value::Int(3)]);
    assert_eq!(vm.heap().len(), 3);
}

#[test]
fn string_literal_prints_its_pool_entry() {
    let (vm, r) = run_program(vec![Expr::StrExpr("hi".to_string()), print()]);
    assert_eq!(r, Ok(true));
    assert_eq!(printed(&vm), vec![Value::Str(0)]);
    assert!(matches!(vm.constant(0), Some(Constant::Str(s)) if s == "hi"));
    assert!(vm.constant(1).is_none());
}
