//! The compiler: one forward pass from the expression tree to bytecode,
//! resolving names to global slots or binding-window positions and
//! backpatching the jumps of conditionals and loops.
use vstd::prelude::*;

use crate::bytecode::{
    Bytecode, Constant, Instr, Opcode, BUILTIN_DEBUG, BUILTIN_FUNC_CALL, BUILTIN_IDX_GET,
    BUILTIN_IDX_SET, BUILTIN_LEN, BUILTIN_PRINT, BUILTIN_PRINTLN,
};

verus! {

/// Stack operators; their operands are the values on top of the stack.
#[derive(Clone, Copy, Debug, PartialEq, Eq, Structural)]
pub enum Operation {
    Pop,
    Dup,
    Dup2,
    Swap,
    Over,
    Add,
    Minus,
    Mul,
    Div,
    Mod,
    Eq,
    Neq,
    Gt,
    Gte,
    Lte,
    Lt,
    Land,
    Lor,
    Shl,
    Shr,
    Bitand,
    Bitor,
}

/// Operations dispatched through the machine's builtin table.
#[derive(Clone, Copy, Debug, PartialEq, Eq, Structural)]
pub enum BuildinOp {
    IdxGet,
    IdxSet,
    Len,
    Println,
    Print,
    Debug,
    FuncCall,
}

pub open spec fn builtin_id(op: BuildinOp) -> usize {
    match op {
        BuildinOp::IdxGet => BUILTIN_IDX_GET,
        BuildinOp::IdxSet => BUILTIN_IDX_SET,
        BuildinOp::Len => BUILTIN_LEN,
        BuildinOp::Println => BUILTIN_PRINTLN,
        BuildinOp::Print => BUILTIN_PRINT,
        BuildinOp::Debug => BUILTIN_DEBUG,
        BuildinOp::FuncCall => BUILTIN_FUNC_CALL,
    }
}

impl From<&BuildinOp> for usize {
    fn from(value: &BuildinOp) -> (r: usize) {
        match value {
            BuildinOp::IdxGet => BUILTIN_IDX_GET,
            BuildinOp::IdxSet => BUILTIN_IDX_SET,
            BuildinOp::Len => BUILTIN_LEN,
            BuildinOp::Println => BUILTIN_PRINTLN,
            BuildinOp::Print => BUILTIN_PRINT,
            BuildinOp::Debug => BUILTIN_DEBUG,
            BuildinOp::FuncCall => BUILTIN_FUNC_CALL,
        }
    }
}

impl vstd::std_specs::convert::FromSpecImpl<&BuildinOp> for usize {
    open spec fn obeys_from_spec() -> bool {
        true
    }

    open spec fn from_spec(v: &BuildinOp) -> usize {
        builtin_id(*v)
    }
}

pub open spec fn opcode_of(op: Operation) -> Opcode {
    match op {
        Operation::Pop => Opcode::Pop,
        Operation::Dup => Opcode::Dup,
        Operation::Dup2 => Opcode::Dup2,
        Operation::Swap => Opcode::Swap,
        Operation::Over => Opcode::Over,
        Operation::Add => Opcode::Add,
        Operation::Minus => Opcode::Minus,
        Operation::Mul => Opcode::Mul,
        Operation::Div => Opcode::Div,
        Operation::Mod => Opcode::Mod,
        Operation::Eq => Opcode::Eq,
        Operation::Neq => Opcode::Neq,
        Operation::Gt => Opcode::Gt,
        Operation::Gte => Opcode::Gte,
        Operation::Lte => Opcode::Lte,
        Operation::Lt => Opcode::Lt,
        Operation::Land => Opcode::Land,
        Operation::Lor => Opcode::Lor,
        Operation::Shl => Opcode::Shl,
        Operation::Shr => Opcode::Shr,
        Operation::Bitand => Opcode::Bitand,
        Operation::Bitor => Opcode::Bitor,
    }
}

/// The opcode an operator lowers to.
pub fn operation_opcode(op: &Operation) -> (r: Opcode)
    ensures
        r == opcode_of(*op),
{
    match op {
        Operation::Pop => Opcode::Pop,
        Operation::Dup => Opcode::Dup,
        Operation::Dup2 => Opcode::Dup2,
        Operation::Swap => Opcode::Swap,
        Operation::Over => Opcode::Over,
        Operation::Add => Opcode::Add,
        Operation::Minus => Opcode::Minus,
        Operation::Mul => Opcode::Mul,
        Operation::Div => Opcode::Div,
        Operation::Mod => Opcode::Mod,
        Operation::Eq => Opcode::Eq,
        Operation::Neq => Opcode::Neq,
        Operation::Gt => Opcode::Gt,
        Operation::Gte => Opcode::Gte,
        Operation::Lte => Opcode::Lte,
        Operation::Lt => Opcode::Lt,
        Operation::Land => Opcode::Land,
        Operation::Lor => Opcode::Lor,
        Operation::Shl => Opcode::Shl,
        Operation::Shr => Opcode::Shr,
        Operation::Bitand => Opcode::Bitand,
        Operation::Bitor => Opcode::Bitor,
    }
}

#[derive(Debug)]
pub struct IfExpr {
    pub cond: Vec<Expr>,
    pub if_branch: Vec<Expr>,
    pub else_branch: Option<Vec<Expr>>,
}

#[derive(Debug)]
pub struct WhileExpr {
    pub cond: Vec<Expr>,
    pub while_block: Vec<Expr>,
}

#[derive(Debug)]
pub struct VarExpr {
    pub name: String,
    pub value: Vec<Expr>,
}

/// A local-binding block: `names` are bound to the values on top of the
/// stack (the last name to the topmost value) while `body` runs.
#[derive(Debug)]
pub struct PeekExpr {
    pub names: Vec<String>,
    pub body: Vec<Expr>,
}

#[derive(Debug)]
pub struct ListLiteral {
    pub value: Vec<i64>,
}

/// A node of the expression tree handed over by the front end.
#[derive(Debug)]
pub enum Expr {
    Op(Operation),
    Buildin(BuildinOp),
    IntExpr(String),
    StrExpr(String),
    ListExpr(ListLiteral),
    IdentExpr(String),
    If(IfExpr),
    Whlie(WhileExpr),
    Var(VarExpr),
    Peek(PeekExpr),
    Assigin(String),
    SetExpr,
    IndexExpr,
}

pub open spec fn kind_label(e: Expr) -> Seq<char> {
    match e {
        Expr::Op(_) => "Op"@,
        Expr::Buildin(_) => "Buildin"@,
        Expr::IntExpr(_) => "IntExpr"@,
        Expr::StrExpr(_) => "StrExpr"@,
        Expr::If(_) => "If"@,
        Expr::Whlie(_) => "Whlie"@,
        Expr::Var(_) => "Var"@,
        Expr::Peek(_) => "Peek"@,
        Expr::ListExpr(_) => "ListExpr"@,
        Expr::IdentExpr(_) => "Identifier"@,
        Expr::Assigin(_) => "Assigin"@,
        Expr::SetExpr => "Set"@,
        Expr::IndexExpr => "IndexExpr"@,
    }
}

impl Expr {
    /// The name of the node's kind, for messages.
    pub fn kind_name(&self) -> (r: &'static str)
        ensures
            r@ == kind_label(*self),
    {
        match self {
            Expr::Op(_) => "Op",
            Expr::Buildin(_) => "Buildin",
            Expr::IntExpr(_) => "IntExpr",
            Expr::StrExpr(_) => "StrExpr",
            Expr::If(_) => "If",
            Expr::Whlie(_) => "Whlie",
            Expr::Var(_) => "Var",
            Expr::Peek(_) => "Peek",
            Expr::ListExpr(_) => "ListExpr",
            Expr::IdentExpr(_) => "Identifier",
            Expr::Assigin(_) => "Assigin",
            Expr::SetExpr => "Set",
            Expr::IndexExpr => "IndexExpr",
        }
    }
}

/// A whole program: the top-level expressions in order.
pub struct Program {
    pub exprs: Vec<Expr>,
}

/// Why compilation stopped.
#[derive(Clone, Debug, PartialEq, Eq)]
pub enum CompileError {
    /// A local-binding name that is already a global variable.
    PeekNameIsVariable(String),
    /// A global variable name that is currently a local binding.
    VariableNameIsPeek(String),
    /// An identifier with neither a local binding nor a global slot.
    Undefined(String),
    /// A node that produces no single value where one is expected.
    NotSimple,
    /// An integer literal that is not a decimal `i64`.
    InvalidInteger(String),
}

pub open spec fn is_digit(c: char) -> bool {
    '0' <= c && c <= '9'
}

pub open spec fn all_digits(s: Seq<char>) -> bool {
    s.len() > 0 && forall|i: int| 0 <= i < s.len() ==> is_digit(#[trigger] s[i])
}

/// The value of a string of decimal digits.
pub open spec fn digits_value(s: Seq<char>) -> int
    decreases s.len(),
{
    if s.len() == 0 {
        0
    } else {
        digits_value(s.drop_last()) * 10 + (s.last() as u32 - '0' as u32)
    }
}

/// The integer written by an optional sign and decimal digits, if `s` is one.
pub open spec fn decimal_value(s: Seq<char>) -> Option<int> {
    if s.len() > 0 && (s[0] == '-' || s[0] == '+') {
        if all_digits(s.skip(1)) {
            Some(
                if s[0] == '-' {
                    -digits_value(s.skip(1))
                } else {
                    digits_value(s.skip(1))
                },
            )
        } else {
            None
        }
    } else if all_digits(s) {
        Some(digits_value(s))
    } else {
        None
    }
}

/// The `i64` that `s` denotes in decimal, when it has one.
pub open spec fn decimal_i64(s: Seq<char>) -> Option<i64> {
    match decimal_value(s) {
        Some(v) => if i64::MIN <= v <= i64::MAX {
            Some(v as i64)
        } else {
            None
        },
        None => None,
    }
}

/// Relies on `str::parse::<i64>`, which accepts an optional `+` or `-`
/// followed by decimal digits, and fails on anything else or on overflow.
#[verifier::external_body]
fn parse_i64(s: &str) -> (r: Option<i64>)
    ensures
        r == decimal_i64(s@),
{
    s.parse::<i64>().ok()
}

/// The last position at which `name` occurs in `names`.
pub open spec fn last_index(names: Seq<Seq<char>>, name: Seq<char>) -> Option<int>
    decreases names.len(),
{
    if names.len() == 0 {
        None
    } else if names.last() == name {
        Some(names.len() - 1)
    } else {
        last_index(names.drop_last(), name)
    }
}

pub proof fn lemma_last_index(names: Seq<Seq<char>>, name: Seq<char>)
    ensures
        last_index(names, name) is None <==> forall|i: int|
            0 <= i < names.len() ==> names[i] != name,
        last_index(names, name) matches Some(i) ==> 0 <= i < names.len() && names[i] == name,
    decreases names.len(),
{
    if names.len() > 0 {
        lemma_last_index(names.drop_last(), name);
        if names.last() != name {
            assert forall|i: int| 0 <= i < names.drop_last().len() implies names[i] == names.drop_last()[i] by {}
        }
    }
}

pub open spec fn is_jump(op: Opcode) -> bool {
    op == Opcode::Jmp || op == Opcode::JmpIf || op == Opcode::JmpIfNot
}

/// Every jump among `instrs[lo..hi]` carries a target no greater than `bound`.
pub open spec fn jumps_bounded(instrs: Seq<Instr>, lo: int, hi: int, bound: int) -> bool {
    forall|i: int|
        lo <= i < hi && is_jump(#[trigger] instrs[i].kind) ==> instrs[i].operand is Some
            && instrs[i].operand.unwrap() <= bound
}

/// The compiler's bookkeeping as mathematical values.
pub struct CompilerState {
    pub instrs: Seq<Instr>,
    pub consts: Seq<Constant>,
    /// Global variable names; a name's slot is its position.
    pub globals: Seq<Seq<char>>,
    /// Active local bindings, innermost last; a binding's window position is
    /// its position here.
    pub locals: Seq<Seq<char>>,
}

/// No name is both a global and a local binding.
pub open spec fn namespaces_disjoint(globals: Seq<Seq<char>>, locals: Seq<Seq<char>>) -> bool {
    forall|i: int, j: int| 0 <= i < globals.len() && 0 <= j < locals.len() ==> globals[i] != locals[j]
}

/// `a` is a prefix of `b`.
pub open spec fn prefix_of<T>(a: Seq<T>, b: Seq<T>) -> bool {
    a.len() <= b.len() && forall|i: int| 0 <= i < a.len() ==> b[i] == #[trigger] a[i]
}

/// What every successful lowering step keeps: earlier instructions,
/// constants and global slots stay where they were, the local bindings are
/// as before, and the new instructions' jumps stay inside the program.
pub open spec fn extends(a: CompilerState, b: CompilerState) -> bool {
    &&& prefix_of(a.instrs, b.instrs)
    &&& prefix_of(a.consts, b.consts)
    &&& prefix_of(a.globals, b.globals)
    &&& b.locals == a.locals
    &&& jumps_bounded(b.instrs, a.instrs.len() as int, b.instrs.len() as int, b.instrs.len() as int)
}

pub proof fn lemma_extends_trans(a: CompilerState, b: CompilerState, c: CompilerState)
    requires
        extends(a, b),
        extends(b, c),
    ensures
        extends(a, c),
{
    assert forall|i: int|
        a.instrs.len() <= i < c.instrs.len() && is_jump(#[trigger] c.instrs[i].kind) implies c.instrs[i].operand is Some
            && c.instrs[i].operand.unwrap() <= c.instrs.len() by {
        if i < b.instrs.len() {
            assert(c.instrs[i] == b.instrs[i]);
        }
    }
}

/// Appending one instruction whose jump target, if any, lies inside the
/// new program keeps the jumps of `s[lo..]` in bounds.
pub proof fn lemma_push_bounded(s: Seq<Instr>, lo: int, ins: Instr)
    requires
        0 <= lo,
        jumps_bounded(s, lo, s.len() as int, s.len() as int),
        is_jump(ins.kind) ==> ins.operand is Some && ins.operand.unwrap() <= s.len() + 1,
    ensures
        jumps_bounded(s.push(ins), lo, s.len() + 1 as int, s.len() + 1 as int),
{
    assert forall|i: int| lo <= i < s.len() + 1 && is_jump(#[trigger] s.push(ins)[i].kind) implies s.push(ins)[i].operand is Some
        && s.push(ins)[i].operand.unwrap() <= s.len() + 1 by {
        if i < s.len() {
            assert(s.push(ins)[i] == s[i]);
        }
    }
}

pub open spec fn emit(st: CompilerState, ins: Instr) -> CompilerState {
    CompilerState { instrs: st.instrs.push(ins), ..st }
}

/// Appends `c` to the pool and loads it.
pub open spec fn emit_const(st: CompilerState, c: Constant) -> CompilerState {
    CompilerState {
        consts: st.consts.push(c),
        instrs: st.instrs.push(Instr { kind: Opcode::Const, operand: Some(st.consts.len() as usize) }),
        ..st
    }
}

/// How a node in value position lowers: one instruction, and at most one
/// new constant or new global slot.
pub open spec fn lower_simple(st: CompilerState, e: Expr) -> Result<CompilerState, CompileError> {
    match e {
        Expr::IntExpr(v) => match decimal_i64(v@) {
            Some(x) => Ok(emit_const(st, Constant::Int(x))),
            None => Err(CompileError::InvalidInteger(v)),
        },
        Expr::StrExpr(v) => Ok(emit_const(st, Constant::Str(v))),
        Expr::ListExpr(l) => Ok(emit_const(st, Constant::List(l.value))),
        Expr::Op(o) => Ok(emit(st, Instr { kind: opcode_of(o), operand: None })),
        Expr::Buildin(b) => Ok(emit(st, Instr { kind: Opcode::Buildin, operand: Some(builtin_id(b)) })),
        Expr::IdentExpr(n) => match last_index(st.locals, n@) {
            Some(p) => Ok(emit(st, Instr { kind: Opcode::PushBind, operand: Some(p as usize) })),
            None => match last_index(st.globals, n@) {
                Some(g) => Ok(emit(st, Instr { kind: Opcode::GlobalLoad, operand: Some(g as usize) })),
                None => Err(CompileError::Undefined(n)),
            },
        },
        Expr::Assigin(n) => if last_index(st.locals, n@) is Some {
            Err(CompileError::VariableNameIsPeek(n))
        } else {
            match last_index(st.globals, n@) {
                Some(g) => Ok(emit(st, Instr { kind: Opcode::GlobalStore, operand: Some(g as usize) })),
                None => Ok(
                    emit(
                        CompilerState { globals: st.globals.push(n@), ..st },
                        Instr { kind: Opcode::GlobalStore, operand: Some(st.globals.len() as usize) },
                    ),
                ),
            }
        },
        _ => Err(CompileError::NotSimple),
    }
}

/// An if without else: one conditional jump, to the end of the branch.
/// With else: one conditional jump to the start of the else branch, and one
/// unconditional jump, at the end of the true branch, to the merge point.
pub open spec fn if_shape(start: int, instrs: Seq<Instr>, has_else: bool) -> bool {
    let end = instrs.len() as int;
    if has_else {
        exists|c: int, j: int|
            start <= c < j < end && #[trigger] instrs[c] == (Instr {
                kind: Opcode::JmpIfNot,
                operand: Some((j + 1) as usize),
            }) && #[trigger] instrs[j] == (Instr { kind: Opcode::Jmp, operand: Some(end as usize) })
    } else {
        exists|c: int|
            start <= c < end && #[trigger] instrs[c] == (Instr {
                kind: Opcode::JmpIfNot,
                operand: Some(end as usize),
            })
    }
}

/// A loop: its last instruction jumps back to its entry, and one
/// conditional jump leaves it to the instruction after it.
pub open spec fn while_shape(start: int, instrs: Seq<Instr>) -> bool {
    let end = instrs.len() as int;
    &&& start < end
    &&& instrs[end - 1] == (Instr { kind: Opcode::Jmp, operand: Some(start as usize) })
    &&& exists|c: int|
        start <= c < end - 1 && #[trigger] instrs[c] == (Instr {
            kind: Opcode::JmpIfNot,
            operand: Some(end as usize),
        })
}

pub open spec fn patch(st: CompilerState, at: int, ins: Instr) -> CompilerState {
    CompilerState { instrs: st.instrs.update(at, ins), ..st }
}

pub open spec fn jump_to(kind: Opcode, target: int) -> Instr {
    Instr { kind, operand: Some(target as usize) }
}

/// Lowering `es[i..]` in order, stopping at the first error.
pub open spec fn lower_seq(st: CompilerState, es: Vec<Expr>, i: int) -> Result<CompilerState, CompileError>
    decreases es, es@.len() - i,
{
    if i < 0 || i >= es@.len() {
        Ok(st)
    } else {
        match lower_expr(st, es@[i]) {
            Ok(t) => lower_seq(t, es, i + 1),
            Err(e) => Err(e),
        }
    }
}

/// What lowering one node does to the compiler state.
pub open spec fn lower_expr(st: CompilerState, e: Expr) -> Result<CompilerState, CompileError>
    decreases e, 0int,
{
    match e {
        Expr::If(x) => lower_if(st, x),
        Expr::Whlie(x) => lower_while(st, x),
        Expr::Var(x) => lower_var(st, x),
        Expr::Peek(x) => lower_peek(st, x),
        _ => lower_simple(st, e),
    }
}

/// Condition; a conditional jump patched to the end of the true branch, or,
/// with an else branch, to the instruction after an unconditional jump that
/// is patched to the end of the else branch.
pub open spec fn lower_if(st: CompilerState, x: IfExpr) -> Result<CompilerState, CompileError>
    decreases x, 0int,
{
    match lower_seq(st, x.cond, 0) {
        Err(e) => Err(e),
        Ok(s1) => {
            let c = s1.instrs.len() as int;
            match lower_seq(emit(s1, Instr { kind: Opcode::JmpIfNot, operand: None }), x.if_branch, 0) {
                Err(e) => Err(e),
                Ok(s3) => match x.else_branch {
                    None => Ok(patch(s3, c, jump_to(Opcode::JmpIfNot, s3.instrs.len() as int))),
                    Some(eb) => {
                        let j = s3.instrs.len() as int;
                        let s4 = patch(
                            emit(s3, Instr { kind: Opcode::Jmp, operand: None }),
                            c,
                            jump_to(Opcode::JmpIfNot, j + 1),
                        );
                        match lower_seq(s4, eb, 0) {
                            Err(e) => Err(e),
                            Ok(s5) => Ok(patch(s5, j, jump_to(Opcode::Jmp, s5.instrs.len() as int))),
                        }
                    },
                },
            }
        },
    }
}

/// Condition; a conditional jump patched to the loop's exit; body; a jump
/// back to the loop's entry.
pub open spec fn lower_while(st: CompilerState, x: WhileExpr) -> Result<CompilerState, CompileError>
    decreases x, 0int,
{
    match lower_seq(st, x.cond, 0) {
        Err(e) => Err(e),
        Ok(s1) => {
            let c = s1.instrs.len() as int;
            match lower_seq(emit(s1, Instr { kind: Opcode::JmpIfNot, operand: None }), x.while_block, 0) {
                Err(e) => Err(e),
                Ok(s3) => {
                    let s4 = emit(s3, jump_to(Opcode::Jmp, st.instrs.len() as int));
                    Ok(patch(s4, c, jump_to(Opcode::JmpIfNot, s4.instrs.len() as int)))
                },
            }
        },
    }
}

/// Lowering `es[i..]` as value nodes.
pub open spec fn lower_simple_seq(st: CompilerState, es: Seq<Expr>, i: int) -> Result<CompilerState, CompileError>
    decreases es.len() - i,
{
    if i < 0 || i >= es.len() {
        Ok(st)
    } else {
        match lower_simple(st, es[i]) {
            Ok(t) => lower_simple_seq(t, es, i + 1),
            Err(e) => Err(e),
        }
    }
}

/// A name that is a local binding is refused; otherwise the name's slot is
/// reused or, for a new name, the next slot is taken; the value nodes are
/// lowered and a store into the slot ends the declaration.
pub open spec fn lower_var(st: CompilerState, x: VarExpr) -> Result<CompilerState, CompileError> {
    if last_index(st.locals, x.name@) is Some {
        Err(CompileError::VariableNameIsPeek(x.name))
    } else {
        let slot = match last_index(st.globals, x.name@) {
            Some(g) => g,
            None => st.globals.len() as int,
        };
        let s1 = match last_index(st.globals, x.name@) {
            Some(_) => st,
            None => CompilerState { globals: st.globals.push(x.name@), ..st },
        };
        match lower_simple_seq(s1, x.value@, 0) {
            Ok(s2) => Ok(emit(s2, Instr { kind: Opcode::GlobalStore, operand: Some(slot as usize) })),
            Err(e) => Err(e),
        }
    }
}

/// The last of `names[..k]` that is a global variable.
pub open spec fn last_global(globals: Seq<Seq<char>>, names: Seq<String>, k: int) -> Option<int>
    decreases k,
{
    if k <= 0 || k > names.len() {
        None
    } else if last_index(globals, names[k - 1]@) is Some {
        Some(k - 1)
    } else {
        last_global(globals, names, k - 1)
    }
}

/// The names of a binding block as they enter the window: last name first.
pub open spec fn bound_names(names: Seq<String>, k: int) -> Seq<Seq<char>> {
    Seq::new(k as nat, |i: int| names[names.len() - 1 - i]@)
}

/// A binding block: refused when one of its names is a global; otherwise
/// `Bind`, the body with the names bound, `Unbind`, and the bindings that
/// were active before.
pub open spec fn lower_peek(st: CompilerState, x: PeekExpr) -> Result<CompilerState, CompileError>
    decreases x, 0int,
{
    match last_global(st.globals, x.names@, x.names@.len() as int) {
        Some(j) => Err(CompileError::PeekNameIsVariable(x.names@[j])),
        None => {
            let n = x.names@.len() as int;
            let s1 = emit(st, Instr { kind: Opcode::Bind, operand: Some(n as usize) });
            let s2 = CompilerState { locals: st.locals + bound_names(x.names@, n), ..s1 };
            match lower_seq(s2, x.body, 0) {
                Err(e) => Err(e),
                Ok(s3) => Ok(
                    CompilerState {
                        instrs: s3.instrs.push(Instr { kind: Opcode::Unbind, operand: Some(n as usize) }),
                        locals: st.locals,
                        ..s3
                    },
                ),
            }
        },
    }
}

/// `r` and the state `after` are what `expected` says.
pub open spec fn lowered(after: CompilerState, r: Result<(), CompileError>, expected: Result<CompilerState, CompileError>) -> bool {
    match expected {
        Ok(t) => r is Ok && after == t,
        Err(e) => r == Err::<(), CompileError>(e),
    }
}

pub open spec fn empty_state() -> CompilerState {
    CompilerState { instrs: Seq::empty(), consts: Seq::empty(), globals: Seq::empty(), locals: Seq::empty() }
}

pub open spec fn names_of(v: Seq<String>) -> Seq<Seq<char>> {
    v.map_values(|s: String| s@)
}

fn find_last(names: &Vec<String>, name: &String) -> (r: Option<usize>)
    ensures
        match r {
            Some(j) => last_index(names_of(names@), name@) == Some(j as int),
            None => last_index(names_of(names@), name@) is None,
        },
{
    let ghost all = names_of(names@);
    let mut i: usize = names.len();
    assert(all.subrange(0, i as int) =~= all);
    while i > 0
        invariant
            i <= names@.len(),
            all == names_of(names@),
            last_index(all, name@) == last_index(all.subrange(0, i as int), name@),
        decreases i,
    {
        if names[i - 1] == *name {
            assert(all.subrange(0, i as int).last() == name@);
            return Some(i - 1);
        }
        assert(all.subrange(0, i as int).drop_last() =~= all.subrange(0, i - 1));
        i -= 1;
    }
    None
}

pub proof fn lemma_prefix_trans<T>(a: Seq<T>, b: Seq<T>, c: Seq<T>)
    requires
        prefix_of(a, b),
        prefix_of(b, c),
    ensures
        prefix_of(a, c),
{
    assert forall|i: int| 0 <= i < a.len() implies c[i] == #[trigger] a[i] by {
        assert(c[i] == b[i]);
    }
}

pub proof fn lemma_lower_simple_extends(st: CompilerState, e: Expr)
    ensures
        lower_simple(st, e) matches Ok(t) ==> extends(st, t),
{
    if let Ok(t) = lower_simple(st, e) {
        let ins = t.instrs.last();
        assert(t.instrs == st.instrs.push(ins));
        assert(!is_jump(ins.kind));
        lemma_push_bounded(st.instrs, st.instrs.len() as int, ins);
        assert forall|i: int| 0 <= i < st.instrs.len() implies t.instrs[i] == #[trigger] st.instrs[i] by {
            assert(st.instrs.push(ins)[i] == st.instrs[i]);
        }
    }
}

/// The compiler: lowers a program to bytecode in one forward pass.
pub struct IrParser {
    program: Vec<Expr>,
    instrs: Vec<Instr>,
    consts: Vec<Constant>,
    var_def: Vec<String>,
    local_def: Vec<String>,
}

impl IrParser {
    pub closed spec fn state(&self) -> CompilerState {
        CompilerState {
            instrs: self.instrs@,
            consts: self.consts@,
            globals: names_of(self.var_def@),
            locals: names_of(self.local_def@),
        }
    }

    /// The expressions not compiled yet.
    pub closed spec fn pending(&self) -> Vec<Expr> {
        self.program
    }

    /// The two namespaces never share a name.
    pub closed spec fn wf(&self) -> bool {
        namespaces_disjoint(self.state().globals, self.state().locals)
    }

    pub fn new(program: Program) -> (r: Self)
        ensures
            r.wf(),
            r.pending() == program.exprs,
            r.state() == empty_state(),
    {
        let r = Self {
            program: program.exprs,
            instrs: Vec::new(),
            consts: Vec::new(),
            var_def: Vec::new(),
            local_def: Vec::new(),
        };
        assert(r.state().globals =~= Seq::empty());
        assert(r.state().locals =~= Seq::empty());
        r
    }

    fn push_const(&mut self, c: Constant)
        requires
            old(self).wf(),
        ensures
            final(self).wf(),
            final(self).state() == emit_const(old(self).state(), c),
    {
        self.consts.push(c);
        self.instrs.push(Instr::new(Opcode::Const, Some(self.consts.len() - 1)));
    }

    /// Lowers a node that stands for one value.
    fn simple_expr(&mut self, expr: Expr) -> (r: Result<(), CompileError>)
        requires
            old(self).wf(),
        ensures
            final(self).wf(),
            match lower_simple(old(self).state(), expr) {
                Ok(st) => r is Ok && final(self).state() == st,
                Err(e) => r == Err::<(), CompileError>(e),
            },
            r is Err ==> final(self).state() == old(self).state(),
    {
        let ghost s0 = self.state();
        match expr {
            Expr::IntExpr(v) => match parse_i64(v.as_str()) {
                Some(x) => {
                    self.push_const(Constant::Int(x));
                    Ok(())
                },
                None => Err(CompileError::InvalidInteger(v)),
            },
            Expr::StrExpr(v) => {
                self.push_const(Constant::Str(v));
                Ok(())
            },
            Expr::ListExpr(l) => {
                self.push_const(Constant::List(l.value));
                Ok(())
            },
            Expr::Op(o) => {
                self.instrs.push(Instr::new(operation_opcode(&o), None));
                Ok(())
            },
            Expr::Buildin(b) => {
                self.instrs.push(Instr::new(Opcode::Buildin, Some(usize::from(&b))));
                Ok(())
            },
            Expr::IdentExpr(val) => {
                if let Some(p) = find_last(&self.local_def, &val) {
                    self.instrs.push(Instr::new(Opcode::PushBind, Some(p)));
                    Ok(())
                } else if let Some(g) = find_last(&self.var_def, &val) {
                    self.instrs.push(Instr::new(Opcode::GlobalLoad, Some(g)));
                    Ok(())
                } else {
                    Err(CompileError::Undefined(val))
                }
            },
            Expr::Assigin(val) => {
                if find_last(&self.local_def, &val).is_some() {
                    return Err(CompileError::VariableNameIsPeek(val));
                }
                if let Some(g) = find_last(&self.var_def, &val) {
                    self.instrs.push(Instr::new(Opcode::GlobalStore, Some(g)));
                } else {
                    let slot = self.var_def.len();
                    proof {
                        lemma_last_index(s0.locals, val@);
                    }
                    self.var_def.push(val);
                    assert(self.state().globals =~= s0.globals.push(val@));
                    self.instrs.push(Instr::new(Opcode::GlobalStore, Some(slot)));
                }
                Ok(())
            },
            _ => Err(CompileError::NotSimple),
        }
    }

    /// Lowers a sequence of nodes in order.
    fn block(&mut self, exprs: Vec<Expr>) -> (r: Result<(), CompileError>)
        requires
            old(self).wf(),
        ensures
            final(self).wf(),
            r is Ok ==> extends(old(self).state(), final(self).state()),
            lowered(final(self).state(), r, lower_seq(old(self).state(), exprs, 0)),
        decreases exprs,
    {
        let ghost v0 = exprs;
        let ghost s0 = self.state();
        assert(extends(s0, s0));
        let mut rest = exprs;
        let ghost mut k: int = 0;
        assert(rest@ =~= v0@.subrange(0, v0@.len() as int));
        while rest.len() > 0
            invariant
                v0 == exprs,
                s0 == old(self).state(),
                self.wf(),
                extends(s0, self.state()),
                0 <= k <= v0@.len(),
                lower_seq(s0, v0, 0) == lower_seq(self.state(), v0, k),
                rest@ == v0@.subrange(k as int, v0@.len() as int),
            decreases rest@.len(),
        {
            let e = rest.remove(0);
            assert(e == v0@[k as int]);
            assert(rest@ =~= v0@.subrange(k + 1, v0@.len() as int));
            proof {
                assert(decreases_to!(v0 => v0[k as int]));
            }
            let ghost s1 = self.state();
            match self.expr(e) {
                Ok(()) => {},
                Err(err) => {
                    return Err(err);
                },
            }
            proof {
                lemma_extends_trans(s0, s1, self.state());
                k = k + 1;
            }
        }
        Ok(())
    }

    /// Lowers one node of the tree.
    fn expr(&mut self, expr: Expr) -> (r: Result<(), CompileError>)
        requires
            old(self).wf(),
        ensures
            final(self).wf(),
            r is Ok ==> extends(old(self).state(), final(self).state()),
            lowered(final(self).state(), r, lower_expr(old(self).state(), expr)),
        decreases expr,
    {
        match expr {
            Expr::If(v) => self.if_expr(v),
            Expr::Whlie(v) => self.while_expr(v),
            Expr::Var(v) => self.var_expr(v),
            Expr::Peek(v) => self.peek_expr(v),
            other => {
                let ghost g = other;
                let ghost s0 = self.state();
                let r = self.simple_expr(other);
                proof {
                    lemma_lower_simple_extends(s0, g);
                }
                r
            },
        }
    }

    /// Declares or reuses the global slot of `name` and stores the value
    /// computed by `value` in it.
    fn var_expr(&mut self, expr: VarExpr) -> (r: Result<(), CompileError>)
        requires
            old(self).wf(),
        ensures
            final(self).wf(),
            last_index(old(self).state().locals, expr.name@) is Some ==> r
                == Err::<(), CompileError>(CompileError::VariableNameIsPeek(expr.name))
                && final(self).state() == old(self).state(),
            r is Ok ==> {
                &&& extends(old(self).state(), final(self).state())
                &&& final(self).state().instrs.len() > old(self).state().instrs.len()
                &&& final(self).state().instrs.last().kind == Opcode::GlobalStore
                &&& final(self).state().instrs.last().operand matches Some(slot) && slot
                    < final(self).state().globals.len() && final(self).state().globals[slot as int]
                    == expr.name@
            },
            lowered(final(self).state(), r, lower_var(old(self).state(), expr)),
        decreases expr,
    {
        let ghost s0 = self.state();
        let VarExpr { name, value } = expr;
        let ghost nm = name@;
        if find_last(&self.local_def, &name).is_some() {
            return Err(CompileError::VariableNameIsPeek(name));
        }
        let slot = match find_last(&self.var_def, &name) {
            Some(g) => {
                proof {
                    lemma_last_index(s0.globals, name@);
                }

                assert(s0.globals[g as int] == nm);
                g
            },
            None => {
                let n = self.var_def.len();
                proof {
                    lemma_last_index(s0.locals, name@);
                }
                self.var_def.push(name);
                assert(self.state().globals =~= s0.globals.push(name@));
                n
            },
        };
        let ghost s1 = self.state();
        assert(extends(s0, s1));
        assert(s1.globals[slot as int] == nm);
        let ghost value0 = value@;
        let ghost mut k: int = 0;
        let mut rest = value;
        assert(rest@ =~= value0.subrange(0, value0.len() as int));
        let ghost store = Instr { kind: Opcode::GlobalStore, operand: Some(slot) };
        assert(lower_var(s0, expr) == match lower_simple_seq(s1, value0, 0) {
            Ok(s2) => Ok(emit(s2, store)),
            Err(e) => Err(e),
        });
        while rest.len() > 0
            invariant
                lower_var(s0, expr) == match lower_simple_seq(s1, value0, 0) {
                    Ok(s2) => Ok(emit(s2, store)),
                    Err(e) => Err(e),
                },
                store == (Instr { kind: Opcode::GlobalStore, operand: Some(slot) }),
                0 <= k <= value0.len(),
                rest@ == value0.subrange(k, value0.len() as int),
                lower_simple_seq(s1, value0, 0) == lower_simple_seq(self.state(), value0, k),
                s0 == old(self).state(),
                nm == expr.name@,
                last_index(s0.locals, nm) is None,
                self.wf(),
                extends(s0, self.state()),
                prefix_of(s1.globals, self.state().globals),
                slot < s1.globals.len(),
            decreases rest@.len(),
        {
            let e = rest.remove(0);
            let ghost g = e;
            assert(g == value0[k]);
            assert(rest@ =~= value0.subrange(k + 1, value0.len() as int));
            let ghost s2 = self.state();
            match self.simple_expr(e) {
                Ok(()) => {},
                Err(err) => {
                    return Err(err);
                },
            }
            proof {
                lemma_lower_simple_extends(s2, g);
                lemma_extends_trans(s0, s2, self.state());
                lemma_prefix_trans(s1.globals, s2.globals, self.state().globals);
                k = k + 1;
            }
        }
        let ghost s3 = self.state();
        self.instrs.push(Instr::new(Opcode::GlobalStore, Some(slot)));
        proof {
            lemma_push_bounded(s3.instrs, s0.instrs.len() as int, self.state().instrs.last());
            assert(self.state().instrs =~= s3.instrs.push(self.state().instrs.last()));
            assert(s3.globals[slot as int] == s1.globals[slot as int]);
        }
        Ok(())
    }

    /// Lowers a loop: the condition, a conditional jump out, the body, and a
    /// jump back to the condition; the exit jump is patched once the end of
    /// the loop is known.
    fn while_expr(&mut self, expr: WhileExpr) -> (r: Result<(), CompileError>)
        requires
            old(self).wf(),
        ensures
            final(self).wf(),
            r is Ok ==> extends(old(self).state(), final(self).state()) && while_shape(
                old(self).state().instrs.len() as int,
                final(self).state().instrs,
            ),
            lowered(final(self).state(), r, lower_while(old(self).state(), expr)),
        decreases expr,
    {
        let ghost s0 = self.state();
        let WhileExpr { cond, while_block } = expr;
        let whileaddrs = self.instrs.len();
        match self.block(cond) {
            Ok(()) => {},
            Err(e) => {
                return Err(e);
            },
        }
        let ghost s1 = self.state();
        let ifaddrs = self.instrs.len();
        self.instrs.push(Instr::new(Opcode::JmpIfNot, None));
        let ghost s2 = self.state();
        assert(s2 == emit(s1, Instr { kind: Opcode::JmpIfNot, operand: None }));
        match self.block(while_block) {
            Ok(()) => {},
            Err(e) => {
                return Err(e);
            },
        }
        let ghost s3 = self.state();
        self.instrs.push(Instr::new(Opcode::Jmp, Some(whileaddrs)));
        let curr_len = self.instrs.len();
        self.instrs.set(ifaddrs, Instr::new(Opcode::JmpIfNot, Some(curr_len)));
        proof {
            let f = self.state().instrs;
            assert forall|i: int| 0 <= i < s2.instrs.len() implies f[i] == s3.instrs[i] || i == ifaddrs by {
                assert(s3.instrs[i] == s2.instrs[i]);
            }
            assert forall|i: int| 0 <= i < s1.instrs.len() implies f[i] == #[trigger] s1.instrs[i] by {
                assert(s3.instrs[i] == s2.instrs[i]);
                assert(s2.instrs[i] == s1.instrs[i]);
            }
            assert forall|i: int| 0 <= i < s0.instrs.len() implies f[i] == #[trigger] s0.instrs[i] by {
                assert(s1.instrs[i] == s0.instrs[i]);
            }
            assert forall|i: int|
                s0.instrs.len() <= i < f.len() && is_jump(#[trigger] f[i].kind) implies f[i].operand is Some
                    && f[i].operand.unwrap() <= f.len() by {
                if i < s1.instrs.len() {
                    assert(f[i] == s1.instrs[i]);
                } else if i == ifaddrs {
                } else if i < s3.instrs.len() {
                    assert(f[i] == s3.instrs[i]);
                }
            }
            lemma_prefix_trans(s0.consts, s1.consts, s3.consts);
            lemma_prefix_trans(s0.globals, s1.globals, s3.globals);
            assert(f[ifaddrs as int] == Instr { kind: Opcode::JmpIfNot, operand: Some(f.len() as usize) });
            let s4 = emit(s3, jump_to(Opcode::Jmp, s0.instrs.len() as int));
            assert(self.state() == patch(s4, ifaddrs as int, jump_to(Opcode::JmpIfNot, s4.instrs.len() as int)));
        }
        Ok(())
    }

    /// Lowers a conditional, patching its jumps once their targets are known.
    fn if_expr(&mut self, expr: IfExpr) -> (r: Result<(), CompileError>)
        requires
            old(self).wf(),
        ensures
            final(self).wf(),
            r is Ok ==> extends(old(self).state(), final(self).state()) && if_shape(
                old(self).state().instrs.len() as int,
                final(self).state().instrs,
                expr.else_branch is Some,
            ),
            lowered(final(self).state(), r, lower_if(old(self).state(), expr)),
        decreases expr,
    {
        let ghost s0 = self.state();
        let IfExpr { cond, if_branch, else_branch } = expr;
        match self.block(cond) {
            Ok(()) => {},
            Err(e) => {
                return Err(e);
            },
        }
        let ghost s1 = self.state();
        let offset = self.instrs.len();
        self.instrs.push(Instr::new(Opcode::JmpIfNot, None));
        let ghost s2 = self.state();
        assert(s2 == emit(s1, Instr { kind: Opcode::JmpIfNot, operand: None }));
        match self.block(if_branch) {
            Ok(()) => {},
            Err(e) => {
                return Err(e);
            },
        }
        let ghost s3 = self.state();
        proof {
            assert forall|i: int| 0 <= i < s1.instrs.len() implies s3.instrs[i] == #[trigger] s1.instrs[i] by {
                assert(s3.instrs[i] == s2.instrs[i]);
                assert(s2.instrs[i] == s1.instrs[i]);
            }
            assert forall|i: int| 0 <= i < s0.instrs.len() implies s3.instrs[i] == #[trigger] s0.instrs[i] by {
                assert(s1.instrs[i] == s0.instrs[i]);
            }
            lemma_prefix_trans(s0.consts, s1.consts, s3.consts);
            lemma_prefix_trans(s0.globals, s1.globals, s3.globals);
            assert(s3.instrs[offset as int] == s2.instrs[offset as int]);
        }
        match else_branch {
            Some(vec) => {
                let offset2 = self.instrs.len();
                self.instrs.push(Instr::new(Opcode::Jmp, None));
                let else_start = self.instrs.len();
                self.instrs.set(offset, Instr::new(Opcode::JmpIfNot, Some(else_start)));
                let ghost s4 = self.state();
                assert(s4 == patch(
                    emit(s3, Instr { kind: Opcode::Jmp, operand: None }),
                    offset as int,
                    jump_to(Opcode::JmpIfNot, offset2 + 1),
                ));
                match self.block(vec) {
                    Ok(()) => {},
                    Err(e) => {
                        return Err(e);
                    },
                }
                let ghost s5 = self.state();
                let curr_len = self.instrs.len();
                self.instrs.set(offset2, Instr::new(Opcode::Jmp, Some(curr_len)));
                proof {
                    let f = self.state().instrs;
                    assert forall|i: int| 0 <= i < s4.instrs.len() && i != offset2 implies f[i] == #[trigger] s4.instrs[i] by {
                        assert(s5.instrs[i] == s4.instrs[i]);
                    }
                    assert forall|i: int| 0 <= i < s3.instrs.len() && i != offset implies f[i] == #[trigger] s3.instrs[i] by {
                        assert(f[i] == s4.instrs[i]);
                    }
                    assert forall|i: int| 0 <= i < s0.instrs.len() implies f[i] == #[trigger] s0.instrs[i] by {
                        assert(f[i] == s3.instrs[i]);
                    }
                    assert forall|i: int|
                        s0.instrs.len() <= i < f.len() && is_jump(#[trigger] f[i].kind) implies f[i].operand is Some
                            && f[i].operand.unwrap() <= f.len() by {
                        if i < s1.instrs.len() {
                            assert(f[i] == s3.instrs[i]);
                            assert(s3.instrs[i] == s1.instrs[i]);
                        } else if i == offset {
                            assert(f[i] == s4.instrs[i]);
                        } else if i == offset2 {
                        } else if i < s3.instrs.len() {
                            assert(f[i] == s3.instrs[i]);
                        } else if i < s5.instrs.len() {
                            assert(f[i] == s5.instrs[i]);
                        }
                    }
                    lemma_prefix_trans(s0.consts, s3.consts, s5.consts);
                    lemma_prefix_trans(s0.globals, s3.globals, s5.globals);
                    assert(f[offset as int] == s4.instrs[offset as int]);
                    assert(f[offset as int] == Instr { kind: Opcode::JmpIfNot, operand: Some(else_start) });
                    assert(f[offset2 as int] == Instr { kind: Opcode::Jmp, operand: Some(f.len() as usize) });
                    assert(self.state() == patch(s5, offset2 as int, jump_to(Opcode::Jmp, s5.instrs.len() as int)));
                }
            },
            None => {
                let curr_len = self.instrs.len();
                self.instrs.set(offset, Instr::new(Opcode::JmpIfNot, Some(curr_len)));
                proof {
                    let f = self.state().instrs;
                    assert forall|i: int| 0 <= i < s0.instrs.len() implies f[i] == #[trigger] s0.instrs[i] by {
                        assert(f[i] == s3.instrs[i]);
                    }
                    assert forall|i: int|
                        s0.instrs.len() <= i < f.len() && is_jump(#[trigger] f[i].kind) implies f[i].operand is Some
                            && f[i].operand.unwrap() <= f.len() by {
                        if i < s1.instrs.len() {
                            assert(f[i] == s3.instrs[i]);
                            assert(s3.instrs[i] == s1.instrs[i]);
                        } else if i == offset {
                        } else {
                            assert(f[i] == s3.instrs[i]);
                        }
                    }
                    assert(f[offset as int] == Instr { kind: Opcode::JmpIfNot, operand: Some(f.len() as usize) });
                    assert(self.state() == patch(s3, offset as int, jump_to(Opcode::JmpIfNot, s3.instrs.len() as int)));
                }
            },
        }
        Ok(())
    }

    /// Lowers a local-binding block. The names are bound, last name first,
    /// at the next window positions; inner bindings shadow outer ones of the
    /// same name and are dropped when the block ends, so every name resolves
    /// afterwards exactly as before.
    fn peek_expr(&mut self, expr: PeekExpr) -> (r: Result<(), CompileError>)
        requires
            old(self).wf(),
        ensures
            final(self).wf(),
            (exists|j: int|
                0 <= j < expr.names@.len() && #[trigger] last_index(
                    old(self).state().globals,
                    expr.names@[j]@,
                ) is Some) ==> r matches Err(CompileError::PeekNameIsVariable(_)),
            r is Ok ==> {
                &&& extends(old(self).state(), final(self).state())
                &&& final(self).state().instrs.len() >= old(self).state().instrs.len() + 2
                &&& final(self).state().instrs[old(self).state().instrs.len() as int] == (Instr {
                    kind: Opcode::Bind,
                    operand: Some(expr.names@.len() as usize),
                })
                &&& final(self).state().instrs.last() == (Instr {
                    kind: Opcode::Unbind,
                    operand: Some(expr.names@.len() as usize),
                })
            },
            r is Ok ==> forall|name: Seq<char>|
                #[trigger] last_index(final(self).state().locals, name) == last_index(
                    old(self).state().locals,
                    name,
                ),
            lowered(final(self).state(), r, lower_peek(old(self).state(), expr)),
        decreases expr,
    {
        let ghost s0 = self.state();
        let PeekExpr { names, body } = expr;
        let ghost names0 = names@;
        let names_len = names.len();
        let mut i: usize = names_len;
        while i > 0
            invariant
                s0 == old(self).state(),
                names0 == expr.names@,
                names@ == names0,
                last_global(s0.globals, names0, names_len as int) == last_global(s0.globals, names0, i as int),
                self.state() == s0,
                self.wf(),
                names_len == names@.len(),
                i <= names_len,
                forall|j: int| i <= j < names_len ==> last_index(s0.globals, #[trigger] names@[j]@) is None,
            decreases i,
        {
            if find_last(&self.var_def, &names[i - 1]).is_some() {
                return Err(CompileError::PeekNameIsVariable(names[i - 1].clone()));
            }
            i -= 1;
        }
        self.instrs.push(Instr::new(Opcode::Bind, Some(names_len)));
        let ghost s1 = self.state();
        assert(s1 == emit(s0, Instr { kind: Opcode::Bind, operand: Some(names_len) }));
        let ghost l0 = self.local_def@;
        let outer_len = self.local_def.len();
        let mut pending = names;
        while pending.len() > 0
            invariant
                names0.len() == names_len,
                pending@.len() <= names_len,
                pending@ == names0.subrange(0, pending@.len() as int),
                names_of(self.local_def@) == s0.locals + bound_names(names0, names_len - pending@.len()),
                names_of(self.local_def@).subrange(0, l0.len() as int) == s0.locals,
                self.local_def@.len() >= l0.len(),
                outer_len == l0.len(),
                s1.globals == s0.globals,
                self.state() == (CompilerState { locals: names_of(self.local_def@), ..s1 }),
                self.wf(),
                forall|j: int|
                    0 <= j < pending@.len() ==> last_index(s0.globals, #[trigger] pending@[j]@) is None,
            decreases pending@.len(),
        {
            let ghost before = names_of(self.local_def@);
            let ghost p0 = pending@;
            let name = pending.pop().unwrap();
            let ghost nv = name@;
            proof {
                assert(last_index(s0.globals, p0[p0.len() - 1]@) is None);
                lemma_last_index(s0.globals, nv);
                assert forall|j: int| 0 <= j < pending@.len() implies last_index(s0.globals, #[trigger] pending@[j]@) is None by {
                    assert(pending@[j] == p0[j]);
                }
            }
            self.local_def.push(name);
            proof {
                assert(names_of(self.local_def@) =~= before.push(nv));
                assert(p0[p0.len() - 1] == names0[p0.len() - 1]);
                assert(pending@ =~= names0.subrange(0, pending@.len() as int));
                assert(nv == names0[pending@.len() as int]@);
                assert(s0.locals + bound_names(names0, names_len - pending@.len()) =~= before.push(nv));
                let g = s0.globals;
                let l = names_of(self.local_def@);
                assert forall|a: int, b: int| 0 <= a < g.len() && 0 <= b < l.len() implies g[a] != l[b] by {
                    if b < before.len() {
                        assert(l[b] == before[b]);
                    } else {
                        assert(l[b] == nv);
                    }
                }
                assert(names_of(self.local_def@).subrange(0, l0.len() as int) =~= before.subrange(0, l0.len() as int));
            }
        }
        let ghost s2 = self.state();
        assert(s2 == CompilerState { locals: s0.locals + bound_names(names0, names_len as int), ..s1 });
        match self.block(body) {
            Ok(()) => {},
            Err(e) => {
                return Err(e);
            },
        }
        self.instrs.push(Instr::new(Opcode::Unbind, Some(names_len)));
        let ghost s3 = self.state();
        self.local_def.truncate(outer_len);
        proof {
            assert(names_of(self.local_def@) =~= s3.locals.subrange(0, l0.len() as int));
            assert(self.state().locals == s0.locals);
            let f = self.state().instrs;
            assert forall|i: int| 0 <= i < s0.instrs.len() implies f[i] == #[trigger] s0.instrs[i] by {
                assert(f[i] == s2.instrs[i]);
                assert(s2.instrs[i] == s1.instrs[i]);
            }
            assert(f[s0.instrs.len() as int] == s2.instrs[s0.instrs.len() as int]);
            assert forall|i: int|
                s0.instrs.len() <= i < f.len() && is_jump(#[trigger] f[i].kind) implies f[i].operand is Some
                    && f[i].operand.unwrap() <= f.len() by {
                if i < s2.instrs.len() {
                    assert(f[i] == s2.instrs[i]);
                    assert(s2.instrs[i] == s1.instrs[i]);
                } else if i < f.len() - 1 {
                    assert(f[i] == s3.instrs[i]);
                }
            }
            lemma_prefix_trans(s0.consts, s2.consts, self.state().consts);
            lemma_prefix_trans(s0.globals, s2.globals, self.state().globals);
            assert(self.state() == CompilerState {
                instrs: s3.instrs,
                locals: s0.locals,
                ..s3
            });
        }
        Ok(())
    }

    /// Compiles every pending expression in order. The instructions and
    /// constants move into the result.
    pub fn parse(&mut self) -> (r: Result<Bytecode, CompileError>)
        requires
            old(self).wf(),
        ensures
            final(self).wf(),
            match lower_seq(old(self).state(), old(self).pending(), 0) {
                Ok(t) => r matches Ok(bc) && bc.program@ == t.instrs && bc.consts@ == t.consts,
                Err(e) => r == Err::<Bytecode, CompileError>(e),
            },
            r matches Ok(bc) ==> {
                let n = bc.program@.len() as int;
                let start = old(self).state().instrs.len() as int;
                &&& prefix_of(old(self).state().instrs, bc.program@)
                &&& prefix_of(old(self).state().consts, bc.consts@)
                &&& jumps_bounded(bc.program@, start, n, n)
            },
    {
        let mut exprs: Vec<Expr> = Vec::new();
        std::mem::swap(&mut exprs, &mut self.program);
        match self.block(exprs) {
            Ok(()) => {},
            Err(err) => {
                return Err(err);
            },
        }
        let ghost s2 = self.state();
        let mut program: Vec<Instr> = Vec::new();
        std::mem::swap(&mut program, &mut self.instrs);
        let mut consts: Vec<Constant> = Vec::new();
        std::mem::swap(&mut consts, &mut self.consts);
        proof {
            assert(names_of(self.var_def@) == s2.globals);
        }
        Ok(Bytecode { program, consts })
    }
}

/// Compiles a whole program. Every jump of the result carries a target no
/// greater than the program's length: an instruction of the result, or the
/// end of the program, where a caller appends its `Halt`.
pub fn compile(program: Program) -> (r: Result<Bytecode, CompileError>)
    ensures
        match lower_seq(empty_state(), program.exprs, 0) {
            Ok(t) => r matches Ok(bc) && bc.program@ == t.instrs && bc.consts@ == t.consts,
            Err(e) => r == Err::<Bytecode, CompileError>(e),
        },
        r matches Ok(bc) ==> jumps_bounded(
            bc.program@,
            0,
            bc.program@.len() as int,
            bc.program@.len() as int,
        ),
{
    let mut parser = IrParser::new(program);
    parser.parse()
}

} // verus!
