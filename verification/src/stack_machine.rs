//! The virtual machine: opcode set, machine state, and the execution engine.
use vstd::prelude::*;
use vstd::wrapping::i64_specs;

verus! {

/// Execution budget for one run of the engine: either unbounded, or a number
/// of instruction steps after which execution fails with `RanOutOfGas`.
#[derive(Debug, Clone, Copy)]
pub enum GasLimit {
    Unlimited,
    Limited(u64),
}

/// Errors the execution engine can return.
#[derive(Debug)]
pub enum StackMachineError {
    UnkownError,
    NumberStackUnderflow,
    UnhandledTrap,
    RanOutOfGas,
}

/// Result a trap handler reports back to the engine: it either claimed the
/// trap or left it for the next handler in the chain.
pub enum TrapHandled {
    Handled,
    NotHandled,
}

/// The machine's instruction set.  `LDI` carries a 64-bit immediate used both
/// for literal values and for patched jump offsets and call targets.
#[derive(Debug, Clone, Copy, PartialEq, Eq, Structural)]
pub enum Opcode {
    JMP,
    JR,
    JRZ,
    JRNZ,
    CALL,
    CMPZ,
    CMPNZ,
    LDI(i64),
    POP,
    SWAP,
    RET,
    ADD,
    SUB,
    MUL,
    DIV,
    NOT,
    DUP,
    TRAP,
    NOP,
}

/// Mathematical model of the machine state: the two stacks, the opcode
/// image, the program counter and the gas spent so far.
pub ghost struct MachineView {
    pub stack: Seq<i64>,
    pub rstack: Seq<usize>,
    pub code: Seq<Opcode>,
    pub pc: usize,
    pub gas: u64,
}

/// The mutable state of one machine: operand stack, return stack, opcode
/// image, program counter and gas counter.  The operand stack and the image
/// are exposed so a host can prime and inspect them between runs; the return
/// stack, program counter and gas counter belong to the engine alone.
pub struct StackMachineState {
    pub number_stack: Vec<i64>,
    pub(crate) return_stack: Vec<usize>,
    pub opcodes: Vec<Opcode>,
    pub(crate) pc: usize,
    pub(crate) gas_used: u64,
}

impl View for StackMachineState {
    type V = MachineView;

    open(crate) spec fn view(&self) -> MachineView {
        MachineView {
            stack: self.number_stack@,
            rstack: self.return_stack@,
            code: self.opcodes@,
            pc: self.pc,
            gas: self.gas_used,
        }
    }
}

impl StackMachineState {
    /// A fresh machine state: empty stacks, empty image, program counter at
    /// the start of the image, no gas spent.
    pub fn new() -> (st: StackMachineState)
        ensures
            st@.stack == Seq::<i64>::empty(),
            st@.rstack == Seq::<usize>::empty(),
            st@.code == Seq::<Opcode>::empty(),
            st@.pc == 0,
            st@.gas == 0,
    {
        StackMachineState {
            number_stack: Vec::new(),
            return_stack: Vec::new(),
            opcodes: Vec::new(),
            pc: 0,
            gas_used: 0,
        }
    }

    /// How many instruction steps the last run of the engine charged.
    pub fn gas_used(&self) -> (g: u64)
        ensures
            g == self@.gas,
    {
        self.gas_used
    }
}

/// What one instruction does to the machine state, before gas is charged:
/// either the state after the opcode's pops, pushes and control transfer;
/// or a normal finish (`RET` on an empty return stack, state untouched);
/// or a failure with the state exactly as it was at the failure; or a trap
/// dispatch, with the state after the trap identifier was popped and the
/// identifier itself.
pub ghost enum OpOutcome {
    Stepped(MachineView),
    Finished,
    Failed(StackMachineError, MachineView),
    Trap(MachineView, i64),
}

/// Whether a mathematical integer can serve as a program counter.
pub open spec fn fits_pc(t: int) -> bool {
    0 <= t <= usize::MAX as int
}

/// What Rust's truncating 64-bit signed division returns, and when it is
/// defined: `None` on a zero divisor and on the one overflowing quotient.
pub open spec fn div_i64(x: i64, y: i64) -> Option<i64> {
    x.checked_div(y)
}

/// The effect of the single instruction at `v.pc`, before gas accounting.
/// This is the heart of the machine's semantics: which values each opcode
/// pops and pushes, in which order, and how control transfers.  Fetching from
/// past the end of the image, a control transfer to a target no program
/// counter can hold, and a division by zero (or the one overflowing quotient)
/// fail with `UnkownError`; a pop from an empty stack fails with
/// `NumberStackUnderflow` after the pops that preceded it have taken effect.
#[verifier::opaque]
pub open spec fn op_step(v: MachineView) -> OpOutcome {
    if v.pc >= v.code.len() {
        OpOutcome::Failed(StackMachineError::UnkownError, v)
    } else {
        let next = MachineView { pc: (v.pc + 1) as usize, ..v };
        match v.code[v.pc as int] {
            Opcode::NOP => OpOutcome::Stepped(next),
            Opcode::LDI(x) => OpOutcome::Stepped(
                MachineView { stack: v.stack.push(x), ..next },
            ),
            Opcode::POP => {
                if v.stack.len() == 0 {
                    OpOutcome::Failed(StackMachineError::NumberStackUnderflow, v)
                } else {
                    OpOutcome::Stepped(MachineView { stack: v.stack.drop_last(), ..next })
                }
            }
            Opcode::DUP => {
                if v.stack.len() == 0 {
                    OpOutcome::Failed(StackMachineError::NumberStackUnderflow, v)
                } else {
                    OpOutcome::Stepped(
                        MachineView { stack: v.stack.push(v.stack.last()), ..next },
                    )
                }
            }
            Opcode::CMPZ => {
                if v.stack.len() == 0 {
                    OpOutcome::Failed(StackMachineError::NumberStackUnderflow, v)
                } else {
                    let x = v.stack.last();
                    OpOutcome::Stepped(
                        MachineView {
                            stack: v.stack.drop_last().push(if x == 0 { 0i64 } else { -1i64 }),
                            ..next
                        },
                    )
                }
            }
            Opcode::CMPNZ => {
                if v.stack.len() == 0 {
                    OpOutcome::Failed(StackMachineError::NumberStackUnderflow, v)
                } else {
                    let x = v.stack.last();
                    OpOutcome::Stepped(
                        MachineView {
                            stack: v.stack.drop_last().push(if x == 0 { -1i64 } else { 0i64 }),
                            ..next
                        },
                    )
                }
            }
            Opcode::NOT => {
                if v.stack.len() == 0 {
                    OpOutcome::Failed(StackMachineError::NumberStackUnderflow, v)
                } else {
                    let x = v.stack.last();
                    OpOutcome::Stepped(
                        MachineView { stack: v.stack.drop_last().push((-1 - x) as i64), ..next },
                    )
                }
            }
            Opcode::ADD => {
                if v.stack.len() == 0 {
                    OpOutcome::Failed(StackMachineError::NumberStackUnderflow, v)
                } else if v.stack.len() == 1 {
                    OpOutcome::Failed(
                        StackMachineError::NumberStackUnderflow,
                        MachineView { stack: v.stack.drop_last(), ..v },
                    )
                } else {
                    let x = v.stack.last();
                    let y = v.stack[v.stack.len() - 2];
                    let rest = v.stack.subrange(0, v.stack.len() - 2);
                    OpOutcome::Stepped(
                        MachineView { stack: rest.push(i64_specs::wrapping_add(x, y)), ..next },
                    )
                }
            }
            Opcode::SUB => {
                if v.stack.len() == 0 {
                    OpOutcome::Failed(StackMachineError::NumberStackUnderflow, v)
                } else if v.stack.len() == 1 {
                    OpOutcome::Failed(
                        StackMachineError::NumberStackUnderflow,
                        MachineView { stack: v.stack.drop_last(), ..v },
                    )
                } else {
                    let x = v.stack.last();
                    let y = v.stack[v.stack.len() - 2];
                    let rest = v.stack.subrange(0, v.stack.len() - 2);
                    OpOutcome::Stepped(
                        MachineView { stack: rest.push(i64_specs::wrapping_sub(x, y)), ..next },
                    )
                }
            }
            Opcode::MUL => {
                if v.stack.len() == 0 {
                    OpOutcome::Failed(StackMachineError::NumberStackUnderflow, v)
                } else if v.stack.len() == 1 {
                    OpOutcome::Failed(
                        StackMachineError::NumberStackUnderflow,
                        MachineView { stack: v.stack.drop_last(), ..v },
                    )
                } else {
                    let x = v.stack.last();
                    let y = v.stack[v.stack.len() - 2];
                    let rest = v.stack.subrange(0, v.stack.len() - 2);
                    OpOutcome::Stepped(
                        MachineView { stack: rest.push(i64_specs::wrapping_mul(x, y)), ..next },
                    )
                }
            }
            Opcode::DIV => {
                if v.stack.len() == 0 {
                    OpOutcome::Failed(StackMachineError::NumberStackUnderflow, v)
                } else if v.stack.len() == 1 {
                    OpOutcome::Failed(
                        StackMachineError::NumberStackUnderflow,
                        MachineView { stack: v.stack.drop_last(), ..v },
                    )
                } else {
                    let x = v.stack.last();
                    let y = v.stack[v.stack.len() - 2];
                    let rest = v.stack.subrange(0, v.stack.len() - 2);
                    match div_i64(x, y) {
                        Some(q) => OpOutcome::Stepped(MachineView { stack: rest.push(q), ..next }),
                        None => OpOutcome::Failed(
                            StackMachineError::UnkownError,
                            MachineView { stack: rest, ..v },
                        ),
                    }
                }
            }
            Opcode::SWAP => {
                if v.stack.len() == 0 {
                    OpOutcome::Failed(StackMachineError::NumberStackUnderflow, v)
                } else if v.stack.len() == 1 {
                    OpOutcome::Failed(
                        StackMachineError::NumberStackUnderflow,
                        MachineView { stack: v.stack.drop_last(), ..v },
                    )
                } else {
                    let x = v.stack.last();
                    let y = v.stack[v.stack.len() - 2];
                    let rest = v.stack.subrange(0, v.stack.len() - 2);
                    OpOutcome::Stepped(MachineView { stack: rest.push(x).push(y), ..next })
                }
            }
            Opcode::JMP => {
                if v.stack.len() == 0 {
                    OpOutcome::Failed(StackMachineError::NumberStackUnderflow, v)
                } else {
                    let t = v.stack.last();
                    let rest = v.stack.drop_last();
                    if fits_pc(t as int) {
                        OpOutcome::Stepped(MachineView { stack: rest, pc: t as usize, ..v })
                    } else {
                        OpOutcome::Failed(
                            StackMachineError::UnkownError,
                            MachineView { stack: rest, ..v },
                        )
                    }
                }
            }
            Opcode::CALL => {
                let rstack = v.rstack.push((v.pc + 1) as usize);
                if v.stack.len() == 0 {
                    OpOutcome::Failed(
                        StackMachineError::NumberStackUnderflow,
                        MachineView { rstack, ..v },
                    )
                } else {
                    let t = v.stack.last();
                    let rest = v.stack.drop_last();
                    if fits_pc(t as int) {
                        OpOutcome::Stepped(
                            MachineView { stack: rest, rstack, pc: t as usize, ..v },
                        )
                    } else {
                        OpOutcome::Failed(
                            StackMachineError::UnkownError,
                            MachineView { stack: rest, rstack, ..v },
                        )
                    }
                }
            }
            Opcode::JR => {
                if v.stack.len() == 0 {
                    OpOutcome::Failed(StackMachineError::NumberStackUnderflow, v)
                } else {
                    let off = v.stack.last();
                    let rest = v.stack.drop_last();
                    let t = v.pc + off;
                    if fits_pc(t) {
                        OpOutcome::Stepped(MachineView { stack: rest, pc: t as usize, ..v })
                    } else {
                        OpOutcome::Failed(
                            StackMachineError::UnkownError,
                            MachineView { stack: rest, ..v },
                        )
                    }
                }
            }
            Opcode::JRZ => {
                if v.stack.len() == 0 {
                    OpOutcome::Failed(StackMachineError::NumberStackUnderflow, v)
                } else if v.stack.len() == 1 {
                    OpOutcome::Failed(
                        StackMachineError::NumberStackUnderflow,
                        MachineView { stack: v.stack.drop_last(), ..v },
                    )
                } else {
                    let off = v.stack.last();
                    let x = v.stack[v.stack.len() - 2];
                    let rest = v.stack.subrange(0, v.stack.len() - 2);
                    let t = v.pc + off;
                    if x != 0 {
                        OpOutcome::Stepped(MachineView { stack: rest, ..next })
                    } else if fits_pc(t) {
                        OpOutcome::Stepped(MachineView { stack: rest, pc: t as usize, ..v })
                    } else {
                        OpOutcome::Failed(
                            StackMachineError::UnkownError,
                            MachineView { stack: rest, ..v },
                        )
                    }
                }
            }
            Opcode::JRNZ => {
                if v.stack.len() == 0 {
                    OpOutcome::Failed(StackMachineError::NumberStackUnderflow, v)
                } else if v.stack.len() == 1 {
                    OpOutcome::Failed(
                        StackMachineError::NumberStackUnderflow,
                        MachineView { stack: v.stack.drop_last(), ..v },
                    )
                } else {
                    let off = v.stack.last();
                    let x = v.stack[v.stack.len() - 2];
                    let rest = v.stack.subrange(0, v.stack.len() - 2);
                    let t = v.pc + off;
                    if x == 0 {
                        OpOutcome::Stepped(MachineView { stack: rest, ..next })
                    } else if fits_pc(t) {
                        OpOutcome::Stepped(MachineView { stack: rest, pc: t as usize, ..v })
                    } else {
                        OpOutcome::Failed(
                            StackMachineError::UnkownError,
                            MachineView { stack: rest, ..v },
                        )
                    }
                }
            }
            Opcode::RET => {
                if v.rstack.len() == 0 {
                    OpOutcome::Finished
                } else {
                    OpOutcome::Stepped(
                        MachineView { rstack: v.rstack.drop_last(), pc: v.rstack.last(), ..v },
                    )
                }
            }
            Opcode::TRAP => {
                if v.stack.len() == 0 {
                    OpOutcome::Failed(StackMachineError::NumberStackUnderflow, v)
                } else {
                    OpOutcome::Trap(
                        MachineView { stack: v.stack.drop_last(), ..v },
                        v.stack.last(),
                    )
                }
            }
        }
    }
}

/// Where a spec-level run of the engine stands: still running, finished by a
/// `RET` on an empty return stack, failed with an error, or arrived at a
/// `TRAP` dispatch.  A trap hands the operand stack to host code, so from the
/// first trap on the specification no longer predicts the machine; `Trapped`
/// records the state at that dispatch (the trap identifier already popped)
/// and the identifier itself.
pub ghost enum RunState {
    Running(MachineView),
    Done(MachineView),
    Failed(StackMachineError, MachineView),
    Trapped(MachineView, i64),
}

/// Whether a gas counter has gone past a budget.
pub open spec fn gas_exceeded(gas: u64, limit: GasLimit) -> bool {
    match limit {
        GasLimit::Unlimited => false,
        GasLimit::Limited(x) => gas > x,
    }
}

/// The engine's shared step tail: charge one unit of gas and fail the run
/// when a finite budget has been exceeded.  A run long enough to exhaust the
/// 64-bit step counter itself also fails as out of gas.
pub open spec fn charge_gas(v: MachineView, limit: GasLimit) -> RunState {
    if v.gas == u64::MAX {
        RunState::Failed(StackMachineError::RanOutOfGas, v)
    } else {
        let charged = MachineView { gas: (v.gas + 1) as u64, ..v };
        if gas_exceeded(charged.gas, limit) {
            RunState::Failed(StackMachineError::RanOutOfGas, charged)
        } else {
            RunState::Running(charged)
        }
    }
}

/// One instruction step of the machine under a budget: the instruction's
/// effect, with gas charged after every opcode that keeps the run going.
/// A normal finish and every failure leave the gas counter as it was.
pub open spec fn step_view(v: MachineView, limit: GasLimit) -> RunState {
    match op_step(v) {
        OpOutcome::Stepped(w) => charge_gas(w, limit),
        OpOutcome::Finished => RunState::Done(v),
        OpOutcome::Failed(e, w) => RunState::Failed(e, w),
        OpOutcome::Trap(w, id) => RunState::Trapped(w, id),
    }
}

/// One step of a run: a running state takes an instruction step; a finished,
/// failed or trapped run stays as it is.
pub open spec fn step_run(s: RunState, limit: GasLimit) -> RunState {
    match s {
        RunState::Running(v) => step_view(v, limit),
        _ => s,
    }
}

/// Where a run that started at `v` stands after `n` instruction steps.
pub open spec fn run_n(v: MachineView, limit: GasLimit, n: nat) -> RunState
    decreases n,
{
    if n == 0 {
        RunState::Running(v)
    } else {
        step_run(run_n(v, limit, (n - 1) as nat), limit)
    }
}

/// Unfolds one step of `run_n` from the front of the count.
pub proof fn lemma_run_n_step(v: MachineView, limit: GasLimit, n: nat)
    ensures
        run_n(v, limit, n + 1) == step_run(run_n(v, limit, n), limit),
{
}

/// Once a run has finished, failed or trapped, taking more steps changes
/// nothing.
pub proof fn lemma_run_n_absorbs(v: MachineView, limit: GasLimit, m: nat, n: nat)
    requires
        m <= n,
        !(run_n(v, limit, m) is Running),
    ensures
        run_n(v, limit, n) == run_n(v, limit, m),
    decreases n,
{
    if n > m {
        lemma_run_n_absorbs(v, limit, m, (n - 1) as nat);
    }
}

/// A run has at most one terminal outcome: every step count at which the run
/// is no longer running shows the same finished, failed or trapped state.
pub proof fn lemma_run_n_terminal(v: MachineView, limit: GasLimit, k: nat)
    requires
        !(run_n(v, limit, k) is Running),
    ensures
        forall|n: nat|
            !(#[trigger] run_n(v, limit, n) is Running) ==> run_n(v, limit, n) == run_n(
                v,
                limit,
                k,
            ),
{
    assert forall|n: nat| !(#[trigger] run_n(v, limit, n) is Running) implies run_n(v, limit, n)
        == run_n(v, limit, k) by {
        if n <= k {
            lemma_run_n_absorbs(v, limit, n, k);
        } else {
            lemma_run_n_absorbs(v, limit, k, n);
        }
    }
}

/// Having taken a step from a running state, the run is pinned at every
/// count: each step count at which it is no longer running shows this step's
/// outcome.
proof fn lemma_step_terminates(
    init: MachineView,
    limit: GasLimit,
    steps: nat,
    pre: MachineView,
    out: RunState,
)
    requires
        run_n(init, limit, steps) == RunState::Running(pre),
        step_view(pre, limit) == out,
        !(out is Running),
    ensures
        run_n(init, limit, steps + 1) == out,
        forall|n: nat| !(#[trigger] run_n(init, limit, n) is Running) ==> run_n(init, limit, n)
            == out,
{
    lemma_run_n_step(init, limit, steps);
    lemma_run_n_terminal(init, limit, steps + 1);
}

/// The image of a program that pushes `vals` in order and then returns.
pub open spec fn push_program(vals: Seq<i64>) -> Seq<Opcode> {
    vals.map_values(|x: i64| Opcode::LDI(x)).push(Opcode::RET)
}

/// After `k` of the pushes of a push-only program, the run is still going,
/// with the first `k` values appended to the stack, the program counter at
/// the next push and one unit of gas charged per push.
proof fn lemma_push_program_partial(stack0: Seq<i64>, vals: Seq<i64>, limit: GasLimit, k: nat)
    requires
        k <= vals.len(),
        vals.len() + 1 <= usize::MAX,
        vals.len() < u64::MAX,
        match limit {
            GasLimit::Unlimited => true,
            GasLimit::Limited(x) => vals.len() <= x,
        },
    ensures
        run_n(
            MachineView {
                stack: stack0,
                rstack: Seq::<usize>::empty(),
                code: push_program(vals),
                pc: 0,
                gas: 0,
            },
            limit,
            k,
        ) == RunState::Running(
            MachineView {
                stack: stack0 + vals.subrange(0, k as int),
                rstack: Seq::<usize>::empty(),
                code: push_program(vals),
                pc: k as usize,
                gas: k as u64,
            },
        ),
    decreases k,
{
    reveal(op_step);
    if k == 0 {
        assert(stack0 + vals.subrange(0, 0) =~= stack0);
    } else {
        lemma_push_program_partial(stack0, vals, limit, (k - 1) as nat);
        assert((stack0 + vals.subrange(0, k - 1)).push(vals[k - 1]) =~= stack0 + vals.subrange(
            0,
            k as int,
        ));
        lemma_run_n_step(
            MachineView {
                stack: stack0,
                rstack: Seq::<usize>::empty(),
                code: push_program(vals),
                pc: 0,
                gas: 0,
            },
            limit,
            (k - 1) as nat,
        );
    }
}

/// Law: a program consisting only of push-immediate instructions followed by
/// `return`, executed from the start of the image on an empty return stack
/// under a sufficient gas budget, finishes successfully and leaves the
/// operand stack equal to the old stack with the pushed values appended in
/// order.
pub proof fn lemma_push_program_runs(stack0: Seq<i64>, vals: Seq<i64>, limit: GasLimit)
    requires
        vals.len() + 1 <= usize::MAX,
        vals.len() < u64::MAX,
        match limit {
            GasLimit::Unlimited => true,
            GasLimit::Limited(x) => vals.len() <= x,
        },
    ensures
        run_n(
            MachineView {
                stack: stack0,
                rstack: Seq::<usize>::empty(),
                code: push_program(vals),
                pc: 0,
                gas: 0,
            },
            limit,
            vals.len() + 1,
        ) == RunState::Done(
            MachineView {
                stack: stack0 + vals,
                rstack: Seq::<usize>::empty(),
                code: push_program(vals),
                pc: vals.len() as usize,
                gas: vals.len() as u64,
            },
        ),
{
    reveal(op_step);
    lemma_push_program_partial(stack0, vals, limit, vals.len());
    let init = MachineView {
        stack: stack0,
        rstack: Seq::<usize>::empty(),
        code: push_program(vals),
        pc: 0,
        gas: 0,
    };
    lemma_run_n_step(init, limit, vals.len());
    assert(push_program(vals)[vals.len() as int] == Opcode::RET);
    assert(stack0 + vals.subrange(0, vals.len() as int) =~= stack0 + vals);
}

/// A host-supplied trap handler.  When the engine executes `TRAP` it pops a
/// trap identifier from the operand stack and offers it, in registration
/// order, to each handler; the first to report `Handled` ends the dispatch.
/// A handler receives the operand stack and may read and change it freely;
/// the rest of the machine state (return stack, program counter, image, gas)
/// is not handed out, so a handler cannot corrupt it.
pub trait HandleTrap {
    fn handle_trap(
        &mut self,
        trap_id: i64,
        number_stack: &mut Vec<i64>,
    ) -> Result<TrapHandled, StackMachineError>;
}

/// A trap handler that claims nothing: the handler type of a machine whose
/// host registered no extension.
pub struct NoTrapHandler;

impl HandleTrap for NoTrapHandler {
    fn handle_trap(
        &mut self,
        _trap_id: i64,
        _number_stack: &mut Vec<i64>,
    ) -> Result<TrapHandled, StackMachineError> {
        Ok(TrapHandled::NotHandled)
    }
}

/// Pops the top of the operand stack, or reports underflow and leaves the
/// state untouched.
fn pop1(st: &mut StackMachineState) -> (r: Result<i64, StackMachineError>)
    ensures
        old(st)@.stack.len() == 0 ==> r == Err::<i64, StackMachineError>(
            StackMachineError::NumberStackUnderflow,
        ) && final(st)@ == old(st)@,
        old(st)@.stack.len() > 0 ==> r == Ok::<i64, StackMachineError>(old(st)@.stack.last())
            && final(st)@ == (MachineView { stack: old(st)@.stack.drop_last(), ..old(st)@ }),
{
    match st.number_stack.pop() {
        None => Err(StackMachineError::NumberStackUnderflow),
        Some(x) => Ok(x),
    }
}

/// Pops the top two values of the operand stack, top first, or reports
/// underflow; the pops that succeeded keep their effect.
fn pop2(st: &mut StackMachineState) -> (r: Result<(i64, i64), StackMachineError>)
    ensures
        old(st)@.stack.len() == 0 ==> r == Err::<(i64, i64), StackMachineError>(
            StackMachineError::NumberStackUnderflow,
        ) && final(st)@ == old(st)@,
        old(st)@.stack.len() == 1 ==> r == Err::<(i64, i64), StackMachineError>(
            StackMachineError::NumberStackUnderflow,
        ) && final(st)@ == (MachineView { stack: old(st)@.stack.drop_last(), ..old(st)@ }),
        old(st)@.stack.len() >= 2 ==> r == Ok::<(i64, i64), StackMachineError>(
            (old(st)@.stack.last(), old(st)@.stack[old(st)@.stack.len() - 2]),
        ) && final(st)@ == (MachineView {
            stack: old(st)@.stack.subrange(0, old(st)@.stack.len() - 2),
            ..old(st)@
        }),
{
    match st.number_stack.pop() {
        None => Err(StackMachineError::NumberStackUnderflow),
        Some(x) => match st.number_stack.pop() {
            None => Err(StackMachineError::NumberStackUnderflow),
            Some(y) => {
                proof {
                    assert(st@.stack =~= old(st)@.stack.subrange(0, old(st)@.stack.len() - 2));
                }
                Ok((x, y))
            }
        },
    }
}

/// Executes one of the opcodes that pop a single value (`POP`, `DUP`,
/// `CMPZ`, `CMPNZ`, `NOT`): exactly `op_step` on the state, advancing the
/// program counter on success.
fn step_one_pop(st: &mut StackMachineState, op: Opcode) -> (r: Result<(), StackMachineError>)
    requires
        old(st)@.pc < old(st)@.code.len(),
        old(st)@.pc < usize::MAX,
        old(st)@.code[old(st)@.pc as int] == op,
        op is POP || op is DUP || op is CMPZ || op is CMPNZ || op is NOT,
    ensures
        final(st)@.code == old(st)@.code,
        final(st)@.gas == old(st)@.gas,
        match r {
            Ok(()) => op_step(old(st)@) == OpOutcome::Stepped(final(st)@),
            Err(e) => op_step(old(st)@) == OpOutcome::Failed(e, final(st)@),
        },
{
    proof {
        reveal(op_step);
    }
    let ghost pre = st@;
    let x = match pop1(st) {
        Err(e) => {
            return Err(e);
        }
        Ok(x) => x,
    };
    match op {
        Opcode::POP => {}
        Opcode::DUP => {
            st.number_stack.push(x);
            st.number_stack.push(x);
            proof {
                assert(pre.stack.drop_last().push(x).push(x) =~= pre.stack.push(x));
            }
        }
        Opcode::CMPZ => {
            let flag: i64 = if x == 0 {
                0
            } else {
                -1
            };
            st.number_stack.push(flag);
        }
        Opcode::CMPNZ => {
            let flag: i64 = if x == 0 {
                -1
            } else {
                0
            };
            st.number_stack.push(flag);
        }
        _ => {
            // the bitwise complement of a two's-complement value
            let c: i64 = -1 - x;
            st.number_stack.push(c);
        }
    }
    st.pc = st.pc + 1;
    Ok(())
}

/// Executes one of the opcodes that pop two values, top first (`ADD`, `SUB`,
/// `MUL`, `DIV`, `SWAP`): exactly `op_step` on the state, advancing the
/// program counter on success.  Addition, subtraction and multiplication wrap
/// around; a division by zero or the one overflowing quotient fails.
fn step_two_pop(st: &mut StackMachineState, op: Opcode) -> (r: Result<(), StackMachineError>)
    requires
        old(st)@.pc < old(st)@.code.len(),
        old(st)@.pc < usize::MAX,
        old(st)@.code[old(st)@.pc as int] == op,
        op is ADD || op is SUB || op is MUL || op is DIV || op is SWAP,
    ensures
        final(st)@.code == old(st)@.code,
        final(st)@.gas == old(st)@.gas,
        match r {
            Ok(()) => op_step(old(st)@) == OpOutcome::Stepped(final(st)@),
            Err(e) => op_step(old(st)@) == OpOutcome::Failed(e, final(st)@),
        },
{
    proof {
        reveal(op_step);
    }
    let (x, y) = match pop2(st) {
        Err(e) => {
            return Err(e);
        }
        Ok(p) => p,
    };
    match op {
        Opcode::ADD => {
            st.number_stack.push(x.wrapping_add(y));
        }
        Opcode::SUB => {
            st.number_stack.push(x.wrapping_sub(y));
        }
        Opcode::MUL => {
            st.number_stack.push(x.wrapping_mul(y));
        }
        Opcode::DIV => {
            match x.checked_div(y) {
                Some(q) => {
                    st.number_stack.push(q);
                }
                None => {
                    return Err(StackMachineError::UnkownError);
                }
            }
        }
        _ => {
            st.number_stack.push(x);
            st.number_stack.push(y);
        }
    }
    st.pc = st.pc + 1;
    Ok(())
}

/// Executes one of the control-transfer opcodes (`JMP`, `JR`, `JRZ`, `JRNZ`,
/// `CALL`): exactly `op_step` on the state.  A target that no program counter
/// can hold fails with `UnkownError`.
fn step_transfer(st: &mut StackMachineState, op: Opcode) -> (r: Result<(), StackMachineError>)
    requires
        old(st)@.pc < old(st)@.code.len(),
        old(st)@.pc < usize::MAX,
        old(st)@.code[old(st)@.pc as int] == op,
        op is JMP || op is JR || op is JRZ || op is JRNZ || op is CALL,
    ensures
        final(st)@.code == old(st)@.code,
        final(st)@.gas == old(st)@.gas,
        match r {
            Ok(()) => op_step(old(st)@) == OpOutcome::Stepped(final(st)@),
            Err(e) => op_step(old(st)@) == OpOutcome::Failed(e, final(st)@),
        },
{
    proof {
        reveal(op_step);
    }
    match op {
        Opcode::JMP => {
            let t = match pop1(st) {
                Err(e) => {
                    return Err(e);
                }
                Ok(t) => t,
            };
            if t >= 0 && t as u64 <= usize::MAX as u64 {
                st.pc = t as usize;
                Ok(())
            } else {
                Err(StackMachineError::UnkownError)
            }
        }
        Opcode::CALL => {
            st.return_stack.push(st.pc + 1);
            let t = match pop1(st) {
                Err(e) => {
                    return Err(e);
                }
                Ok(t) => t,
            };
            if t >= 0 && t as u64 <= usize::MAX as u64 {
                st.pc = t as usize;
                Ok(())
            } else {
                Err(StackMachineError::UnkownError)
            }
        }
        Opcode::JR => {
            let off = match pop1(st) {
                Err(e) => {
                    return Err(e);
                }
                Ok(off) => off,
            };
            let t: i128 = st.pc as i128 + off as i128;
            if t >= 0 && t <= usize::MAX as i128 {
                st.pc = t as usize;
                Ok(())
            } else {
                Err(StackMachineError::UnkownError)
            }
        }
        Opcode::JRZ => {
            let (off, x) = match pop2(st) {
                Err(e) => {
                    return Err(e);
                }
                Ok(p) => p,
            };
            if x == 0 {
                let t: i128 = st.pc as i128 + off as i128;
                if t >= 0 && t <= usize::MAX as i128 {
                    st.pc = t as usize;
                    Ok(())
                } else {
                    Err(StackMachineError::UnkownError)
                }
            } else {
                st.pc = st.pc + 1;
                Ok(())
            }
        }
        _ => {
            let (off, x) = match pop2(st) {
                Err(e) => {
                    return Err(e);
                }
                Ok(p) => p,
            };
            if x != 0 {
                let t: i128 = st.pc as i128 + off as i128;
                if t >= 0 && t <= usize::MAX as i128 {
                    st.pc = t as usize;
                    Ok(())
                } else {
                    Err(StackMachineError::UnkownError)
                }
            } else {
                st.pc = st.pc + 1;
                Ok(())
            }
        }
    }
}

/// How one call of `step_instr` went; each variant's meaning is fixed by
/// `step_instr`'s contract in terms of `op_step`.
enum StepInstr {
    Stepped,
    Finished,
    Fail(StackMachineError),
    TrapHandled,
    TrapFail(StackMachineError),
}

/// One virtual machine: its state plus the ordered chain of trap handlers.
pub struct StackMachine<H: HandleTrap> {
    pub st: StackMachineState,
    pub trap_handlers: Vec<H>,
}

impl<H: HandleTrap> StackMachine<H> {
    /// A fresh machine with no registered trap handlers.
    pub fn new() -> (sm: StackMachine<H>)
        ensures
            sm.st@.stack == Seq::<i64>::empty(),
            sm.st@.rstack == Seq::<usize>::empty(),
            sm.st@.code == Seq::<Opcode>::empty(),
            sm.st@.pc == 0,
            sm.st@.gas == 0,
            sm.trap_handlers@ == Seq::<H>::empty(),
    {
        StackMachine { st: StackMachineState::new(), trap_handlers: Vec::new() }
    }

    /// Fetches and executes the single instruction at the current program
    /// counter, without touching the gas counter: exactly `op_step` on the
    /// machine's state.  A `TRAP` is dispatched to the handler chain in
    /// registration order; `TrapHandled` reports that some handler claimed it
    /// (the handlers may have rewritten the operand stack), `TrapFail` that a
    /// handler failed or none claimed the trap.
    #[verifier::rlimit(100)]
    #[verifier::spinoff_prover]
    fn step_instr(&mut self) -> (r: StepInstr)
        ensures
            final(self).trap_handlers@.len() == old(self).trap_handlers@.len(),
            final(self).st@.code == old(self).st@.code,
            final(self).st@.gas == old(self).st@.gas,
            match r {
                StepInstr::Stepped => op_step(old(self).st@) == OpOutcome::Stepped(final(self).st@),
                StepInstr::Finished => op_step(old(self).st@) == OpOutcome::Finished && final(self).st@ == old(self).st@,
                StepInstr::Fail(e) => op_step(old(self).st@) == OpOutcome::Failed(
                    e,
                    final(self).st@,
                ),
                StepInstr::TrapHandled => op_step(old(self).st@) is Trap && old(self).trap_handlers@.len() > 0,
                StepInstr::TrapFail(e) => op_step(old(self).st@) is Trap && (old(self).trap_handlers@.len() == 0 ==> e == StackMachineError::UnhandledTrap && final(self).st@ == op_step(old(self).st@)->Trap_0),
            },
    {
        let ghost pre = self.st@;
        if self.st.pc >= self.st.opcodes.len() {
            proof {
                reveal(op_step);
            }
            return StepInstr::Fail(StackMachineError::UnkownError);
        }
        let op: Opcode = self.st.opcodes[self.st.pc];
        match op {
            Opcode::NOP => {
                self.st.pc = self.st.pc + 1;
                proof {
                    reveal(op_step);
                    assert(op_step(pre) == OpOutcome::Stepped(self.st@));
                }
                StepInstr::Stepped
            }
            Opcode::LDI(x) => {
                self.st.number_stack.push(x);
                self.st.pc = self.st.pc + 1;
                proof {
                    reveal(op_step);
                    assert(op_step(pre) == OpOutcome::Stepped(self.st@));
                }
                StepInstr::Stepped
            }
            Opcode::POP | Opcode::DUP | Opcode::CMPZ | Opcode::CMPNZ | Opcode::NOT => {
                match step_one_pop(&mut self.st, op) {
                    Ok(()) => StepInstr::Stepped,
                    Err(e) => StepInstr::Fail(e),
                }
            }
            Opcode::ADD | Opcode::SUB | Opcode::MUL | Opcode::DIV | Opcode::SWAP => {
                match step_two_pop(&mut self.st, op) {
                    Ok(()) => StepInstr::Stepped,
                    Err(e) => StepInstr::Fail(e),
                }
            }
            Opcode::JMP | Opcode::JR | Opcode::JRZ | Opcode::JRNZ | Opcode::CALL => {
                match step_transfer(&mut self.st, op) {
                    Ok(()) => StepInstr::Stepped,
                    Err(e) => StepInstr::Fail(e),
                }
            }
            Opcode::RET => {
                match self.st.return_stack.pop() {
                    None => {
                        proof {
                            reveal(op_step);
                        }
                        StepInstr::Finished
                    }
                    Some(oldpc) => {
                        self.st.pc = oldpc;
                        proof {
                            reveal(op_step);
                            assert(op_step(pre) == OpOutcome::Stepped(self.st@));
                        }
                        StepInstr::Stepped
                    }
                }
            }
            Opcode::TRAP => {
                match pop1(&mut self.st) {
                    Err(e) => {
                        proof {
                            reveal(op_step);
                        }
                        StepInstr::Fail(e)
                    }
                    Ok(trap_id) => {
                        let ghost trap_point = self.st@;
                        proof {
                            reveal(op_step);
                            assert(op_step(pre) == OpOutcome::Trap(trap_point, trap_id));
                        }
                        let mut handled = false;
                        let mut idx: usize = 0;
                        while idx < self.trap_handlers.len() && !handled
                            invariant
                                idx <= self.trap_handlers@.len(),
                                self.trap_handlers@.len() == old(self).trap_handlers@.len(),
                                self.st@.code == old(self).st@.code,
                                self.st@.rstack == trap_point.rstack,
                                self.st@.pc == trap_point.pc,
                                self.st@.gas == old(self).st@.gas,
                                op_step(old(self).st@) == OpOutcome::Trap(trap_point, trap_id),
                                trap_point.pc < old(self).st@.code.len(),
                                old(self).trap_handlers@.len() == 0 ==> self.st@ == trap_point,
                                handled ==> old(self).trap_handlers@.len() > 0,
                            decreases self.trap_handlers@.len() - idx,
                        {
                            let mut h = self.trap_handlers.remove(idx);
                            let res = h.handle_trap(trap_id, &mut self.st.number_stack);
                            self.trap_handlers.insert(idx, h);
                            match res {
                                Err(e) => {
                                    return StepInstr::TrapFail(e);
                                }
                                Ok(TrapHandled::Handled) => {
                                    handled = true;
                                    idx = idx + 1;
                                }
                                Ok(TrapHandled::NotHandled) => {
                                    idx = idx + 1;
                                }
                            }
                        }
                        if !handled {
                            return StepInstr::TrapFail(StackMachineError::UnhandledTrap);
                        }
                        self.st.pc = self.st.pc + 1;
                        StepInstr::TrapHandled
                    }
                }
            }
        }
    }
    /// Runs the machine from `starting_point` under `gas_limit`, resetting the
    /// gas counter first.  The run ends successfully only through a `RET` on
    /// an empty return stack; it ends in an error on a stack underflow, an
    /// unrepresentable control target, a division failure, a fetch past the
    /// image, an exceeded budget, an unclaimed trap, or an error a trap
    /// handler reports.
    ///
    /// The contract pins the run to the spec-level semantics `run_n`: as long
    /// as no `TRAP` is reached, the result and the final state are exactly
    /// what the spec run prescribes.  From the first trap on, host handlers
    /// rewrite the operand stack, so only weaker facts are promised: the
    /// opcode image is never touched by the engine, and with no registered
    /// handlers a trap always fails as unhandled with the machine exactly at
    /// the dispatch point.
    #[verifier::rlimit(60)]
    #[verifier::spinoff_prover]
    pub fn execute(&mut self, starting_point: usize, gas_limit: GasLimit) -> (r: Result<
        (),
        StackMachineError,
    >)
        ensures
            ({
                let init = MachineView {
                    stack: old(self).st@.stack,
                    rstack: old(self).st@.rstack,
                    code: old(self).st@.code,
                    pc: starting_point,
                    gas: 0,
                };
                &&& final(self).st@.code == old(self).st@.code
                &&& final(self).trap_handlers@.len() == old(self).trap_handlers@.len()
                &&& forall|n: nat|
                    (#[trigger] run_n(init, gas_limit, n)) is Done ==> r == Ok::<
                        (),
                        StackMachineError,
                    >(()) && run_n(init, gas_limit, n) == RunState::Done(final(self).st@)
                &&& forall|n: nat|
                    (#[trigger] run_n(init, gas_limit, n)) is Failed ==> r == Err::<
                        (),
                        StackMachineError,
                    >(run_n(init, gas_limit, n)->Failed_0) && run_n(init, gas_limit, n)
                        == RunState::Failed(run_n(init, gas_limit, n)->Failed_0, final(self).st@)
                &&& forall|n: nat|
                    ((#[trigger] run_n(init, gas_limit, n)) is Trapped && old(self).trap_handlers@.len() == 0) ==> r == Err::<(), StackMachineError>(
                        StackMachineError::UnhandledTrap,
                    ) && run_n(init, gas_limit, n) == RunState::Trapped(
                        final(self).st@,
                        run_n(init, gas_limit, n)->Trapped_1,
                    )
                &&& r is Ok ==> exists|n: nat|
                    (#[trigger] run_n(init, gas_limit, n)) is Done || run_n(init, gas_limit, n)
                        is Trapped
                &&& r matches Err(e) ==> exists|n: nat|
                    (#[trigger] run_n(init, gas_limit, n)) == RunState::Failed(e, final(self).st@)
                        || run_n(init, gas_limit, n) is Trapped
            }),
    {
        self.st.gas_used = 0;
        self.st.pc = starting_point;
        let ghost init: MachineView = self.st@;
        let ghost h0: nat = self.trap_handlers@.len();
        let ghost mut steps: nat = 0;
        let ghost mut trapped: bool = false;
        let ghost mut trap_k: nat = 0;
        loop
            invariant
                self.st@.code == init.code,
                self.trap_handlers@.len() == h0,
                h0 == old(self).trap_handlers@.len(),
                init == (MachineView {
                    stack: old(self).st@.stack,
                    rstack: old(self).st@.rstack,
                    code: old(self).st@.code,
                    pc: starting_point,
                    gas: 0,
                }),
                !trapped ==> run_n(init, gas_limit, steps) == RunState::Running(self.st@),
                trapped ==> run_n(init, gas_limit, trap_k) is Trapped && h0 > 0,
            decreases u64::MAX - self.st.gas_used,
        {
            let ghost pre = self.st@;
            match self.step_instr() {
                StepInstr::Finished => {
                    proof {
                        if !trapped {
                            lemma_step_terminates(
                                init,
                                gas_limit,
                                steps,
                                pre,
                                RunState::Done(pre),
                            );
                        } else {
                            lemma_run_n_terminal(init, gas_limit, trap_k);
                        }
                    }
                    return Ok(());
                }
                StepInstr::Fail(e) => {
                    proof {
                        if !trapped {
                            lemma_step_terminates(
                                init,
                                gas_limit,
                                steps,
                                pre,
                                RunState::Failed(e, self.st@),
                            );
                        } else {
                            lemma_run_n_terminal(init, gas_limit, trap_k);
                        }
                    }
                    return Err(e);
                }
                StepInstr::TrapFail(e) => {
                    proof {
                        if !trapped {
                            lemma_step_terminates(
                                init,
                                gas_limit,
                                steps,
                                pre,
                                RunState::Trapped(op_step(pre)->Trap_0, op_step(pre)->Trap_1),
                            );
                        } else {
                            lemma_run_n_terminal(init, gas_limit, trap_k);
                        }
                    }
                    return Err(e);
                }
                StepInstr::TrapHandled => {
                    proof {
                        if !trapped {
                            lemma_run_n_step(init, gas_limit, steps);
                            trapped = true;
                            trap_k = steps + 1;
                            assert(run_n(init, gas_limit, trap_k) is Trapped);
                        }
                    }
                }
                StepInstr::Stepped => {}
            }
            let ghost mid = self.st@;
            if self.st.gas_used == u64::MAX {
                proof {
                    if !trapped {
                        lemma_step_terminates(
                            init,
                            gas_limit,
                            steps,
                            pre,
                            RunState::Failed(StackMachineError::RanOutOfGas, mid),
                        );
                    } else {
                        lemma_run_n_terminal(init, gas_limit, trap_k);
                    }
                }
                return Err(StackMachineError::RanOutOfGas);
            }
            self.st.gas_used = self.st.gas_used + 1;
            proof {
                if !trapped {
                    assert(step_view(pre, gas_limit) == charge_gas(mid, gas_limit));
                    lemma_run_n_step(init, gas_limit, steps);
                    steps = steps + 1;
                }
            }
            if let GasLimit::Limited(x) = gas_limit {
                if self.st.gas_used > x {
                    proof {
                        if !trapped {
                            assert(run_n(init, gas_limit, steps) == RunState::Failed(
                                StackMachineError::RanOutOfGas,
                                self.st@,
                            ));
                            lemma_run_n_terminal(init, gas_limit, steps);
                        } else {
                            lemma_run_n_terminal(init, gas_limit, trap_k);
                        }
                    }
                    return Err(StackMachineError::RanOutOfGas);
                }
            }
            proof {
                if !trapped {
                    assert(run_n(init, gas_limit, steps) == RunState::Running(self.st@));
                }
            }
        }
    }
}

} // verus!
