//! The interpreter: a fetch-execute machine over four signed 32-bit
//! registers, executing the optimised instruction stream while `Toggle`
//! rewrites the canonical stream and triggers wholesale re-optimisation.
//!
//! The machine's behaviour is pinned down by a small-step specification
//! (`step_spec`) and a fuelled run function (`run_spec`); `Cpu::process`
//! is proved to realise exactly that specification.

use vstd::prelude::*;
use vstd::wrapping::i32_specs;

use crate::instr::ExecError;
use crate::instr::Instruction;
use crate::instr::Operand;
use crate::instr::is_synthesized;
use crate::instr::toggle_spec;
use crate::optimiser::lemma_optimise_preserves_length;
use crate::optimiser::optimise;
use crate::optimiser::optimise_spec;

verus! {

/// The value an operand denotes against a register file: literals denote
/// themselves, register references denote the register's content, and a
/// reference outside the register file denotes nothing.
pub open spec fn value_spec(regs: Seq<i32>, op: Operand) -> Option<i32> {
    match op {
        Operand::Register(idx) => if idx < regs.len() {
            Some(regs[idx as int])
        } else {
            None
        },
        Operand::Literal(v) => Some(v),
    }
}

/// Writing `value(source)` into `reg`: fails on a literal target, an unknown
/// source register, or an unknown target register; otherwise yields the
/// updated register file.
pub open spec fn set_value_spec(regs: Seq<i32>, reg: Operand, source: Operand) -> Result<
    Seq<i32>,
    ExecError,
> {
    match reg {
        Operand::Register(idx) => match value_spec(regs, source) {
            Some(v) => if idx < regs.len() {
                Ok(regs.update(idx as int, v))
            } else {
                Err(ExecError::UnknownRegister)
            },
            None => Err(ExecError::UnknownRegister),
        },
        Operand::Literal(_) => Err(ExecError::NonRegisterTarget),
    }
}

/// The machine state the small-step semantics acts on: the register file, the
/// canonical (unoptimised) program, and the program counter. The optimised
/// stream is not part of the state; it is always `optimise_spec(canonical)`.
pub struct MachState {
    pub regs: Seq<i32>,
    pub canonical: Seq<Instruction>,
    pub pc: int,
}

/// A machine state is well formed when it has exactly the four registers.
pub open spec fn mach_wf(s: MachState) -> bool {
    s.regs.len() == 4
}

/// Outcome of executing one instruction: either an invariant violation that
/// stops the machine, or the successor state together with the value emitted
/// by an `Out` instruction, if any.
pub enum StepSpecOutcome {
    Fatal(ExecError),
    Next { next: MachState, output: Option<i32> },
}

/// One step of the machine: dispatch on the optimised instruction under the
/// program counter. Toggle targets the canonical program; a toggle landing
/// outside the program is a no-op (the program is left unchanged and
/// execution continues), while one landing on a synthesized instruction is
/// fatal.
pub open spec fn step_spec(s: MachState) -> StepSpecOutcome
    recommends
        mach_wf(s),
        0 <= s.pc < s.canonical.len(),
{
    let instr = optimise_spec(s.canonical)[s.pc];
    match instr {
        Instruction::Copy { source, target } => match set_value_spec(s.regs, target, source) {
            Ok(regs2) => StepSpecOutcome::Next {
                next: MachState { regs: regs2, pc: s.pc + 1, ..s },
                output: None,
            },
            Err(e) => StepSpecOutcome::Fatal(e),
        },
        Instruction::Inc { reg } => match reg {
            Operand::Register(idx) => if idx < s.regs.len() {
                StepSpecOutcome::Next {
                    next: MachState {
                        regs: s.regs.update(
                            idx as int,
                            i32_specs::wrapping_add(s.regs[idx as int], 1),
                        ),
                        pc: s.pc + 1,
                        ..s
                    },
                    output: None,
                }
            } else {
                StepSpecOutcome::Fatal(ExecError::UnknownRegister)
            },
            Operand::Literal(_) => StepSpecOutcome::Next {
                next: MachState { pc: s.pc + 1, ..s },
                output: None,
            },
        },
        Instruction::Dec { reg } => match reg {
            Operand::Register(idx) => if idx < s.regs.len() {
                StepSpecOutcome::Next {
                    next: MachState {
                        regs: s.regs.update(
                            idx as int,
                            i32_specs::wrapping_sub(s.regs[idx as int], 1),
                        ),
                        pc: s.pc + 1,
                        ..s
                    },
                    output: None,
                }
            } else {
                StepSpecOutcome::Fatal(ExecError::UnknownRegister)
            },
            Operand::Literal(_) => StepSpecOutcome::Next {
                next: MachState { pc: s.pc + 1, ..s },
                output: None,
            },
        },
        Instruction::JumpNotZero { check, delta } => match value_spec(s.regs, check) {
            None => StepSpecOutcome::Fatal(ExecError::UnknownRegister),
            Some(c) => if c != 0 {
                match value_spec(s.regs, delta) {
                    None => StepSpecOutcome::Fatal(ExecError::UnknownRegister),
                    Some(d) => StepSpecOutcome::Next {
                        next: MachState { pc: s.pc + d, ..s },
                        output: None,
                    },
                }
            } else {
                StepSpecOutcome::Next { next: MachState { pc: s.pc + 1, ..s }, output: None }
            },
        },
        Instruction::Toggle { reg } => match value_spec(s.regs, reg) {
            None => StepSpecOutcome::Fatal(ExecError::UnknownRegister),
            Some(v) => {
                let idx = s.pc + v;
                if 0 <= idx < s.canonical.len() {
                    if is_synthesized(s.canonical[idx]) {
                        StepSpecOutcome::Fatal(ExecError::ToggledSynthesized)
                    } else {
                        StepSpecOutcome::Next {
                            next: MachState {
                                canonical: s.canonical.update(idx, toggle_spec(s.canonical[idx])),
                                pc: s.pc + 1,
                                ..s
                            },
                            output: None,
                        }
                    }
                } else {
                    StepSpecOutcome::Next { next: MachState { pc: s.pc + 1, ..s }, output: None }
                }
            },
        },
        Instruction::Out { operand } => match value_spec(s.regs, operand) {
            None => StepSpecOutcome::Fatal(ExecError::UnknownRegister),
            Some(v) => StepSpecOutcome::Next {
                next: MachState { pc: s.pc + 1, ..s },
                output: Some(v),
            },
        },
        Instruction::MultiplyAddAndClear { factor_1, factor_2, target, clear } => match target {
            Operand::Register(t) => match (value_spec(s.regs, factor_1), value_spec(
                s.regs,
                factor_2,
            )) {
                (Some(v1), Some(v2)) => if t < s.regs.len() {
                    let prod = i32_specs::wrapping_mul(v1, v2);
                    let regs1 = s.regs.update(
                        t as int,
                        i32_specs::wrapping_add(s.regs[t as int], prod),
                    );
                    match set_value_spec(regs1, factor_2, Operand::Literal(0)) {
                        Err(e) => StepSpecOutcome::Fatal(e),
                        Ok(regs2) => match set_value_spec(regs2, clear, Operand::Literal(0)) {
                            Err(e) => StepSpecOutcome::Fatal(e),
                            Ok(regs3) => StepSpecOutcome::Next {
                                next: MachState { regs: regs3, pc: s.pc + 6, ..s },
                                output: None,
                            },
                        },
                    }
                } else {
                    StepSpecOutcome::Fatal(ExecError::UnknownRegister)
                },
                _ => StepSpecOutcome::Fatal(ExecError::UnknownRegister),
            },
            Operand::Literal(_) => match set_value_spec(s.regs, clear, Operand::Literal(0)) {
                Err(e) => StepSpecOutcome::Fatal(e),
                Ok(regs2) => StepSpecOutcome::Next {
                    next: MachState { regs: regs2, pc: s.pc + 6, ..s },
                    output: None,
                },
            },
        },
        Instruction::AddAndClear { source, target, clear } => match (source, target, clear) {
            (Operand::Register(sr), Operand::Register(tr), Operand::Register(cr)) => if sr
                < s.regs.len() && tr < s.regs.len() && cr < s.regs.len() {
                StepSpecOutcome::Next {
                    next: MachState {
                        regs: s.regs.update(
                            tr as int,
                            i32_specs::wrapping_add(s.regs[tr as int], s.regs[sr as int]),
                        ).update(cr as int, 0i32),
                        pc: s.pc + 4,
                        ..s
                    },
                    output: None,
                }
            } else {
                StepSpecOutcome::Fatal(ExecError::UnknownRegister)
            },
            _ => StepSpecOutcome::Next { next: MachState { pc: s.pc + 4, ..s }, output: None },
        },
        Instruction::Nop => StepSpecOutcome::Fatal(ExecError::ExecutedNop),
    }
}

/// How one run ends: the machine halted by leaving the program, the
/// environment signalled a termination reason, or the step budget ran out.
#[derive(Debug, PartialEq, Eq)]
pub enum Termination<T> {
    Halted,
    Signalled(T),
    OutOfFuel,
}

/// The output sink and termination policy the interpreter reports to. After
/// every executed instruction the environment is consulted; an `Out`
/// instruction additionally hands it the emitted value first. Each
/// implementation describes itself through a mathematical model so that
/// `Cpu::process` can promise exactly how the environment evolves.
pub trait ExecutionEnvironment: Sized {
    /// The reason type this environment can terminate a run with.
    type Reason;

    /// The mathematical model of this environment's state.
    type Model;

    /// The model of the current state.
    spec fn model(self) -> Self::Model;

    /// How the model evolves when an output value is received.
    spec fn model_after_output(m: Self::Model, val: i32) -> Self::Model;

    /// How the model evolves when a termination check is made.
    spec fn model_after_check(m: Self::Model, regs: Seq<i32>, pc: int) -> Self::Model;

    /// The decision a termination check makes, as a function of the model.
    spec fn model_decision(m: Self::Model, regs: Seq<i32>, pc: int) -> Option<Self::Reason>;

    /// Receives one emitted value.
    fn handle_output(&mut self, val: i32)
        ensures
            final(self).model() == Self::model_after_output(old(self).model(), val),
    ;

    /// Decides whether the run should stop, given the registers and program
    /// counter after the instruction just executed.
    fn should_terminate(&mut self, registers: [i32; 4], program_counter: i64) -> (r: Option<
        Self::Reason,
    >)
        ensures
            final(self).model() == Self::model_after_check(
                old(self).model(),
                registers@,
                program_counter as int,
            ),
            r == Self::model_decision(old(self).model(), registers@, program_counter as int),
    ;
}

/// Where a fuelled run ends: final machine state, final environment model,
/// and the outcome handed back to the caller.
pub struct RunEnd<Env: ExecutionEnvironment> {
    pub state: MachState,
    pub env: Env::Model,
    pub outcome: Result<Termination<Env::Reason>, ExecError>,
}

/// Runs the machine for at most `fuel` instructions: halt when the program
/// counter leaves the program, stop with the environment's reason when it
/// signals one, stop with the fatal error when a step violates an invariant.
pub open spec fn run_spec<Env: ExecutionEnvironment>(
    s: MachState,
    env: Env::Model,
    fuel: nat,
) -> RunEnd<Env>
    decreases fuel,
{
    if !(0 <= s.pc < s.canonical.len()) {
        RunEnd { state: s, env, outcome: Ok(Termination::Halted) }
    } else if fuel == 0 {
        RunEnd { state: s, env, outcome: Ok(Termination::OutOfFuel) }
    } else {
        match step_spec(s) {
            StepSpecOutcome::Fatal(e) => RunEnd { state: s, env, outcome: Err(e) },
            StepSpecOutcome::Next { next, output } => {
                let env1 = match output {
                    Some(v) => Env::model_after_output(env, v),
                    None => env,
                };
                let dec = Env::model_decision(env1, next.regs, next.pc);
                let env2 = Env::model_after_check(env1, next.regs, next.pc);
                match dec {
                    Some(t) => RunEnd {
                        state: next,
                        env: env2,
                        outcome: Ok(Termination::Signalled(t)),
                    },
                    None => run_spec::<Env>(next, env2, (fuel - 1) as nat),
                }
            },
        }
    }
}

/// A toggle whose computed target lies outside the program is a no-op: the
/// canonical program and the registers are left unchanged, nothing is
/// emitted, and execution continues at the next instruction.
pub proof fn lemma_toggle_out_of_range_is_noop(s: MachState, reg: Operand, v: i32)
    requires
        mach_wf(s),
        0 <= s.pc < s.canonical.len(),
        optimise_spec(s.canonical)[s.pc] == (Instruction::Toggle { reg }),
        value_spec(s.regs, reg) == Some(v),
        !(0 <= s.pc + v < s.canonical.len()),
    ensures
        step_spec(s) == (StepSpecOutcome::Next {
            next: MachState { pc: s.pc + 1, ..s },
            output: None,
        }),
{
}

/// A toggle whose computed target lands on an optimiser-synthesized
/// instruction in the canonical program stops the machine with the
/// invariant-violation error rather than proceeding.
pub proof fn lemma_toggle_synthesized_is_fatal(s: MachState, reg: Operand, v: i32)
    requires
        mach_wf(s),
        0 <= s.pc < s.canonical.len(),
        optimise_spec(s.canonical)[s.pc] == (Instruction::Toggle { reg }),
        value_spec(s.regs, reg) == Some(v),
        0 <= s.pc + v < s.canonical.len(),
        is_synthesized(s.canonical[s.pc + v]),
    ensures
        step_spec(s) == StepSpecOutcome::Fatal(ExecError::ToggledSynthesized),
{
}

/// The interpreter: four registers and an output environment. Registers and
/// program counter live only for the duration of one `process` call; the
/// caller reads the final registers afterwards.
pub struct Cpu<Env: ExecutionEnvironment> {
    pub regs: [i32; 4],
    pub exec_env: Env,
}

impl<Env: ExecutionEnvironment> Cpu<Env> {
    /// A fresh machine: register `a` holds `a_val`, the rest are zero. The
    /// environment is primed with a single zero output.
    pub fn new(a_val: i32, exec_env: Env) -> (r: Cpu<Env>)
        ensures
            r.regs@ == seq![a_val, 0i32, 0i32, 0i32],
            r.exec_env.model() == Env::model_after_output(exec_env.model(), 0),
    {
        let mut exec_env = exec_env;
        exec_env.handle_output(0);
        let r = Cpu { regs: [a_val, 0, 0, 0], exec_env };
        proof {
            assert(r.regs@ =~= seq![a_val, 0i32, 0i32, 0i32]);
        }
        r
    }

    /// The value an operand denotes against this machine's registers, or
    /// `None` for a reference to a register that does not exist.
    pub fn value(&self, reg_or_val: Operand) -> (r: Option<i32>)
        ensures
            r == value_spec(self.regs@, reg_or_val),
    {
        match reg_or_val {
            Operand::Register(reg_idx) => if reg_idx < 4 {
                Some(self.regs[reg_idx])
            } else {
                None
            },
            Operand::Literal(value) => Some(value),
        }
    }

    /// Writes the value of `reg_or_val` into the register named by `reg`,
    /// failing exactly when `set_value_spec` does; on failure the registers
    /// are untouched.
    pub fn set_value(&mut self, reg: Operand, reg_or_val: Operand) -> (r: Result<(), ExecError>)
        ensures
            final(self).exec_env == old(self).exec_env,
            ({
                match set_value_spec(old(self).regs@, reg, reg_or_val) {
                    Ok(regs2) => r is Ok && final(self).regs@ == regs2,
                    Err(e) => r == Result::<(), ExecError>::Err(e) && final(self).regs@ == old(
                        self,
                    ).regs@,
                }
            }),
    {
        match reg {
            Operand::Register(reg_idx) => match self.value(reg_or_val) {
                Some(v) => if reg_idx < 4 {
                    self.regs[reg_idx] = v;
                    Ok(())
                } else {
                    Err(ExecError::UnknownRegister)
                },
                None => Err(ExecError::UnknownRegister),
            },
            Operand::Literal(_) => Err(ExecError::NonRegisterTarget),
        }
    }

    /// Executes the single optimised instruction under `*pc`, returning the
    /// value emitted by an `Out` instruction if any. On a fatal error nothing
    /// is changed. The optimised stream is kept equal to the optimisation of
    /// the canonical stream throughout.
    fn step(
        &mut self,
        canonical: &mut Vec<Instruction>,
        optimised: &mut Vec<Instruction>,
        pc: &mut i64,
    ) -> (r: Result<Option<i32>, ExecError>)
        requires
            old(canonical)@.len() <= i32::MAX,
            old(optimised)@ == optimise_spec(old(canonical)@),
            0 <= *old(pc) < old(canonical)@.len(),
        ensures
            final(self).exec_env == old(self).exec_env,
            final(canonical)@.len() == old(canonical)@.len(),
            ({
                let s0 = MachState {
                    regs: old(self).regs@,
                    canonical: old(canonical)@,
                    pc: *old(pc) as int,
                };
                match step_spec(s0) {
                    StepSpecOutcome::Fatal(e) => {
                        &&& r == Result::<Option<i32>, ExecError>::Err(e)
                        &&& final(self).regs@ == old(self).regs@
                        &&& final(canonical)@ == old(canonical)@
                        &&& final(optimised)@ == old(optimised)@
                        &&& *final(pc) == *old(pc)
                    },
                    StepSpecOutcome::Next { next, output } => {
                        &&& r == Result::<Option<i32>, ExecError>::Ok(output)
                        &&& final(self).regs@ == next.regs
                        &&& final(canonical)@ == next.canonical
                        &&& final(optimised)@ == optimise_spec(next.canonical)
                        &&& *final(pc) as int == next.pc
                    },
                }
            }),
    {
        proof {
            lemma_optimise_preserves_length(canonical@);
        }
        let instr = optimised[*pc as usize];
        match instr {
            Instruction::Copy { source, target } => {
                match self.set_value(target, source) {
                    Ok(()) => {
                        *pc = *pc + 1;
                        Ok(None)
                    },
                    Err(e) => Err(e),
                }
            },
            Instruction::Inc { reg } => {
                match reg {
                    Operand::Register(reg_idx) => {
                        if reg_idx < 4 {
                            let cur = self.regs[reg_idx];
                            self.regs[reg_idx] = cur.wrapping_add(1);
                            *pc = *pc + 1;
                            Ok(None)
                        } else {
                            Err(ExecError::UnknownRegister)
                        }
                    },
                    Operand::Literal(_) => {
                        *pc = *pc + 1;
                        Ok(None)
                    },
                }
            },
            Instruction::Dec { reg } => {
                match reg {
                    Operand::Register(reg_idx) => {
                        if reg_idx < 4 {
                            let cur = self.regs[reg_idx];
                            self.regs[reg_idx] = cur.wrapping_sub(1);
                            *pc = *pc + 1;
                            Ok(None)
                        } else {
                            Err(ExecError::UnknownRegister)
                        }
                    },
                    Operand::Literal(_) => {
                        *pc = *pc + 1;
                        Ok(None)
                    },
                }
            },
            Instruction::JumpNotZero { check, delta } => {
                let c = match self.value(check) {
                    Some(v) => v,
                    None => {
                        return Err(ExecError::UnknownRegister);
                    },
                };
                if c != 0 {
                    let d = match self.value(delta) {
                        Some(v) => v,
                        None => {
                            return Err(ExecError::UnknownRegister);
                        },
                    };
                    *pc = *pc + d as i64;
                } else {
                    *pc = *pc + 1;
                }
                Ok(None)
            },
            Instruction::Toggle { reg } => {
                let v = match self.value(reg) {
                    Some(v) => v,
                    None => {
                        return Err(ExecError::UnknownRegister);
                    },
                };
                let idx = *pc + v as i64;
                if 0 <= idx && idx < canonical.len() as i64 {
                    let orig = canonical[idx as usize];
                    let toggled = match orig.toggle() {
                        Ok(t) => t,
                        Err(e) => {
                            return Err(e);
                        },
                    };
                    canonical[idx as usize] = toggled;
                    *optimised = optimise(canonical.as_slice());
                }
                *pc = *pc + 1;
                Ok(None)
            },
            Instruction::Out { operand } => {
                let v = match self.value(operand) {
                    Some(v) => v,
                    None => {
                        return Err(ExecError::UnknownRegister);
                    },
                };
                *pc = *pc + 1;
                Ok(Some(v))
            },
            Instruction::MultiplyAddAndClear { factor_1, factor_2, target, clear } => {
                match target {
                    Operand::Register(t) => {
                        let v1 = match self.value(factor_1) {
                            Some(v) => v,
                            None => {
                                return Err(ExecError::UnknownRegister);
                            },
                        };
                        let v2 = match self.value(factor_2) {
                            Some(v) => v,
                            None => {
                                return Err(ExecError::UnknownRegister);
                            },
                        };
                        if t >= 4 {
                            return Err(ExecError::UnknownRegister);
                        }
                        let f2_idx = match factor_2 {
                            Operand::Register(i) => {
                                if i >= 4 {
                                    return Err(ExecError::UnknownRegister);
                                }
                                i
                            },
                            Operand::Literal(_) => {
                                return Err(ExecError::NonRegisterTarget);
                            },
                        };
                        let clear_idx = match clear {
                            Operand::Register(i) => {
                                if i >= 4 {
                                    return Err(ExecError::UnknownRegister);
                                }
                                i
                            },
                            Operand::Literal(_) => {
                                return Err(ExecError::NonRegisterTarget);
                            },
                        };
                        let cur = self.regs[t];
                        self.regs[t] = cur.wrapping_add(v1.wrapping_mul(v2));
                        self.regs[f2_idx] = 0;
                        self.regs[clear_idx] = 0;
                        *pc = *pc + 6;
                        Ok(None)
                    },
                    Operand::Literal(_) => {
                        match self.set_value(clear, Operand::Literal(0)) {
                            Ok(()) => {
                                *pc = *pc + 6;
                                Ok(None)
                            },
                            Err(e) => Err(e),
                        }
                    },
                }
            },
            Instruction::AddAndClear { source, target, clear } => {
                match (source, target, clear) {
                    (Operand::Register(sr), Operand::Register(tr), Operand::Register(cr)) => {
                        if sr >= 4 || tr >= 4 || cr >= 4 {
                            return Err(ExecError::UnknownRegister);
                        }
                        let src = self.regs[sr];
                        let cur = self.regs[tr];
                        self.regs[tr] = cur.wrapping_add(src);
                        self.regs[cr] = 0;
                        *pc = *pc + 4;
                        Ok(None)
                    },
                    _ => {
                        *pc = *pc + 4;
                        Ok(None)
                    },
                }
            },
            Instruction::Nop => Err(ExecError::ExecutedNop),
        }
    }

    /// Runs the program for at most `fuel` instructions, exactly as
    /// `run_spec` describes: the final registers, the final environment model
    /// and the returned outcome are those of the specification run starting
    /// from this machine's registers, the given canonical program, and
    /// program counter zero.
    pub fn process(&mut self, unoptimised: Vec<Instruction>, fuel: u64) -> (r: Result<
        Termination<Env::Reason>,
        ExecError,
    >)
        requires
            unoptimised@.len() <= i32::MAX,
        ensures
            ({
                let end = run_spec::<Env>(
                    MachState { regs: old(self).regs@, canonical: unoptimised@, pc: 0 },
                    old(self).exec_env.model(),
                    fuel as nat,
                );
                &&& final(self).regs@ == end.state.regs
                &&& final(self).exec_env.model() == end.env
                &&& r == end.outcome
            }),
    {
        let ghost s0 = MachState { regs: self.regs@, canonical: unoptimised@, pc: 0 };
        let ghost env0 = self.exec_env.model();

        let mut canonical = unoptimised;
        let mut optimised = optimise(canonical.as_slice());
        let mut pc: i64 = 0;
        let mut fuel_left: u64 = fuel;

        loop
            invariant
                s0 == (MachState { regs: old(self).regs@, canonical: unoptimised@, pc: 0 }),
                env0 == old(self).exec_env.model(),
                canonical@.len() <= i32::MAX,
                optimised@ == optimise_spec(canonical@),
                run_spec::<Env>(s0, env0, fuel as nat) == run_spec::<Env>(
                    MachState { regs: self.regs@, canonical: canonical@, pc: pc as int },
                    self.exec_env.model(),
                    fuel_left as nat,
                ),
            decreases fuel_left,
        {
            let ghost s_cur = MachState { regs: self.regs@, canonical: canonical@, pc: pc as int };
            let ghost env_cur = self.exec_env.model();

            if !(0 <= pc && pc < canonical.len() as i64) {
                proof {
                    assert(run_spec::<Env>(s_cur, env_cur, fuel_left as nat) == RunEnd::<Env> {
                        state: s_cur,
                        env: env_cur,
                        outcome: Ok(Termination::Halted),
                    });
                }
                return Ok(Termination::Halted);
            }
            if fuel_left == 0 {
                proof {
                    assert(run_spec::<Env>(s_cur, env_cur, fuel_left as nat) == RunEnd::<Env> {
                        state: s_cur,
                        env: env_cur,
                        outcome: Ok(Termination::OutOfFuel),
                    });
                }
                return Ok(Termination::OutOfFuel);
            }
            let ghost fuel_cur = fuel_left;
            match self.step(&mut canonical, &mut optimised, &mut pc) {
                Err(e) => {
                    return Err(e);
                },
                Ok(out_opt) => {
                    proof {
                        assert(step_spec(s_cur) is Next);
                    }
                    let ghost next_s = step_spec(s_cur)->Next_next;
                    if let Some(v) = out_opt {
                        self.exec_env.handle_output(v);
                    }
                    let ghost env1 = self.exec_env.model();
                    proof {
                        assert(env1 == match step_spec(s_cur)->Next_output {
                            Some(v) => Env::model_after_output(env_cur, v),
                            None => env_cur,
                        });
                    }
                    let regs_now = self.regs;
                    match self.exec_env.should_terminate(regs_now, pc) {
                        Some(t) => {
                            proof {
                                assert(run_spec::<Env>(s_cur, env_cur, fuel_cur as nat)
                                    == RunEnd::<Env> {
                                    state: next_s,
                                    env: Env::model_after_check(env1, next_s.regs, next_s.pc),
                                    outcome: Ok(Termination::Signalled(t)),
                                });
                            }
                            return Ok(Termination::Signalled(t));
                        },
                        None => {
                            fuel_left = fuel_left - 1;
                            proof {
                                assert(run_spec::<Env>(s_cur, env_cur, fuel_cur as nat)
                                    == run_spec::<Env>(
                                    MachState {
                                        regs: self.regs@,
                                        canonical: canonical@,
                                        pc: pc as int,
                                    },
                                    self.exec_env.model(),
                                    fuel_left as nat,
                                ));
                            }
                        },
                    }
                },
            }
        }
    }
}

/// Fixed-capacity output collector: stores emitted values up to its capacity
/// and signals termination once the buffer is full.
pub struct OutputCollector {
    pub outputs: Vec<i32>,
    pub capacity: usize,
}

/// The reason an `OutputCollector` stops a run.
#[derive(Clone, Copy, Debug, PartialEq, Eq, Structural)]
pub enum CollectorSignal {
    BufferFull,
}

impl OutputCollector {
    /// An empty collector that accepts up to `capacity` values.
    pub fn new(capacity: usize) -> (r: OutputCollector)
        ensures
            r.outputs@ == Seq::<i32>::empty(),
            r.capacity == capacity,
    {
        OutputCollector { outputs: Vec::new(), capacity }
    }
}

impl ExecutionEnvironment for OutputCollector {
    type Reason = CollectorSignal;

    type Model = (Seq<i32>, nat);

    open spec fn model(self) -> (Seq<i32>, nat) {
        (self.outputs@, self.capacity as nat)
    }

    open spec fn model_after_output(m: (Seq<i32>, nat), val: i32) -> (Seq<i32>, nat) {
        if m.0.len() < m.1 {
            (m.0.push(val), m.1)
        } else {
            m
        }
    }

    open spec fn model_after_check(m: (Seq<i32>, nat), regs: Seq<i32>, pc: int) -> (Seq<i32>, nat) {
        m
    }

    open spec fn model_decision(m: (Seq<i32>, nat), regs: Seq<i32>, pc: int) -> Option<
        CollectorSignal,
    > {
        if m.0.len() >= m.1 {
            Some(CollectorSignal::BufferFull)
        } else {
            None
        }
    }

    fn handle_output(&mut self, val: i32) {
        if self.outputs.len() < self.capacity {
            self.outputs.push(val);
        }
    }

    fn should_terminate(&mut self, registers: [i32; 4], program_counter: i64) -> (r: Option<
        CollectorSignal,
    >) {
        if self.outputs.len() >= self.capacity {
            Some(CollectorSignal::BufferFull)
        } else {
            None
        }
    }
}

/// What the clock-pattern detector concludes about an output stream.
#[derive(Clone, Copy, Debug, PartialEq, Eq, Structural)]
pub enum ClockSeekingTermType {
    NotAClock,
    Clock,
}

/// Clock-pattern detector: ignores a warm-up prefix of outputs, then demands
/// that consecutive outputs strictly alternate between 0 and 1. It signals
/// `NotAClock` the first time alternation fails, and `Clock` once a full
/// trial window of outputs has passed without failure.
pub struct ClockSeekingExecEnv {
    pub prev_out: (Option<i32>, Option<i32>),
    pub out_count: usize,
    pub warmup_window: usize,
    pub trial_window: usize,
}

impl ClockSeekingExecEnv {
    /// A detector that skips the first `warmup_window` outputs and then
    /// examines `trial_window` further outputs.
    pub fn new(warmup_window: usize, trial_window: usize) -> (r: ClockSeekingExecEnv)
        ensures
            r.prev_out == (None::<i32>, None::<i32>),
            r.out_count == 0,
            r.warmup_window == warmup_window,
            r.trial_window == trial_window,
    {
        ClockSeekingExecEnv { prev_out: (None, None), out_count: 0, warmup_window, trial_window }
    }
}

impl ExecutionEnvironment for ClockSeekingExecEnv {
    type Reason = ClockSeekingTermType;

    type Model = ClockSeekingExecEnv;

    open spec fn model(self) -> ClockSeekingExecEnv {
        self
    }

    open spec fn model_after_output(m: ClockSeekingExecEnv, val: i32) -> ClockSeekingExecEnv {
        ClockSeekingExecEnv {
            prev_out: (m.prev_out.1, Some(val)),
            out_count: if m.out_count < usize::MAX {
                (m.out_count + 1) as usize
            } else {
                m.out_count
            },
            ..m
        }
    }

    open spec fn model_after_check(
        m: ClockSeekingExecEnv,
        regs: Seq<i32>,
        pc: int,
    ) -> ClockSeekingExecEnv {
        m
    }

    open spec fn model_decision(m: ClockSeekingExecEnv, regs: Seq<i32>, pc: int) -> Option<
        ClockSeekingTermType,
    > {
        if m.out_count < m.warmup_window {
            None
        } else if m.out_count >= m.warmup_window + m.trial_window {
            Some(ClockSeekingTermType::Clock)
        } else if m.prev_out matches (Some(a), Some(b)) && !((a == 0 && b == 1) || (a == 1 && b
            == 0)) {
            Some(ClockSeekingTermType::NotAClock)
        } else {
            None
        }
    }

    fn handle_output(&mut self, val: i32) {
        self.prev_out = (self.prev_out.1, Some(val));
        if self.out_count < usize::MAX {
            self.out_count = self.out_count + 1;
        }
    }

    fn should_terminate(&mut self, registers: [i32; 4], program_counter: i64) -> (r: Option<
        ClockSeekingTermType,
    >) {
        if self.out_count < self.warmup_window {
            return None;
        }
        if self.out_count - self.warmup_window >= self.trial_window {
            return Some(ClockSeekingTermType::Clock);
        }
        if let (Some(a), Some(b)) = self.prev_out {
            if !((a == 0 && b == 1) || (a == 1 && b == 0)) {
                return Some(ClockSeekingTermType::NotAClock);
            }
        }
        None
    }
}

} // verus!

verus! {

/// A parsed (never optimised) program holds no synthesized instructions.
pub open spec fn canonical_wf(p: Seq<Instruction>) -> bool {
    forall|i: int| 0 <= i < p.len() ==> !is_synthesized(#[trigger] p[i])
}

/// As long as the canonical program is free of synthesized instructions, a
/// step can never report a toggled synthesized instruction, and the canonical
/// program stays free of them: toggling maps the six atomic forms among
/// themselves.
pub proof fn lemma_step_preserves_canonical_wf(s: MachState)
    requires
        mach_wf(s),
        0 <= s.pc < s.canonical.len(),
        canonical_wf(s.canonical),
    ensures
        step_spec(s) != StepSpecOutcome::Fatal(ExecError::ToggledSynthesized),
        step_spec(s) matches StepSpecOutcome::Next { next, output } ==> canonical_wf(
            next.canonical,
        ),
{
    let instr = optimise_spec(s.canonical)[s.pc];
    match instr {
        Instruction::Toggle { reg } => match value_spec(s.regs, reg) {
            Some(v) => {
                let idx = s.pc + v;
                if 0 <= idx < s.canonical.len() {
                    assert(!is_synthesized(s.canonical[idx]));
                    assert(!is_synthesized(toggle_spec(s.canonical[idx])));
                    let c2 = s.canonical.update(idx, toggle_spec(s.canonical[idx]));
                    assert forall|i: int| 0 <= i < c2.len() implies !is_synthesized(
                        #[trigger] c2[i],
                    ) by {
                        if i != idx {
                            assert(c2[i] == s.canonical[i]);
                        }
                    };
                }
            },
            None => {},
        },
        _ => {},
    }
}

} // verus!

verus! {

/// A step from a well-formed state keeps the register count and the program
/// length; only toggling rewrites the canonical program.
pub proof fn lemma_step_keeps_shape(s: MachState)
    requires
        mach_wf(s),
        0 <= s.pc < s.canonical.len(),
    ensures
        step_spec(s) matches StepSpecOutcome::Next { next, output } ==> mach_wf(next)
            && next.canonical.len() == s.canonical.len(),
{
}

/// Over a whole run, however long: starting from a canonical program free of
/// synthesized instructions, the machine never stops with a toggled
/// synthesized instruction, and the program stays free of them.
pub proof fn lemma_run_never_toggles_synthesized<Env: ExecutionEnvironment>(
    s: MachState,
    env: Env::Model,
    fuel: nat,
)
    requires
        mach_wf(s),
        canonical_wf(s.canonical),
    ensures
        run_spec::<Env>(s, env, fuel).outcome != Result::<
            Termination<Env::Reason>,
            ExecError,
        >::Err(ExecError::ToggledSynthesized),
        canonical_wf(run_spec::<Env>(s, env, fuel).state.canonical),
    decreases fuel,
{
    if 0 <= s.pc < s.canonical.len() && fuel > 0 {
        lemma_step_preserves_canonical_wf(s);
        lemma_step_keeps_shape(s);
        match step_spec(s) {
            StepSpecOutcome::Fatal(e) => {},
            StepSpecOutcome::Next { next, output } => {
                let env1 = match output {
                    Some(v) => Env::model_after_output(env, v),
                    None => env,
                };
                let dec = Env::model_decision(env1, next.regs, next.pc);
                let env2 = Env::model_after_check(env1, next.regs, next.pc);
                if dec is None {
                    lemma_run_never_toggles_synthesized::<Env>(next, env2, (fuel - 1) as nat);
                }
            },
        }
    }
}

} // verus!
