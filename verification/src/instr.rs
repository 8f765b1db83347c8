//! Operands, instructions, and the `toggle` transformation.

use vstd::prelude::*;

verus! {

/// A value reference inside an instruction: either one of the four
/// general-purpose registers (by index) or a signed literal.
#[derive(Clone, Copy, Debug, PartialEq, Eq, Structural)]
pub enum Operand {
    Register(usize),
    Literal(i32),
}

/// One instruction of the language. `Copy` through `Out` can appear in a
/// canonical (parsed) program; `MultiplyAddAndClear`, `AddAndClear` and `Nop`
/// are synthesized by the optimiser only.
#[derive(Clone, Copy, Debug, PartialEq, Eq, Structural)]
pub enum Instruction {
    Copy { source: Operand, target: Operand },
    Inc { reg: Operand },
    Dec { reg: Operand },
    JumpNotZero { check: Operand, delta: Operand },
    Toggle { reg: Operand },
    Out { operand: Operand },
    MultiplyAddAndClear { factor_1: Operand, factor_2: Operand, target: Operand, clear: Operand },
    AddAndClear { source: Operand, target: Operand, clear: Operand },
    Nop,
}

/// An error that stops execution immediately: an invariant of the
/// canonical/optimised program pair was violated, or an instruction referred
/// to a register that does not exist.
#[derive(Clone, Copy, Debug, PartialEq, Eq, Structural)]
pub enum ExecError {
    /// A toggle landed on an optimiser-synthesized instruction.
    ToggledSynthesized,
    /// A computed value was written to a literal operand.
    NonRegisterTarget,
    /// A register index outside the four machine registers was referenced.
    UnknownRegister,
    /// The program counter landed directly on a `Nop` padding slot.
    ExecutedNop,
}

/// True for the instruction forms that only the optimiser may introduce.
pub open spec fn is_synthesized(i: Instruction) -> bool {
    i is MultiplyAddAndClear || i is AddAndClear || i is Nop
}

/// The toggle transformation on one instruction. Meaningful only for
/// non-synthesized instructions.
pub open spec fn toggle_spec(i: Instruction) -> Instruction
    recommends
        !is_synthesized(i),
{
    match i {
        Instruction::Copy { source, target } => Instruction::JumpNotZero {
            check: source,
            delta: target,
        },
        Instruction::Inc { reg } => Instruction::Dec { reg },
        Instruction::Dec { reg } => Instruction::Inc { reg },
        Instruction::JumpNotZero { check, delta } => Instruction::Copy {
            source: check,
            target: delta,
        },
        Instruction::Toggle { reg } => Instruction::Inc { reg },
        Instruction::Out { operand } => Instruction::Inc { reg: operand },
        _ => i,
    }
}

impl Instruction {
    /// Flips this instruction to its toggled counterpart. Toggling an
    /// optimiser-synthesized instruction is an invariant violation and is
    /// reported as such rather than producing a made-up instruction.
    pub fn toggle(&self) -> (r: Result<Instruction, ExecError>)
        ensures
            is_synthesized(*self) ==> r == Result::<Instruction, ExecError>::Err(
                ExecError::ToggledSynthesized,
            ),
            !is_synthesized(*self) ==> r == Result::<Instruction, ExecError>::Ok(
                toggle_spec(*self),
            ),
    {
        match *self {
            Instruction::Copy { source, target } => Ok(Instruction::JumpNotZero {
                check: source,
                delta: target,
            }),
            Instruction::Inc { reg } => Ok(Instruction::Dec { reg }),
            Instruction::Dec { reg } => Ok(Instruction::Inc { reg }),
            Instruction::JumpNotZero { check, delta } => Ok(Instruction::Copy {
                source: check,
                target: delta,
            }),
            Instruction::Toggle { reg } => Ok(Instruction::Inc { reg }),
            Instruction::Out { operand } => Ok(Instruction::Inc { reg: operand }),
            Instruction::MultiplyAddAndClear { .. } | Instruction::AddAndClear { .. }
            | Instruction::Nop => Err(ExecError::ToggledSynthesized),
        }
    }
}

/// Toggling twice restores the original instruction: `Copy` and `JumpNotZero`
/// map to each other, as do `Inc` and `Dec`. The two remaining atomic forms
/// are not fixed points of the double toggle: `Toggle` and `Out` both map to
/// `Inc` on the first application.
pub proof fn lemma_toggle_round_trip(i: Instruction)
    requires
        i is Copy || i is JumpNotZero || i is Inc || i is Dec,
    ensures
        toggle_spec(toggle_spec(i)) == i,
{
}

} // verus!
