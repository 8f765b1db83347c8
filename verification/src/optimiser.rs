//! Peephole optimiser: fuses the multiply-accumulate and add-accumulate loop
//! idioms into single instructions plus `Nop` padding, preserving the length
//! and index alignment of the program.
//!
//! Scanning is two-pass: a 6-wide pass over the whole program (matching the
//! multiply idiom first, then the add idiom), then a 4-wide add-only pass over
//! the still-unclaimed suffix, then a verbatim copy of the leftover tail. A
//! successful match consumes its whole window; otherwise the window's first
//! instruction is copied and the scan advances by one.

use vstd::prelude::*;

use crate::instr::Instruction;
use crate::instr::Operand;

verus! {

/// The multiply-accumulate idiom: `copy S -> r1; inc out; dec r1; jnz r1 -2;
/// dec r2; jnz r2 -5`, where the three `r1` references agree and the two `r2`
/// references agree.
pub open spec fn multiply_match(p: Seq<Instruction>, i: int) -> bool
    recommends
        0 <= i && i + 6 <= p.len(),
{
    &&& p[i] matches Instruction::Copy { source: _, target: Operand::Register(r1c) }
    &&& p[i + 1] is Inc
    &&& p[i + 2] matches Instruction::Dec { reg: Operand::Register(r1d) }
    &&& p[i + 3] matches Instruction::JumpNotZero {
        check: Operand::Register(r1j),
        delta: Operand::Literal(d1),
    }
    &&& p[i + 4] matches Instruction::Dec { reg: Operand::Register(r2d) }
    &&& p[i + 5] matches Instruction::JumpNotZero {
        check: Operand::Register(r2j),
        delta: Operand::Literal(d2),
    }
    &&& r1c == r1d && r1d == r1j
    &&& r2d == r2j
    &&& d1 == -2 && d2 == -5
}

/// The fused instruction replacing a matched multiply window at `i`.
pub open spec fn multiply_fused(p: Seq<Instruction>, i: int) -> Instruction
    recommends
        0 <= i && i + 6 <= p.len(),
        multiply_match(p, i),
{
    Instruction::MultiplyAddAndClear {
        factor_1: p[i]->Copy_source,
        factor_2: p[i + 4]->Dec_reg,
        target: p[i + 1]->Inc_reg,
        clear: p[i]->Copy_target,
    }
}

/// The add-accumulate idiom: `copy S -> r; dec r; inc out; jnz r -2`, where
/// the three `r` references agree.
pub open spec fn add_match(p: Seq<Instruction>, i: int) -> bool
    recommends
        0 <= i && i + 4 <= p.len(),
{
    &&& p[i] matches Instruction::Copy { source: _, target: Operand::Register(rc) }
    &&& p[i + 1] matches Instruction::Dec { reg: Operand::Register(rd) }
    &&& p[i + 2] is Inc
    &&& p[i + 3] matches Instruction::JumpNotZero {
        check: Operand::Register(rj),
        delta: Operand::Literal(d),
    }
    &&& rc == rd && rd == rj
    &&& d == -2
}

/// The fused instruction replacing a matched add window at `i`.
pub open spec fn add_fused(p: Seq<Instruction>, i: int) -> Instruction
    recommends
        0 <= i && i + 4 <= p.len(),
        add_match(p, i),
{
    Instruction::AddAndClear {
        source: p[i]->Copy_source,
        target: p[i + 2]->Inc_reg,
        clear: p[i + 1]->Dec_reg,
    }
}

/// Result of the add-only 4-wide pass from position `i` onward, followed by
/// the verbatim tail.
pub open spec fn optimise_from4(p: Seq<Instruction>, i: int) -> Seq<Instruction>
    recommends
        0 <= i <= p.len(),
    decreases p.len() - i, 0nat,
        when 0 <= i <= p.len()
{
    if i + 4 <= p.len() {
        if add_match(p, i) {
            seq![add_fused(p, i), Instruction::Nop, Instruction::Nop, Instruction::Nop]
                + optimise_from4(p, i + 4)
        } else {
            seq![p[i]] + optimise_from4(p, i + 1)
        }
    } else {
        p.subrange(i, p.len() as int)
    }
}

/// Result of the 6-wide pass from position `i` onward, followed by the 4-wide
/// pass and the verbatim tail.
pub open spec fn optimise_from6(p: Seq<Instruction>, i: int) -> Seq<Instruction>
    recommends
        0 <= i <= p.len(),
    decreases p.len() - i, 1nat,
        when 0 <= i <= p.len()
{
    if i + 6 <= p.len() {
        if multiply_match(p, i) {
            seq![
                multiply_fused(p, i),
                Instruction::Nop,
                Instruction::Nop,
                Instruction::Nop,
                Instruction::Nop,
                Instruction::Nop,
            ] + optimise_from6(p, i + 6)
        } else if add_match(p, i) {
            seq![add_fused(p, i), Instruction::Nop, Instruction::Nop, Instruction::Nop]
                + optimise_from6(p, i + 4)
        } else {
            seq![p[i]] + optimise_from6(p, i + 1)
        }
    } else {
        optimise_from4(p, i)
    }
}

/// The whole optimised program derived from canonical program `p`.
pub open spec fn optimise_spec(p: Seq<Instruction>) -> Seq<Instruction> {
    optimise_from6(p, 0)
}

pub proof fn lemma_optimise_from4_len(p: Seq<Instruction>, i: int)
    requires
        0 <= i <= p.len(),
    ensures
        optimise_from4(p, i).len() == p.len() - i,
    decreases p.len() - i,
{
    if i + 4 <= p.len() {
        if add_match(p, i) {
            lemma_optimise_from4_len(p, i + 4);
        } else {
            lemma_optimise_from4_len(p, i + 1);
        }
    }
}

pub proof fn lemma_optimise_from6_len(p: Seq<Instruction>, i: int)
    requires
        0 <= i <= p.len(),
    ensures
        optimise_from6(p, i).len() == p.len() - i,
    decreases p.len() - i,
{
    if i + 6 <= p.len() {
        if multiply_match(p, i) {
            lemma_optimise_from6_len(p, i + 6);
        } else if add_match(p, i) {
            lemma_optimise_from6_len(p, i + 4);
        } else {
            lemma_optimise_from6_len(p, i + 1);
        }
    } else {
        lemma_optimise_from4_len(p, i);
    }
}

/// Optimisation preserves program length, for every program.
pub proof fn lemma_optimise_preserves_length(p: Seq<Instruction>)
    ensures
        optimise_spec(p).len() == p.len(),
{
    lemma_optimise_from6_len(p, 0);
}

/// Recognises the multiply-accumulate idiom at the start of `window` and
/// returns the fused replacement instruction.
pub fn multiply_optimise(window: &[Instruction]) -> (r: Option<Instruction>)
    ensures
        r is Some <==> window@.len() >= 6 && multiply_match(window@, 0),
        r matches Some(f) ==> f == multiply_fused(window@, 0),
{
    if window.len() < 6 {
        return None;
    }
    match (window[0], window[1], window[2], window[3], window[4], window[5]) {
        (
            Instruction::Copy { source, target: Operand::Register(r1c) },
            Instruction::Inc { reg: out },
            Instruction::Dec { reg: Operand::Register(r1d) },
            Instruction::JumpNotZero { check: Operand::Register(r1j), delta: Operand::Literal(d1) },
            Instruction::Dec { reg: Operand::Register(r2d) },
            Instruction::JumpNotZero { check: Operand::Register(r2j), delta: Operand::Literal(d2) },
        ) => {
            if r1c == r1d && r1d == r1j && r2d == r2j && d1 == -2 && d2 == -5 {
                Some(Instruction::MultiplyAddAndClear {
                    factor_1: source,
                    factor_2: Operand::Register(r2d),
                    target: out,
                    clear: Operand::Register(r1c),
                })
            } else {
                None
            }
        },
        _ => None,
    }
}

/// Recognises the add-accumulate idiom at the start of `window` and returns
/// the fused replacement instruction.
pub fn add_optimise(window: &[Instruction]) -> (r: Option<Instruction>)
    ensures
        r is Some <==> window@.len() >= 4 && add_match(window@, 0),
        r matches Some(f) ==> f == add_fused(window@, 0),
{
    if window.len() < 4 {
        return None;
    }
    match (window[0], window[1], window[2], window[3]) {
        (
            Instruction::Copy { source, target: Operand::Register(rc) },
            Instruction::Dec { reg: Operand::Register(rd) },
            Instruction::Inc { reg: out },
            Instruction::JumpNotZero { check: Operand::Register(rj), delta: Operand::Literal(d) },
        ) => {
            if rc == rd && rd == rj && d == -2 {
                Some(Instruction::AddAndClear {
                    source,
                    target: out,
                    clear: Operand::Register(rd),
                })
            } else {
                None
            }
        },
        _ => None,
    }
}

/// Derives the optimised program from the canonical one. The result has the
/// same length; every position either keeps its original instruction, or
/// becomes the fused form of the idiom window it starts, or becomes `Nop`
/// padding within such a window.
pub fn optimise(instructions: &[Instruction]) -> (r: Vec<Instruction>)
    ensures
        r@ == optimise_spec(instructions@),
        r@.len() == instructions@.len(),
{
    let ghost p = instructions@;
    let mut optimised: Vec<Instruction> = Vec::new();
    let mut i: usize = 0;

    proof {
        lemma_optimise_from6_len(p, 0);
    }

    while instructions.len() >= 6 && i <= instructions.len() - 6
        invariant
            0 <= i <= p.len(),
            instructions@ == p,
            optimised@.len() == i,
            optimise_from6(p, 0) == optimised@ + optimise_from6(p, i as int),
        decreases p.len() - i,
    {
        let window = &instructions[i..i + 6];
        assert(window@ =~= p.subrange(i as int, i as int + 6));
        assert(multiply_match(window@, 0) == multiply_match(p, i as int));
        if let Some(fused) = multiply_optimise(window) {
            assert(fused == multiply_fused(p, i as int));
            optimised.push(fused);
            optimised.push(Instruction::Nop);
            optimised.push(Instruction::Nop);
            optimised.push(Instruction::Nop);
            optimised.push(Instruction::Nop);
            optimised.push(Instruction::Nop);
            proof {
                assert(optimise_from6(p, 0) =~= optimised@ + optimise_from6(p, i as int + 6));
            }
            i = i + 6;
        } else {
            assert(add_match(window@, 0) == add_match(p, i as int));
            if let Some(fused) = add_optimise(window) {
                assert(fused == add_fused(p, i as int));
                optimised.push(fused);
                optimised.push(Instruction::Nop);
                optimised.push(Instruction::Nop);
                optimised.push(Instruction::Nop);
                proof {
                    assert(optimise_from6(p, 0) =~= optimised@ + optimise_from6(p, i as int + 4));
                }
                i = i + 4;
            } else {
                optimised.push(instructions[i]);
                proof {
                    assert(optimise_from6(p, 0) =~= optimised@ + optimise_from6(p, i as int + 1));
                }
                i = i + 1;
            }
        }
    }

    assert(optimise_from6(p, i as int) == optimise_from4(p, i as int));

    while instructions.len() >= 4 && i <= instructions.len() - 4
        invariant
            0 <= i <= p.len(),
            instructions@ == p,
            optimised@.len() == i,
            optimise_from6(p, 0) == optimised@ + optimise_from4(p, i as int),
        decreases p.len() - i,
    {
        let window = &instructions[i..i + 4];
        assert(window@ =~= p.subrange(i as int, i as int + 4));
        assert(add_match(window@, 0) == add_match(p, i as int));
        if let Some(fused) = add_optimise(window) {
            assert(fused == add_fused(p, i as int));
            optimised.push(fused);
            optimised.push(Instruction::Nop);
            optimised.push(Instruction::Nop);
            optimised.push(Instruction::Nop);
            proof {
                assert(optimise_from6(p, 0) =~= optimised@ + optimise_from4(p, i as int + 4));
            }
            i = i + 4;
        } else {
            optimised.push(instructions[i]);
            proof {
                assert(optimise_from6(p, 0) =~= optimised@ + optimise_from4(p, i as int + 1));
            }
            i = i + 1;
        }
    }

    assert(optimise_from4(p, i as int) == p.subrange(i as int, p.len() as int));

    while i < instructions.len()
        invariant
            0 <= i <= p.len(),
            instructions@ == p,
            optimised@.len() == i,
            optimise_from6(p, 0) == optimised@ + p.subrange(i as int, p.len() as int),
        decreases p.len() - i,
    {
        optimised.push(instructions[i]);
        proof {
            assert(optimise_from6(p, 0) =~= optimised@ + p.subrange(i as int + 1, p.len() as int));
        }
        i = i + 1;
    }

    proof {
        assert(optimised@ =~= optimise_from6(p, 0));
    }
    optimised
}

} // verus!

verus! {

proof fn lemma_optimise_from4_at(p: Seq<Instruction>, k: int, i: int)
    requires
        0 <= k <= i < p.len(),
    ensures
        ({
            let o = optimise_from4(p, k);
            ||| o[i - k] == p[i]
            ||| o[i - k] == Instruction::Nop
            ||| (add_match(p, i) && o[i - k] == add_fused(p, i))
        }),
    decreases p.len() - k,
{
    lemma_optimise_from4_len(p, k);
    if k + 4 <= p.len() {
        if add_match(p, k) {
            if i >= k + 4 {
                lemma_optimise_from4_at(p, k + 4, i);
                lemma_optimise_from4_len(p, k + 4);
            }
        } else {
            if i > k {
                lemma_optimise_from4_at(p, k + 1, i);
                lemma_optimise_from4_len(p, k + 1);
            }
        }
    }
}

proof fn lemma_optimise_from6_at(p: Seq<Instruction>, k: int, i: int)
    requires
        0 <= k <= i < p.len(),
    ensures
        ({
            let o = optimise_from6(p, k);
            ||| o[i - k] == p[i]
            ||| o[i - k] == Instruction::Nop
            ||| (multiply_match(p, i) && o[i - k] == multiply_fused(p, i))
            ||| (add_match(p, i) && o[i - k] == add_fused(p, i))
        }),
    decreases p.len() - k,
{
    lemma_optimise_from6_len(p, k);
    if k + 6 <= p.len() {
        if multiply_match(p, k) {
            if i >= k + 6 {
                lemma_optimise_from6_at(p, k + 6, i);
                lemma_optimise_from6_len(p, k + 6);
            }
        } else if add_match(p, k) {
            if i >= k + 4 {
                lemma_optimise_from6_at(p, k + 4, i);
                lemma_optimise_from6_len(p, k + 4);
            }
        } else {
            if i > k {
                lemma_optimise_from6_at(p, k + 1, i);
                lemma_optimise_from6_len(p, k + 1);
            }
        }
    } else {
        lemma_optimise_from4_at(p, k, i);
    }
}

/// Index alignment: every position of the optimised program either keeps the
/// canonical instruction at that position unchanged, or is `Nop` padding, or
/// is the fused replacement of an idiom that really matches the canonical
/// program at that very position.
pub proof fn lemma_optimise_alignment(p: Seq<Instruction>, i: int)
    requires
        0 <= i < p.len(),
    ensures
        ({
            let o = optimise_spec(p);
            ||| o[i] == p[i]
            ||| o[i] == Instruction::Nop
            ||| (multiply_match(p, i) && o[i] == multiply_fused(p, i))
            ||| (add_match(p, i) && o[i] == add_fused(p, i))
        }),
{
    lemma_optimise_from6_at(p, 0, i);
}

} // verus!
