use assembunny::cpu::ClockSeekingExecEnv;
use assembunny::cpu::ClockSeekingTermType;
use assembunny::cpu::CollectorSignal;
use assembunny::cpu::Cpu;
use assembunny::cpu::OutputCollector;
use assembunny::cpu::Termination;
use assembunny::instr::ExecError;
use assembunny::instr::Instruction;
use assembunny::instr::Operand;
use assembunny::optimiser::add_optimise;
use assembunny::optimiser::multiply_optimise;
use assembunny::optimiser::optimise;
use assembunny::parser::parse;
use assembunny::parser::ParseError;

use Instruction::AddAndClear;
use Instruction::Dec;
use Instruction::Inc;
use Instruction::JumpNotZero;
use Instruction::MultiplyAddAndClear;
use Instruction::Nop;
use Instruction::Out;
use Instruction::Toggle;
use Operand::Literal;
use Operand::Register;

const FUEL: u64 = 100_000_000;

fn quiet_cpu(a_val: i32) -> Cpu<OutputCollector> {
    // a collector with spare capacity never signals termination
    Cpu::new(a_val, OutputCollector::new(64))
}

#[test]
fn optimise_replaces_add() {
    let file = "cpy c d\ndec d\ninc c\njnz d -2\ntgl c";
    let instructions = optimise(&parse(file).unwrap());
    let shape = match &instructions[..] {
        &[AddAndClear { .. }, Nop, Nop, Nop, Toggle { .. }] => true,
        _ => false,
    };
    assert!(
        shape,
        "Should be [AddAndClear, Nop, Nop, Nop, Toggle] but got {:?}",
        instructions
    );
}

#[test]
fn optimised_multiply_produces_same_result_as_normal() {
    let file = "cpy a b\ndec b\ncpy a d\ncpy 0 a\ncpy b c\ninc a\ndec c\njnz c -2\ndec d\n\
jnz d -5\ndec b\ncpy b c\ncpy c d\ndec d\ninc c\njnz d -2\ntgl c\ncpy -16 c\njnz 1 c\n\
cpy 96 c\njnz 79 d\ninc a\ninc d\njnz d -2\ninc c\njnz c -5";
    let normal = parse(file).unwrap();
    let optimised = optimise(&normal.clone());

    let mut cpu = quiet_cpu(7);
    let r1 = cpu.process(normal, FUEL);
    assert_eq!(r1, Ok(Termination::Halted));

    let mut cpu2 = quiet_cpu(7);
    let r2 = cpu2.process(optimised, FUEL);
    assert_eq!(r2, Ok(Termination::Halted));

    assert_eq!(cpu.regs, cpu2.regs);
}

#[test]
fn multiply_optimise_matches_instructions_which_multiply_two_registers() {
    // source: 0, add_drain: 1, out: 2, mult_drain: 3
    let instructions = [
        Instruction::Copy { source: Register(0), target: Register(1) },
        Inc { reg: Register(2) },
        Dec { reg: Register(1) },
        JumpNotZero { check: Register(1), delta: Literal(-2) },
        Dec { reg: Register(3) },
        JumpNotZero { check: Register(3), delta: Literal(-5) },
    ];
    let result = multiply_optimise(&instructions);
    assert!(result.is_some());
}

#[test]
fn optimise_matches_instructions_which_multiply_two_registers_and_adds_noops() {
    // source: 0, add_drain: 1, out: 2, mult_drain: 3
    let instructions = [
        Instruction::Copy { source: Register(0), target: Register(1) },
        Inc { reg: Register(2) },
        Dec { reg: Register(1) },
        JumpNotZero { check: Register(1), delta: Literal(-2) },
        Dec { reg: Register(3) },
        JumpNotZero { check: Register(3), delta: Literal(-5) },
        Dec { reg: Register(5) },
    ];
    let optimised = optimise(&instructions);
    assert!(match &optimised[..] {
        &[MultiplyAddAndClear { .. }, Nop, Nop, Nop, Nop, Nop, Dec { .. }] => true,
        _ => false,
    });
}

#[test]
fn multiply_window_fuses_to_expected_instruction() {
    let instructions = [
        Instruction::Copy { source: Register(0), target: Register(1) },
        Inc { reg: Register(2) },
        Dec { reg: Register(1) },
        JumpNotZero { check: Register(1), delta: Literal(-2) },
        Dec { reg: Register(3) },
        JumpNotZero { check: Register(3), delta: Literal(-5) },
    ];
    assert_eq!(
        multiply_optimise(&instructions),
        Some(MultiplyAddAndClear {
            factor_1: Register(0),
            factor_2: Register(3),
            target: Register(2),
            clear: Register(1),
        })
    );
}

#[test]
fn add_window_fuses_to_expected_instruction() {
    let instructions = [
        Instruction::Copy { source: Register(2), target: Register(3) },
        Dec { reg: Register(3) },
        Inc { reg: Register(2) },
        JumpNotZero { check: Register(3), delta: Literal(-2) },
    ];
    assert_eq!(
        add_optimise(&instructions),
        Some(AddAndClear { source: Register(2), target: Register(2), clear: Register(3) })
    );
}

#[test]
fn optimise_preserves_length() {
    let programs = [
        "",
        "inc a",
        "cpy c d\ndec d\ninc c\njnz d -2\ntgl c",
        "cpy a b\ninc c\ndec b\njnz b -2\ndec d\njnz d -5\ndec a",
    ];
    for file in programs {
        let prog = parse(file).unwrap();
        assert_eq!(optimise(&prog).len(), prog.len());
    }
}

#[test]
fn toggle_round_trips_on_atomic_instructions() {
    let copy = Instruction::Copy { source: Register(0), target: Literal(3) };
    let inc = Inc { reg: Register(1) };
    let dec = Dec { reg: Register(2) };
    let jnz = JumpNotZero { check: Literal(1), delta: Register(3) };
    for i in [copy, inc, dec, jnz] {
        assert_eq!(i.toggle().unwrap().toggle().unwrap(), i);
    }
    // Copy and JumpNotZero map to each other, Inc and Dec likewise
    assert_eq!(
        copy.toggle().unwrap(),
        JumpNotZero { check: Register(0), delta: Literal(3) }
    );
    assert_eq!(inc.toggle().unwrap(), Dec { reg: Register(1) });
    // Toggle and Out both map to Inc, so neither round-trips
    assert_eq!(
        Toggle { reg: Register(2) }.toggle().unwrap(),
        Inc { reg: Register(2) }
    );
    assert_eq!(
        Out { operand: Register(1) }.toggle().unwrap(),
        Inc { reg: Register(1) }
    );
}

#[test]
fn toggling_synthesized_instructions_is_an_error() {
    for i in [
        Nop,
        AddAndClear { source: Register(0), target: Register(1), clear: Register(2) },
        MultiplyAddAndClear {
            factor_1: Register(0),
            factor_2: Register(1),
            target: Register(2),
            clear: Register(3),
        },
    ] {
        assert_eq!(i.toggle(), Err(ExecError::ToggledSynthesized));
    }
}

#[test]
fn toggle_out_of_range_is_a_noop() {
    // the toggle aims 5 past itself, outside the 3-instruction program
    let prog = parse("cpy 5 a\ntgl a\ninc b").unwrap();
    let mut cpu = quiet_cpu(0);
    let r = cpu.process(prog, FUEL);
    assert_eq!(r, Ok(Termination::Halted));
    assert_eq!(cpu.regs, [5, 1, 0, 0]);
}

#[test]
fn toggle_rewrites_the_canonical_program() {
    // tgl a with a=2 turns the last inc into a dec before it runs
    let prog = parse("cpy 2 a\ntgl a\ninc b\ninc b").unwrap();
    let mut cpu = quiet_cpu(0);
    let r = cpu.process(prog, FUEL);
    assert_eq!(r, Ok(Termination::Halted));
    assert_eq!(cpu.regs, [2, 0, 0, 0]);
}

#[test]
fn toggling_a_fused_slot_is_fatal() {
    // the canonical program itself holds optimiser output; the toggle lands
    // on a Nop padding slot
    let prog = vec![Toggle { reg: Literal(1) }, Nop];
    let mut cpu = quiet_cpu(0);
    let r = cpu.process(prog, FUEL);
    assert_eq!(r, Err(ExecError::ToggledSynthesized));
}

#[test]
fn executing_a_nop_directly_is_fatal() {
    let prog = vec![Nop];
    let mut cpu = quiet_cpu(0);
    assert_eq!(cpu.process(prog, FUEL), Err(ExecError::ExecutedNop));
}

#[test]
fn unknown_register_is_fatal() {
    let prog = vec![Inc { reg: Register(7) }];
    let mut cpu = quiet_cpu(0);
    assert_eq!(cpu.process(prog, FUEL), Err(ExecError::UnknownRegister));
}

#[test]
fn copy_into_literal_is_fatal() {
    let prog = vec![Instruction::Copy { source: Literal(1), target: Literal(2) }];
    let mut cpu = quiet_cpu(0);
    assert_eq!(cpu.process(prog, FUEL), Err(ExecError::NonRegisterTarget));
}

#[test]
fn running_out_of_fuel_is_reported() {
    // jnz 1 0 spins on itself forever
    let prog = parse("jnz 1 0").unwrap();
    let mut cpu = quiet_cpu(0);
    assert_eq!(cpu.process(prog, 10), Ok(Termination::OutOfFuel));
}

#[test]
fn straight_line_program_computes_registers() {
    let prog = parse("cpy 41 a\ninc a\ninc d\ndec d\ncpy a b").unwrap();
    let mut cpu = quiet_cpu(0);
    assert_eq!(cpu.process(prog, FUEL), Ok(Termination::Halted));
    assert_eq!(cpu.regs, [42, 42, 0, 0]);
}

#[test]
fn inc_of_a_literal_operand_is_inert() {
    // a toggled out/copy form can leave `inc 5`; it must do nothing
    let prog = vec![Inc { reg: Literal(5) }, Dec { reg: Literal(3) }];
    let mut cpu = quiet_cpu(0);
    assert_eq!(cpu.process(prog, FUEL), Ok(Termination::Halted));
    assert_eq!(cpu.regs, [0, 0, 0, 0]);
}

#[test]
fn collector_gathers_outputs_and_signals_when_full() {
    let prog = parse("cpy 7 a\nout a\nout a\nout a").unwrap();
    let mut cpu = Cpu::new(0, OutputCollector::new(2));
    let r = cpu.process(prog, FUEL);
    assert_eq!(r, Ok(Termination::Signalled(CollectorSignal::BufferFull)));
    // the constructor primes the sink with a single zero
    assert_eq!(cpu.exec_env.outputs, vec![0, 7]);
}

#[test]
fn alternating_output_is_recognised_as_a_clock() {
    let prog = parse("out b\ninc b\nout b\ndec b\njnz 1 -4").unwrap();
    let mut cpu = Cpu::new(0, ClockSeekingExecEnv::new(10, 32));
    let r = cpu.process(prog, FUEL);
    assert_eq!(r, Ok(Termination::Signalled(ClockSeekingTermType::Clock)));
}

#[test]
fn constant_output_is_not_a_clock() {
    let prog = parse("out b\njnz 1 -1").unwrap();
    let mut cpu = Cpu::new(0, ClockSeekingExecEnv::new(2, 5));
    let r = cpu.process(prog, FUEL);
    assert_eq!(r, Ok(Termination::Signalled(ClockSeekingTermType::NotAClock)));
}

#[test]
fn operands_parse_as_registers_and_literals() {
    assert_eq!(Operand::parse("a"), Ok(Register(0)));
    assert_eq!(Operand::parse("b"), Ok(Register(1)));
    assert_eq!(Operand::parse("c"), Ok(Register(2)));
    assert_eq!(Operand::parse("d"), Ok(Register(3)));
    assert_eq!(Operand::parse("0"), Ok(Literal(0)));
    assert_eq!(Operand::parse("-16"), Ok(Literal(-16)));
    assert_eq!(Operand::parse("+7"), Ok(Literal(7)));
    assert_eq!(Operand::parse("2147483647"), Ok(Literal(2147483647)));
    assert_eq!(Operand::parse("-2147483648"), Ok(Literal(-2147483648)));
}

#[test]
fn bad_operands_are_reported_with_the_token() {
    for tok in ["e", "x9", "", "-", "2147483648", "-2147483649", "12a"] {
        match Operand::parse(tok) {
            Err(ParseError::UnknownOperand { token }) => assert_eq!(token, tok),
            other => panic!("expected UnknownOperand for {:?}, got {:?}", tok, other),
        }
    }
}

#[test]
fn instructions_parse_line_by_line() {
    assert_eq!(
        Instruction::parse("cpy 41 a"),
        Ok(Instruction::Copy { source: Literal(41), target: Register(0) })
    );
    assert_eq!(Instruction::parse("inc d"), Ok(Inc { reg: Register(3) }));
    assert_eq!(Instruction::parse("dec c"), Ok(Dec { reg: Register(2) }));
    assert_eq!(
        Instruction::parse("jnz c -2"),
        Ok(JumpNotZero { check: Register(2), delta: Literal(-2) })
    );
    assert_eq!(Instruction::parse("tgl a"), Ok(Toggle { reg: Register(0) }));
    assert_eq!(Instruction::parse("out b"), Ok(Out { operand: Register(1) }));
    // extra spaces between tokens are accepted
    assert_eq!(
        Instruction::parse("cpy  5   a"),
        Ok(Instruction::Copy { source: Literal(5), target: Register(0) })
    );
}

#[test]
fn unrecognised_lines_are_reported_with_the_line() {
    for bad in ["nop", "cpy a", "inc a b", "mov a b", ""] {
        match Instruction::parse(bad) {
            Err(ParseError::UnrecognisedInstruction { line }) => assert_eq!(line, bad),
            other => panic!("expected UnrecognisedInstruction for {:?}, got {:?}", bad, other),
        }
    }
}

#[test]
fn bad_operand_in_a_shaped_line_is_an_operand_error() {
    match Instruction::parse("inc q") {
        Err(ParseError::UnknownOperand { token }) => assert_eq!(token, "q"),
        other => panic!("expected UnknownOperand, got {:?}", other),
    }
}

#[test]
fn a_program_parses_to_one_instruction_per_line() {
    let prog = parse("cpy 2 a\ntgl a\ninc b").unwrap();
    assert_eq!(
        prog,
        vec![
            Instruction::Copy { source: Literal(2), target: Register(0) },
            Toggle { reg: Register(0) },
            Inc { reg: Register(1) },
        ]
    );
    assert!(parse("inc a\nbad line").is_err());
}

#[test]
fn an_empty_program_halts_immediately() {
    let prog = parse("").unwrap();
    assert_eq!(prog, vec![]);
    let mut cpu = quiet_cpu(3);
    assert_eq!(cpu.process(prog, FUEL), Ok(Termination::Halted));
    assert_eq!(cpu.regs, [3, 0, 0, 0]);
}

#[test]
fn values_read_registers_and_literals() {
    let cpu = quiet_cpu(9);
    assert_eq!(cpu.value(Register(0)), Some(9));
    assert_eq!(cpu.value(Register(3)), Some(0));
    assert_eq!(cpu.value(Register(4)), None);
    assert_eq!(cpu.value(Literal(-3)), Some(-3));
}

#[test]
fn set_value_writes_registers_and_rejects_literals() {
    let mut cpu = quiet_cpu(0);
    assert_eq!(cpu.set_value(Register(1), Literal(17)), Ok(()));
    assert_eq!(cpu.regs, [0, 17, 0, 0]);
    assert_eq!(cpu.set_value(Register(2), Register(1)), Ok(()));
    assert_eq!(cpu.regs, [0, 17, 17, 0]);
    assert_eq!(
        cpu.set_value(Literal(0), Literal(1)),
        Err(ExecError::NonRegisterTarget)
    );
    assert_eq!(
        cpu.set_value(Register(9), Literal(1)),
        Err(ExecError::UnknownRegister)
    );
    assert_eq!(
        cpu.set_value(Register(0), Register(8)),
        Err(ExecError::UnknownRegister)
    );
}
