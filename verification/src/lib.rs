//! Verified core of a small register-machine toolkit.
//!
//! The centrepiece is an interpreter for a four-register assembly language
//! whose `tgl` opcode rewrites the running program, together with a peephole
//! optimiser that fuses multiply-accumulate and add-accumulate loop idioms
//! while staying transparent to that self-modification. The interpreter
//! executes the optimised stream but toggles always land on the canonical
//! (unoptimised) stream, which is then re-optimised wholesale.
//!
//! The remaining modules are verified cores of smaller puzzle computations
//! that share the same style: plain data in, plain data out, with contracts
//! over mathematical views.

pub mod chars;
pub mod cpu;
pub mod discs;
pub mod instr;
pub mod keypad;
pub mod optimiser;
pub mod parser;
pub mod rooms;
pub mod tiles;
