//! A configurable interpreter for a minimal tape language of eight operators.
//!
//! A source text is compiled by [`preprocess`] into a list of run-length
//! encoded [`Instruction`]s whose loop markers know where to jump. A
//! [`Machine`] then interprets that list against a fixed tape of byte cells,
//! under a [`Configuration`] that says what happens at the edges of the value
//! range, at the ends of the tape and at the end of the input.
//!
//! Every function is verified against a mathematical model: the compiler
//! against [`compiler::compiled`], the arithmetic against the single steps of
//! [`Configuration`], the machine against [`machine::step_of`] and
//! [`machine::run_of`]. What holds of these models in general is proved in
//! [`compiler_laws`], [`program_laws`], [`policy_laws`] and [`machine_laws`].

pub mod compiler;
pub mod compiler_laws;
pub mod config;
pub mod instruction;
pub mod machine;
pub mod machine_laws;
pub mod policy_laws;
pub mod program;
pub mod program_laws;

pub use compiler::{preprocess, SyntaxError};
pub use config::{Configuration, EofPolicy, OverflowPolicy, RuntimeError};
pub use instruction::{variant_eq, Instruction, InstructionKind, InstructionView};
pub use machine::{execute, Machine, MachineView, Status};
