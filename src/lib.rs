//! A cycle-stepped MOS 6502 core: every call of `Mos6502::step` performs the
//! bus transaction of exactly one clock cycle, dummy reads and writes included.
//!
//! - `microcode_engine`: the micro-operation vocabulary and the sequencer state.
//! - `addressing`: the addressing-mode generators.
//! - `table`: the instruction table and the reset and interrupt sequences.
//! - `cpu`: the processor, its per-cycle model `next`, and `step`, proved to
//!   follow that model.
//! - `timing`: cycle-level facts proved over the model.
pub mod flags;
pub mod microcode_engine;
pub mod addressing;
pub mod table;
pub mod cpu;
pub mod timing;

pub use cpu::{Bus, BusAccess, CpuState, DecodingError, Mos6502};
pub use microcode_engine::{
    Access, Active, Addr, Cond, Flag, Index, InstructionDef, MicroCode, MicrocodeEngine, Register,
    Source, What,
};
pub use table::{InstructionTable, TableEntry};
