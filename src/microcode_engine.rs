//! The micro-operation vocabulary and the sequencer's own state.
use vstd::prelude::*;
use crate::flags::{B_BIT, C_BIT, D_BIT, I_BIT, N_BIT, V_BIT, Z_BIT};

verus! {

/// What a bus read carries, or where the byte goes.
#[derive(Clone, Copy, Debug, PartialEq, Eq, Structural)]
pub enum What {
    /// The opcode of the next instruction.
    Opcode,
    /// The byte after an opcode that a one-byte instruction reads and drops.
    DiscardOpcode,
    /// Low byte of an address.
    Adl,
    /// High byte of an address.
    Adh,
    /// An immediate operand.
    Imm,
    /// A branch offset.
    Offset,
    /// A zero-page pointer.
    Pointer,
    /// An operand read from memory.
    Data,
    /// A dummy read whose byte is dropped.
    Discard,
}

/// How the address of a read or a write is formed.
#[derive(Clone, Copy, Debug, PartialEq, Eq, Structural)]
pub enum Addr {
    /// The program counter, left as it is.
    Pc,
    /// `$00:adl`.
    ZeroPage,
    /// `adh:adl`.
    Absolute,
    /// `$00:pointer`.
    ZeroPagePointer,
    /// `$01:s`.
    Stack,
    /// A fixed address.
    Vector(u16),
}

/// The byte a write puts on the bus.
#[derive(Clone, Copy, Debug, PartialEq, Eq, Structural)]
pub enum Source {
    A,
    X,
    Y,
    /// The status word as an interrupt pushes it: break clear, bit 5 set.
    Status,
    /// Low byte of the program counter.
    Pcl,
    /// High byte of the program counter.
    Pch,
}

/// A register that internal operations load, move, increment or decrement.
#[derive(Clone, Copy, Debug, PartialEq, Eq, Structural)]
pub enum Register {
    A,
    X,
    Y,
    S,
}

/// An index register.
#[derive(Clone, Copy, Debug, PartialEq, Eq, Structural)]
pub enum Index {
    X,
    Y,
}

/// A documented status flag (bit 5 is not one of them).
#[derive(Clone, Copy, Debug, PartialEq, Eq, Structural)]
pub enum Flag {
    Carry,
    Zero,
    Interrupt,
    Decimal,
    Break,
    Overflow,
    Negative,
}

/// A condition under which a `Skip` jumps over micro-operations.
#[derive(Clone, Copy, Debug, PartialEq, Eq, Structural)]
pub enum Cond {
    /// The last index addition did not carry into the high byte.
    NoCarry,
    /// The flag is clear.
    FlagClear(Flag),
    /// The flag is set.
    FlagSet(Flag),
}

/// One atomic action of a cycle.
#[derive(Clone, Copy, Debug, PartialEq, Eq, Structural)]
pub enum MicroCode {
    /// Read the byte at the program counter and advance it.
    Fetch(What),
    /// Read the byte at an address.
    Read(Addr, What),
    /// Write a byte to an address.
    Write(Addr, Source),
    /// End of the current bus cycle.
    NextCycle,
    /// Clear a flag.
    ClearFlag(Flag),
    /// Set a flag.
    SetFlag(Flag),
    /// Load a register from the data latch, setting N and Z (not for S).
    Load(Register),
    /// Copy one register into another, setting N and Z unless the target is S.
    Transfer(Register, Register),
    /// Increment a register (N and Z unless S).
    Increment(Register),
    /// Decrement a register (N and Z unless S).
    Decrement(Register),
    /// Add an index to the address-low latch, remembering the carry.
    AddIndex(Index),
    /// Add an index to the address-low latch, staying in page zero.
    AddIndexZeroPage(Index),
    /// Add X to the pointer latch, staying in page zero.
    AddPointerX,
    /// Step the pointer latch, staying in page zero.
    IncPointer,
    /// Step the address-low latch without carrying into the high byte.
    IncAdl,
    /// Carry the remembered index carry into the address-high latch.
    FixHigh,
    /// Add the signed offset in the data latch to the low byte of the program
    /// counter; the correct high byte goes to the address-high latch.
    AddOffset,
    /// Load the high byte of the program counter from the address-high latch.
    FixPch,
    /// Program counter := `adh:adl`.
    JumpAbsolute,
    /// Program counter := `adh:data`.
    LoadPc,
    /// When the condition holds, jump over the given number of micro-operations.
    Skip(Cond, u8),
}

/// Whether an operation reads or writes the final operand.
#[derive(Clone, Copy, Debug, PartialEq, Eq, Structural)]
pub enum Access {
    Read,
    Write(Source),
}

/// The sequence the engine is walking through.
#[derive(Clone, Copy, Debug, PartialEq, Eq, Structural)]
pub enum Active {
    /// The power-on reset sequence.
    Reset,
    /// The opcode fetch that starts every instruction.
    Fetch,
    /// The definition of the opcode in the instruction register.
    Instruction,
    /// The IRQ sequence.
    Irq,
    /// The NMI sequence.
    Nmi,
}

/// The fixed micro-operation sequence of one opcode.
#[derive(Debug)]
pub struct InstructionDef {
    pub ops: Vec<MicroCode>,
}

/// Progress of the sequencer.
#[derive(Clone, Copy, Debug, PartialEq, Eq, Structural)]
pub struct MicrocodeEngine {
    /// Cycles performed since construction (stays at its maximum).
    pub cycles: u64,
    /// Index of the next micro-operation in the active sequence.
    pub sub_step: usize,
    /// The active sequence.
    pub active: Active,
}

/// The bit of a flag in the status word.
pub open spec fn flag_mask(f: Flag) -> u8 {
    match f {
        Flag::Carry => C_BIT,
        Flag::Zero => Z_BIT,
        Flag::Interrupt => I_BIT,
        Flag::Decimal => D_BIT,
        Flag::Break => B_BIT,
        Flag::Overflow => V_BIT,
        Flag::Negative => N_BIT,
    }
}

impl Flag {
    pub fn mask(self) -> (r: u8)
        ensures
            r == flag_mask(self),
    {
        match self {
            Flag::Carry => C_BIT,
            Flag::Zero => Z_BIT,
            Flag::Interrupt => I_BIT,
            Flag::Decimal => D_BIT,
            Flag::Break => B_BIT,
            Flag::Overflow => V_BIT,
            Flag::Negative => N_BIT,
        }
    }
}

/// Whether a micro-operation puts a transaction on the bus.
pub open spec fn is_bus_op(op: MicroCode) -> bool {
    op is Fetch || op is Read || op is Write
}

} // verus!
