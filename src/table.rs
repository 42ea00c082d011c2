//! The instruction table, built once: for each opcode byte either the full
//! micro-operation sequence or an explicit "unimplemented" marker. The fixed
//! reset, interrupt and opcode-fetch sequences live beside it.
use vstd::prelude::*;
use crate::addressing::{
    absolute, absolute_indexed, absolute_jump, concatenate_arrays, immediate, implied,
    indexed_indirect, indirect, indirect_indexed, relative, spec_absolute, spec_absolute_indexed,
    spec_absolute_jump, spec_immediate, spec_implied, spec_indexed_indirect, spec_indirect,
    spec_indirect_indexed, spec_relative, spec_zero_page, spec_zero_page_indexed, zero_page,
    zero_page_indexed,
};
use crate::microcode_engine::{
    Access, Active, Addr, Cond, Flag, Index, InstructionDef, MicroCode, Register, Source, What,
};

verus! {

/// IRQ and BRK vector.
pub const IRQ_VECTOR: u16 = 0xFFFE;
/// NMI vector.
pub const NMI_VECTOR: u16 = 0xFFFA;
/// Reset vector.
pub const RESET_VECTOR: u16 = 0xFFFC;

/// The micro-operations of each implemented opcode; `None` for the others.
#[verifier::opaque]
pub open spec fn spec_ops(op: u8) -> Option<Seq<MicroCode>> {
    match op {
        0x10u8 => Some(spec_relative(Cond::FlagSet(Flag::Negative)) + seq![
            MicroCode::NextCycle,
        ]),  // BPL
        0x18u8 => Some(spec_implied() + seq![
            MicroCode::ClearFlag(Flag::Carry),
            MicroCode::NextCycle,
        ]),  // CLC
        0x30u8 => Some(spec_relative(Cond::FlagClear(Flag::Negative)) + seq![
            MicroCode::NextCycle,
        ]),  // BMI
        0x38u8 => Some(spec_implied() + seq![
            MicroCode::SetFlag(Flag::Carry),
            MicroCode::NextCycle,
        ]),  // SEC
        0x4Cu8 => Some(spec_absolute_jump() + seq![
            MicroCode::JumpAbsolute,
            MicroCode::NextCycle,
        ]),  // JMP
        0x50u8 => Some(spec_relative(Cond::FlagSet(Flag::Overflow)) + seq![
            MicroCode::NextCycle,
        ]),  // BVC
        0x58u8 => Some(spec_implied() + seq![
            MicroCode::ClearFlag(Flag::Interrupt),
            MicroCode::NextCycle,
        ]),  // CLI
        0x6Cu8 => Some(spec_indirect() + seq![MicroCode::LoadPc, MicroCode::NextCycle]),  // JMP
        0x70u8 => Some(spec_relative(Cond::FlagClear(Flag::Overflow)) + seq![
            MicroCode::NextCycle,
        ]),  // BVS
        0x78u8 => Some(spec_implied() + seq![
            MicroCode::SetFlag(Flag::Interrupt),
            MicroCode::NextCycle,
        ]),  // SEI
        0x81u8 => Some(spec_indexed_indirect(Access::Write(Source::A)) + seq![
            MicroCode::NextCycle,
        ]),  // STA
        0x84u8 => Some(spec_zero_page(Access::Write(Source::Y)) + seq![
            MicroCode::NextCycle,
        ]),  // STY
        0x85u8 => Some(spec_zero_page(Access::Write(Source::A)) + seq![
            MicroCode::NextCycle,
        ]),  // STA
        0x86u8 => Some(spec_zero_page(Access::Write(Source::X)) + seq![
            MicroCode::NextCycle,
        ]),  // STX
        0x88u8 => Some(spec_implied() + seq![
            MicroCode::Decrement(Register::Y),
            MicroCode::NextCycle,
        ]),  // DEY
        0x8Au8 => Some(spec_implied() + seq![
            MicroCode::Transfer(Register::X, Register::A),
            MicroCode::NextCycle,
        ]),  // TXA
        0x8Cu8 => Some(spec_absolute(Access::Write(Source::Y)) + seq![
            MicroCode::NextCycle,
        ]),  // STY
        0x8Du8 => Some(spec_absolute(Access::Write(Source::A)) + seq![
            MicroCode::NextCycle,
        ]),  // STA
        0x8Eu8 => Some(spec_absolute(Access::Write(Source::X)) + seq![
            MicroCode::NextCycle,
        ]),  // STX
        0x90u8 => Some(spec_relative(Cond::FlagSet(Flag::Carry)) + seq![
            MicroCode::NextCycle,
        ]),  // BCC
        0x91u8 => Some(spec_indirect_indexed(Access::Write(Source::A)) + seq![
            MicroCode::NextCycle,
        ]),  // STA
        0x94u8 => Some(spec_zero_page_indexed(Index::X, Access::Write(Source::Y)) + seq![
            MicroCode::NextCycle,
        ]),  // STY
        0x95u8 => Some(spec_zero_page_indexed(Index::X, Access::Write(Source::A)) + seq![
            MicroCode::NextCycle,
        ]),  // STA
        0x96u8 => Some(spec_zero_page_indexed(Index::Y, Access::Write(Source::X)) + seq![
            MicroCode::NextCycle,
        ]),  // STX
        0x98u8 => Some(spec_implied() + seq![
            MicroCode::Transfer(Register::Y, Register::A),
            MicroCode::NextCycle,
        ]),  // TYA
        0x99u8 => Some(spec_absolute_indexed(Index::Y, Access::Write(Source::A)) + seq![
            MicroCode::NextCycle,
        ]),  // STA
        0x9Au8 => Some(spec_implied() + seq![
            MicroCode::Transfer(Register::X, Register::S),
            MicroCode::NextCycle,
        ]),  // TXS
        0x9Du8 => Some(spec_absolute_indexed(Index::X, Access::Write(Source::A)) + seq![
            MicroCode::NextCycle,
        ]),  // STA
        0xA0u8 => Some(spec_immediate() + seq![
            MicroCode::Load(Register::Y),
            MicroCode::NextCycle,
        ]),  // LDY
        0xA1u8 => Some(spec_indexed_indirect(Access::Read) + seq![
            MicroCode::Load(Register::A),
            MicroCode::NextCycle,
        ]),  // LDA
        0xA2u8 => Some(spec_immediate() + seq![
            MicroCode::Load(Register::X),
            MicroCode::NextCycle,
        ]),  // LDX
        0xA4u8 => Some(spec_zero_page(Access::Read) + seq![
            MicroCode::Load(Register::Y),
            MicroCode::NextCycle,
        ]),  // LDY
        0xA5u8 => Some(spec_zero_page(Access::Read) + seq![
            MicroCode::Load(Register::A),
            MicroCode::NextCycle,
        ]),  // LDA
        0xA6u8 => Some(spec_zero_page(Access::Read) + seq![
            MicroCode::Load(Register::X),
            MicroCode::NextCycle,
        ]),  // LDX
        0xA8u8 => Some(spec_implied() + seq![
            MicroCode::Transfer(Register::A, Register::Y),
            MicroCode::NextCycle,
        ]),  // TAY
        0xA9u8 => Some(spec_immediate() + seq![
            MicroCode::Load(Register::A),
            MicroCode::NextCycle,
        ]),  // LDA
        0xAAu8 => Some(spec_implied() + seq![
            MicroCode::Transfer(Register::A, Register::X),
            MicroCode::NextCycle,
        ]),  // TAX
        0xACu8 => Some(spec_absolute(Access::Read) + seq![
            MicroCode::Load(Register::Y),
            MicroCode::NextCycle,
        ]),  // LDY
        0xADu8 => Some(spec_absolute(Access::Read) + seq![
            MicroCode::Load(Register::A),
            MicroCode::NextCycle,
        ]),  // LDA
        0xAEu8 => Some(spec_absolute(Access::Read) + seq![
            MicroCode::Load(Register::X),
            MicroCode::NextCycle,
        ]),  // LDX
        0xB0u8 => Some(spec_relative(Cond::FlagClear(Flag::Carry)) + seq![
            MicroCode::NextCycle,
        ]),  // BCS
        0xB1u8 => Some(spec_indirect_indexed(Access::Read) + seq![
            MicroCode::Load(Register::A),
            MicroCode::NextCycle,
        ]),  // LDA
        0xB4u8 => Some(spec_zero_page_indexed(Index::X, Access::Read) + seq![
            MicroCode::Load(Register::Y),
            MicroCode::NextCycle,
        ]),  // LDY
        0xB5u8 => Some(spec_zero_page_indexed(Index::X, Access::Read) + seq![
            MicroCode::Load(Register::A),
            MicroCode::NextCycle,
        ]),  // LDA
        0xB6u8 => Some(spec_zero_page_indexed(Index::Y, Access::Read) + seq![
            MicroCode::Load(Register::X),
            MicroCode::NextCycle,
        ]),  // LDX
        0xB8u8 => Some(spec_implied() + seq![
            MicroCode::ClearFlag(Flag::Overflow),
            MicroCode::NextCycle,
        ]),  // CLV
        0xB9u8 => Some(spec_absolute_indexed(Index::Y, Access::Read) + seq![
            MicroCode::Load(Register::A),
            MicroCode::NextCycle,
        ]),  // LDA
        0xBAu8 => Some(spec_implied() + seq![
            MicroCode::Transfer(Register::S, Register::X),
            MicroCode::NextCycle,
        ]),  // TSX
        0xBCu8 => Some(spec_absolute_indexed(Index::X, Access::Read) + seq![
            MicroCode::Load(Register::Y),
            MicroCode::NextCycle,
        ]),  // LDY
        0xBDu8 => Some(spec_absolute_indexed(Index::X, Access::Read) + seq![
            MicroCode::Load(Register::A),
            MicroCode::NextCycle,
        ]),  // LDA
        0xBEu8 => Some(spec_absolute_indexed(Index::Y, Access::Read) + seq![
            MicroCode::Load(Register::X),
            MicroCode::NextCycle,
        ]),  // LDX
        0xC8u8 => Some(spec_implied() + seq![
            MicroCode::Increment(Register::Y),
            MicroCode::NextCycle,
        ]),  // INY
        0xCAu8 => Some(spec_implied() + seq![
            MicroCode::Decrement(Register::X),
            MicroCode::NextCycle,
        ]),  // DEX
        0xD0u8 => Some(spec_relative(Cond::FlagSet(Flag::Zero)) + seq![
            MicroCode::NextCycle,
        ]),  // BNE
        0xD8u8 => Some(spec_implied() + seq![
            MicroCode::ClearFlag(Flag::Decimal),
            MicroCode::NextCycle,
        ]),  // CLD
        0xE8u8 => Some(spec_implied() + seq![
            MicroCode::Increment(Register::X),
            MicroCode::NextCycle,
        ]),  // INX
        0xEAu8 => Some(spec_implied() + seq![MicroCode::NextCycle]),  // NOP
        0xF0u8 => Some(spec_relative(Cond::FlagClear(Flag::Zero)) + seq![
            MicroCode::NextCycle,
        ]),  // BEQ
        0xF8u8 => Some(spec_implied() + seq![
            MicroCode::SetFlag(Flag::Decimal),
            MicroCode::NextCycle,
        ]),  // SED
        _ => None,
    }
}

/// The opcode fetch that starts every instruction (1 cycle).
pub open spec fn spec_fetch() -> Seq<MicroCode> {
    seq![MicroCode::Fetch(What::Opcode), MicroCode::NextCycle]
}

/// Power-on reset: two settle cycles, three dummy stack reads that each
/// decrement S, then the vector's two bytes into the program counter, with
/// interrupts disabled (7 cycles).
pub open spec fn spec_reset() -> Seq<MicroCode> {
    seq![
        MicroCode::Read(Addr::Pc, What::Discard), MicroCode::NextCycle,
        MicroCode::Read(Addr::Pc, What::Discard), MicroCode::NextCycle,
        MicroCode::Read(Addr::Stack, What::Discard),
        MicroCode::Decrement(Register::S),
        MicroCode::NextCycle,
        MicroCode::Read(Addr::Stack, What::Discard),
        MicroCode::Decrement(Register::S),
        MicroCode::NextCycle,
        MicroCode::Read(Addr::Stack, What::Discard),
        MicroCode::Decrement(Register::S),
        MicroCode::NextCycle,
        MicroCode::Read(Addr::Vector(RESET_VECTOR), What::Data), MicroCode::NextCycle,
        MicroCode::Read(Addr::Vector((RESET_VECTOR + 1) as u16), What::Adh), MicroCode::LoadPc,
        MicroCode::SetFlag(Flag::Interrupt), MicroCode::NextCycle,
    ]
}

/// IRQ or NMI: two dummy reads, pushes of PCH, PCL and the status word, then
/// the vector's two bytes into the program counter, with interrupts disabled
/// (7 cycles).
pub open spec fn spec_interrupt(vector: u16) -> Seq<MicroCode> {
    seq![
        MicroCode::Read(Addr::Pc, What::Discard), MicroCode::NextCycle,
        MicroCode::Read(Addr::Pc, What::Discard), MicroCode::NextCycle,
        MicroCode::Write(Addr::Stack, Source::Pch),
        MicroCode::Decrement(Register::S),
        MicroCode::NextCycle,
        MicroCode::Write(Addr::Stack, Source::Pcl),
        MicroCode::Decrement(Register::S),
        MicroCode::NextCycle,
        MicroCode::Write(Addr::Stack, Source::Status),
        MicroCode::Decrement(Register::S),
        MicroCode::NextCycle,
        MicroCode::Read(Addr::Vector(vector), What::Data),
        MicroCode::SetFlag(Flag::Interrupt),
        MicroCode::NextCycle,
        MicroCode::Read(Addr::Vector((vector + 1) as u16), What::Adh),
        MicroCode::LoadPc,
        MicroCode::NextCycle,
    ]
}

/// The sequence that an active kind walks through, given the instruction register.
pub open spec fn sequence(active: Active, ir: u8) -> Seq<MicroCode> {
    match active {
        Active::Reset => spec_reset(),
        Active::Fetch => spec_fetch(),
        Active::Instruction => match spec_ops(ir) {
            Some(s) => s,
            None => seq![],
        },
        Active::Irq => spec_interrupt(IRQ_VECTOR),
        Active::Nmi => spec_interrupt(NMI_VECTOR),
    }
}

/// One slot of the table.
#[derive(Debug)]
pub enum TableEntry {
    Defined(InstructionDef),
    Unimplemented,
}

pub open spec fn entry_matches(e: TableEntry, s: Option<Seq<MicroCode>>) -> bool {
    match e {
        TableEntry::Defined(d) => s == Some(d.ops@),
        TableEntry::Unimplemented => s is None,
    }
}

/// All sequences the engine walks through.
pub struct InstructionTable {
    entries: Vec<TableEntry>,
    fetch: Vec<MicroCode>,
    reset: Vec<MicroCode>,
    irq: Vec<MicroCode>,
    nmi: Vec<MicroCode>,
    empty: Vec<MicroCode>,
}

fn with_op(prefix: Vec<MicroCode>, op: MicroCode) -> (r: Vec<MicroCode>)
    ensures
        r@ == prefix@ + seq![op, MicroCode::NextCycle],
{
    concatenate_arrays(&prefix, &vec![op, MicroCode::NextCycle])
}

fn with_boundary(prefix: Vec<MicroCode>) -> (r: Vec<MicroCode>)
    ensures
        r@ == prefix@ + seq![MicroCode::NextCycle],
{
    concatenate_arrays(&prefix, &vec![MicroCode::NextCycle])
}

/// The micro-operations of an opcode, or `None` where it is not implemented.
pub fn definition(op: u8) -> (r: Option<Vec<MicroCode>>)
    ensures
        match r {
            Some(v) => spec_ops(op) == Some(v@),
            None => spec_ops(op) is None,
        },
{
    reveal(spec_ops);
    let ops = match op {
        0x10u8 => with_boundary(relative(Cond::FlagSet(Flag::Negative))),  // BPL
        0x18u8 => with_op(implied(), MicroCode::ClearFlag(Flag::Carry)),  // CLC
        0x30u8 => with_boundary(relative(Cond::FlagClear(Flag::Negative))),  // BMI
        0x38u8 => with_op(implied(), MicroCode::SetFlag(Flag::Carry)),  // SEC
        0x4Cu8 => with_op(absolute_jump(), MicroCode::JumpAbsolute),  // JMP
        0x50u8 => with_boundary(relative(Cond::FlagSet(Flag::Overflow))),  // BVC
        0x58u8 => with_op(implied(), MicroCode::ClearFlag(Flag::Interrupt)),  // CLI
        0x6Cu8 => with_op(indirect(), MicroCode::LoadPc),  // JMP
        0x70u8 => with_boundary(relative(Cond::FlagClear(Flag::Overflow))),  // BVS
        0x78u8 => with_op(implied(), MicroCode::SetFlag(Flag::Interrupt)),  // SEI
        0x81u8 => with_boundary(indexed_indirect(Access::Write(Source::A))),  // STA
        0x84u8 => with_boundary(zero_page(Access::Write(Source::Y))),  // STY
        0x85u8 => with_boundary(zero_page(Access::Write(Source::A))),  // STA
        0x86u8 => with_boundary(zero_page(Access::Write(Source::X))),  // STX
        0x88u8 => with_op(implied(), MicroCode::Decrement(Register::Y)),  // DEY
        0x8Au8 => with_op(implied(), MicroCode::Transfer(Register::X, Register::A)),  // TXA
        0x8Cu8 => with_boundary(absolute(Access::Write(Source::Y))),  // STY
        0x8Du8 => with_boundary(absolute(Access::Write(Source::A))),  // STA
        0x8Eu8 => with_boundary(absolute(Access::Write(Source::X))),  // STX
        0x90u8 => with_boundary(relative(Cond::FlagSet(Flag::Carry))),  // BCC
        0x91u8 => with_boundary(indirect_indexed(Access::Write(Source::A))),  // STA
        0x94u8 => with_boundary(zero_page_indexed(Index::X, Access::Write(Source::Y))),  // STY
        0x95u8 => with_boundary(zero_page_indexed(Index::X, Access::Write(Source::A))),  // STA
        0x96u8 => with_boundary(zero_page_indexed(Index::Y, Access::Write(Source::X))),  // STX
        0x98u8 => with_op(implied(), MicroCode::Transfer(Register::Y, Register::A)),  // TYA
        0x99u8 => with_boundary(absolute_indexed(Index::Y, Access::Write(Source::A))),  // STA
        0x9Au8 => with_op(implied(), MicroCode::Transfer(Register::X, Register::S)),  // TXS
        0x9Du8 => with_boundary(absolute_indexed(Index::X, Access::Write(Source::A))),  // STA
        0xA0u8 => with_op(immediate(), MicroCode::Load(Register::Y)),  // LDY
        0xA1u8 => with_op(indexed_indirect(Access::Read), MicroCode::Load(Register::A)),  // LDA
        0xA2u8 => with_op(immediate(), MicroCode::Load(Register::X)),  // LDX
        0xA4u8 => with_op(zero_page(Access::Read), MicroCode::Load(Register::Y)),  // LDY
        0xA5u8 => with_op(zero_page(Access::Read), MicroCode::Load(Register::A)),  // LDA
        0xA6u8 => with_op(zero_page(Access::Read), MicroCode::Load(Register::X)),  // LDX
        0xA8u8 => with_op(implied(), MicroCode::Transfer(Register::A, Register::Y)),  // TAY
        0xA9u8 => with_op(immediate(), MicroCode::Load(Register::A)),  // LDA
        0xAAu8 => with_op(implied(), MicroCode::Transfer(Register::A, Register::X)),  // TAX
        0xACu8 => with_op(absolute(Access::Read), MicroCode::Load(Register::Y)),  // LDY
        0xADu8 => with_op(absolute(Access::Read), MicroCode::Load(Register::A)),  // LDA
        0xAEu8 => with_op(absolute(Access::Read), MicroCode::Load(Register::X)),  // LDX
        0xB0u8 => with_boundary(relative(Cond::FlagClear(Flag::Carry))),  // BCS
        0xB1u8 => with_op(indirect_indexed(Access::Read), MicroCode::Load(Register::A)),  // LDA
        0xB4u8 => with_op(zero_page_indexed(Index::X, Access::Read), MicroCode::Load(Register::Y)),  // LDY
        0xB5u8 => with_op(zero_page_indexed(Index::X, Access::Read), MicroCode::Load(Register::A)),  // LDA
        0xB6u8 => with_op(zero_page_indexed(Index::Y, Access::Read), MicroCode::Load(Register::X)),  // LDX
        0xB8u8 => with_op(implied(), MicroCode::ClearFlag(Flag::Overflow)),  // CLV
        0xB9u8 => with_op(absolute_indexed(Index::Y, Access::Read), MicroCode::Load(Register::A)),  // LDA
        0xBAu8 => with_op(implied(), MicroCode::Transfer(Register::S, Register::X)),  // TSX
        0xBCu8 => with_op(absolute_indexed(Index::X, Access::Read), MicroCode::Load(Register::Y)),  // LDY
        0xBDu8 => with_op(absolute_indexed(Index::X, Access::Read), MicroCode::Load(Register::A)),  // LDA
        0xBEu8 => with_op(absolute_indexed(Index::Y, Access::Read), MicroCode::Load(Register::X)),  // LDX
        0xC8u8 => with_op(implied(), MicroCode::Increment(Register::Y)),  // INY
        0xCAu8 => with_op(implied(), MicroCode::Decrement(Register::X)),  // DEX
        0xD0u8 => with_boundary(relative(Cond::FlagSet(Flag::Zero))),  // BNE
        0xD8u8 => with_op(implied(), MicroCode::ClearFlag(Flag::Decimal)),  // CLD
        0xE8u8 => with_op(implied(), MicroCode::Increment(Register::X)),  // INX
        0xEAu8 => with_boundary(implied()),  // NOP
        0xF0u8 => with_boundary(relative(Cond::FlagClear(Flag::Zero))),  // BEQ
        0xF8u8 => with_op(implied(), MicroCode::SetFlag(Flag::Decimal)),  // SED
        _ => return None,
    };
    Some(ops)
}

fn fetch_sequence() -> (r: Vec<MicroCode>)
    ensures
        r@ == spec_fetch(),
{
    vec![MicroCode::Fetch(What::Opcode), MicroCode::NextCycle]
}

fn reset_sequence() -> (r: Vec<MicroCode>)
    ensures
        r@ == spec_reset(),
{
    vec![
        MicroCode::Read(Addr::Pc, What::Discard), MicroCode::NextCycle,
        MicroCode::Read(Addr::Pc, What::Discard), MicroCode::NextCycle,
        MicroCode::Read(Addr::Stack, What::Discard),
        MicroCode::Decrement(Register::S),
        MicroCode::NextCycle,
        MicroCode::Read(Addr::Stack, What::Discard),
        MicroCode::Decrement(Register::S),
        MicroCode::NextCycle,
        MicroCode::Read(Addr::Stack, What::Discard),
        MicroCode::Decrement(Register::S),
        MicroCode::NextCycle,
        MicroCode::Read(Addr::Vector(RESET_VECTOR), What::Data), MicroCode::NextCycle,
        MicroCode::Read(Addr::Vector(RESET_VECTOR + 1), What::Adh), MicroCode::LoadPc,
        MicroCode::SetFlag(Flag::Interrupt), MicroCode::NextCycle,
    ]
}

fn interrupt_sequence(vector: u16) -> (r: Vec<MicroCode>)
    requires
        vector < 0xFFFF,
    ensures
        r@ == spec_interrupt(vector),
{
    vec![
        MicroCode::Read(Addr::Pc, What::Discard), MicroCode::NextCycle,
        MicroCode::Read(Addr::Pc, What::Discard), MicroCode::NextCycle,
        MicroCode::Write(Addr::Stack, Source::Pch),
        MicroCode::Decrement(Register::S),
        MicroCode::NextCycle,
        MicroCode::Write(Addr::Stack, Source::Pcl),
        MicroCode::Decrement(Register::S),
        MicroCode::NextCycle,
        MicroCode::Write(Addr::Stack, Source::Status),
        MicroCode::Decrement(Register::S),
        MicroCode::NextCycle,
        MicroCode::Read(Addr::Vector(vector), What::Data),
        MicroCode::SetFlag(Flag::Interrupt),
        MicroCode::NextCycle,
        MicroCode::Read(Addr::Vector(vector + 1), What::Adh),
        MicroCode::LoadPc,
        MicroCode::NextCycle,
    ]
}

impl InstructionTable {
    /// Every slot agrees with `spec_ops`, and the fixed sequences with theirs.
    pub closed spec fn wf(&self) -> bool {
        &&& self.entries@.len() == 256
        &&& forall|i: int| 0 <= i < 256 ==> #[trigger] entry_matches(self.entries@[i], spec_ops(i as u8))
        &&& self.fetch@ == spec_fetch()
        &&& self.reset@ == spec_reset()
        &&& self.irq@ == spec_interrupt(IRQ_VECTOR)
        &&& self.nmi@ == spec_interrupt(NMI_VECTOR)
        &&& self.empty@ == Seq::<MicroCode>::empty()
    }

    /// Builds the table, one slot per opcode byte.
    pub fn build() -> (r: InstructionTable)
        ensures
            r.wf(),
    {
        let mut entries: Vec<TableEntry> = Vec::new();
        let mut op: u16 = 0;
        while op < 256
            invariant
                op <= 256,
                entries@.len() == op,
                forall|i: int| 0 <= i < op ==> #[trigger] entry_matches(entries@[i], spec_ops(i as u8)),
            decreases 256 - op,
        {
            let entry = match definition(op as u8) {
                Some(ops) => TableEntry::Defined(InstructionDef { ops }),
                None => TableEntry::Unimplemented,
            };
            entries.push(entry);
            op += 1;
        }
        InstructionTable {
            entries,
            fetch: fetch_sequence(),
            reset: reset_sequence(),
            irq: interrupt_sequence(IRQ_VECTOR),
            nmi: interrupt_sequence(NMI_VECTOR),
            empty: Vec::new(),
        }
    }

    /// Whether the opcode has a definition.
    pub fn is_implemented(&self, op: u8) -> (r: bool)
        requires
            self.wf(),
        ensures
            r == spec_ops(op) is Some,
    {
        let e = &self.entries[op as usize];
        assert(entry_matches(self.entries@[op as int], spec_ops((op as int) as u8)));
        match e {
            TableEntry::Defined(_) => true,
            TableEntry::Unimplemented => false,
        }
    }

    /// The sequence of an active kind.
    pub fn ops(&self, active: Active, ir: u8) -> (r: &Vec<MicroCode>)
        requires
            self.wf(),
        ensures
            r@ == sequence(active, ir),
    {
        match active {
            Active::Reset => &self.reset,
            Active::Fetch => &self.fetch,
            Active::Irq => &self.irq,
            Active::Nmi => &self.nmi,
            Active::Instruction => {
                assert(entry_matches(self.entries@[ir as int], spec_ops((ir as int) as u8)));
                match &self.entries[ir as usize] {
                    TableEntry::Defined(d) => &d.ops,
                    TableEntry::Unimplemented => &self.empty,
                }
            }
        }
    }
}

} // verus!
