//! Timing facts of the sequencer, proved over the per-cycle model `next`.
use vstd::prelude::*;
use crate::addressing::{
    spec_absolute, spec_absolute_indexed, spec_absolute_jump, spec_immediate, spec_implied,
    spec_indexed_indirect, spec_indirect, spec_indirect_indexed, spec_relative, spec_zero_page,
    spec_zero_page_indexed,
};
use crate::cpu::{
    address_of, apply, begin, branch_target, cond_holds, dec8, inc16, inc8, index_value, next, register_value, run, set_register,
    store, with_sub_step, word, BusAccess, CpuState,
};
use crate::flags::I_BIT;
use crate::microcode_engine::{
    is_bus_op, Access, Active, Addr, Cond, Flag, Index, MicroCode, Register, Source, What,
};
use crate::table::{sequence, spec_ops, spec_reset, RESET_VECTOR};

verus! {

/// Running a cycle never changes which sequence is active.
proof fn lemma_run_keeps_active(ops: Seq<MicroCode>, s: CpuState, d: u8, done: bool)
    ensures
        run(ops, s, d, done).engine.active == s.engine.active,
    decreases ops.len() - s.engine.sub_step,
{
    let i = s.engine.sub_step as int;
    if i >= ops.len() || ops.len() > usize::MAX {
    } else {
        let op = ops[i];
        if op is NextCycle {
        } else if crate::microcode_engine::is_bus_op(op) && done {
        } else if let MicroCode::Skip(c, n) = op {
            let j = if i + 1 + n < ops.len() { i + 1 + n } else { ops.len() as int };
            if crate::cpu::cond_holds(s, c) {
                lemma_run_keeps_active(ops, with_sub_step(s, j), d, done);
            } else {
                lemma_run_keeps_active(ops, with_sub_step(s, i + 1), d, done);
            }
        } else {
            reveal(apply);
            lemma_run_keeps_active(ops, with_sub_step(apply(s, op, d), i + 1), d, done || crate::microcode_engine::is_bus_op(op));
        }
    }
}

/// The active sequence is finished: the next cycle starts another one.
pub open spec fn finished(s: CpuState) -> bool {
    s.engine.sub_step >= sequence(s.engine.active, s.ir).len()
}

/// An IRQ sequence starts only at an instruction boundary (the sequence
/// before it finished, and it was not the opcode fetch, which is always
/// followed by its instruction), only while the IRQ line is asserted and
/// interrupts are enabled, and only when no NMI is pending.
pub proof fn lemma_irq_only_at_boundary(s: CpuState, d: u8)
    requires
        !(s.engine.active is Irq),
        next(s, d).engine.active is Irq,
    ensures
        finished(s),
        !(s.engine.active is Fetch),
        s.irq_line,
        s.p & I_BIT == 0,
        !s.nmi_pending,
{
    let b = CpuState { last: BusAccess::Idle, ..begin(s) };
    lemma_run_keeps_active(sequence(b.engine.active, b.ir), b, d, false);
}

/// At an instruction boundary with the IRQ line asserted, interrupts enabled
/// and no NMI pending, the next cycle is the first of the IRQ sequence.
pub proof fn lemma_irq_taken(s: CpuState, d: u8)
    requires
        finished(s),
        !(s.engine.active is Fetch),
        s.irq_line,
        s.p & I_BIT == 0,
        !s.nmi_pending,
    ensures
        next(s, d).engine.active is Irq,
{
    let b = CpuState { last: BusAccess::Idle, ..begin(s) };
    lemma_run_keeps_active(sequence(b.engine.active, b.ir), b, d, false);
}

/// `v - k` on a byte, wrapping.
pub open spec fn sub8(v: u8, k: u8) -> u8 {
    ((v as int - k as int + 256) % 256) as u8
}

proof fn lemma_reset_ops()
    ensures
        spec_reset().len() == 19,
        spec_reset()[0] == MicroCode::Read(Addr::Pc, What::Discard),
        spec_reset()[1] is NextCycle,
        spec_reset()[2] == MicroCode::Read(Addr::Pc, What::Discard),
        spec_reset()[3] is NextCycle,
        spec_reset()[4] == MicroCode::Read(Addr::Stack, What::Discard),
        spec_reset()[5] == MicroCode::Decrement(Register::S),
        spec_reset()[6] is NextCycle,
        spec_reset()[7] == MicroCode::Read(Addr::Stack, What::Discard),
        spec_reset()[8] == MicroCode::Decrement(Register::S),
        spec_reset()[9] is NextCycle,
        spec_reset()[10] == MicroCode::Read(Addr::Stack, What::Discard),
        spec_reset()[11] == MicroCode::Decrement(Register::S),
        spec_reset()[12] is NextCycle,
        spec_reset()[13] == MicroCode::Read(Addr::Vector(RESET_VECTOR), What::Data),
        spec_reset()[14] is NextCycle,
        spec_reset()[15] == MicroCode::Read(Addr::Vector((RESET_VECTOR + 1) as u16), What::Adh),
        spec_reset()[16] == MicroCode::LoadPc,
        spec_reset()[17] == MicroCode::SetFlag(Flag::Interrupt),
        spec_reset()[18] is NextCycle,
{
}

proof fn lemma_apply_read(s: CpuState, a: Addr, w: What, d: u8)
    ensures
        apply(s, MicroCode::Read(a, w), d) == store(
            CpuState { last: BusAccess::Read { addr: address_of(s, a), value: d, what: w }, ..s },
            w,
            d,
        ),
{
    reveal(apply);
}

proof fn lemma_apply_dec_s(s: CpuState, d: u8)
    ensures
        apply(s, MicroCode::Decrement(Register::S), d) == (CpuState { s: dec8(s.s), ..s }),
{
    reveal(apply);
}

proof fn lemma_apply_load_pc(s: CpuState, d: u8)
    ensures
        apply(s, MicroCode::LoadPc, d) == (CpuState { pc: word(s.adh, s.data), ..s }),
{
    reveal(apply);
}

proof fn lemma_apply_set_i(s: CpuState, d: u8)
    ensures
        apply(s, MicroCode::SetFlag(Flag::Interrupt), d) == (CpuState { p: s.p | I_BIT, ..s }),
{
    reveal(apply);
}

/// The start of a cycle inside the reset sequence.
proof fn lemma_reset_begin(s: CpuState)
    requires
        s.engine.active == Active::Reset,
        s.engine.sub_step < 19,
    ensures
        begin(s) == s,
        sequence(s.engine.active, s.ir) == spec_reset(),
{
    lemma_reset_ops();
}

proof fn lemma_reset_settle(s: CpuState, d: u8)
    requires
        s.engine.active == Active::Reset,
        s.engine.sub_step == 0 || s.engine.sub_step == 2,
    ensures
        next(s, d).engine.active == Active::Reset,
        next(s, d).engine.sub_step == s.engine.sub_step + 2,
        next(s, d).s == s.s,
{
    lemma_reset_ops();
    lemma_reset_begin(s);
    let ops = spec_reset();
    let i = s.engine.sub_step as int;
    let b = CpuState { last: BusAccess::Idle, ..s };
    lemma_apply_read(b, Addr::Pc, What::Discard, d);
    let c = with_sub_step(apply(b, ops[i], d), i + 1);
    assert(run(ops, b, d, false) == run(ops, c, d, true));
    assert(run(ops, c, d, true) == with_sub_step(c, i + 2));
}

proof fn lemma_reset_stack(s: CpuState, d: u8)
    requires
        s.engine.active == Active::Reset,
        s.engine.sub_step == 4 || s.engine.sub_step == 7 || s.engine.sub_step == 10,
    ensures
        next(s, d).engine.active == Active::Reset,
        next(s, d).engine.sub_step == s.engine.sub_step + 3,
        next(s, d).s == dec8(s.s),
{
    lemma_reset_ops();
    lemma_reset_begin(s);
    let ops = spec_reset();
    let i = s.engine.sub_step as int;
    let b = CpuState { last: BusAccess::Idle, ..s };
    lemma_apply_read(b, Addr::Stack, What::Discard, d);
    let c = with_sub_step(apply(b, ops[i], d), i + 1);
    assert(run(ops, b, d, false) == run(ops, c, d, true));
    lemma_apply_dec_s(c, d);
    let e = with_sub_step(apply(c, ops[i + 1], d), i + 2);
    assert(run(ops, c, d, true) == run(ops, e, d, true));
    assert(run(ops, e, d, true) == with_sub_step(e, i + 3));
}

proof fn lemma_reset_vector_low(s: CpuState, d: u8)
    requires
        s.engine.active == Active::Reset,
        s.engine.sub_step == 13,
    ensures
        next(s, d).engine.active == Active::Reset,
        next(s, d).engine.sub_step == 15,
        next(s, d).s == s.s,
        next(s, d).data == d,
        next(s, d).last == (BusAccess::Read { addr: RESET_VECTOR, value: d, what: What::Data }),
{
    lemma_reset_ops();
    lemma_reset_begin(s);
    let ops = spec_reset();
    let b = CpuState { last: BusAccess::Idle, ..s };
    lemma_apply_read(b, Addr::Vector(RESET_VECTOR), What::Data, d);
    let c = with_sub_step(apply(b, ops[13], d), 14);
    assert(run(ops, b, d, false) == run(ops, c, d, true));
    assert(run(ops, c, d, true) == with_sub_step(c, 15));
}

proof fn lemma_reset_vector_high(s: CpuState, d: u8)
    requires
        s.engine.active == Active::Reset,
        s.engine.sub_step == 15,
    ensures
        next(s, d).engine.active == Active::Reset,
        next(s, d).engine.sub_step == 19,
        next(s, d).s == s.s,
        next(s, d).pc == word(d, s.data),
        next(s, d).p == s.p | I_BIT,
        next(s, d).last == (BusAccess::Read { addr: (RESET_VECTOR + 1) as u16, value: d, what: What::Adh }),
{
    lemma_reset_ops();
    lemma_reset_begin(s);
    let ops = spec_reset();
    let b = CpuState { last: BusAccess::Idle, ..s };
    lemma_apply_read(b, Addr::Vector((RESET_VECTOR + 1) as u16), What::Adh, d);
    let c = with_sub_step(apply(b, ops[15], d), 16);
    assert(run(ops, b, d, false) == run(ops, c, d, true));
    lemma_apply_load_pc(c, d);
    let e = with_sub_step(apply(c, ops[16], d), 17);
    assert(run(ops, c, d, true) == run(ops, e, d, true));
    lemma_apply_set_i(e, d);
    let f = with_sub_step(apply(e, ops[17], d), 18);
    assert(run(ops, e, d, true) == run(ops, f, d, true));
    assert(run(ops, f, d, true) == with_sub_step(f, 19));
}

/// From the start of the reset sequence, seven cycles: the sixth and seventh
/// read the reset vector, whose two bytes become the program counter; the
/// stack pointer has been decremented three times (wrapping) and interrupts
/// are disabled; the sequence is then finished.
pub proof fn lemma_reset_sequence(
    s0: CpuState,
    d0: u8,
    d1: u8,
    d2: u8,
    d3: u8,
    d4: u8,
    d5: u8,
    d6: u8,
)
    requires
        s0.engine.active == Active::Reset,
        s0.engine.sub_step == 0,
    ensures
        ({
            let s5 = next(next(next(next(next(s0, d0), d1), d2), d3), d4);
            let s6 = next(s5, d5);
            let s7 = next(s6, d6);
            &&& s6.last == (BusAccess::Read { addr: RESET_VECTOR, value: d5, what: What::Data })
            &&& s7.last == (BusAccess::Read { addr: (RESET_VECTOR + 1) as u16, value: d6, what: What::Adh })
            &&& s7.pc == word(d6, d5)
            &&& s7.s == sub8(s0.s, 3)
            &&& s7.p & I_BIT != 0
            &&& s7.engine.active == Active::Reset
            &&& finished(s7)
        }),
{
    let s1 = next(s0, d0);
    lemma_reset_settle(s0, d0);
    let s2 = next(s1, d1);
    lemma_reset_settle(s1, d1);
    let s3 = next(s2, d2);
    lemma_reset_stack(s2, d2);
    let s4 = next(s3, d3);
    lemma_reset_stack(s3, d3);
    let s5 = next(s4, d4);
    lemma_reset_stack(s4, d4);
    let s6 = next(s5, d5);
    lemma_reset_vector_low(s5, d5);
    let s7 = next(s6, d6);
    lemma_reset_vector_high(s6, d6);
    lemma_reset_ops();
    assert(dec8(dec8(dec8(s0.s))) == sub8(s0.s, 3));
    let status_before = s6.p;
    let status_after = s7.p;
    assert(status_after & 4u8 != 0) by (bit_vector)
        requires
            status_after == status_before | 4u8,
    ;
}

/// The sequence of an absolute-indexed read that loads `r`.
pub open spec fn absolute_indexed_load(index: Index, r: Register) -> Seq<MicroCode> {
    spec_absolute_indexed(index, Access::Read) + seq![MicroCode::Load(r), MicroCode::NextCycle]
}

proof fn lemma_absolute_indexed_ops(index: Index, r: Register)
    ensures
        ({
            let ops = absolute_indexed_load(index, r);
            &&& ops.len() == 14
            &&& ops[2] == MicroCode::Fetch(What::Adl)
            &&& ops[3] is NextCycle
            &&& ops[4] == MicroCode::Fetch(What::Adh)
            &&& ops[5] == MicroCode::AddIndex(index)
            &&& ops[6] is NextCycle
            &&& ops[7] == MicroCode::Read(Addr::Absolute, What::Data)
            &&& ops[8] == MicroCode::Skip(Cond::NoCarry, 3)
            &&& ops[9] is FixHigh
            &&& ops[10] is NextCycle
            &&& ops[11] == MicroCode::Read(Addr::Absolute, What::Data)
            &&& ops[12] == MicroCode::Load(r)
            &&& ops[13] is NextCycle
        }),
{
    let ops = absolute_indexed_load(index, r);
    assert(ops[2] == MicroCode::Fetch(What::Adl));
    assert(ops[13] is NextCycle);
}

proof fn lemma_apply_fetch(s: CpuState, w: What, d: u8)
    ensures
        apply(s, MicroCode::Fetch(w), d) == store(
            CpuState { pc: inc16(s.pc), last: BusAccess::Read { addr: s.pc, value: d, what: w }, ..s },
            w,
            d,
        ),
{
    reveal(apply);
}

proof fn lemma_apply_add_index(s: CpuState, i: Index, d: u8)
    ensures
        apply(s, MicroCode::AddIndex(i), d) == (CpuState {
            adl: ((s.adl as int + index_value(s, i) as int) % 256) as u8,
            carry: s.adl as int + index_value(s, i) as int >= 256,
            ..s
        }),
{
    reveal(apply);
}

proof fn lemma_apply_fix_high(s: CpuState, d: u8)
    ensures
        apply(s, MicroCode::FixHigh, d) == (if s.carry { CpuState { adh: inc8(s.adh), ..s } } else { s }),
{
    reveal(apply);
}

proof fn lemma_apply_load(s: CpuState, r: Register, d: u8)
    ensures
        apply(s, MicroCode::Load(r), d) == set_register(s, r, s.data),
{
    reveal(apply);
}

/// Inside an instruction's sequence, a cycle starts where the last one ended.
proof fn lemma_instruction_begin(s: CpuState, ops: Seq<MicroCode>)
    requires
        s.engine.active == Active::Instruction,
        spec_ops(s.ir) == Some(ops),
        s.engine.sub_step < ops.len(),
    ensures
        begin(s) == s,
        sequence(s.engine.active, s.ir) == ops,
{
}

/// Absolute-indexed read (`LDA abs,X` and the like), from the cycle after
/// its opcode fetch: the address bytes `lo` and `hi` are fetched, then the
/// operand is read at `hi:(lo + index)`. Without a carry out of the low byte
/// that read is the operand and the instruction ends there, four cycles in
/// all; with one it was a dummy read, and a fifth cycle reads the operand at
/// the address with its high byte fixed.
pub proof fn lemma_absolute_indexed_page_cross(
    s: CpuState,
    index: Index,
    r: Register,
    lo: u8,
    hi: u8,
    d4: u8,
    d5: u8,
)
    requires
        s.engine.active == Active::Instruction,
        s.engine.sub_step == 2,
        spec_ops(s.ir) == Some(absolute_indexed_load(index, r)),
    ensures
        ({
            let sum = lo as int + index_value(s, index) as int;
            let low = (sum % 256) as u8;
            let s4 = next(next(next(s, lo), hi), d4);
            let s5 = next(s4, d5);
            &&& s4.last == (BusAccess::Read { addr: word(hi, low), value: d4, what: What::Data })
            &&& sum < 256 ==> finished(s4) && register_value(s4, r) == d4
            &&& sum >= 256 ==> !finished(s4) && finished(s5)
                && s5.last == (BusAccess::Read { addr: word(inc8(hi), low), value: d5, what: What::Data })
                && register_value(s5, r) == d5
        }),
{
    let ops = absolute_indexed_load(index, r);
    lemma_absolute_indexed_ops(index, r);
    // cycle 2: fetch the low address byte
    lemma_instruction_begin(s, ops);
    let b2 = CpuState { last: BusAccess::Idle, ..s };
    lemma_apply_fetch(b2, What::Adl, lo);
    let c2 = with_sub_step(apply(b2, ops[2], lo), 3);
    assert(run(ops, b2, lo, false) == run(ops, c2, lo, true));
    assert(run(ops, c2, lo, true) == with_sub_step(c2, 4));
    let s2 = next(s, lo);
    assert(s2.adl == lo && s2.engine.sub_step == 4 && s2.engine.active == Active::Instruction && s2.ir == s.ir);
    // cycle 3: fetch the high byte and add the index
    lemma_instruction_begin(s2, ops);
    let b3 = CpuState { last: BusAccess::Idle, ..s2 };
    lemma_apply_fetch(b3, What::Adh, hi);
    let c3 = with_sub_step(apply(b3, ops[4], hi), 5);
    assert(run(ops, b3, hi, false) == run(ops, c3, hi, true));
    lemma_apply_add_index(c3, index, hi);
    let e3 = with_sub_step(apply(c3, ops[5], hi), 6);
    assert(run(ops, c3, hi, true) == run(ops, e3, hi, true));
    assert(run(ops, e3, hi, true) == with_sub_step(e3, 7));
    let s3 = next(s2, hi);
    let sum = lo as int + index_value(s, index) as int;
    assert(s3.adh == hi && s3.adl == (sum % 256) as u8 && s3.carry == (sum >= 256));
    assert(s3.engine.sub_step == 7 && s3.engine.active == Active::Instruction && s3.ir == s.ir);
    // cycle 4: read at the unfixed address
    lemma_instruction_begin(s3, ops);
    let b4 = CpuState { last: BusAccess::Idle, ..s3 };
    lemma_apply_read(b4, Addr::Absolute, What::Data, d4);
    let c4 = with_sub_step(apply(b4, ops[7], d4), 8);
    assert(run(ops, b4, d4, false) == run(ops, c4, d4, true));
    let s4 = next(s3, d4);
    if sum < 256 {
        let e4 = with_sub_step(c4, 12);
        assert(run(ops, c4, d4, true) == run(ops, e4, d4, true));
        lemma_apply_load(e4, r, d4);
        let f4 = with_sub_step(apply(e4, ops[12], d4), 13);
        assert(run(ops, e4, d4, true) == run(ops, f4, d4, true));
        assert(run(ops, f4, d4, true) == with_sub_step(f4, 14));
        assert(register_value(set_register(e4, r, e4.data), r) == d4);
    } else {
        let e4 = with_sub_step(c4, 9);
        assert(run(ops, c4, d4, true) == run(ops, e4, d4, true));
        lemma_apply_fix_high(e4, d4);
        let f4 = with_sub_step(apply(e4, ops[9], d4), 10);
        assert(run(ops, e4, d4, true) == run(ops, f4, d4, true));
        assert(run(ops, f4, d4, true) == with_sub_step(f4, 11));
        assert(s4.engine.sub_step == 11 && s4.adh == inc8(hi) && s4.engine.active == Active::Instruction);
        // cycle 5: read at the fixed address
        lemma_instruction_begin(s4, ops);
        let b5 = CpuState { last: BusAccess::Idle, ..s4 };
        lemma_apply_read(b5, Addr::Absolute, What::Data, d5);
        let c5 = with_sub_step(apply(b5, ops[11], d5), 12);
        assert(run(ops, b5, d5, false) == run(ops, c5, d5, true));
        lemma_apply_load(c5, r, d5);
        let e5 = with_sub_step(apply(c5, ops[12], d5), 13);
        assert(run(ops, c5, d5, true) == run(ops, e5, d5, true));
        assert(run(ops, e5, d5, true) == with_sub_step(e5, 14));
        assert(register_value(set_register(c5, r, c5.data), r) == d5);
    }
}

/// The absolute-indexed loads of the table: `LDA abs,X`, `LDA abs,Y`,
/// `LDX abs,Y` and `LDY abs,X`.
pub proof fn lemma_absolute_indexed_opcodes()
    ensures
        spec_ops(0xBD) == Some(absolute_indexed_load(Index::X, Register::A)),
        spec_ops(0xB9) == Some(absolute_indexed_load(Index::Y, Register::A)),
        spec_ops(0xBE) == Some(absolute_indexed_load(Index::Y, Register::X)),
        spec_ops(0xBC) == Some(absolute_indexed_load(Index::X, Register::Y)),
{
    reveal(spec_ops);
}

/// The sequence of a one-byte instruction whose work is `op`.
pub open spec fn implied_with(op: MicroCode) -> Seq<MicroCode> {
    spec_implied() + seq![op, MicroCode::NextCycle]
}

/// A one-byte instruction takes two cycles: after its opcode fetch, one
/// cycle reads and drops the byte at the program counter, which stays where
/// it is, and does the instruction's work; the sequence is then finished.
pub proof fn lemma_implied_two_cycles(s: CpuState, op: MicroCode, d: u8)
    requires
        s.engine.active == Active::Instruction,
        s.engine.sub_step == 2,
        spec_ops(s.ir) == Some(implied_with(op)),
        op is Transfer || op is Increment || op is Decrement || op is ClearFlag || op is SetFlag,
    ensures
        finished(next(s, d)),
        next(s, d).engine.active == Active::Instruction,
        next(s, d).last == (BusAccess::Read { addr: s.pc, value: d, what: What::DiscardOpcode }),
        next(s, d).pc == s.pc,
{
    let ops = implied_with(op);
    assert(ops.len() == 5);
    assert(ops[2] == MicroCode::Read(Addr::Pc, What::DiscardOpcode));
    assert(ops[3] == op);
    assert(ops[4] is NextCycle);
    lemma_instruction_begin(s, ops);
    let b = CpuState { last: BusAccess::Idle, ..s };
    lemma_apply_read(b, Addr::Pc, What::DiscardOpcode, d);
    let c = with_sub_step(apply(b, ops[2], d), 3);
    assert(run(ops, b, d, false) == run(ops, c, d, true));
    let e = with_sub_step(apply(c, op, d), 4);
    assert(run(ops, c, d, true) == run(ops, e, d, true));
    assert(run(ops, e, d, true) == with_sub_step(e, 5));
    lemma_apply_keeps_engine_and_last(c, op, d);
}

proof fn lemma_apply_keeps_engine_and_last(s: CpuState, op: MicroCode, d: u8)
    requires
        !is_bus_op(op),
    ensures
        apply(s, op, d).engine == s.engine,
        apply(s, op, d).last == s.last,
        apply(s, op, d).ir == s.ir,
        op is Transfer || op is Load || op is Increment || op is Decrement || op is ClearFlag
            || op is SetFlag ==> apply(s, op, d).pc == s.pc,
{
    reveal(apply);
}

/// The one-byte instructions of the table.
pub proof fn lemma_implied_opcodes()
    ensures
        spec_ops(0x18) == Some(implied_with(MicroCode::ClearFlag(Flag::Carry))),
        spec_ops(0x38) == Some(implied_with(MicroCode::SetFlag(Flag::Carry))),
        spec_ops(0x58) == Some(implied_with(MicroCode::ClearFlag(Flag::Interrupt))),
        spec_ops(0x78) == Some(implied_with(MicroCode::SetFlag(Flag::Interrupt))),
        spec_ops(0xD8) == Some(implied_with(MicroCode::ClearFlag(Flag::Decimal))),
        spec_ops(0xF8) == Some(implied_with(MicroCode::SetFlag(Flag::Decimal))),
        spec_ops(0xB8) == Some(implied_with(MicroCode::ClearFlag(Flag::Overflow))),
        spec_ops(0xAA) == Some(implied_with(MicroCode::Transfer(Register::A, Register::X))),
        spec_ops(0xA8) == Some(implied_with(MicroCode::Transfer(Register::A, Register::Y))),
        spec_ops(0x8A) == Some(implied_with(MicroCode::Transfer(Register::X, Register::A))),
        spec_ops(0x98) == Some(implied_with(MicroCode::Transfer(Register::Y, Register::A))),
        spec_ops(0xBA) == Some(implied_with(MicroCode::Transfer(Register::S, Register::X))),
        spec_ops(0x9A) == Some(implied_with(MicroCode::Transfer(Register::X, Register::S))),
        spec_ops(0xE8) == Some(implied_with(MicroCode::Increment(Register::X))),
        spec_ops(0xC8) == Some(implied_with(MicroCode::Increment(Register::Y))),
        spec_ops(0xCA) == Some(implied_with(MicroCode::Decrement(Register::X))),
        spec_ops(0x88) == Some(implied_with(MicroCode::Decrement(Register::Y))),
{
    reveal(spec_ops);
}

/// Every definition opens with the opcode-fetch cycle, which the sequencer
/// performs before it knows the opcode, and ends with a cycle boundary.
pub proof fn lemma_definitions_shape(op: u8)
    requires
        spec_ops(op) is Some,
    ensures
        ({
            let ops = spec_ops(op).unwrap();
            &&& ops.len() > 2
            &&& ops[0] == MicroCode::Fetch(What::Opcode)
            &&& ops[1] is NextCycle
            &&& ops.last() is NextCycle
        }),
{
    reveal(spec_ops);
}

/// The sequence of a branch that is not taken when `not_taken` holds.
pub open spec fn branch_ops(not_taken: Cond) -> Seq<MicroCode> {
    spec_relative(not_taken) + seq![MicroCode::NextCycle]
}

proof fn lemma_apply_add_offset(s: CpuState, d: u8)
    ensures
        ({
            let t = branch_target(s.pc, s.data);
            apply(s, MicroCode::AddOffset, d) == (CpuState {
                pc: word((s.pc as int / 256) as u8, (t as int % 256) as u8),
                adh: (t as int / 256) as u8,
                carry: t as int / 256 != s.pc as int / 256,
                ..s
            })
        }),
{
    reveal(apply);
}

proof fn lemma_apply_fix_pch(s: CpuState, d: u8)
    ensures
        apply(s, MicroCode::FixPch, d) == (CpuState { pc: word(s.adh, (s.pc as int % 256) as u8), ..s }),
{
    reveal(apply);
}

/// A branch, from the cycle after its opcode fetch, where the offset `off`
/// is fetched: not taken, it ends there (two cycles in all); taken, one more
/// cycle moves the program counter to the target within its page, and ends
/// there when the target is in that page (three cycles), else a fourth cycle
/// fixes the high byte (four cycles). Either way the program counter ends at
/// the target.
pub proof fn lemma_branch_cycles(s: CpuState, not_taken: Cond, off: u8, d3: u8, d4: u8)
    requires
        s.engine.active == Active::Instruction,
        s.engine.sub_step == 2,
        spec_ops(s.ir) == Some(branch_ops(not_taken)),
    ensures
        ({
            let s2 = next(s, off);
            let s3 = next(s2, d3);
            let s4 = next(s3, d4);
            let from = inc16(s.pc);
            let target = branch_target(from, off);
            &&& s2.last == (BusAccess::Read { addr: s.pc, value: off, what: What::Offset })
            &&& cond_holds(s, not_taken) ==> finished(s2) && s2.pc == from
            &&& !cond_holds(s, not_taken) ==> !finished(s2)
            &&& !cond_holds(s, not_taken) && target as int / 256 == from as int / 256
                ==> finished(s3) && s3.pc == target
            &&& !cond_holds(s, not_taken) && target as int / 256 != from as int / 256
                ==> !finished(s3) && finished(s4) && s4.pc == target
        }),
{
    let ops = branch_ops(not_taken);
    assert(ops.len() == 12);
    assert(ops[2] == MicroCode::Fetch(What::Offset));
    assert(ops[3] == MicroCode::Skip(not_taken, 7));
    assert(ops[4] is NextCycle);
    assert(ops[5] == MicroCode::Read(Addr::Pc, What::Discard));
    assert(ops[6] is AddOffset);
    assert(ops[7] == MicroCode::Skip(Cond::NoCarry, 3));
    assert(ops[8] is NextCycle);
    assert(ops[9] == MicroCode::Read(Addr::Pc, What::Discard));
    assert(ops[10] is FixPch);
    assert(ops[11] is NextCycle);
    let from = inc16(s.pc);
    let target = branch_target(from, off);
    // cycle 2: fetch the offset
    lemma_instruction_begin(s, ops);
    let b2 = CpuState { last: BusAccess::Idle, ..s };
    lemma_apply_fetch(b2, What::Offset, off);
    let c2 = with_sub_step(apply(b2, ops[2], off), 3);
    assert(run(ops, b2, off, false) == run(ops, c2, off, true));
    assert(cond_holds(c2, not_taken) == cond_holds(s, not_taken));
    let s2 = next(s, off);
    if cond_holds(s, not_taken) {
        let e2 = with_sub_step(c2, 11);
        assert(run(ops, c2, off, true) == run(ops, e2, off, true));
        assert(run(ops, e2, off, true) == with_sub_step(e2, 12));
    } else {
        let e2 = with_sub_step(c2, 4);
        assert(run(ops, c2, off, true) == run(ops, e2, off, true));
        assert(run(ops, e2, off, true) == with_sub_step(e2, 5));
        assert(s2.engine.sub_step == 5 && s2.pc == from && s2.data == off && s2.ir == s.ir);
        // cycle 3: dummy read, offset added to the low byte
        lemma_instruction_begin(s2, ops);
        let b3 = CpuState { last: BusAccess::Idle, ..s2 };
        lemma_apply_read(b3, Addr::Pc, What::Discard, d3);
        let c3 = with_sub_step(apply(b3, ops[5], d3), 6);
        assert(run(ops, b3, d3, false) == run(ops, c3, d3, true));
        lemma_apply_add_offset(c3, d3);
        let e3 = with_sub_step(apply(c3, ops[6], d3), 7);
        assert(run(ops, c3, d3, true) == run(ops, e3, d3, true));
        let s3 = next(s2, d3);
        if target as int / 256 == from as int / 256 {
            let f3 = with_sub_step(e3, 11);
            assert(run(ops, e3, d3, true) == run(ops, f3, d3, true));
            assert(run(ops, f3, d3, true) == with_sub_step(f3, 12));
            assert(s3.pc == target);
        } else {
            let f3 = with_sub_step(e3, 8);
            assert(run(ops, e3, d3, true) == run(ops, f3, d3, true));
            assert(run(ops, f3, d3, true) == with_sub_step(f3, 9));
            assert(s3.engine.sub_step == 9 && s3.adh == (target as int / 256) as u8);
            assert(s3.pc as int % 256 == target as int % 256);
            // cycle 4: dummy read, high byte fixed
            lemma_instruction_begin(s3, ops);
            let b4 = CpuState { last: BusAccess::Idle, ..s3 };
            lemma_apply_read(b4, Addr::Pc, What::Discard, d4);
            let c4 = with_sub_step(apply(b4, ops[9], d4), 10);
            assert(run(ops, b4, d4, false) == run(ops, c4, d4, true));
            lemma_apply_fix_pch(c4, d4);
            let e4 = with_sub_step(apply(c4, ops[10], d4), 11);
            assert(run(ops, c4, d4, true) == run(ops, e4, d4, true));
            assert(run(ops, e4, d4, true) == with_sub_step(e4, 12));
        }
    }
}

/// The branches of the table, each with the condition under which it is
/// not taken.
pub proof fn lemma_branch_opcodes()
    ensures
        spec_ops(0x10) == Some(branch_ops(Cond::FlagSet(Flag::Negative))),
        spec_ops(0x30) == Some(branch_ops(Cond::FlagClear(Flag::Negative))),
        spec_ops(0x50) == Some(branch_ops(Cond::FlagSet(Flag::Overflow))),
        spec_ops(0x70) == Some(branch_ops(Cond::FlagClear(Flag::Overflow))),
        spec_ops(0x90) == Some(branch_ops(Cond::FlagSet(Flag::Carry))),
        spec_ops(0xB0) == Some(branch_ops(Cond::FlagClear(Flag::Carry))),
        spec_ops(0xD0) == Some(branch_ops(Cond::FlagSet(Flag::Zero))),
        spec_ops(0xF0) == Some(branch_ops(Cond::FlagClear(Flag::Zero))),
{
    reveal(spec_ops);
}

/// The sequence of `LDA (zp),Y`.
pub open spec fn indirect_indexed_load() -> Seq<MicroCode> {
    spec_indirect_indexed(Access::Read) + seq![MicroCode::Load(Register::A), MicroCode::NextCycle]
}

proof fn lemma_apply_inc_pointer(s: CpuState, d: u8)
    ensures
        apply(s, MicroCode::IncPointer, d) == (CpuState { pointer: inc8(s.pointer), ..s }),
{
    reveal(apply);
}

/// `LDA (zp),Y`, from the cycle after its opcode fetch: the pointer `ptr` is
/// fetched, the address bytes `lo` and `hi` are read from `ptr` and `ptr + 1`
/// in page zero, then the operand is read at `hi:(lo + Y)`. Without a carry
/// out of the low byte the instruction ends there, five cycles in all; with
/// one, a sixth cycle reads the operand at the address with its high byte
/// fixed.
pub proof fn lemma_indirect_indexed_page_cross(
    s: CpuState,
    ptr: u8,
    lo: u8,
    hi: u8,
    d5: u8,
    d6: u8,
)
    requires
        s.engine.active == Active::Instruction,
        s.engine.sub_step == 2,
        spec_ops(s.ir) == Some(indirect_indexed_load()),
    ensures
        ({
            let sum = lo as int + s.y as int;
            let low = (sum % 256) as u8;
            let s3 = next(next(s, ptr), lo);
            let s4 = next(s3, hi);
            let s5 = next(s4, d5);
            let s6 = next(s5, d6);
            &&& s3.last == (BusAccess::Read { addr: ptr as u16, value: lo, what: What::Adl })
            &&& s4.last == (BusAccess::Read { addr: inc8(ptr) as u16, value: hi, what: What::Adh })
            &&& s5.last == (BusAccess::Read { addr: word(hi, low), value: d5, what: What::Data })
            &&& sum < 256 ==> finished(s5) && s5.a == d5
            &&& sum >= 256 ==> !finished(s5) && finished(s6) && s6.a == d6
                && s6.last == (BusAccess::Read { addr: word(inc8(hi), low), value: d6, what: What::Data })
        }),
{
    let ops = indirect_indexed_load();
    assert(ops.len() == 17);
    assert(ops[2] == MicroCode::Fetch(What::Pointer));
    assert(ops[3] is NextCycle);
    assert(ops[4] == MicroCode::Read(Addr::ZeroPagePointer, What::Adl));
    assert(ops[5] is IncPointer);
    assert(ops[6] is NextCycle);
    assert(ops[7] == MicroCode::Read(Addr::ZeroPagePointer, What::Adh));
    assert(ops[8] == MicroCode::AddIndex(Index::Y));
    assert(ops[9] is NextCycle);
    assert(ops[10] == MicroCode::Read(Addr::Absolute, What::Data));
    assert(ops[11] == MicroCode::Skip(Cond::NoCarry, 3));
    assert(ops[12] is FixHigh);
    assert(ops[13] is NextCycle);
    assert(ops[14] == MicroCode::Read(Addr::Absolute, What::Data));
    assert(ops[15] == MicroCode::Load(Register::A));
    assert(ops[16] is NextCycle);
    // cycle 2: fetch the pointer
    lemma_instruction_begin(s, ops);
    let b2 = CpuState { last: BusAccess::Idle, ..s };
    lemma_apply_fetch(b2, What::Pointer, ptr);
    let c2 = with_sub_step(apply(b2, ops[2], ptr), 3);
    assert(run(ops, b2, ptr, false) == run(ops, c2, ptr, true));
    assert(run(ops, c2, ptr, true) == with_sub_step(c2, 4));
    let s2 = next(s, ptr);
    assert(s2.pointer == ptr && s2.engine.sub_step == 4 && s2.ir == s.ir && s2.y == s.y);
    // cycle 3: address low from the pointer
    lemma_instruction_begin(s2, ops);
    let b3 = CpuState { last: BusAccess::Idle, ..s2 };
    lemma_apply_read(b3, Addr::ZeroPagePointer, What::Adl, lo);
    let c3 = with_sub_step(apply(b3, ops[4], lo), 5);
    assert(run(ops, b3, lo, false) == run(ops, c3, lo, true));
    lemma_apply_inc_pointer(c3, lo);
    let e3 = with_sub_step(apply(c3, ops[5], lo), 6);
    assert(run(ops, c3, lo, true) == run(ops, e3, lo, true));
    assert(run(ops, e3, lo, true) == with_sub_step(e3, 7));
    let s3 = next(s2, lo);
    assert(s3.adl == lo && s3.pointer == inc8(ptr) && s3.engine.sub_step == 7 && s3.ir == s.ir);
    // cycle 4: address high from the next pointer byte, index added
    lemma_instruction_begin(s3, ops);
    let b4 = CpuState { last: BusAccess::Idle, ..s3 };
    lemma_apply_read(b4, Addr::ZeroPagePointer, What::Adh, hi);
    let c4 = with_sub_step(apply(b4, ops[7], hi), 8);
    assert(run(ops, b4, hi, false) == run(ops, c4, hi, true));
    lemma_apply_add_index(c4, Index::Y, hi);
    let e4 = with_sub_step(apply(c4, ops[8], hi), 9);
    assert(run(ops, c4, hi, true) == run(ops, e4, hi, true));
    assert(run(ops, e4, hi, true) == with_sub_step(e4, 10));
    let s4 = next(s3, hi);
    let sum = lo as int + s.y as int;
    assert(s4.adh == hi && s4.adl == (sum % 256) as u8 && s4.carry == (sum >= 256));
    assert(s4.engine.sub_step == 10 && s4.ir == s.ir);
    // cycle 5: read at the unfixed address
    lemma_instruction_begin(s4, ops);
    let b5 = CpuState { last: BusAccess::Idle, ..s4 };
    lemma_apply_read(b5, Addr::Absolute, What::Data, d5);
    let c5 = with_sub_step(apply(b5, ops[10], d5), 11);
    assert(run(ops, b5, d5, false) == run(ops, c5, d5, true));
    let s5 = next(s4, d5);
    if sum < 256 {
        let e5 = with_sub_step(c5, 15);
        assert(run(ops, c5, d5, true) == run(ops, e5, d5, true));
        lemma_apply_load(e5, Register::A, d5);
        let f5 = with_sub_step(apply(e5, ops[15], d5), 16);
        assert(run(ops, e5, d5, true) == run(ops, f5, d5, true));
        assert(run(ops, f5, d5, true) == with_sub_step(f5, 17));
    } else {
        let e5 = with_sub_step(c5, 12);
        assert(run(ops, c5, d5, true) == run(ops, e5, d5, true));
        lemma_apply_fix_high(e5, d5);
        let f5 = with_sub_step(apply(e5, ops[12], d5), 13);
        assert(run(ops, e5, d5, true) == run(ops, f5, d5, true));
        assert(run(ops, f5, d5, true) == with_sub_step(f5, 14));
        assert(s5.engine.sub_step == 14 && s5.adh == inc8(hi) && s5.ir == s.ir);
        // cycle 6: read at the fixed address
        lemma_instruction_begin(s5, ops);
        let b6 = CpuState { last: BusAccess::Idle, ..s5 };
        lemma_apply_read(b6, Addr::Absolute, What::Data, d6);
        let c6 = with_sub_step(apply(b6, ops[14], d6), 15);
        assert(run(ops, b6, d6, false) == run(ops, c6, d6, true));
        lemma_apply_load(c6, Register::A, d6);
        let e6 = with_sub_step(apply(c6, ops[15], d6), 16);
        assert(run(ops, c6, d6, true) == run(ops, e6, d6, true));
        assert(run(ops, e6, d6, true) == with_sub_step(e6, 17));
    }
}

/// `LDA (zp),Y` in the table.
pub proof fn lemma_indirect_indexed_opcode()
    ensures
        spec_ops(0xB1) == Some(indirect_indexed_load()),
{
    reveal(spec_ops);
}

/// The operation leaves the instruction register alone.
pub open spec fn keeps_ir(op: MicroCode) -> bool {
    match op {
        MicroCode::Fetch(w) => w != What::Opcode,
        MicroCode::Read(_, w) => w != What::Opcode,
        _ => true,
    }
}

/// Index of the first cycle boundary at or after `k`.
pub open spec fn next_boundary(ops: Seq<MicroCode>, k: int) -> int
    decreases ops.len() - k,
{
    if k >= ops.len() || k < 0 {
        ops.len() as int
    } else if ops[k] is NextCycle {
        k
    } else {
        next_boundary(ops, k + 1)
    }
}

/// Number of cycles from index `k` to the end of the sequence.
pub open spec fn cycles_from(ops: Seq<MicroCode>, k: int) -> nat
    decreases ops.len() - k,
{
    if k >= ops.len() || k < 0 {
        0
    } else {
        let j = next_boundary(ops, k);
        if j >= ops.len() || j < k {
            1
        } else {
            1 + cycles_from(ops, j + 1)
        }
    }
}

/// A sequence without conditional cycles: after the opcode-fetch cycle, each
/// cycle opens with its one bus operation, which leaves the instruction
/// register alone, and the last operation is a cycle boundary.
pub open spec fn straight(ops: Seq<MicroCode>) -> bool {
    &&& ops.len() > 2
    &&& ops[1] is NextCycle
    &&& ops.last() is NextCycle
    &&& ops.len() <= usize::MAX
    &&& forall|m: int| 2 <= m < ops.len() ==> !(#[trigger] ops[m] is Skip) && keeps_ir(ops[m])
    &&& forall|m: int| 2 <= m < ops.len() ==> (is_bus_op(#[trigger] ops[m]) <==> ops[m - 1] is NextCycle)
}

/// A state that runs through a sequence and reads `ds`, one byte per cycle.
pub open spec fn run_cycles(s: CpuState, ds: Seq<u8>) -> CpuState
    decreases ds.len(),
{
    if ds.len() == 0 {
        s
    } else {
        run_cycles(next(s, ds[0]), ds.drop_first())
    }
}

proof fn lemma_next_boundary(ops: Seq<MicroCode>, k: int)
    requires
        0 <= k < ops.len(),
        ops.last() is NextCycle,
    ensures
        k <= next_boundary(ops, k) < ops.len(),
        ops[next_boundary(ops, k)] is NextCycle,
        forall|m: int| k <= m < next_boundary(ops, k) ==> !(#[trigger] ops[m] is NextCycle),
    decreases ops.len() - k,
{
    if ops[k] is NextCycle {
    } else {
        lemma_next_boundary(ops, k + 1);
    }
}

proof fn lemma_apply_bus_keeps(s: CpuState, op: MicroCode, d: u8)
    requires
        is_bus_op(op),
        keeps_ir(op),
    ensures
        apply(s, op, d).engine == s.engine,
        apply(s, op, d).ir == s.ir,
{
    reveal(apply);
}

/// The internal operations up to a boundary finish the cycle just past it.
proof fn lemma_run_internal(ops: Seq<MicroCode>, t: CpuState, d: u8, j: int)
    requires
        t.engine.sub_step <= j < ops.len(),
        ops.len() <= usize::MAX,
        ops[j] is NextCycle,
        forall|m: int| t.engine.sub_step <= m < j ==> !is_bus_op(#[trigger] ops[m])
            && !(ops[m] is NextCycle) && !(ops[m] is Skip),
    ensures
        run(ops, t, d, true).engine.sub_step == j + 1,
        run(ops, t, d, true).engine.active == t.engine.active,
        run(ops, t, d, true).ir == t.ir,
    decreases j - t.engine.sub_step,
{
    let i = t.engine.sub_step as int;
    if i == j {
    } else {
        let op = ops[i];
        lemma_apply_keeps_engine_and_last(t, op, d);
        lemma_run_internal(ops, with_sub_step(apply(t, op, d), i + 1), d, j);
    }
}

/// One step through a straight sequence ends just past the next boundary.
proof fn lemma_straight_cycle(ops: Seq<MicroCode>, s: CpuState, d: u8)
    requires
        straight(ops),
        s.engine.active == Active::Instruction,
        spec_ops(s.ir) == Some(ops),
        2 <= s.engine.sub_step < ops.len(),
        ops[s.engine.sub_step - 1] is NextCycle,
    ensures
        next(s, d).engine.sub_step == next_boundary(ops, s.engine.sub_step as int) + 1,
        next(s, d).engine.active == Active::Instruction,
        next(s, d).ir == s.ir,
{
    let k = s.engine.sub_step as int;
    lemma_instruction_begin(s, ops);
    lemma_next_boundary(ops, k);
    let j = next_boundary(ops, k);
    let b = CpuState { last: BusAccess::Idle, ..s };
    assert(is_bus_op(ops[k]));
    assert(keeps_ir(ops[k]));
    lemma_apply_bus_keeps(b, ops[k], d);
    let c = with_sub_step(apply(b, ops[k], d), k + 1);
    assert(run(ops, b, d, false) == run(ops, c, d, true));
    assert forall|m: int| c.engine.sub_step <= m < j implies !is_bus_op(#[trigger] ops[m])
        && !(ops[m] is NextCycle) && !(ops[m] is Skip) by {
        assert(!(ops[m - 1] is NextCycle));
    }
    lemma_run_internal(ops, c, d, j);
}

/// An instruction without conditional cycles, from the cycle after its
/// opcode fetch, finishes after exactly as many further steps as its
/// sequence has cycles after that fetch, whatever the bus returns, and not
/// before.
pub proof fn lemma_straight_cycle_count(s: CpuState, ds: Seq<u8>)
    requires
        s.engine.active == Active::Instruction,
        s.engine.sub_step == 2,
        spec_ops(s.ir) is Some,
        straight(spec_ops(s.ir).unwrap()),
        ds.len() == cycles_from(spec_ops(s.ir).unwrap(), 2),
    ensures
        finished(run_cycles(s, ds)),
        forall|n: int| 0 <= n < ds.len() ==> !finished(#[trigger] run_cycles(s, ds.take(n))),
{
    lemma_straight_from(s, ds);
}

proof fn lemma_straight_from(s: CpuState, ds: Seq<u8>)
    requires
        s.engine.active == Active::Instruction,
        spec_ops(s.ir) is Some,
        straight(spec_ops(s.ir).unwrap()),
        2 <= s.engine.sub_step <= spec_ops(s.ir).unwrap().len(),
        spec_ops(s.ir).unwrap()[s.engine.sub_step - 1] is NextCycle,
        ds.len() == cycles_from(spec_ops(s.ir).unwrap(), s.engine.sub_step as int),
    ensures
        finished(run_cycles(s, ds)),
        forall|n: int| 0 <= n < ds.len() ==> !finished(#[trigger] run_cycles(s, ds.take(n))),
    decreases ds.len(),
{
    let ops = spec_ops(s.ir).unwrap();
    let k = s.engine.sub_step as int;
    if k >= ops.len() {
        assert(ds.len() == 0);
    } else {
        lemma_next_boundary(ops, k);
        lemma_straight_cycle(ops, s, ds[0]);
        let s1 = next(s, ds[0]);
        let rest = ds.drop_first();
        lemma_straight_from(s1, rest);
        assert(run_cycles(s, ds) == run_cycles(s1, rest));
        assert forall|n: int| 0 <= n < ds.len() implies !finished(#[trigger] run_cycles(s, ds.take(n))) by {
            if n == 0 {
                assert(ds.take(0).len() == 0);
                assert(run_cycles(s, ds.take(0)) == s);
            } else {
                assert(ds.take(n).drop_first() =~= rest.take(n - 1));
                assert(ds.take(n)[0] == ds[0]);
                assert(run_cycles(s, ds.take(n)) == run_cycles(s1, rest.take(n - 1)));
            }
        }
    }
}

proof fn lemma_shape_zero_page_load(r: Register)
    ensures
        straight(spec_zero_page(Access::Read) + seq![MicroCode::Load(r), MicroCode::NextCycle]),
        cycles_from(spec_zero_page(Access::Read) + seq![
            MicroCode::Load(r),
            MicroCode::NextCycle,
        ], 2) == 2,
{
    let ops = spec_zero_page(Access::Read) + seq![MicroCode::Load(r), MicroCode::NextCycle];
    assert(ops.len() == 7);
    assert(ops[0] == MicroCode::Fetch(What::Opcode));
    assert(ops[1] is NextCycle);
    assert(ops[2] == MicroCode::Fetch(What::Adl));
    assert(ops[3] is NextCycle);
    assert(ops[4] == MicroCode::Read(Addr::ZeroPage, What::Data));
    assert(ops[5] == MicroCode::Load(r));
    assert(ops[6] is NextCycle);
    assert forall|m: int| 2 <= m < ops.len() implies !(#[trigger] ops[m] is Skip) && keeps_ir(ops[m]) by {
        if m == 2 {
        } else if m == 3 {
        } else if m == 4 {
        } else if m == 5 {
        } else if m == 6 {
        }
    }
    assert forall|m: int| 2 <= m < ops.len() implies (is_bus_op(#[trigger] ops[m]) <==> ops[m - 1] is NextCycle) by {
        if m == 2 {
        } else if m == 3 {
        } else if m == 4 {
        } else if m == 5 {
        } else if m == 6 {
        }
    }
    assert(next_boundary(ops, 6) == 6);
    assert(next_boundary(ops, 5) == 6);
    assert(next_boundary(ops, 4) == 6);
    assert(next_boundary(ops, 3) == 3);
    assert(next_boundary(ops, 2) == 3);
    assert(cycles_from(ops, 7) == 0);
    assert(cycles_from(ops, 4) == 1);
    assert(cycles_from(ops, 2) == 2);
}

proof fn lemma_shape_zero_page_indexed_load(r: Register, index: Index)
    ensures
        straight(spec_zero_page_indexed(index, Access::Read) + seq![
            MicroCode::Load(r),
            MicroCode::NextCycle,
        ]),
        cycles_from(spec_zero_page_indexed(index, Access::Read) + seq![
            MicroCode::Load(r),
            MicroCode::NextCycle,
        ], 2) == 3,
{
    let ops = spec_zero_page_indexed(index, Access::Read) + seq![
        MicroCode::Load(r),
        MicroCode::NextCycle,
    ];
    assert(ops.len() == 10);
    assert(ops[0] == MicroCode::Fetch(What::Opcode));
    assert(ops[1] is NextCycle);
    assert(ops[2] == MicroCode::Fetch(What::Adl));
    assert(ops[3] is NextCycle);
    assert(ops[4] == MicroCode::Read(Addr::ZeroPage, What::Discard));
    assert(ops[5] == MicroCode::AddIndexZeroPage(index));
    assert(ops[6] is NextCycle);
    assert(ops[7] == MicroCode::Read(Addr::ZeroPage, What::Data));
    assert(ops[8] == MicroCode::Load(r));
    assert(ops[9] is NextCycle);
    assert forall|m: int| 2 <= m < ops.len() implies !(#[trigger] ops[m] is Skip) && keeps_ir(ops[m]) by {
        if m == 2 {
        } else if m == 3 {
        } else if m == 4 {
        } else if m == 5 {
        } else if m == 6 {
        } else if m == 7 {
        } else if m == 8 {
        } else if m == 9 {
        }
    }
    assert forall|m: int| 2 <= m < ops.len() implies (is_bus_op(#[trigger] ops[m]) <==> ops[m - 1] is NextCycle) by {
        if m == 2 {
        } else if m == 3 {
        } else if m == 4 {
        } else if m == 5 {
        } else if m == 6 {
        } else if m == 7 {
        } else if m == 8 {
        } else if m == 9 {
        }
    }
    assert(next_boundary(ops, 9) == 9);
    assert(next_boundary(ops, 8) == 9);
    assert(next_boundary(ops, 7) == 9);
    assert(next_boundary(ops, 6) == 6);
    assert(next_boundary(ops, 5) == 6);
    assert(next_boundary(ops, 4) == 6);
    assert(next_boundary(ops, 3) == 3);
    assert(next_boundary(ops, 2) == 3);
    assert(cycles_from(ops, 10) == 0);
    assert(cycles_from(ops, 7) == 1);
    assert(cycles_from(ops, 4) == 2);
    assert(cycles_from(ops, 2) == 3);
}

proof fn lemma_shape_absolute_load(r: Register)
    ensures
        straight(spec_absolute(Access::Read) + seq![MicroCode::Load(r), MicroCode::NextCycle]),
        cycles_from(spec_absolute(Access::Read) + seq![
            MicroCode::Load(r),
            MicroCode::NextCycle,
        ], 2) == 3,
{
    let ops = spec_absolute(Access::Read) + seq![MicroCode::Load(r), MicroCode::NextCycle];
    assert(ops.len() == 9);
    assert(ops[0] == MicroCode::Fetch(What::Opcode));
    assert(ops[1] is NextCycle);
    assert(ops[2] == MicroCode::Fetch(What::Adl));
    assert(ops[3] is NextCycle);
    assert(ops[4] == MicroCode::Fetch(What::Adh));
    assert(ops[5] is NextCycle);
    assert(ops[6] == MicroCode::Read(Addr::Absolute, What::Data));
    assert(ops[7] == MicroCode::Load(r));
    assert(ops[8] is NextCycle);
    assert forall|m: int| 2 <= m < ops.len() implies !(#[trigger] ops[m] is Skip) && keeps_ir(ops[m]) by {
        if m == 2 {
        } else if m == 3 {
        } else if m == 4 {
        } else if m == 5 {
        } else if m == 6 {
        } else if m == 7 {
        } else if m == 8 {
        }
    }
    assert forall|m: int| 2 <= m < ops.len() implies (is_bus_op(#[trigger] ops[m]) <==> ops[m - 1] is NextCycle) by {
        if m == 2 {
        } else if m == 3 {
        } else if m == 4 {
        } else if m == 5 {
        } else if m == 6 {
        } else if m == 7 {
        } else if m == 8 {
        }
    }
    assert(next_boundary(ops, 8) == 8);
    assert(next_boundary(ops, 7) == 8);
    assert(next_boundary(ops, 6) == 8);
    assert(next_boundary(ops, 5) == 5);
    assert(next_boundary(ops, 4) == 5);
    assert(next_boundary(ops, 3) == 3);
    assert(next_boundary(ops, 2) == 3);
    assert(cycles_from(ops, 9) == 0);
    assert(cycles_from(ops, 6) == 1);
    assert(cycles_from(ops, 4) == 2);
    assert(cycles_from(ops, 2) == 3);
}

proof fn lemma_shape_indexed_indirect_load(r: Register)
    ensures
        straight(spec_indexed_indirect(Access::Read) + seq![
            MicroCode::Load(r),
            MicroCode::NextCycle,
        ]),
        cycles_from(spec_indexed_indirect(Access::Read) + seq![
            MicroCode::Load(r),
            MicroCode::NextCycle,
        ], 2) == 5,
{
    let ops = spec_indexed_indirect(Access::Read) + seq![MicroCode::Load(r), MicroCode::NextCycle];
    assert(ops.len() == 15);
    assert(ops[0] == MicroCode::Fetch(What::Opcode));
    assert(ops[1] is NextCycle);
    assert(ops[2] == MicroCode::Fetch(What::Pointer));
    assert(ops[3] is NextCycle);
    assert(ops[4] == MicroCode::Read(Addr::ZeroPagePointer, What::Discard));
    assert(ops[5] == MicroCode::AddPointerX);
    assert(ops[6] is NextCycle);
    assert(ops[7] == MicroCode::Read(Addr::ZeroPagePointer, What::Adl));
    assert(ops[8] == MicroCode::IncPointer);
    assert(ops[9] is NextCycle);
    assert(ops[10] == MicroCode::Read(Addr::ZeroPagePointer, What::Adh));
    assert(ops[11] is NextCycle);
    assert(ops[12] == MicroCode::Read(Addr::Absolute, What::Data));
    assert(ops[13] == MicroCode::Load(r));
    assert(ops[14] is NextCycle);
    assert forall|m: int| 2 <= m < ops.len() implies !(#[trigger] ops[m] is Skip) && keeps_ir(ops[m]) by {
        if m == 2 {
        } else if m == 3 {
        } else if m == 4 {
        } else if m == 5 {
        } else if m == 6 {
        } else if m == 7 {
        } else if m == 8 {
        } else if m == 9 {
        } else if m == 10 {
        } else if m == 11 {
        } else if m == 12 {
        } else if m == 13 {
        } else if m == 14 {
        }
    }
    assert forall|m: int| 2 <= m < ops.len() implies (is_bus_op(#[trigger] ops[m]) <==> ops[m - 1] is NextCycle) by {
        if m == 2 {
        } else if m == 3 {
        } else if m == 4 {
        } else if m == 5 {
        } else if m == 6 {
        } else if m == 7 {
        } else if m == 8 {
        } else if m == 9 {
        } else if m == 10 {
        } else if m == 11 {
        } else if m == 12 {
        } else if m == 13 {
        } else if m == 14 {
        }
    }
    assert(next_boundary(ops, 14) == 14);
    assert(next_boundary(ops, 13) == 14);
    assert(next_boundary(ops, 12) == 14);
    assert(next_boundary(ops, 11) == 11);
    assert(next_boundary(ops, 10) == 11);
    assert(next_boundary(ops, 9) == 9);
    assert(next_boundary(ops, 8) == 9);
    assert(next_boundary(ops, 7) == 9);
    assert(next_boundary(ops, 6) == 6);
    assert(next_boundary(ops, 5) == 6);
    assert(next_boundary(ops, 4) == 6);
    assert(next_boundary(ops, 3) == 3);
    assert(next_boundary(ops, 2) == 3);
    assert(cycles_from(ops, 15) == 0);
    assert(cycles_from(ops, 12) == 1);
    assert(cycles_from(ops, 10) == 2);
    assert(cycles_from(ops, 7) == 3);
    assert(cycles_from(ops, 4) == 4);
    assert(cycles_from(ops, 2) == 5);
}

proof fn lemma_shape_zero_page_store(src: Source)
    ensures
        straight(spec_zero_page(Access::Write(src)) + seq![MicroCode::NextCycle]),
        cycles_from(spec_zero_page(Access::Write(src)) + seq![MicroCode::NextCycle], 2) == 2,
{
    let ops = spec_zero_page(Access::Write(src)) + seq![MicroCode::NextCycle];
    assert(ops.len() == 6);
    assert(ops[0] == MicroCode::Fetch(What::Opcode));
    assert(ops[1] is NextCycle);
    assert(ops[2] == MicroCode::Fetch(What::Adl));
    assert(ops[3] is NextCycle);
    assert(ops[4] == MicroCode::Write(Addr::ZeroPage, src));
    assert(ops[5] is NextCycle);
    assert forall|m: int| 2 <= m < ops.len() implies !(#[trigger] ops[m] is Skip) && keeps_ir(ops[m]) by {
        if m == 2 {
        } else if m == 3 {
        } else if m == 4 {
        } else if m == 5 {
        }
    }
    assert forall|m: int| 2 <= m < ops.len() implies (is_bus_op(#[trigger] ops[m]) <==> ops[m - 1] is NextCycle) by {
        if m == 2 {
        } else if m == 3 {
        } else if m == 4 {
        } else if m == 5 {
        }
    }
    assert(next_boundary(ops, 5) == 5);
    assert(next_boundary(ops, 4) == 5);
    assert(next_boundary(ops, 3) == 3);
    assert(next_boundary(ops, 2) == 3);
    assert(cycles_from(ops, 6) == 0);
    assert(cycles_from(ops, 4) == 1);
    assert(cycles_from(ops, 2) == 2);
}

proof fn lemma_shape_zero_page_indexed_store(src: Source, index: Index)
    ensures
        straight(spec_zero_page_indexed(index, Access::Write(src)) + seq![MicroCode::NextCycle]),
        cycles_from(spec_zero_page_indexed(index, Access::Write(src)) + seq![
            MicroCode::NextCycle,
        ], 2) == 3,
{
    let ops = spec_zero_page_indexed(index, Access::Write(src)) + seq![MicroCode::NextCycle];
    assert(ops.len() == 9);
    assert(ops[0] == MicroCode::Fetch(What::Opcode));
    assert(ops[1] is NextCycle);
    assert(ops[2] == MicroCode::Fetch(What::Adl));
    assert(ops[3] is NextCycle);
    assert(ops[4] == MicroCode::Read(Addr::ZeroPage, What::Discard));
    assert(ops[5] == MicroCode::AddIndexZeroPage(index));
    assert(ops[6] is NextCycle);
    assert(ops[7] == MicroCode::Write(Addr::ZeroPage, src));
    assert(ops[8] is NextCycle);
    assert forall|m: int| 2 <= m < ops.len() implies !(#[trigger] ops[m] is Skip) && keeps_ir(ops[m]) by {
        if m == 2 {
        } else if m == 3 {
        } else if m == 4 {
        } else if m == 5 {
        } else if m == 6 {
        } else if m == 7 {
        } else if m == 8 {
        }
    }
    assert forall|m: int| 2 <= m < ops.len() implies (is_bus_op(#[trigger] ops[m]) <==> ops[m - 1] is NextCycle) by {
        if m == 2 {
        } else if m == 3 {
        } else if m == 4 {
        } else if m == 5 {
        } else if m == 6 {
        } else if m == 7 {
        } else if m == 8 {
        }
    }
    assert(next_boundary(ops, 8) == 8);
    assert(next_boundary(ops, 7) == 8);
    assert(next_boundary(ops, 6) == 6);
    assert(next_boundary(ops, 5) == 6);
    assert(next_boundary(ops, 4) == 6);
    assert(next_boundary(ops, 3) == 3);
    assert(next_boundary(ops, 2) == 3);
    assert(cycles_from(ops, 9) == 0);
    assert(cycles_from(ops, 7) == 1);
    assert(cycles_from(ops, 4) == 2);
    assert(cycles_from(ops, 2) == 3);
}

proof fn lemma_shape_absolute_store(src: Source)
    ensures
        straight(spec_absolute(Access::Write(src)) + seq![MicroCode::NextCycle]),
        cycles_from(spec_absolute(Access::Write(src)) + seq![MicroCode::NextCycle], 2) == 3,
{
    let ops = spec_absolute(Access::Write(src)) + seq![MicroCode::NextCycle];
    assert(ops.len() == 8);
    assert(ops[0] == MicroCode::Fetch(What::Opcode));
    assert(ops[1] is NextCycle);
    assert(ops[2] == MicroCode::Fetch(What::Adl));
    assert(ops[3] is NextCycle);
    assert(ops[4] == MicroCode::Fetch(What::Adh));
    assert(ops[5] is NextCycle);
    assert(ops[6] == MicroCode::Write(Addr::Absolute, src));
    assert(ops[7] is NextCycle);
    assert forall|m: int| 2 <= m < ops.len() implies !(#[trigger] ops[m] is Skip) && keeps_ir(ops[m]) by {
        if m == 2 {
        } else if m == 3 {
        } else if m == 4 {
        } else if m == 5 {
        } else if m == 6 {
        } else if m == 7 {
        }
    }
    assert forall|m: int| 2 <= m < ops.len() implies (is_bus_op(#[trigger] ops[m]) <==> ops[m - 1] is NextCycle) by {
        if m == 2 {
        } else if m == 3 {
        } else if m == 4 {
        } else if m == 5 {
        } else if m == 6 {
        } else if m == 7 {
        }
    }
    assert(next_boundary(ops, 7) == 7);
    assert(next_boundary(ops, 6) == 7);
    assert(next_boundary(ops, 5) == 5);
    assert(next_boundary(ops, 4) == 5);
    assert(next_boundary(ops, 3) == 3);
    assert(next_boundary(ops, 2) == 3);
    assert(cycles_from(ops, 8) == 0);
    assert(cycles_from(ops, 6) == 1);
    assert(cycles_from(ops, 4) == 2);
    assert(cycles_from(ops, 2) == 3);
}

proof fn lemma_shape_indexed_indirect_store(src: Source)
    ensures
        straight(spec_indexed_indirect(Access::Write(src)) + seq![MicroCode::NextCycle]),
        cycles_from(spec_indexed_indirect(Access::Write(src)) + seq![MicroCode::NextCycle], 2) == 5,
{
    let ops = spec_indexed_indirect(Access::Write(src)) + seq![MicroCode::NextCycle];
    assert(ops.len() == 14);
    assert(ops[0] == MicroCode::Fetch(What::Opcode));
    assert(ops[1] is NextCycle);
    assert(ops[2] == MicroCode::Fetch(What::Pointer));
    assert(ops[3] is NextCycle);
    assert(ops[4] == MicroCode::Read(Addr::ZeroPagePointer, What::Discard));
    assert(ops[5] == MicroCode::AddPointerX);
    assert(ops[6] is NextCycle);
    assert(ops[7] == MicroCode::Read(Addr::ZeroPagePointer, What::Adl));
    assert(ops[8] == MicroCode::IncPointer);
    assert(ops[9] is NextCycle);
    assert(ops[10] == MicroCode::Read(Addr::ZeroPagePointer, What::Adh));
    assert(ops[11] is NextCycle);
    assert(ops[12] == MicroCode::Write(Addr::Absolute, src));
    assert(ops[13] is NextCycle);
    assert forall|m: int| 2 <= m < ops.len() implies !(#[trigger] ops[m] is Skip) && keeps_ir(ops[m]) by {
        if m == 2 {
        } else if m == 3 {
        } else if m == 4 {
        } else if m == 5 {
        } else if m == 6 {
        } else if m == 7 {
        } else if m == 8 {
        } else if m == 9 {
        } else if m == 10 {
        } else if m == 11 {
        } else if m == 12 {
        } else if m == 13 {
        }
    }
    assert forall|m: int| 2 <= m < ops.len() implies (is_bus_op(#[trigger] ops[m]) <==> ops[m - 1] is NextCycle) by {
        if m == 2 {
        } else if m == 3 {
        } else if m == 4 {
        } else if m == 5 {
        } else if m == 6 {
        } else if m == 7 {
        } else if m == 8 {
        } else if m == 9 {
        } else if m == 10 {
        } else if m == 11 {
        } else if m == 12 {
        } else if m == 13 {
        }
    }
    assert(next_boundary(ops, 13) == 13);
    assert(next_boundary(ops, 12) == 13);
    assert(next_boundary(ops, 11) == 11);
    assert(next_boundary(ops, 10) == 11);
    assert(next_boundary(ops, 9) == 9);
    assert(next_boundary(ops, 8) == 9);
    assert(next_boundary(ops, 7) == 9);
    assert(next_boundary(ops, 6) == 6);
    assert(next_boundary(ops, 5) == 6);
    assert(next_boundary(ops, 4) == 6);
    assert(next_boundary(ops, 3) == 3);
    assert(next_boundary(ops, 2) == 3);
    assert(cycles_from(ops, 14) == 0);
    assert(cycles_from(ops, 12) == 1);
    assert(cycles_from(ops, 10) == 2);
    assert(cycles_from(ops, 7) == 3);
    assert(cycles_from(ops, 4) == 4);
    assert(cycles_from(ops, 2) == 5);
}

proof fn lemma_shape_immediate_load(r: Register)
    ensures
        straight(spec_immediate() + seq![MicroCode::Load(r), MicroCode::NextCycle]),
        cycles_from(spec_immediate() + seq![MicroCode::Load(r), MicroCode::NextCycle], 2) == 1,
{
    let ops = spec_immediate() + seq![MicroCode::Load(r), MicroCode::NextCycle];
    assert(ops.len() == 5);
    assert(ops[0] == MicroCode::Fetch(What::Opcode));
    assert(ops[1] is NextCycle);
    assert(ops[2] == MicroCode::Fetch(What::Imm));
    assert(ops[3] == MicroCode::Load(r));
    assert(ops[4] is NextCycle);
    assert forall|m: int| 2 <= m < ops.len() implies !(#[trigger] ops[m] is Skip) && keeps_ir(ops[m]) by {
        if m == 2 {
        } else if m == 3 {
        } else if m == 4 {
        }
    }
    assert forall|m: int| 2 <= m < ops.len() implies (is_bus_op(#[trigger] ops[m]) <==> ops[m - 1] is NextCycle) by {
        if m == 2 {
        } else if m == 3 {
        } else if m == 4 {
        }
    }
    assert(next_boundary(ops, 4) == 4);
    assert(next_boundary(ops, 3) == 4);
    assert(next_boundary(ops, 2) == 4);
    assert(cycles_from(ops, 5) == 0);
    assert(cycles_from(ops, 2) == 1);
}

proof fn lemma_shape_absolute_indexed_store(src: Source, index: Index)
    ensures
        straight(spec_absolute_indexed(index, Access::Write(src)) + seq![MicroCode::NextCycle]),
        cycles_from(spec_absolute_indexed(index, Access::Write(src)) + seq![
            MicroCode::NextCycle,
        ], 2) == 4,
{
    let ops = spec_absolute_indexed(index, Access::Write(src)) + seq![MicroCode::NextCycle];
    assert(ops.len() == 12);
    assert(ops[0] == MicroCode::Fetch(What::Opcode));
    assert(ops[1] is NextCycle);
    assert(ops[2] == MicroCode::Fetch(What::Adl));
    assert(ops[3] is NextCycle);
    assert(ops[4] == MicroCode::Fetch(What::Adh));
    assert(ops[5] == MicroCode::AddIndex(index));
    assert(ops[6] is NextCycle);
    assert(ops[7] == MicroCode::Read(Addr::Absolute, What::Discard));
    assert(ops[8] == MicroCode::FixHigh);
    assert(ops[9] is NextCycle);
    assert(ops[10] == MicroCode::Write(Addr::Absolute, src));
    assert(ops[11] is NextCycle);
    assert forall|m: int| 2 <= m < ops.len() implies !(#[trigger] ops[m] is Skip) && keeps_ir(ops[m]) by {
        if m == 2 {
        } else if m == 3 {
        } else if m == 4 {
        } else if m == 5 {
        } else if m == 6 {
        } else if m == 7 {
        } else if m == 8 {
        } else if m == 9 {
        } else if m == 10 {
        } else if m == 11 {
        }
    }
    assert forall|m: int| 2 <= m < ops.len() implies (is_bus_op(#[trigger] ops[m]) <==> ops[m - 1] is NextCycle) by {
        if m == 2 {
        } else if m == 3 {
        } else if m == 4 {
        } else if m == 5 {
        } else if m == 6 {
        } else if m == 7 {
        } else if m == 8 {
        } else if m == 9 {
        } else if m == 10 {
        } else if m == 11 {
        }
    }
    assert(next_boundary(ops, 11) == 11);
    assert(next_boundary(ops, 10) == 11);
    assert(next_boundary(ops, 9) == 9);
    assert(next_boundary(ops, 8) == 9);
    assert(next_boundary(ops, 7) == 9);
    assert(next_boundary(ops, 6) == 6);
    assert(next_boundary(ops, 5) == 6);
    assert(next_boundary(ops, 4) == 6);
    assert(next_boundary(ops, 3) == 3);
    assert(next_boundary(ops, 2) == 3);
    assert(cycles_from(ops, 12) == 0);
    assert(cycles_from(ops, 10) == 1);
    assert(cycles_from(ops, 7) == 2);
    assert(cycles_from(ops, 4) == 3);
    assert(cycles_from(ops, 2) == 4);
}

proof fn lemma_shape_indirect_indexed_store(src: Source)
    ensures
        straight(spec_indirect_indexed(Access::Write(src)) + seq![MicroCode::NextCycle]),
        cycles_from(spec_indirect_indexed(Access::Write(src)) + seq![MicroCode::NextCycle], 2) == 5,
{
    let ops = spec_indirect_indexed(Access::Write(src)) + seq![MicroCode::NextCycle];
    assert(ops.len() == 15);
    assert(ops[0] == MicroCode::Fetch(What::Opcode));
    assert(ops[1] is NextCycle);
    assert(ops[2] == MicroCode::Fetch(What::Pointer));
    assert(ops[3] is NextCycle);
    assert(ops[4] == MicroCode::Read(Addr::ZeroPagePointer, What::Adl));
    assert(ops[5] == MicroCode::IncPointer);
    assert(ops[6] is NextCycle);
    assert(ops[7] == MicroCode::Read(Addr::ZeroPagePointer, What::Adh));
    assert(ops[8] == MicroCode::AddIndex(Index::Y));
    assert(ops[9] is NextCycle);
    assert(ops[10] == MicroCode::Read(Addr::Absolute, What::Discard));
    assert(ops[11] == MicroCode::FixHigh);
    assert(ops[12] is NextCycle);
    assert(ops[13] == MicroCode::Write(Addr::Absolute, src));
    assert(ops[14] is NextCycle);
    assert forall|m: int| 2 <= m < ops.len() implies !(#[trigger] ops[m] is Skip) && keeps_ir(ops[m]) by {
        if m == 2 {
        } else if m == 3 {
        } else if m == 4 {
        } else if m == 5 {
        } else if m == 6 {
        } else if m == 7 {
        } else if m == 8 {
        } else if m == 9 {
        } else if m == 10 {
        } else if m == 11 {
        } else if m == 12 {
        } else if m == 13 {
        } else if m == 14 {
        }
    }
    assert forall|m: int| 2 <= m < ops.len() implies (is_bus_op(#[trigger] ops[m]) <==> ops[m - 1] is NextCycle) by {
        if m == 2 {
        } else if m == 3 {
        } else if m == 4 {
        } else if m == 5 {
        } else if m == 6 {
        } else if m == 7 {
        } else if m == 8 {
        } else if m == 9 {
        } else if m == 10 {
        } else if m == 11 {
        } else if m == 12 {
        } else if m == 13 {
        } else if m == 14 {
        }
    }
    assert(next_boundary(ops, 14) == 14);
    assert(next_boundary(ops, 13) == 14);
    assert(next_boundary(ops, 12) == 12);
    assert(next_boundary(ops, 11) == 12);
    assert(next_boundary(ops, 10) == 12);
    assert(next_boundary(ops, 9) == 9);
    assert(next_boundary(ops, 8) == 9);
    assert(next_boundary(ops, 7) == 9);
    assert(next_boundary(ops, 6) == 6);
    assert(next_boundary(ops, 5) == 6);
    assert(next_boundary(ops, 4) == 6);
    assert(next_boundary(ops, 3) == 3);
    assert(next_boundary(ops, 2) == 3);
    assert(cycles_from(ops, 15) == 0);
    assert(cycles_from(ops, 13) == 1);
    assert(cycles_from(ops, 10) == 2);
    assert(cycles_from(ops, 7) == 3);
    assert(cycles_from(ops, 4) == 4);
    assert(cycles_from(ops, 2) == 5);
}

proof fn lemma_shape_implied_op(op: MicroCode)
    requires
        op is Transfer || op is Increment || op is Decrement || op is ClearFlag || op is SetFlag,
    ensures
        straight(implied_with(op)),
        cycles_from(implied_with(op), 2) == 1,
{
    let ops = implied_with(op);
    assert(ops.len() == 5);
    assert(ops[0] == MicroCode::Fetch(What::Opcode));
    assert(ops[1] is NextCycle);
    assert(ops[2] == MicroCode::Read(Addr::Pc, What::DiscardOpcode));
    assert(ops[3] == op);
    assert(ops[4] is NextCycle);
    assert forall|m: int| 2 <= m < ops.len() implies !(#[trigger] ops[m] is Skip) && keeps_ir(ops[m]) by {
        if m == 2 {
        } else if m == 3 {
        } else if m == 4 {
        }
    }
    assert forall|m: int| 2 <= m < ops.len() implies (is_bus_op(#[trigger] ops[m]) <==> ops[m - 1] is NextCycle) by {
        if m == 2 {
        } else if m == 3 {
        } else if m == 4 {
        }
    }
    assert(next_boundary(ops, 4) == 4);
    assert(next_boundary(ops, 3) == 4);
    assert(next_boundary(ops, 2) == 4);
    assert(cycles_from(ops, 5) == 0);
    assert(cycles_from(ops, 2) == 1);
}

proof fn lemma_shape_implied_nop()
    ensures
        straight(spec_implied() + seq![MicroCode::NextCycle]),
        cycles_from(spec_implied() + seq![MicroCode::NextCycle], 2) == 1,
{
    let ops = spec_implied() + seq![MicroCode::NextCycle];
    assert(ops.len() == 4);
    assert(ops[0] == MicroCode::Fetch(What::Opcode));
    assert(ops[1] is NextCycle);
    assert(ops[2] == MicroCode::Read(Addr::Pc, What::DiscardOpcode));
    assert(ops[3] is NextCycle);
    assert forall|m: int| 2 <= m < ops.len() implies !(#[trigger] ops[m] is Skip) && keeps_ir(ops[m]) by {
        if m == 2 {
        } else if m == 3 {
        }
    }
    assert forall|m: int| 2 <= m < ops.len() implies (is_bus_op(#[trigger] ops[m]) <==> ops[m - 1] is NextCycle) by {
        if m == 2 {
        } else if m == 3 {
        }
    }
    assert(next_boundary(ops, 3) == 3);
    assert(next_boundary(ops, 2) == 3);
    assert(cycles_from(ops, 4) == 0);
    assert(cycles_from(ops, 2) == 1);
}

proof fn lemma_shape_jump_absolute()
    ensures
        straight(spec_absolute_jump() + seq![MicroCode::JumpAbsolute, MicroCode::NextCycle]),
        cycles_from(spec_absolute_jump() + seq![
            MicroCode::JumpAbsolute,
            MicroCode::NextCycle,
        ], 2) == 2,
{
    let ops = spec_absolute_jump() + seq![MicroCode::JumpAbsolute, MicroCode::NextCycle];
    assert(ops.len() == 7);
    assert(ops[0] == MicroCode::Fetch(What::Opcode));
    assert(ops[1] is NextCycle);
    assert(ops[2] == MicroCode::Fetch(What::Adl));
    assert(ops[3] is NextCycle);
    assert(ops[4] == MicroCode::Fetch(What::Adh));
    assert(ops[5] == MicroCode::JumpAbsolute);
    assert(ops[6] is NextCycle);
    assert forall|m: int| 2 <= m < ops.len() implies !(#[trigger] ops[m] is Skip) && keeps_ir(ops[m]) by {
        if m == 2 {
        } else if m == 3 {
        } else if m == 4 {
        } else if m == 5 {
        } else if m == 6 {
        }
    }
    assert forall|m: int| 2 <= m < ops.len() implies (is_bus_op(#[trigger] ops[m]) <==> ops[m - 1] is NextCycle) by {
        if m == 2 {
        } else if m == 3 {
        } else if m == 4 {
        } else if m == 5 {
        } else if m == 6 {
        }
    }
    assert(next_boundary(ops, 6) == 6);
    assert(next_boundary(ops, 5) == 6);
    assert(next_boundary(ops, 4) == 6);
    assert(next_boundary(ops, 3) == 3);
    assert(next_boundary(ops, 2) == 3);
    assert(cycles_from(ops, 7) == 0);
    assert(cycles_from(ops, 4) == 1);
    assert(cycles_from(ops, 2) == 2);
}

proof fn lemma_shape_jump_indirect()
    ensures
        straight(spec_indirect() + seq![MicroCode::LoadPc, MicroCode::NextCycle]),
        cycles_from(spec_indirect() + seq![MicroCode::LoadPc, MicroCode::NextCycle], 2) == 4,
{
    let ops = spec_indirect() + seq![MicroCode::LoadPc, MicroCode::NextCycle];
    assert(ops.len() == 12);
    assert(ops[0] == MicroCode::Fetch(What::Opcode));
    assert(ops[1] is NextCycle);
    assert(ops[2] == MicroCode::Fetch(What::Adl));
    assert(ops[3] is NextCycle);
    assert(ops[4] == MicroCode::Fetch(What::Adh));
    assert(ops[5] is NextCycle);
    assert(ops[6] == MicroCode::Read(Addr::Absolute, What::Data));
    assert(ops[7] == MicroCode::IncAdl);
    assert(ops[8] is NextCycle);
    assert(ops[9] == MicroCode::Read(Addr::Absolute, What::Adh));
    assert(ops[10] == MicroCode::LoadPc);
    assert(ops[11] is NextCycle);
    assert forall|m: int| 2 <= m < ops.len() implies !(#[trigger] ops[m] is Skip) && keeps_ir(ops[m]) by {
        if m == 2 {
        } else if m == 3 {
        } else if m == 4 {
        } else if m == 5 {
        } else if m == 6 {
        } else if m == 7 {
        } else if m == 8 {
        } else if m == 9 {
        } else if m == 10 {
        } else if m == 11 {
        }
    }
    assert forall|m: int| 2 <= m < ops.len() implies (is_bus_op(#[trigger] ops[m]) <==> ops[m - 1] is NextCycle) by {
        if m == 2 {
        } else if m == 3 {
        } else if m == 4 {
        } else if m == 5 {
        } else if m == 6 {
        } else if m == 7 {
        } else if m == 8 {
        } else if m == 9 {
        } else if m == 10 {
        } else if m == 11 {
        }
    }
    assert(next_boundary(ops, 11) == 11);
    assert(next_boundary(ops, 10) == 11);
    assert(next_boundary(ops, 9) == 11);
    assert(next_boundary(ops, 8) == 8);
    assert(next_boundary(ops, 7) == 8);
    assert(next_boundary(ops, 6) == 8);
    assert(next_boundary(ops, 5) == 5);
    assert(next_boundary(ops, 4) == 5);
    assert(next_boundary(ops, 3) == 3);
    assert(next_boundary(ops, 2) == 3);
    assert(cycles_from(ops, 12) == 0);
    assert(cycles_from(ops, 9) == 1);
    assert(cycles_from(ops, 6) == 2);
    assert(cycles_from(ops, 4) == 3);
    assert(cycles_from(ops, 2) == 4);
}

/// Cycles of each opcode whose timing does not depend on the data, the
/// opcode fetch included, as the 6502 timing tables give them.
pub open spec fn fixed_cycles(op: u8) -> Option<nat> {
    match op {
        0x18u8 => Some(2nat),  // CLC
        0x38u8 => Some(2nat),  // SEC
        0x4Cu8 => Some(3nat),  // JMP
        0x58u8 => Some(2nat),  // CLI
        0x6Cu8 => Some(5nat),  // JMP
        0x78u8 => Some(2nat),  // SEI
        0x81u8 => Some(6nat),  // STA
        0x84u8 => Some(3nat),  // STY
        0x85u8 => Some(3nat),  // STA
        0x86u8 => Some(3nat),  // STX
        0x88u8 => Some(2nat),  // DEY
        0x8Au8 => Some(2nat),  // TXA
        0x8Cu8 => Some(4nat),  // STY
        0x8Du8 => Some(4nat),  // STA
        0x8Eu8 => Some(4nat),  // STX
        0x91u8 => Some(6nat),  // STA
        0x94u8 => Some(4nat),  // STY
        0x95u8 => Some(4nat),  // STA
        0x96u8 => Some(4nat),  // STX
        0x98u8 => Some(2nat),  // TYA
        0x99u8 => Some(5nat),  // STA
        0x9Au8 => Some(2nat),  // TXS
        0x9Du8 => Some(5nat),  // STA
        0xA0u8 => Some(2nat),  // LDY
        0xA1u8 => Some(6nat),  // LDA
        0xA2u8 => Some(2nat),  // LDX
        0xA4u8 => Some(3nat),  // LDY
        0xA5u8 => Some(3nat),  // LDA
        0xA6u8 => Some(3nat),  // LDX
        0xA8u8 => Some(2nat),  // TAY
        0xA9u8 => Some(2nat),  // LDA
        0xAAu8 => Some(2nat),  // TAX
        0xACu8 => Some(4nat),  // LDY
        0xADu8 => Some(4nat),  // LDA
        0xAEu8 => Some(4nat),  // LDX
        0xB4u8 => Some(4nat),  // LDY
        0xB5u8 => Some(4nat),  // LDA
        0xB6u8 => Some(4nat),  // LDX
        0xB8u8 => Some(2nat),  // CLV
        0xBAu8 => Some(2nat),  // TSX
        0xC8u8 => Some(2nat),  // INY
        0xCAu8 => Some(2nat),  // DEX
        0xD8u8 => Some(2nat),  // CLD
        0xE8u8 => Some(2nat),  // INX
        0xEAu8 => Some(2nat),  // NOP
        0xF8u8 => Some(2nat),  // SED
        _ => None,
    }
}

/// Every opcode with a fixed cycle count has a straight sequence with that
/// many cycles, its opcode fetch included; with `lemma_straight_cycle_count`,
/// stepping it that many times finishes it, and fewer steps do not.
pub proof fn lemma_fixed_cycle_counts(op: u8)
    requires
        fixed_cycles(op) is Some,
    ensures
        spec_ops(op) is Some,
        straight(spec_ops(op).unwrap()),
        cycles_from(spec_ops(op).unwrap(), 2) + 1 == fixed_cycles(op).unwrap(),
{
    reveal(spec_ops);
    if op == 0x18u8 {
        lemma_shape_implied_op(MicroCode::ClearFlag(Flag::Carry));
    } else if op == 0x38u8 {
        lemma_shape_implied_op(MicroCode::SetFlag(Flag::Carry));
    } else if op == 0x4Cu8 {
        lemma_shape_jump_absolute();
    } else if op == 0x58u8 {
        lemma_shape_implied_op(MicroCode::ClearFlag(Flag::Interrupt));
    } else if op == 0x6Cu8 {
        lemma_shape_jump_indirect();
    } else if op == 0x78u8 {
        lemma_shape_implied_op(MicroCode::SetFlag(Flag::Interrupt));
    } else if op == 0x81u8 {
        lemma_shape_indexed_indirect_store(Source::A);
    } else if op == 0x84u8 {
        lemma_shape_zero_page_store(Source::Y);
    } else if op == 0x85u8 {
        lemma_shape_zero_page_store(Source::A);
    } else if op == 0x86u8 {
        lemma_shape_zero_page_store(Source::X);
    } else if op == 0x88u8 {
        lemma_shape_implied_op(MicroCode::Decrement(Register::Y));
    } else if op == 0x8Au8 {
        lemma_shape_implied_op(MicroCode::Transfer(Register::X, Register::A));
    } else if op == 0x8Cu8 {
        lemma_shape_absolute_store(Source::Y);
    } else if op == 0x8Du8 {
        lemma_shape_absolute_store(Source::A);
    } else if op == 0x8Eu8 {
        lemma_shape_absolute_store(Source::X);
    } else if op == 0x91u8 {
        lemma_shape_indirect_indexed_store(Source::A);
    } else if op == 0x94u8 {
        lemma_shape_zero_page_indexed_store(Source::Y, Index::X);
    } else if op == 0x95u8 {
        lemma_shape_zero_page_indexed_store(Source::A, Index::X);
    } else if op == 0x96u8 {
        lemma_shape_zero_page_indexed_store(Source::X, Index::Y);
    } else if op == 0x98u8 {
        lemma_shape_implied_op(MicroCode::Transfer(Register::Y, Register::A));
    } else if op == 0x99u8 {
        lemma_shape_absolute_indexed_store(Source::A, Index::Y);
    } else if op == 0x9Au8 {
        lemma_shape_implied_op(MicroCode::Transfer(Register::X, Register::S));
    } else if op == 0x9Du8 {
        lemma_shape_absolute_indexed_store(Source::A, Index::X);
    } else if op == 0xA0u8 {
        lemma_shape_immediate_load(Register::Y);
    } else if op == 0xA1u8 {
        lemma_shape_indexed_indirect_load(Register::A);
    } else if op == 0xA2u8 {
        lemma_shape_immediate_load(Register::X);
    } else if op == 0xA4u8 {
        lemma_shape_zero_page_load(Register::Y);
    } else if op == 0xA5u8 {
        lemma_shape_zero_page_load(Register::A);
    } else if op == 0xA6u8 {
        lemma_shape_zero_page_load(Register::X);
    } else if op == 0xA8u8 {
        lemma_shape_implied_op(MicroCode::Transfer(Register::A, Register::Y));
    } else if op == 0xA9u8 {
        lemma_shape_immediate_load(Register::A);
    } else if op == 0xAAu8 {
        lemma_shape_implied_op(MicroCode::Transfer(Register::A, Register::X));
    } else if op == 0xACu8 {
        lemma_shape_absolute_load(Register::Y);
    } else if op == 0xADu8 {
        lemma_shape_absolute_load(Register::A);
    } else if op == 0xAEu8 {
        lemma_shape_absolute_load(Register::X);
    } else if op == 0xB4u8 {
        lemma_shape_zero_page_indexed_load(Register::Y, Index::X);
    } else if op == 0xB5u8 {
        lemma_shape_zero_page_indexed_load(Register::A, Index::X);
    } else if op == 0xB6u8 {
        lemma_shape_zero_page_indexed_load(Register::X, Index::Y);
    } else if op == 0xB8u8 {
        lemma_shape_implied_op(MicroCode::ClearFlag(Flag::Overflow));
    } else if op == 0xBAu8 {
        lemma_shape_implied_op(MicroCode::Transfer(Register::S, Register::X));
    } else if op == 0xC8u8 {
        lemma_shape_implied_op(MicroCode::Increment(Register::Y));
    } else if op == 0xCAu8 {
        lemma_shape_implied_op(MicroCode::Decrement(Register::X));
    } else if op == 0xD8u8 {
        lemma_shape_implied_op(MicroCode::ClearFlag(Flag::Decimal));
    } else if op == 0xE8u8 {
        lemma_shape_implied_op(MicroCode::Increment(Register::X));
    } else if op == 0xEAu8 {
        lemma_shape_implied_nop();
    } else if op == 0xF8u8 {
        lemma_shape_implied_op(MicroCode::SetFlag(Flag::Decimal));
    }
}

} // verus!
