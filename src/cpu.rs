//! The processor: registers, latches, the per-cycle sequencer and the bus it drives.
use vstd::prelude::*;
use crate::flags::{B_BIT, I_BIT, N_BIT, POWER_ON_STATUS, U_BIT, Z_BIT};
use crate::microcode_engine::{
    flag_mask, is_bus_op, Active, Addr, Cond, Flag, Index, MicroCode, MicrocodeEngine, Register,
    Source, What,
};
use crate::table::{sequence, spec_ops, InstructionTable};

verus! {

/// The memory and peripheral bus. Every address always answers a read and
/// accepts a write.
pub trait Bus {
    fn read_8(&self, addr: u16) -> u8;

    fn write_8(&mut self, addr: u16, value: u8);
}

/// The transaction of the last cycle.
#[derive(Clone, Copy, Debug, PartialEq, Eq, Structural)]
pub enum BusAccess {
    /// No transaction (only before the first cycle).
    Idle,
    Read { addr: u16, value: u8, what: What },
    Write { addr: u16, value: u8 },
}

/// The committed opcode has no definition; the processor makes no further
/// progress.
#[derive(Clone, Copy, Debug, PartialEq, Eq, Structural)]
pub struct DecodingError {
    pub opcode: u8,
}

/// Everything the processor holds, as plain values.
#[derive(Clone, Copy, Debug, PartialEq, Eq, Structural)]
pub struct CpuState {
    pub a: u8,
    pub x: u8,
    pub y: u8,
    pub s: u8,
    pub pc: u16,
    pub p: u8,
    pub ir: u8,
    pub adl: u8,
    pub adh: u8,
    pub pointer: u8,
    pub data: u8,
    pub carry: bool,
    pub irq_line: bool,
    pub nmi_pending: bool,
    pub engine: MicrocodeEngine,
    pub last: BusAccess,
}

pub struct Mos6502 {
    /// Accumulator.
    pub a: u8,
    /// X index.
    pub x: u8,
    /// Y index.
    pub y: u8,
    /// Stack pointer into page one.
    pub s: u8,
    /// Program counter.
    pub pc: u16,
    /// Status word, `nv-bdizc`.
    pub p: u8,
    ir: u8,
    adl: u8,
    adh: u8,
    pointer: u8,
    data: u8,
    carry: bool,
    irq_line: bool,
    nmi_pending: bool,
    engine: MicrocodeEngine,
    last: BusAccess,
    table: InstructionTable,
}

impl View for Mos6502 {
    type V = CpuState;

    closed spec fn view(&self) -> CpuState {
        CpuState {
            a: self.a,
            x: self.x,
            y: self.y,
            s: self.s,
            pc: self.pc,
            p: self.p,
            ir: self.ir,
            adl: self.adl,
            adh: self.adh,
            pointer: self.pointer,
            data: self.data,
            carry: self.carry,
            irq_line: self.irq_line,
            nmi_pending: self.nmi_pending,
            engine: self.engine,
            last: self.last,
        }
    }
}

/// `v + 1`, wrapping.
pub open spec fn inc8(v: u8) -> u8 {
    ((v as int + 1) % 256) as u8
}

/// `v - 1`, wrapping.
pub open spec fn dec8(v: u8) -> u8 {
    ((v as int + 255) % 256) as u8
}

/// `v + 1`, wrapping.
pub open spec fn inc16(v: u16) -> u16 {
    ((v as int + 1) % 65536) as u16
}

/// The 16-bit word with high byte `hi` and low byte `lo`.
pub open spec fn word(hi: u8, lo: u8) -> u16 {
    (hi as int * 256 + lo as int) as u16
}

/// The status word with N and Z describing `v`.
pub open spec fn with_nz(p: u8, v: u8) -> u8 {
    (p & !(N_BIT | Z_BIT)) | (if v == 0 { Z_BIT } else { 0u8 }) | (v & N_BIT)
}

/// `pc` plus the signed offset `off`, wrapping.
pub open spec fn branch_target(pc: u16, off: u8) -> u16 {
    ((if off < 128 { pc as int + off as int } else { pc as int + 65536 - (256 - off as int) })
        % 65536) as u16
}

/// The byte read on the last cycle, or 0 when the cycle read nothing.
pub open spec fn read_value(b: BusAccess) -> u8 {
    match b {
        BusAccess::Read { value, .. } => value,
        _ => 0,
    }
}

pub open spec fn index_value(s: CpuState, i: Index) -> u8 {
    match i {
        Index::X => s.x,
        Index::Y => s.y,
    }
}

pub open spec fn register_value(s: CpuState, r: Register) -> u8 {
    match r {
        Register::A => s.a,
        Register::X => s.x,
        Register::Y => s.y,
        Register::S => s.s,
    }
}

/// Sets a register; A, X and Y also set N and Z.
pub open spec fn set_register(s: CpuState, r: Register, v: u8) -> CpuState {
    match r {
        Register::A => CpuState { a: v, p: with_nz(s.p, v), ..s },
        Register::X => CpuState { x: v, p: with_nz(s.p, v), ..s },
        Register::Y => CpuState { y: v, p: with_nz(s.p, v), ..s },
        Register::S => CpuState { s: v, ..s },
    }
}

pub open spec fn address_of(s: CpuState, a: Addr) -> u16 {
    match a {
        Addr::Pc => s.pc,
        Addr::ZeroPage => s.adl as u16,
        Addr::Absolute => word(s.adh, s.adl),
        Addr::ZeroPagePointer => s.pointer as u16,
        Addr::Stack => word(1, s.s),
        Addr::Vector(v) => v,
    }
}

pub open spec fn source_value(s: CpuState, src: Source) -> u8 {
    match src {
        Source::A => s.a,
        Source::X => s.x,
        Source::Y => s.y,
        Source::Status => (s.p & !B_BIT) | U_BIT,
        Source::Pcl => (s.pc as int % 256) as u8,
        Source::Pch => (s.pc as int / 256) as u8,
    }
}

/// Where a read byte goes.
pub open spec fn store(s: CpuState, w: What, d: u8) -> CpuState {
    match w {
        What::Opcode => CpuState { ir: d, ..s },
        What::Adl => CpuState { adl: d, ..s },
        What::Adh => CpuState { adh: d, ..s },
        What::Pointer => CpuState { pointer: d, ..s },
        What::Imm | What::Offset | What::Data => CpuState { data: d, ..s },
        What::DiscardOpcode | What::Discard => s,
    }
}

pub open spec fn cond_holds(s: CpuState, c: Cond) -> bool {
    match c {
        Cond::NoCarry => !s.carry,
        Cond::FlagClear(f) => s.p & flag_mask(f) == 0,
        Cond::FlagSet(f) => s.p & flag_mask(f) != 0,
    }
}

/// The effect of one micro-operation; `d` is what a read returns.
/// (`NextCycle` and `Skip` move the sub-step only; see `run`.)
#[verifier::opaque]
pub open spec fn apply(s: CpuState, op: MicroCode, d: u8) -> CpuState {
    match op {
        MicroCode::Fetch(w) => store(
            CpuState { pc: inc16(s.pc), last: BusAccess::Read { addr: s.pc, value: d, what: w }, ..s },
            w,
            d,
        ),
        MicroCode::Read(a, w) => store(
            CpuState { last: BusAccess::Read { addr: address_of(s, a), value: d, what: w }, ..s },
            w,
            d,
        ),
        MicroCode::Write(a, src) => CpuState {
            last: BusAccess::Write { addr: address_of(s, a), value: source_value(s, src) },
            ..s
        },
        MicroCode::NextCycle => s,
        MicroCode::Skip(_, _) => s,
        MicroCode::ClearFlag(f) => CpuState { p: s.p & !flag_mask(f), ..s },
        MicroCode::SetFlag(f) => CpuState { p: s.p | flag_mask(f), ..s },
        MicroCode::Load(r) => set_register(s, r, s.data),
        MicroCode::Transfer(from, to) => set_register(s, to, register_value(s, from)),
        MicroCode::Increment(r) => set_register(s, r, inc8(register_value(s, r))),
        MicroCode::Decrement(r) => set_register(s, r, dec8(register_value(s, r))),
        MicroCode::AddIndex(i) => CpuState {
            adl: ((s.adl as int + index_value(s, i) as int) % 256) as u8,
            carry: s.adl as int + index_value(s, i) as int >= 256,
            ..s
        },
        MicroCode::AddIndexZeroPage(i) => CpuState {
            adl: ((s.adl as int + index_value(s, i) as int) % 256) as u8,
            ..s
        },
        MicroCode::AddPointerX => CpuState {
            pointer: ((s.pointer as int + s.x as int) % 256) as u8,
            ..s
        },
        MicroCode::IncPointer => CpuState { pointer: inc8(s.pointer), ..s },
        MicroCode::IncAdl => CpuState { adl: inc8(s.adl), ..s },
        MicroCode::FixHigh => if s.carry { CpuState { adh: inc8(s.adh), ..s } } else { s },
        MicroCode::AddOffset => {
            let t = branch_target(s.pc, s.data);
            CpuState {
                pc: word((s.pc as int / 256) as u8, (t as int % 256) as u8),
                adh: (t as int / 256) as u8,
                carry: t as int / 256 != s.pc as int / 256,
                ..s
            }
        },
        MicroCode::FixPch => CpuState { pc: word(s.adh, (s.pc as int % 256) as u8), ..s },
        MicroCode::JumpAbsolute => CpuState { pc: word(s.adh, s.adl), ..s },
        MicroCode::LoadPc => CpuState { pc: word(s.adh, s.data), ..s },
    }
}

pub open spec fn with_sub_step(s: CpuState, i: int) -> CpuState {
    CpuState { engine: MicrocodeEngine { sub_step: i as usize, ..s.engine }, ..s }
}

/// Runs `ops` from the current sub-step to the end of the cycle: up to and
/// including the next `NextCycle`, stopping short of a second bus operation
/// (`done`: this cycle's bus operation has happened). Reads return `d`.
pub open spec fn run(ops: Seq<MicroCode>, s: CpuState, d: u8, done: bool) -> CpuState
    decreases ops.len() - s.engine.sub_step,
{
    let i = s.engine.sub_step as int;
    if i >= ops.len() || ops.len() > usize::MAX {
        s
    } else {
        let op = ops[i];
        let s1 = with_sub_step(s, i + 1);
        if op is NextCycle {
            s1
        } else if is_bus_op(op) && done {
            s
        } else if let MicroCode::Skip(c, n) = op {
            if cond_holds(s, c) {
                run(ops, with_sub_step(s, if i + 1 + n < ops.len() { i + 1 + n } else { ops.len() as int }), d, done)
            } else {
                run(ops, s1, d, done)
            }
        } else {
            run(ops, with_sub_step(apply(s, op, d), i + 1), d, done || is_bus_op(op))
        }
    }
}

/// The committed opcode cannot be decoded.
pub open spec fn decode_fails(s: CpuState) -> bool {
    &&& s.engine.sub_step >= sequence(s.engine.active, s.ir).len()
    &&& s.engine.active is Fetch
    &&& spec_ops(s.ir) is None
}

/// The move to the next sequence when the active one is finished: after the
/// opcode fetch, the opcode's definition just past its own fetch cycle;
/// after anything else, an instruction boundary, where a pending NMI, then an
/// IRQ with interrupts enabled, goes before the next opcode fetch.
pub open spec fn begin(s: CpuState) -> CpuState {
    if s.engine.sub_step < sequence(s.engine.active, s.ir).len() {
        s
    } else if s.engine.active is Fetch {
        CpuState { engine: MicrocodeEngine { active: Active::Instruction, sub_step: 2, ..s.engine }, ..s }
    } else if s.nmi_pending {
        CpuState {
            nmi_pending: false,
            engine: MicrocodeEngine { active: Active::Nmi, sub_step: 0, ..s.engine },
            ..s
        }
    } else if s.irq_line && s.p & I_BIT == 0 {
        CpuState { engine: MicrocodeEngine { active: Active::Irq, sub_step: 0, ..s.engine }, ..s }
    } else {
        CpuState { engine: MicrocodeEngine { active: Active::Fetch, sub_step: 0, ..s.engine }, ..s }
    }
}

/// Only reads look at the byte the bus returns.
proof fn lemma_apply_ignores_data(s: CpuState, op: MicroCode, d: u8)
    requires
        !is_bus_op(op),
    ensures
        apply(s, op, d) == apply(s, op, 0),
        apply(s, op, d).last == s.last,
{
    reveal(apply);
}

/// A bus operation records itself as the cycle's transaction.
proof fn lemma_apply_records_read(s: CpuState, op: MicroCode, d: u8)
    requires
        is_bus_op(op),
        op is Write ==> d == 0,
    ensures
        read_value(apply(s, op, d).last) == d,
{
    reveal(apply);
    match op {
        MicroCode::Fetch(w) => {},
        MicroCode::Read(a, w) => {},
        _ => {},
    }
}

/// The state after one cycle in which a read returns `d`.
pub open spec fn next(s: CpuState, d: u8) -> CpuState {
    let b = CpuState { last: BusAccess::Idle, ..begin(s) };
    let r = run(sequence(b.engine.active, b.ir), b, d, false);
    CpuState {
        engine: MicrocodeEngine {
            cycles: if r.engine.cycles < u64::MAX { (r.engine.cycles + 1) as u64 } else { r.engine.cycles },
            ..r.engine
        },
        ..r
    }
}

/// The state at construction.
pub open spec fn power_on() -> CpuState {
    CpuState {
        a: 0,
        x: 0,
        y: 0,
        s: 0,
        pc: 0,
        p: POWER_ON_STATUS,
        ir: 0,
        adl: 0,
        adh: 0,
        pointer: 0,
        data: 0,
        carry: false,
        irq_line: false,
        nmi_pending: false,
        engine: MicrocodeEngine { cycles: 0, sub_step: 0, active: Active::Reset },
        last: BusAccess::Idle,
    }
}

fn inc8_exec(v: u8) -> (r: u8)
    ensures
        r == inc8(v),
{
    if v == 255 { 0 } else { v + 1 }
}

fn dec8_exec(v: u8) -> (r: u8)
    ensures
        r == dec8(v),
{
    if v == 0 { 255 } else { v - 1 }
}

fn word_exec(hi: u8, lo: u8) -> (r: u16)
    ensures
        r == word(hi, lo),
{
    hi as u16 * 256 + lo as u16
}

fn with_nz_exec(p: u8, v: u8) -> (r: u8)
    ensures
        r == with_nz(p, v),
{
    (p & !(N_BIT | Z_BIT)) | (if v == 0 { Z_BIT } else { 0u8 }) | (v & N_BIT)
}

fn branch_target_exec(pc: u16, off: u8) -> (r: u16)
    ensures
        r == branch_target(pc, off),
{
    let t: u32 = if off < 128 {
        pc as u32 + off as u32
    } else {
        pc as u32 + 65536 - (256 - off as u32)
    };
    (t % 65536) as u16
}

impl Mos6502 {
    /// The instruction table is the one `InstructionTable::build` makes.
    pub closed spec fn wf(&self) -> bool {
        self.table.wf()
    }

    /// A processor in its reset sequence: registers zeroed, status at its
    /// power-on value. No bus activity.
    pub fn new() -> (r: Mos6502)
        ensures
            r.wf(),
            r@ == power_on(),
    {
        Mos6502 {
            a: 0,
            x: 0,
            y: 0,
            s: 0,
            pc: 0,
            p: POWER_ON_STATUS,
            ir: 0,
            adl: 0,
            adh: 0,
            pointer: 0,
            data: 0,
            carry: false,
            irq_line: false,
            nmi_pending: false,
            engine: MicrocodeEngine { cycles: 0, sub_step: 0, active: Active::Reset },
            last: BusAccess::Idle,
            table: InstructionTable::build(),
        }
    }

    /// Drives the IRQ line low; it stays so until `release_irq`.
    pub fn irq(&mut self)
        ensures
            final(self).wf() == old(self).wf(),
            final(self)@ == (CpuState { irq_line: true, ..old(self)@ }),
    {
        self.irq_line = true;
    }

    /// Releases the IRQ line.
    pub fn release_irq(&mut self)
        ensures
            final(self).wf() == old(self).wf(),
            final(self)@ == (CpuState { irq_line: false, ..old(self)@ }),
    {
        self.irq_line = false;
    }

    /// An edge on the NMI line: one NMI is serviced at the next instruction
    /// boundary.
    pub fn nmi(&mut self)
        ensures
            final(self).wf() == old(self).wf(),
            final(self)@ == (CpuState { nmi_pending: true, ..old(self)@ }),
    {
        self.nmi_pending = true;
    }

    /// The transaction of the last cycle.
    pub fn last_access(&self) -> (r: BusAccess)
        ensures
            r == self@.last,
    {
        self.last
    }

    /// Cycles performed since construction.
    pub fn cycles(&self) -> (r: u64)
        ensures
            r == self@.engine.cycles,
    {
        self.engine.cycles
    }

    /// The sequencer's progress.
    pub fn engine(&self) -> (r: MicrocodeEngine)
        ensures
            r == self@.engine,
    {
        self.engine
    }

    /// The instruction register.
    pub fn opcode(&self) -> (r: u8)
        ensures
            r == self@.ir,
    {
        self.ir
    }

    fn address(&self, a: Addr) -> (r: u16)
        ensures
            r == address_of(self@, a),
    {
        match a {
            Addr::Pc => self.pc,
            Addr::ZeroPage => self.adl as u16,
            Addr::Absolute => word_exec(self.adh, self.adl),
            Addr::ZeroPagePointer => self.pointer as u16,
            Addr::Stack => word_exec(1, self.s),
            Addr::Vector(v) => v,
        }
    }

    fn source(&self, src: Source) -> (r: u8)
        ensures
            r == source_value(self@, src),
    {
        match src {
            Source::A => self.a,
            Source::X => self.x,
            Source::Y => self.y,
            Source::Status => (self.p & !B_BIT) | U_BIT,
            Source::Pcl => (self.pc % 256) as u8,
            Source::Pch => (self.pc / 256) as u8,
        }
    }

    fn register(&self, r: Register) -> (v: u8)
        ensures
            v == register_value(self@, r),
    {
        match r {
            Register::A => self.a,
            Register::X => self.x,
            Register::Y => self.y,
            Register::S => self.s,
        }
    }

    fn index(&self, i: Index) -> (v: u8)
        ensures
            v == index_value(self@, i),
    {
        match i {
            Index::X => self.x,
            Index::Y => self.y,
        }
    }

    fn set_reg(&mut self, r: Register, v: u8)
        ensures
            final(self)@ == set_register(old(self)@, r, v),
            final(self).table == old(self).table,
    {
        match r {
            Register::A => {
                self.a = v;
                self.p = with_nz_exec(self.p, v);
            },
            Register::X => {
                self.x = v;
                self.p = with_nz_exec(self.p, v);
            },
            Register::Y => {
                self.y = v;
                self.p = with_nz_exec(self.p, v);
            },
            Register::S => {
                self.s = v;
            },
        }
    }

    fn store_byte(&mut self, w: What, d: u8)
        ensures
            final(self)@ == store(old(self)@, w, d),
            final(self).table == old(self).table,
    {
        match w {
            What::Opcode => self.ir = d,
            What::Adl => self.adl = d,
            What::Adh => self.adh = d,
            What::Pointer => self.pointer = d,
            What::Imm | What::Offset | What::Data => self.data = d,
            What::DiscardOpcode | What::Discard => {},
        }
    }

    fn cond(&self, c: Cond) -> (r: bool)
        ensures
            r == cond_holds(self@, c),
    {
        match c {
            Cond::NoCarry => !self.carry,
            Cond::FlagClear(f) => self.p & f.mask() == 0,
            Cond::FlagSet(f) => self.p & f.mask() != 0,
        }
    }

    /// Performs one micro-operation whose reads return `d`; the caller makes
    /// the bus transaction itself.
    fn apply_op(&mut self, op: MicroCode, d: u8)
        ensures
            final(self)@ == apply(old(self)@, op, d),
            final(self).table == old(self).table,
    {
        reveal(apply);
        match op {
            MicroCode::Fetch(w) => {
                self.last = BusAccess::Read { addr: self.pc, value: d, what: w };
                self.pc = if self.pc == 0xFFFF { 0 } else { self.pc + 1 };
                self.store_byte(w, d);
            },
            MicroCode::Read(a, w) => {
                self.last = BusAccess::Read { addr: self.address(a), value: d, what: w };
                self.store_byte(w, d);
            },
            MicroCode::Write(a, src) => {
                self.last = BusAccess::Write { addr: self.address(a), value: self.source(src) };
            },
            MicroCode::NextCycle => {},
            MicroCode::Skip(_, _) => {},
            MicroCode::ClearFlag(f) => self.p = self.p & !f.mask(),
            MicroCode::SetFlag(f) => self.p = self.p | f.mask(),
            MicroCode::Load(r) => self.set_reg(r, self.data),
            MicroCode::Transfer(from, to) => {
                let v = self.register(from);
                self.set_reg(to, v);
            },
            MicroCode::Increment(r) => {
                let v = inc8_exec(self.register(r));
                self.set_reg(r, v);
            },
            MicroCode::Decrement(r) => {
                let v = dec8_exec(self.register(r));
                self.set_reg(r, v);
            },
            MicroCode::AddIndex(i) => {
                let sum = self.adl as u16 + self.index(i) as u16;
                self.adl = (sum % 256) as u8;
                self.carry = sum >= 256;
            },
            MicroCode::AddIndexZeroPage(i) => {
                let sum = self.adl as u16 + self.index(i) as u16;
                self.adl = (sum % 256) as u8;
            },
            MicroCode::AddPointerX => {
                let sum = self.pointer as u16 + self.x as u16;
                self.pointer = (sum % 256) as u8;
            },
            MicroCode::IncPointer => self.pointer = inc8_exec(self.pointer),
            MicroCode::IncAdl => self.adl = inc8_exec(self.adl),
            MicroCode::FixHigh => {
                if self.carry {
                    self.adh = inc8_exec(self.adh);
                }
            },
            MicroCode::AddOffset => {
                let t = branch_target_exec(self.pc, self.data);
                let high = (self.pc / 256) as u8;
                self.adh = (t / 256) as u8;
                self.carry = t / 256 != self.pc / 256;
                self.pc = word_exec(high, (t % 256) as u8);
            },
            MicroCode::FixPch => self.pc = word_exec(self.adh, (self.pc % 256) as u8),
            MicroCode::JumpAbsolute => self.pc = word_exec(self.adh, self.adl),
            MicroCode::LoadPc => self.pc = word_exec(self.adh, self.data),
        }
    }

    /// Moves to the next sequence where the active one is finished (see `begin`).
    fn begin_cycle(&mut self) -> (r: Result<(), DecodingError>)
        requires
            old(self).wf(),
        ensures
            final(self).table == old(self).table,
            r is Err <==> decode_fails(old(self)@),
            r is Err ==> r == Err::<(), DecodingError>(DecodingError { opcode: old(self)@.ir })
                && final(self)@ == old(self)@,
            r is Ok ==> final(self)@ == begin(old(self)@),
    {
        let len = self.table.ops(self.engine.active, self.ir).len();
        if self.engine.sub_step < len {
            return Ok(());
        }
        match self.engine.active {
            Active::Fetch => {
                if !self.table.is_implemented(self.ir) {
                    return Err(DecodingError { opcode: self.ir });
                }
                self.engine.active = Active::Instruction;
                self.engine.sub_step = 2;
            },
            _ => {
                if self.nmi_pending {
                    self.nmi_pending = false;
                    self.engine.active = Active::Nmi;
                } else if self.irq_line && self.p & I_BIT == 0 {
                    self.engine.active = Active::Irq;
                } else {
                    self.engine.active = Active::Fetch;
                }
                self.engine.sub_step = 0;
            },
        }
        Ok(())
    }

    /// Advances exactly one bus cycle: at most one read or write on `bus`,
    /// then whatever the cycle does inside the processor. Fails, with no bus
    /// activity and no change, when the committed opcode has no definition.
    pub fn step<B: Bus>(&mut self, bus: &mut B) -> (r: Result<(), DecodingError>)
        requires
            old(self).wf(),
        ensures
            final(self).wf(),
            r is Err <==> decode_fails(old(self)@),
            r is Err ==> r == Err::<(), DecodingError>(DecodingError { opcode: old(self)@.ir })
                && final(self)@ == old(self)@,
            r is Ok ==> final(self)@ == next(old(self)@, read_value(final(self)@.last)),
    {
        let ghost table0 = self.table;
        self.begin_cycle()?;
        self.last = BusAccess::Idle;
        let active = self.engine.active;
        let ir = self.ir;
        let ghost ops = sequence(active, ir);
        let ghost start = self@;
        let mut done = false;
        let mut value: u8 = 0;
        loop
            invariant_except_break
                !done ==> forall|dd: u8| #[trigger] run(ops, start, dd, false) == run(ops, self@, dd, false),
                done ==> run(ops, start, value, false) == run(ops, self@, value, true),
            invariant
                self.table == table0,
                self.table.wf(),
                ops == sequence(active, ir),
                !done ==> self@.last == BusAccess::Idle,
                done ==> read_value(self@.last) == value,
            ensures
                !done ==> forall|dd: u8| #[trigger] run(ops, start, dd, false) == self@,
                done ==> run(ops, start, value, false) == self@,
            decreases ops.len() - self.engine.sub_step,
        {
            let seq_ops = self.table.ops(active, ir);
            let len = seq_ops.len();
            let i = self.engine.sub_step;
            if i >= len {
                proof {
                    if !done {
                        assert forall|dd: u8| #[trigger] run(ops, start, dd, false) == self@ by {
                            assert(run(ops, start, dd, false) == run(ops, self@, dd, false));
                        }
                    }
                }
                break;
            }
            let op = seq_ops[i];
            let ghost before = self@;
            match op {
                MicroCode::NextCycle => {
                    self.engine.sub_step = i + 1;
                    proof {
                        if !done {
                            assert forall|dd: u8| #[trigger] run(ops, start, dd, false) == self@ by {
                                assert(run(ops, start, dd, false) == run(ops, before, dd, false));
                            }
                        } else {
                            assert(run(ops, start, value, false) == run(ops, before, value, true));
                        }
                    }
                    break;
                },
                MicroCode::Skip(c, n) => {
                    if self.cond(c) {
                        let rest = len - (i + 1);
                        self.engine.sub_step = if (n as usize) < rest { i + 1 + n as usize } else { len };
                    } else {
                        self.engine.sub_step = i + 1;
                    }
                    proof {
                        if !done {
                            assert forall|dd: u8| #[trigger] run(ops, start, dd, false) == run(ops, self@, dd, false) by {
                                assert(run(ops, start, dd, false) == run(ops, before, dd, false));
                            }
                        } else {
                            assert(run(ops, start, value, false) == run(ops, before, value, true));
                        }
                    }
                },
                MicroCode::Fetch(_) | MicroCode::Read(_, _) | MicroCode::Write(_, _) => {
                    if done {
                        assert(run(ops, start, value, false) == run(ops, before, value, true));
                        break;
                    }
                    let d = match op {
                        MicroCode::Fetch(_) => bus.read_8(self.pc),
                        MicroCode::Read(a, _) => bus.read_8(self.address(a)),
                        MicroCode::Write(a, src) => {
                            bus.write_8(self.address(a), self.source(src));
                            0
                        },
                        _ => 0,
                    };
                    self.apply_op(op, d);
                    self.engine.sub_step = i + 1;
                    proof {
                        assert(run(ops, start, d, false) == run(ops, before, d, false));
                        assert(self@ == with_sub_step(apply(before, op, d), i + 1));
                        assert(run(ops, before, d, false) == run(ops, self@, d, true));
                        lemma_apply_records_read(before, op, d);
                    }
                    done = true;
                    value = d;
                },
                _ => {
                    self.apply_op(op, 0);
                    self.engine.sub_step = i + 1;
                    proof {
                        lemma_apply_ignores_data(before, op, 0);
                        if !done {
                            assert forall|dd: u8| #[trigger] run(ops, start, dd, false) == run(ops, self@, dd, false) by {
                                assert(run(ops, start, dd, false) == run(ops, before, dd, false));
                                lemma_apply_ignores_data(before, op, dd);
                            }
                        } else {
                            lemma_apply_ignores_data(before, op, value);
                            assert(run(ops, start, value, false) == run(ops, before, value, true));
                        }
                    }
                },
            }
        }
        proof {
            if !done {
                assert(run(ops, start, 0, false) == self@);
            }
        }
        self.engine.cycles = if self.engine.cycles < u64::MAX { self.engine.cycles + 1 } else { self.engine.cycles };
        Ok(())
    }
}

} // verus!
