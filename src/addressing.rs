//! Addressing-mode generators: the micro-operation prefix that every
//! instruction of a mode shares, from the opcode fetch to the operand access.
use vstd::prelude::*;
use crate::microcode_engine::{Access, Addr, Cond, Index, MicroCode, What};

verus! {

/// The last bus operation of a mode: read the operand or write the source.
pub open spec fn final_access(addr: Addr, access: Access) -> MicroCode {
    match access {
        Access::Read => MicroCode::Read(addr, What::Data),
        Access::Write(src) => MicroCode::Write(addr, src),
    }
}

fn final_op(addr: Addr, access: Access) -> (r: MicroCode)
    ensures
        r == final_access(addr, access),
{
    match access {
        Access::Read => MicroCode::Read(addr, What::Data),
        Access::Write(src) => MicroCode::Write(addr, src),
    }
}

/// Opcode fetch; read and drop the next byte (2 cycles).
pub open spec fn spec_implied() -> Seq<MicroCode> {
    seq![
        MicroCode::Fetch(What::Opcode),
        MicroCode::NextCycle,
        MicroCode::Read(Addr::Pc, What::DiscardOpcode),
    ]
}

/// Opcode fetch; operand fetch (2 cycles).
pub open spec fn spec_immediate() -> Seq<MicroCode> {
    seq![MicroCode::Fetch(What::Opcode), MicroCode::NextCycle, MicroCode::Fetch(What::Imm)]
}

/// Opcode fetch; address low; operand at `$00:adl` (3 cycles).
pub open spec fn spec_zero_page(access: Access) -> Seq<MicroCode> {
    seq![
        MicroCode::Fetch(What::Opcode),
        MicroCode::NextCycle,
        MicroCode::Fetch(What::Adl),
        MicroCode::NextCycle,
        final_access(Addr::ZeroPage, access),
    ]
}

/// As zero page, with a dummy read at the base while the index is added (4 cycles).
pub open spec fn spec_zero_page_indexed(index: Index, access: Access) -> Seq<MicroCode> {
    seq![
        MicroCode::Fetch(What::Opcode),
        MicroCode::NextCycle,
        MicroCode::Fetch(What::Adl),
        MicroCode::NextCycle,
        MicroCode::Read(Addr::ZeroPage, What::Discard),
        MicroCode::AddIndexZeroPage(index),
        MicroCode::NextCycle,
        final_access(Addr::ZeroPage, access),
    ]
}

/// Opcode fetch; address low; address high; operand at `adh:adl` (4 cycles).
pub open spec fn spec_absolute(access: Access) -> Seq<MicroCode> {
    seq![
        MicroCode::Fetch(What::Opcode),
        MicroCode::NextCycle,
        MicroCode::Fetch(What::Adl),
        MicroCode::NextCycle,
        MicroCode::Fetch(What::Adh),
        MicroCode::NextCycle,
        final_access(Addr::Absolute, access),
    ]
}

/// Opcode fetch; address low; address high, the address of a jump (3 cycles).
pub open spec fn spec_absolute_jump() -> Seq<MicroCode> {
    seq![
        MicroCode::Fetch(What::Opcode),
        MicroCode::NextCycle,
        MicroCode::Fetch(What::Adl),
        MicroCode::NextCycle,
        MicroCode::Fetch(What::Adh),
    ]
}

/// Pointer fetched as an absolute address, then its two bytes read; the high
/// byte comes from the same page as the low one (5 cycles).
pub open spec fn spec_indirect() -> Seq<MicroCode> {
    seq![
        MicroCode::Fetch(What::Opcode),
        MicroCode::NextCycle,
        MicroCode::Fetch(What::Adl),
        MicroCode::NextCycle,
        MicroCode::Fetch(What::Adh),
        MicroCode::NextCycle,
        MicroCode::Read(Addr::Absolute, What::Data),
        MicroCode::IncAdl,
        MicroCode::NextCycle,
        MicroCode::Read(Addr::Absolute, What::Adh),
    ]
}

/// The read after an indexed address was formed: without a carry the first
/// read is the operand (and the rest is skipped); with one it was a dummy read
/// at the unfixed address, and one more cycle reads at the fixed address.
pub open spec fn spec_indexed_tail(access: Access) -> Seq<MicroCode> {
    match access {
        Access::Read => seq![
            MicroCode::Read(Addr::Absolute, What::Data),
            MicroCode::Skip(Cond::NoCarry, 3),
            MicroCode::FixHigh,
            MicroCode::NextCycle,
            MicroCode::Read(Addr::Absolute, What::Data),
        ],
        Access::Write(src) => seq![
            MicroCode::Read(Addr::Absolute, What::Discard),
            MicroCode::FixHigh,
            MicroCode::NextCycle,
            MicroCode::Write(Addr::Absolute, src),
        ],
    }
}

/// Absolute indexed: reads take 4 cycles, 5 across a page; writes always 5.
pub open spec fn spec_absolute_indexed(index: Index, access: Access) -> Seq<MicroCode> {
    seq![
        MicroCode::Fetch(What::Opcode),
        MicroCode::NextCycle,
        MicroCode::Fetch(What::Adl),
        MicroCode::NextCycle,
        MicroCode::Fetch(What::Adh),
        MicroCode::AddIndex(index), MicroCode::NextCycle,
    ] + spec_indexed_tail(access)
}

/// `(zp,X)`: 6 cycles.
pub open spec fn spec_indexed_indirect(access: Access) -> Seq<MicroCode> {
    seq![
        MicroCode::Fetch(What::Opcode),
        MicroCode::NextCycle,
        MicroCode::Fetch(What::Pointer),
        MicroCode::NextCycle,
        MicroCode::Read(Addr::ZeroPagePointer, What::Discard),
        MicroCode::AddPointerX,
        MicroCode::NextCycle,
        MicroCode::Read(Addr::ZeroPagePointer, What::Adl),
        MicroCode::IncPointer,
        MicroCode::NextCycle,
        MicroCode::Read(Addr::ZeroPagePointer, What::Adh), MicroCode::NextCycle,
        final_access(Addr::Absolute, access),
    ]
}

/// `(zp),Y`: reads take 5 cycles, 6 across a page; writes always 6.
pub open spec fn spec_indirect_indexed(access: Access) -> Seq<MicroCode> {
    seq![
        MicroCode::Fetch(What::Opcode),
        MicroCode::NextCycle,
        MicroCode::Fetch(What::Pointer),
        MicroCode::NextCycle,
        MicroCode::Read(Addr::ZeroPagePointer, What::Adl),
        MicroCode::IncPointer,
        MicroCode::NextCycle,
        MicroCode::Read(Addr::ZeroPagePointer, What::Adh),
        MicroCode::AddIndex(Index::Y),
        MicroCode::NextCycle,
    ] + spec_indexed_tail(access)
}

/// Relative: 2 cycles when the branch is not taken (`not_taken` holds), 3
/// when taken, 4 when taken across a page.
pub open spec fn spec_relative(not_taken: Cond) -> Seq<MicroCode> {
    seq![
        MicroCode::Fetch(What::Opcode),
        MicroCode::NextCycle,
        MicroCode::Fetch(What::Offset),
        MicroCode::Skip(not_taken, 7),
        MicroCode::NextCycle,
        MicroCode::Read(Addr::Pc, What::Discard),
        MicroCode::AddOffset,
        MicroCode::Skip(Cond::NoCarry, 3),
        MicroCode::NextCycle,
        MicroCode::Read(Addr::Pc, What::Discard), MicroCode::FixPch,
    ]
}

pub fn implied() -> (r: Vec<MicroCode>)
    ensures
        r@ == spec_implied(),
{
    vec![
        MicroCode::Fetch(What::Opcode),
        MicroCode::NextCycle,
        MicroCode::Read(Addr::Pc, What::DiscardOpcode),
    ]
}

pub fn immediate() -> (r: Vec<MicroCode>)
    ensures
        r@ == spec_immediate(),
{
    vec![MicroCode::Fetch(What::Opcode), MicroCode::NextCycle, MicroCode::Fetch(What::Imm)]
}

pub fn zero_page(access: Access) -> (r: Vec<MicroCode>)
    ensures
        r@ == spec_zero_page(access),
{
    vec![
        MicroCode::Fetch(What::Opcode),
        MicroCode::NextCycle,
        MicroCode::Fetch(What::Adl),
        MicroCode::NextCycle,
        final_op(Addr::ZeroPage, access),
    ]
}

pub fn zero_page_indexed(index: Index, access: Access) -> (r: Vec<MicroCode>)
    ensures
        r@ == spec_zero_page_indexed(index, access),
{
    vec![
        MicroCode::Fetch(What::Opcode),
        MicroCode::NextCycle,
        MicroCode::Fetch(What::Adl),
        MicroCode::NextCycle,
        MicroCode::Read(Addr::ZeroPage, What::Discard),
        MicroCode::AddIndexZeroPage(index),
        MicroCode::NextCycle,
        final_op(Addr::ZeroPage, access),
    ]
}

pub fn absolute(access: Access) -> (r: Vec<MicroCode>)
    ensures
        r@ == spec_absolute(access),
{
    vec![
        MicroCode::Fetch(What::Opcode),
        MicroCode::NextCycle,
        MicroCode::Fetch(What::Adl),
        MicroCode::NextCycle,
        MicroCode::Fetch(What::Adh),
        MicroCode::NextCycle,
        final_op(Addr::Absolute, access),
    ]
}

pub fn absolute_jump() -> (r: Vec<MicroCode>)
    ensures
        r@ == spec_absolute_jump(),
{
    vec![
        MicroCode::Fetch(What::Opcode),
        MicroCode::NextCycle,
        MicroCode::Fetch(What::Adl),
        MicroCode::NextCycle,
        MicroCode::Fetch(What::Adh),
    ]
}

pub fn indirect() -> (r: Vec<MicroCode>)
    ensures
        r@ == spec_indirect(),
{
    vec![
        MicroCode::Fetch(What::Opcode),
        MicroCode::NextCycle,
        MicroCode::Fetch(What::Adl),
        MicroCode::NextCycle,
        MicroCode::Fetch(What::Adh),
        MicroCode::NextCycle,
        MicroCode::Read(Addr::Absolute, What::Data),
        MicroCode::IncAdl,
        MicroCode::NextCycle,
        MicroCode::Read(Addr::Absolute, What::Adh),
    ]
}

fn indexed_tail(access: Access) -> (r: Vec<MicroCode>)
    ensures
        r@ == spec_indexed_tail(access),
{
    match access {
        Access::Read => vec![
            MicroCode::Read(Addr::Absolute, What::Data),
            MicroCode::Skip(Cond::NoCarry, 3),
            MicroCode::FixHigh,
            MicroCode::NextCycle,
            MicroCode::Read(Addr::Absolute, What::Data),
        ],
        Access::Write(src) => vec![
            MicroCode::Read(Addr::Absolute, What::Discard),
            MicroCode::FixHigh,
            MicroCode::NextCycle,
            MicroCode::Write(Addr::Absolute, src),
        ],
    }
}

pub fn absolute_indexed(index: Index, access: Access) -> (r: Vec<MicroCode>)
    ensures
        r@ == spec_absolute_indexed(index, access),
{
    let head = vec![
        MicroCode::Fetch(What::Opcode),
        MicroCode::NextCycle,
        MicroCode::Fetch(What::Adl),
        MicroCode::NextCycle,
        MicroCode::Fetch(What::Adh),
        MicroCode::AddIndex(index), MicroCode::NextCycle,
    ];
    concatenate_arrays(&head, &indexed_tail(access))
}

pub fn indexed_indirect(access: Access) -> (r: Vec<MicroCode>)
    ensures
        r@ == spec_indexed_indirect(access),
{
    vec![
        MicroCode::Fetch(What::Opcode),
        MicroCode::NextCycle,
        MicroCode::Fetch(What::Pointer),
        MicroCode::NextCycle,
        MicroCode::Read(Addr::ZeroPagePointer, What::Discard),
        MicroCode::AddPointerX,
        MicroCode::NextCycle,
        MicroCode::Read(Addr::ZeroPagePointer, What::Adl),
        MicroCode::IncPointer,
        MicroCode::NextCycle,
        MicroCode::Read(Addr::ZeroPagePointer, What::Adh), MicroCode::NextCycle,
        final_op(Addr::Absolute, access),
    ]
}

pub fn indirect_indexed(access: Access) -> (r: Vec<MicroCode>)
    ensures
        r@ == spec_indirect_indexed(access),
{
    let head = vec![
        MicroCode::Fetch(What::Opcode),
        MicroCode::NextCycle,
        MicroCode::Fetch(What::Pointer),
        MicroCode::NextCycle,
        MicroCode::Read(Addr::ZeroPagePointer, What::Adl),
        MicroCode::IncPointer,
        MicroCode::NextCycle,
        MicroCode::Read(Addr::ZeroPagePointer, What::Adh),
        MicroCode::AddIndex(Index::Y),
        MicroCode::NextCycle,
    ];
    concatenate_arrays(&head, &indexed_tail(access))
}

pub fn relative(not_taken: Cond) -> (r: Vec<MicroCode>)
    ensures
        r@ == spec_relative(not_taken),
{
    vec![
        MicroCode::Fetch(What::Opcode),
        MicroCode::NextCycle,
        MicroCode::Fetch(What::Offset),
        MicroCode::Skip(not_taken, 7),
        MicroCode::NextCycle,
        MicroCode::Read(Addr::Pc, What::Discard),
        MicroCode::AddOffset,
        MicroCode::Skip(Cond::NoCarry, 3),
        MicroCode::NextCycle,
        MicroCode::Read(Addr::Pc, What::Discard), MicroCode::FixPch,
    ]
}

/// A new sequence holding `x` followed by `y`.
pub fn concatenate_arrays(x: &Vec<MicroCode>, y: &Vec<MicroCode>) -> (r: Vec<MicroCode>)
    ensures
        r@ == x@ + y@,
{
    let mut concat: Vec<MicroCode> = Vec::new();
    let mut i: usize = 0;
    while i < x.len()
        invariant
            i <= x@.len(),
            concat@ == x@.subrange(0, i as int),
        decreases x@.len() - i,
    {
        concat.push(x[i]);
        i += 1;
    }
    let mut j: usize = 0;
    while j < y.len()
        invariant
            j <= y@.len(),
            concat@ == x@ + y@.subrange(0, j as int),
        decreases y@.len() - j,
    {
        concat.push(y[j]);
        j += 1;
    }
    assert(x@ == x@.subrange(0, x@.len() as int));
    assert(y@ == y@.subrange(0, y@.len() as int));
    concat
}

} // verus!
