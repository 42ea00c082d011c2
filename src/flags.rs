//! The processor status word and its named bits.
use vstd::prelude::*;

verus! {

/// Carry.
pub const C_BIT: u8 = 0b0000_0001;
/// Zero.
pub const Z_BIT: u8 = 0b0000_0010;
/// Interrupt disable.
pub const I_BIT: u8 = 0b0000_0100;
/// Decimal mode.
pub const D_BIT: u8 = 0b0000_1000;
/// Break.
pub const B_BIT: u8 = 0b0001_0000;
/// The bit that always reads as one.
pub const U_BIT: u8 = 0b0010_0000;
/// Overflow.
pub const V_BIT: u8 = 0b0100_0000;
/// Negative.
pub const N_BIT: u8 = 0b1000_0000;

/// Status word right after construction.
pub const POWER_ON_STATUS: u8 = 0b0010_0010;

} // verus!
