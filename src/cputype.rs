//! Processor kinds of the `CPU` record. The Motorola 68000, the MIPS R3000
//! and the Hitachi SH-2 have been seen in files; the others are inferred.
use vstd::prelude::*;

verus! {

pub const MOTOROLA_68000: u8 = 0;

pub const MOTOROLA_68010: u8 = 1;

pub const MOTOROLA_68020: u8 = 2;

pub const MOTOROLA_68030: u8 = 3;

pub const MOTOROLA_68040: u8 = 4;

pub const WDC_65816: u8 = 5;

pub const ZILOG_Z80: u8 = 6;

pub const MIPS_R3000: u8 = 7;

pub const HITACHI_SH2: u8 = 8;

} // verus!
