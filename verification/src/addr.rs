//! Translation of 24-bit console bank-switched addresses into linear file
//! offsets.
//!
//! The console splits a 24-bit address into a bank (the top byte) and a
//! 16-bit bank-local word. Each bank maps 32 KiB of ROM at bank-local
//! addresses `0x8000..=0xFFFF`, so only addresses whose bank-local word has
//! its high bit set denote ROM-mapped locations. The translation is
//! best-effort: a malformed address (high bit clear) still yields an offset,
//! and callers may surface a warning-level diagnostic for it.

use vstd::prelude::*;

use crate::error::RomError;

verus! {

/// Whether a console address denotes a ROM-mapped (as opposed to
/// RAM-mapped) location: the high bit of the bank-local word is set.
pub open spec fn spec_rom_mapped(address: u32) -> bool {
    address & 0x8000 != 0
}

/// The linear file offset of a console address: the bank selects a 32 KiB
/// region of the file, and the bank-local word (with its high bit toggled
/// off, wrapping) selects the position inside that region.
pub open spec fn spec_snes_offset(address: u32) -> int {
    (address >> 16) * 0x8000 + ((address & 0xFFFF) ^ 0x8000)
}

/// Exec check for [`spec_rom_mapped`], so callers outside the core can
/// diagnose malformed addresses before or after translating them.
pub fn is_rom_mapped(address: u32) -> (b: bool)
    ensures
        b == spec_rom_mapped(address),
{
    address & 0x8000 != 0
}

/// Best-effort structured diagnostic for an address: a malformed (non
/// ROM-mapped) address yields a warning-level error value, a well-formed one
/// yields nothing. Translation itself never fails.
pub fn diagnose_address(address: u32) -> (d: Option<RomError>)
    ensures
        spec_rom_mapped(address) ==> d is None,
        !spec_rom_mapped(address) ==> d == Some(RomError::InvalidAddress { value: address }),
{
    if address & 0x8000 != 0 {
        None
    } else {
        Some(RomError::InvalidAddress { value: address })
    }
}

/// Translates a console address to its linear file offset. Total: a
/// malformed address still gets the best-effort offset of the formula.
pub fn from_snes_address(address: u32) -> (offset: usize)
    ensures
        offset == spec_snes_offset(address),
        offset <= 0x80007FFF,
{
    assert((address >> 16) <= 0xFFFF && ((address & 0xFFFF) ^ 0x8000) <= 0xFFFF) by (bit_vector);
    let bank: u32 = address >> 16;
    let local: u32 = (address & 0xFFFF) ^ 0x8000;
    (bank * 0x8000 + local) as usize
}

/// For every ROM-mapped address the translated offset agrees with plain
/// bank/offset arithmetic: the bank times 32 KiB, plus the bank-local word
/// less the 32 KiB ROM-window base.
pub proof fn lemma_rom_mapped_offset(address: u32)
    requires
        spec_rom_mapped(address),
    ensures
        spec_snes_offset(address) == (address >> 16) * 0x8000 + (address & 0xFFFF) - 0x8000,
{
    assert(address & 0x8000 != 0 ==> ((address & 0xFFFF) ^ 0x8000) + 0x8000 == (address
        & 0xFFFF)) by (bit_vector);
}

} // verus!
