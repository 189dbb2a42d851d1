use smash_tv_rom::addr::{diagnose_address, from_snes_address, is_rom_mapped};
use smash_tv_rom::error::RomError;

#[test]
fn bank_zero_boundaries() {
    // Bank 0: the ROM window starts at bank-local 0x8000, which is file
    // offset 0.
    assert_eq!(from_snes_address(0x008000), 0x0000);
    assert_eq!(from_snes_address(0x008001), 0x0001);
    assert_eq!(from_snes_address(0x00FFFF), 0x7FFF);
}

#[test]
fn bank_one_boundaries() {
    assert_eq!(from_snes_address(0x018000), 0x8000);
    assert_eq!(from_snes_address(0x01FFFF), 0xFFFF);
}

#[test]
fn bank_sixteen_boundaries() {
    // Bank 0x10 holds the relocation target region.
    assert_eq!(from_snes_address(0x108000), 0x80000);
    assert_eq!(from_snes_address(0x10FFFF), 0x87FFF);
}

#[test]
fn fixed_structure_addresses() {
    // The region flag byte and the canonical data region.
    assert_eq!(from_snes_address(0x00C1CF), 0x41CF);
    assert_eq!(from_snes_address(0x02B5F0), 0x135F0);
    assert_eq!(from_snes_address(0x00FFD7), 0x7FD7);
    assert_eq!(from_snes_address(0x00AA66), 0x2A66);
    assert_eq!(from_snes_address(0x00E977), 0x6977);
}

#[test]
fn rom_mapped_check() {
    assert!(is_rom_mapped(0x008000));
    assert!(is_rom_mapped(0x00C1CF));
    assert!(!is_rom_mapped(0x004000));
    assert!(!is_rom_mapped(0x010000));
}

#[test]
fn malformed_address_still_translates() {
    // Best-effort: the high bit is toggled on by the wrap, never a panic.
    assert_eq!(from_snes_address(0x004000), 0xC000);
    assert_eq!(from_snes_address(0x000000), 0x8000);
}

#[test]
fn malformed_address_diagnostic() {
    assert_eq!(diagnose_address(0x008000), None);
    assert_eq!(
        diagnose_address(0x004000),
        Some(RomError::InvalidAddress { value: 0x004000 })
    );
}
