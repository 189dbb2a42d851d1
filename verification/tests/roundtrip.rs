use smash_tv_rom::enemy_type::EnemyType;
use smash_tv_rom::error::RomError;
use smash_tv_rom::rom::{LevelData, Rom, Wave};

const CIRCUIT_COUNTS: [u8; 3] = [11, 18, 23];

fn flat_to_circuit_arena(i: usize) -> (u8, u8) {
    if i < 11 {
        (0, (i + 1) as u8)
    } else if i < 29 {
        (1, (i - 11 + 1) as u8)
    } else {
        (2, (i - 29 + 1) as u8)
    }
}

fn default_wave() -> Wave {
    Wave {
        enemy: EnemyType::Grunt,
        count: 5,
        spawn_limit: 2,
        unknown: 0,
        cooldown_timer: 60,
        pre_spawned: 0,
        spawn_timer: 0,
    }
}

fn canonical_arenas() -> Vec<LevelData> {
    let mut arenas = Vec::new();
    for i in 0..52 {
        let (c, a) = flat_to_circuit_arena(i);
        arenas.push(LevelData {
            circuit: c,
            arena: a,
            name: " ".repeat(26),
            waves: vec![default_wave()],
            waves_remaining: 0,
            connections: [i as u8, 0xFF, 0],
        });
    }
    arenas
}

/// A blank expanded image with valid signature, connection pointer
/// tables (per-circuit lists at distinct offsets) and name pointer
/// tables (26 spaces per name), ready for a save to install wave data.
fn blank_image() -> Rom {
    let mut bytes = vec![0u8; 0x100000];
    bytes[0] = 0x78;
    bytes[1] = 0x9C;
    bytes[2] = 0x00;
    // Connection pointer table: three low bytes, then three high bytes.
    // The lists land at file offsets 0x1000, 0x1100 and 0x1200.
    bytes[0x2A66] = 0x00;
    bytes[0x2A67] = 0x00;
    bytes[0x2A68] = 0x00;
    bytes[0x2A69] = 0x90;
    bytes[0x2A6A] = 0x91;
    bytes[0x2A6B] = 0x92;
    // Name pointer table: the 26-byte name arrays land at file offsets
    // 0x2000, 0x2300 and 0x2600.
    bytes[0x6977] = 0x00;
    bytes[0x6978] = 0xA0;
    bytes[0x6979] = 0x00;
    bytes[0x697A] = 0xA3;
    bytes[0x697B] = 0x00;
    bytes[0x697C] = 0xA6;
    for i in 0x2000..0x2900 {
        bytes[i] = 0x20;
    }
    Rom { rom: bytes }
}

#[test]
fn read_write_read_round_trip() {
    let mut rom = blank_image();
    let arenas = canonical_arenas();
    rom.save_level_data(&arenas).unwrap();

    let first = rom.get_level_data().unwrap();
    assert_eq!(first.len(), 52);
    assert_eq!(first, arenas);

    // Header bytes are already switched to the relocated region, so a
    // second save must leave them stable and the records identical.
    rom.save_level_data(&first).unwrap();
    let second = rom.get_level_data().unwrap();
    assert_eq!(first, second);
    assert_eq!(rom.rom[0x41CF], 0x10);
    assert_eq!(rom.rom[0x7FD7], 0x0A);
}

#[test]
fn two_arena_scenario() {
    let mut rom = blank_image();
    let mut arenas = canonical_arenas();
    for i in 0..2 {
        arenas[i].waves = vec![Wave {
            enemy: EnemyType::from_u8(1).unwrap(),
            count: 5,
            spawn_limit: 2,
            unknown: 0,
            cooldown_timer: 60,
            pre_spawned: 0,
            spawn_timer: 0,
        }];
        arenas[i].waves_remaining = 0;
    }
    rom.save_level_data(&arenas).unwrap();
    let read = rom.get_level_data().unwrap();
    for i in 0..2 {
        let l = &read[i];
        assert_eq!(l.circuit, 0);
        assert_eq!(l.arena, (i + 1) as u8);
        assert_eq!(l.waves.len(), 1);
        let w = &l.waves[0];
        assert_eq!(w.enemy, EnemyType::Grunt);
        assert_eq!(w.count, 5);
        assert_eq!(w.spawn_limit, 2);
        assert_eq!(w.unknown, 0);
        assert_eq!(w.cooldown_timer, 60);
        assert_eq!(w.pre_spawned, 0);
        assert_eq!(w.spawn_timer, 0);
        assert_eq!(l.waves_remaining, 0);
        // Writing the record back reproduces the identical wave bytes.
        let bytes = Rom::serialize_level_data(l).unwrap();
        assert_eq!(bytes, vec![0, 1, 5, 0, 2, 0, 60, 0, 0, 0, 0, 0]);
    }
}

#[test]
fn name_text_is_decoded_from_the_name_table() {
    let mut rom = blank_image();
    let arenas = canonical_arenas();
    rom.save_level_data(&arenas).unwrap();
    // Circuit 0, arena 1's name record starts at the first name array.
    let text = b"HELLO";
    rom.rom[0x2000..0x2000 + text.len()].copy_from_slice(text);
    let read = rom.get_level_data().unwrap();
    assert_eq!(read[0].name, format!("HELLO{}", " ".repeat(21)));
    // Circuit 1, arena 2's record sits 26 bytes into the second array.
    rom.rom[0x2300 + 26] = b'Z';
    let read = rom.get_level_data().unwrap();
    assert_eq!(read[12].name.as_bytes()[0], b'Z');
}

#[test]
fn wrong_arena_count_rejected() {
    let mut rom = blank_image();
    let mut arenas = canonical_arenas();
    arenas.pop();
    assert_eq!(
        rom.save_level_data(&arenas),
        Err(RomError::WrongArenaCount { got: 51 })
    );
}

#[test]
fn non_canonical_order_rejected() {
    let mut rom = blank_image();
    let mut arenas = canonical_arenas();
    arenas.swap(0, 1);
    assert_eq!(
        rom.save_level_data(&arenas),
        Err(RomError::NotCanonical { index: 0 })
    );
}

#[test]
fn oversized_blob_rejected() {
    let mut rom = blank_image();
    let mut arenas = canonical_arenas();
    for l in arenas.iter_mut() {
        l.waves = vec![default_wave(); 256];
    }
    let before = rom.rom.clone();
    let r = rom.save_level_data(&arenas);
    assert!(matches!(r, Err(RomError::BlobOverflow { .. })));
    // A failed save leaves the image untouched.
    assert_eq!(rom.rom, before);
}

#[test]
fn failed_save_leaves_image_untouched() {
    let mut rom = blank_image();
    let mut arenas = canonical_arenas();
    arenas[5].waves = Vec::new();
    let before = rom.rom.clone();
    assert_eq!(
        rom.save_level_data(&arenas),
        Err(RomError::WaveCountOutOfRange { count: 0 })
    );
    assert_eq!(rom.rom, before);
}

#[test]
fn unknown_enemy_code_aborts_read() {
    let mut rom = blank_image();
    let arenas = canonical_arenas();
    rom.save_level_data(&arenas).unwrap();
    // The first record's enemy code byte sits right after the length byte
    // of the blob, which follows the 116 table bytes of the block.
    let enemy_at = 0x80000 + 116 + 1;
    rom.rom[enemy_at] = 19;
    assert_eq!(
        rom.get_level_data(),
        Err(RomError::UnknownEnemyCode { value: 19, location: enemy_at })
    );
}

#[test]
fn invalid_name_text_aborts_read() {
    let mut rom = blank_image();
    let arenas = canonical_arenas();
    rom.save_level_data(&arenas).unwrap();
    rom.rom[0x2000] = 0x80;
    assert_eq!(
        rom.get_level_data(),
        Err(RomError::InvalidText { location: 0x2000 })
    );
}

#[test]
fn truncated_image_aborts_read() {
    let rom = Rom { rom: Vec::new() };
    assert_eq!(
        rom.get_level_data(),
        Err(RomError::OutOfBounds { offset: 0x41CF })
    );
}

#[test]
fn modify_rom_patches_header_and_grows() {
    let mut rom = Rom { rom: vec![0xAB; 0x80000] };
    rom.modify_rom();
    assert_eq!(rom.rom.len(), 0x100000);
    assert_eq!(rom.rom[0x7FD7], 0x0A);
    assert_eq!(rom.rom[0x41CF], 0x10);
    assert_eq!(rom.rom[0x41D8], 0x00);
    assert_eq!(rom.rom[0x41D9], 0x80);
    assert_eq!(rom.rom[0x41DD], 0x01);
    assert_eq!(rom.rom[0x41DE], 0x80);
    // New space is zero-filled, existing bytes are kept.
    assert_eq!(rom.rom[0x80000], 0);
    assert_eq!(rom.rom[0x100], 0xAB);
    let total: u8 = CIRCUIT_COUNTS.iter().sum();
    assert_eq!(total, 52);
}

#[test]
fn pristine_region_flag_selects_canonical_region() {
    // A pristine-size image whose flag byte still holds 0x02: the reader
    // must resolve everything through the canonical region in bank 2.
    let mut bytes = vec![0u8; 0x80000];
    bytes[0] = 0x78;
    bytes[1] = 0x9C;
    bytes[2] = 0x00;
    bytes[0x41CF] = 0x02;
    // Connection and name pointer tables as in the expanded fixture.
    bytes[0x2A69] = 0x90;
    bytes[0x2A6A] = 0x91;
    bytes[0x2A6B] = 0x92;
    bytes[0x6978] = 0xA0;
    bytes[0x697A] = 0xA3;
    bytes[0x697C] = 0xA6;
    for i in 0x2000..0x2900 {
        bytes[i] = 0x20;
    }
    // Circuit table at file offset 0x135F0 (bank-local 0xB5F0 of bank 2).
    // Each 16-bit entry is completed with the region's bank byte (2), so a
    // word W lands at file offset 0x10000 + (W ^ 0x8000).
    for c in 0..3usize {
        let table = 0xB600 + (c as u16) * 0x60;
        bytes[0x135F0 + 2 * c] = (table % 0x100) as u8;
        bytes[0x135F0 + 2 * c + 1] = (table / 0x100) as u8;
    }
    // Arena tables at 0x13600, 0x13660, 0x136C0; each entry points at a
    // 16-byte-spaced record area from file offset 0x14000 on.
    let mut flat = 0usize;
    for c in 0..3usize {
        let table_off = 0x13600 + c * 0x60;
        for a in 1..=CIRCUIT_COUNTS[c] as usize {
            let word = 0xC000u16 + (flat as u16) * 16;
            bytes[table_off + 2 * a] = (word % 0x100) as u8;
            bytes[table_off + 2 * a + 1] = (word / 0x100) as u8;
            let rec = 0x14000 + flat * 16;
            bytes[rec..rec + 12].copy_from_slice(&[0, 1, 5, 0, 2, 0, 60, 0, 0, 0, 0, 0]);
            flat += 1;
        }
    }
    let rom = Rom { rom: bytes };
    let levels = rom.get_level_data().unwrap();
    assert_eq!(levels.len(), 52);
    for (i, l) in levels.iter().enumerate() {
        let (c, a) = flat_to_circuit_arena(i);
        assert_eq!((l.circuit, l.arena), (c, a));
        assert_eq!(l.waves.len(), 1);
        assert_eq!(l.waves[0].enemy, EnemyType::Grunt);
        assert_eq!(l.waves[0].count, 5);
        assert_eq!(l.waves[0].cooldown_timer, 60);
        assert_eq!(l.waves_remaining, 0);
        assert_eq!(l.name, " ".repeat(26));
        assert_eq!(l.connections, [0, 0, 0]);
    }
}
