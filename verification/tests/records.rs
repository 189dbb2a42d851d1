use smash_tv_rom::enemy_type::EnemyType;
use smash_tv_rom::error::RomError;
use smash_tv_rom::rom::{
    circuit_arena_name, decode_connection, normalize_name, Connection, LevelData, Rom, Wave,
};

fn wave(enemy: EnemyType, count: u16) -> Wave {
    Wave {
        enemy,
        count,
        spawn_limit: 1,
        unknown: 0,
        cooldown_timer: 1,
        pre_spawned: 0,
        spawn_timer: 0,
    }
}

fn arena(circuit: u8, arena_no: u8, waves: Vec<Wave>) -> LevelData {
    LevelData {
        circuit,
        arena: arena_no,
        name: " ".repeat(26),
        waves,
        waves_remaining: 0,
        connections: [0, 0, 0],
    }
}

#[test]
fn serialize_single_wave() {
    let l = arena(
        0,
        1,
        vec![Wave {
            enemy: EnemyType::Grunt,
            count: 5,
            spawn_limit: 2,
            unknown: 0,
            cooldown_timer: 60,
            pre_spawned: 0,
            spawn_timer: 0,
        }],
    );
    let bytes = Rom::serialize_level_data(&l).unwrap();
    assert_eq!(bytes, vec![0, 1, 5, 0, 2, 0, 60, 0, 0, 0, 0, 0]);
}

#[test]
fn serialize_little_endian_fields() {
    let l = arena(
        0,
        1,
        vec![Wave {
            enemy: EnemyType::Tank,
            count: 0x1234,
            spawn_limit: 7,
            unknown: 9,
            cooldown_timer: 0xABCD,
            pre_spawned: 3,
            spawn_timer: 0x0102,
        }],
    );
    let bytes = Rom::serialize_level_data(&l).unwrap();
    assert_eq!(
        bytes,
        vec![0, 8, 0x34, 0x12, 7, 9, 0xCD, 0xAB, 3, 0x02, 0x01, 0]
    );
}

#[test]
fn serialize_max_wave_count() {
    // A 256-wave arena stores its length byte as 255.
    let l = arena(0, 1, vec![wave(EnemyType::Grunt, 1); 256]);
    let bytes = Rom::serialize_level_data(&l).unwrap();
    assert_eq!(bytes[0], 255);
    assert_eq!(bytes.len(), 2 + 10 * 256);
}

#[test]
fn serialize_zero_waves_fails() {
    let l = arena(0, 1, Vec::new());
    assert_eq!(
        Rom::serialize_level_data(&l),
        Err(RomError::WaveCountOutOfRange { count: 0 })
    );
}

#[test]
fn serialize_too_many_waves_fails() {
    let l = arena(0, 1, vec![wave(EnemyType::Grunt, 1); 257]);
    assert_eq!(
        Rom::serialize_level_data(&l),
        Err(RomError::WaveCountOutOfRange { count: 257 })
    );
}

#[test]
fn name_too_long_is_truncated_to_26_bytes() {
    let thirty = "abcdefghijklmnopqrstuvwxyz1234";
    assert_eq!(thirty.len(), 30);
    let r = normalize_name(thirty);
    assert_eq!(r.len(), 26);
    assert_eq!(r, thirty.as_bytes()[..26].to_vec());
}

#[test]
fn name_short_is_padded_to_26_bytes() {
    let r = normalize_name("Arena 1");
    assert_eq!(r.len(), 26);
    assert_eq!(&r[..7], "Arena 1".as_bytes());
    assert!(r[7..].iter().all(|&b| b == 0x20));
}

#[test]
fn name_exact_width_unchanged() {
    let s = "abcdefghijklmnopqrstuvwxyz";
    assert_eq!(s.len(), 26);
    assert_eq!(normalize_name(s), s.as_bytes().to_vec());
}

#[test]
fn connection_zero_and_goal() {
    for c in 0..3u8 {
        assert_eq!(decode_connection(c, 0), Some(Connection::NoConnection));
        assert_eq!(decode_connection(c, 0xFF), Some(Connection::Goal));
    }
}

#[test]
fn connection_circuit_ranges() {
    let names = circuit_arena_name();
    // First and last index of each circuit's range, mapped into the flat
    // 52-entry list.
    assert_eq!(decode_connection(0, 1), Some(Connection::Arena { flat: 0 }));
    assert_eq!(names[0], "Arena 1");
    assert_eq!(decode_connection(0, 11), Some(Connection::Arena { flat: 10 }));
    assert_eq!(names[10], "Secret room #1!");
    assert_eq!(decode_connection(1, 1), Some(Connection::Arena { flat: 11 }));
    assert_eq!(names[11], "Orbs!");
    assert_eq!(decode_connection(1, 18), Some(Connection::Arena { flat: 28 }));
    assert_eq!(names[28], "Buffalo herd nearby!");
    assert_eq!(decode_connection(2, 1), Some(Connection::Arena { flat: 29 }));
    assert_eq!(names[29], "No dice");
    assert_eq!(decode_connection(2, 23), Some(Connection::Arena { flat: 51 }));
    assert_eq!(names[51], "Not enough keys!");
}

#[test]
fn connection_out_of_range_rejected() {
    assert_eq!(decode_connection(0, 12), None);
    assert_eq!(decode_connection(1, 19), None);
    assert_eq!(decode_connection(2, 24), None);
}

#[test]
fn image_size_checks() {
    let small = vec![0u8; 524287];
    assert_eq!(
        Rom::check_image(&small),
        Err(RomError::SizeOutOfRange { got: 524287 })
    );
    let big = vec![0u8; 524288 * 4];
    assert_eq!(
        Rom::check_image(&big),
        Err(RomError::SizeOutOfRange { got: 524288 * 4 })
    );
}

#[test]
fn image_signature_checks() {
    let mut bytes = vec![0u8; 524288];
    assert_eq!(Rom::check_image(&bytes), Err(RomError::InvalidSignature));
    bytes[0] = 0x78;
    bytes[1] = 0x9C;
    bytes[2] = 0x00;
    assert_eq!(Rom::check_image(&bytes), Ok(()));
}

#[test]
fn checked_byte_reads() {
    let rom = Rom { rom: vec![0x11, 0x22, 0x33] };
    assert_eq!(rom.read_u8(0), Ok(0x11));
    assert_eq!(rom.read_u8(2), Ok(0x33));
    assert_eq!(rom.read_u8(3), Err(RomError::OutOfBounds { offset: 3 }));
    assert_eq!(rom.read_u16_le(0), Ok(0x2211));
    assert_eq!(rom.read_u16_le(1), Ok(0x3322));
    assert!(matches!(rom.read_u16_le(2), Err(RomError::OutOfBounds { .. })));
}
