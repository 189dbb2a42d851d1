use smash_tv_rom::enemy_type::EnemyType;

#[test]
fn round_trip_all_variants() {
    for e in EnemyType::enemy_list() {
        let code = e.to_u8();
        assert_eq!(EnemyType::from_u8(code), Some(e));
    }
}

#[test]
fn reserved_code_rejected() {
    assert_eq!(EnemyType::from_u8(19), None);
}

#[test]
fn zero_code_rejected() {
    assert_eq!(EnemyType::from_u8(0), None);
}

#[test]
fn codes_above_table_rejected() {
    assert_eq!(EnemyType::from_u8(23), None);
    assert_eq!(EnemyType::from_u8(0xFF), None);
}

#[test]
fn known_codes() {
    assert_eq!(EnemyType::from_u8(1), Some(EnemyType::Grunt));
    assert_eq!(EnemyType::from_u8(18), Some(EnemyType::Scarface));
    assert_eq!(EnemyType::from_u8(20), Some(EnemyType::Presents));
    assert_eq!(EnemyType::from_u8(22), Some(EnemyType::Babe));
    assert_eq!(EnemyType::Grunt.to_u8(), 1);
    assert_eq!(EnemyType::MutoidMan.to_u8(), 17);
    assert_eq!(EnemyType::Babe.to_u8(), 22);
}

#[test]
fn encoder_skips_reserved_code() {
    for e in EnemyType::enemy_list() {
        assert_ne!(e.to_u8(), 19);
    }
}

#[test]
fn list_has_all_distinct_variants() {
    let list = EnemyType::enemy_list();
    assert_eq!(list.len(), 21);
    for i in 0..21 {
        for j in 0..i {
            assert_ne!(list[i], list[j]);
        }
    }
}

#[test]
fn display_names() {
    assert_eq!(EnemyType::Grunt.name(), "Grunt");
    assert_eq!(EnemyType::PurpleRedDroid.name(), "Purple / red droid");
    assert_eq!(EnemyType::QuestionMark.name(), "Question mark");
}
