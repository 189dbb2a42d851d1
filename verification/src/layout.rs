//! The mathematical model of the on-disk layout: pointer-table resolution,
//! record parsing and record serialization, all as spec functions shared by
//! the reader and the writer.

use vstd::prelude::*;

use crate::addr::spec_snes_offset;
use crate::enemy_type::{spec_from_u8, spec_to_u8, EnemyType};
use crate::rom::{LevelData, Wave};

verus! {

/// Linear offset of the flag byte that says which data region is active.
pub const REGION_FLAG_OFFSET: usize = 0x41CF;

/// Console address of the canonical (original, unpatched) data region.
pub const CANONICAL_REGION: u32 = 0x02B5F0;

/// Console address of the relocation target region this tool writes to.
pub const RELOCATED_REGION: u32 = 0x108000;

/// The active data region of an image: the canonical one if the flag byte
/// still holds the pristine value `0x02`, else the relocation target.
pub open spec fn spec_region_base(rom: Seq<u8>) -> u32
    recommends
        rom.len() > REGION_FLAG_OFFSET,
{
    if rom[REGION_FLAG_OFFSET as int] == 0x02 {
        CANONICAL_REGION
    } else {
        RELOCATED_REGION
    }
}

/// A 16-bit little-endian word read out of two bytes.
pub open spec fn spec_le16(lo: u8, hi: u8) -> int {
    lo + hi * 0x100
}

/// The bank byte (bits 16..24) of a console address.
pub open spec fn spec_bank_byte(address: u32) -> int {
    ((address >> 16) & 0xFF) as int
}

/// A console address assembled from a 16-bit table entry at `entry` in the
/// image and the given bank byte.
pub open spec fn spec_entry_addr(rom: Seq<u8>, entry: int, bank: int) -> u32
    recommends
        0 <= entry,
        entry + 1 < rom.len(),
        0 <= bank <= 0xFF,
{
    (spec_le16(rom[entry], rom[entry + 1]) + bank * 0x10000) as u32
}

/// Offset of the circuit-table entry for circuit `c` of the region at
/// `base`.
pub open spec fn spec_circuit_entry_off(base: u32, c: int) -> int {
    spec_snes_offset((base + 2 * c) as u32)
}

/// Console address of circuit `c`'s arena offset table, resolved through
/// the circuit table of the region at `base`.
pub open spec fn spec_arena_table_addr(rom: Seq<u8>, base: u32, c: int) -> u32 {
    spec_entry_addr(rom, spec_circuit_entry_off(base, c), spec_bank_byte(base))
}

/// Offset of the arena-table entry for arena `a` of circuit `c`.
pub open spec fn spec_arena_entry_off(rom: Seq<u8>, base: u32, c: int, a: int) -> int {
    spec_snes_offset(spec_arena_table_addr(rom, base, c)) + 2 * a
}

/// Linear offset of the arena record for circuit `c`, arena `a`: the
/// two-level table walk of the wave data region.
pub open spec fn spec_arena_rec_off(rom: Seq<u8>, base: u32, c: int, a: int) -> int {
    spec_snes_offset(
        spec_entry_addr(rom, spec_arena_entry_off(rom, base, c, a), spec_bank_byte(base)),
    )
}

/// Both table entries of the two-level walk lie inside the image.
pub open spec fn spec_arena_tables_ok(rom: Seq<u8>, base: u32, c: int, a: int) -> bool {
    &&& spec_circuit_entry_off(base, c) + 1 < rom.len()
    &&& spec_arena_entry_off(rom, base, c, a) + 1 < rom.len()
}

/// The wave record parsed from the 10 bytes at `p`.
pub open spec fn spec_wave_at(rom: Seq<u8>, p: int) -> Wave
    recommends
        0 <= p,
        p + 10 <= rom.len(),
        spec_from_u8(rom[p]) is Some,
{
    Wave {
        enemy: spec_from_u8(rom[p]).unwrap(),
        count: spec_le16(rom[p + 1], rom[p + 2]) as u16,
        spawn_limit: rom[p + 3],
        unknown: rom[p + 4],
        cooldown_timer: spec_le16(rom[p + 5], rom[p + 6]) as u16,
        pre_spawned: rom[p + 7],
        spawn_timer: spec_le16(rom[p + 8], rom[p + 9]) as u16,
    }
}

/// The wave count stored at an arena record: the length byte plus one.
pub open spec fn spec_wave_count(rom: Seq<u8>, rec: int) -> int
    recommends
        0 <= rec < rom.len(),
{
    rom[rec] + 1
}

/// The whole arena record (length byte, waves, trailing threshold byte)
/// lies inside the image and every enemy code decodes.
pub open spec fn spec_arena_rec_ok(rom: Seq<u8>, rec: int) -> bool {
    &&& 0 <= rec < rom.len()
    &&& rec + 1 + 10 * spec_wave_count(rom, rec) + 1 <= rom.len()
    &&& forall|w: int|
        0 <= w < spec_wave_count(rom, rec) ==> (#[trigger] spec_from_u8(rom[rec + 1 + 10 * w]))
            is Some
}

/// The wave list parsed from the arena record at `rec`.
pub open spec fn spec_waves_at(rom: Seq<u8>, rec: int) -> Seq<Wave> {
    Seq::new(
        spec_wave_count(rom, rec) as nat,
        |w: int| spec_wave_at(rom, rec + 1 + 10 * w),
    )
}

/// The completion threshold byte trailing the wave list at `rec`.
pub open spec fn spec_threshold_at(rom: Seq<u8>, rec: int) -> u8 {
    rom[rec + 1 + 10 * spec_wave_count(rom, rec)]
}

/// Linear offset of the low byte of circuit `c`'s connection-table pointer.
/// The per-circuit pointer table is interleaved: the three low bytes come
/// first, the three high bytes follow.
pub open spec fn spec_conn_ptr_off(c: int) -> int {
    spec_snes_offset((0xAA66 + c) as u32)
}

/// Console address of circuit `c`'s flat connection-triple array.
pub open spec fn spec_conn_list_addr(rom: Seq<u8>, c: int) -> u32
    recommends
        spec_conn_ptr_off(c) + 3 < rom.len(),
{
    (spec_le16(rom[spec_conn_ptr_off(c)], rom[spec_conn_ptr_off(c) + 3])) as u32
}

/// Linear offset of arena `a`'s 3-byte connection triple in circuit `c`.
pub open spec fn spec_conn_slot(rom: Seq<u8>, c: int, a: int) -> int {
    spec_snes_offset(spec_conn_list_addr(rom, c)) + 3 * a
}

/// The connection pointer bytes and the addressed triple lie inside the
/// image.
pub open spec fn spec_conn_ok(rom: Seq<u8>, c: int, a: int) -> bool {
    &&& spec_conn_ptr_off(c) + 3 < rom.len()
    &&& spec_conn_slot(rom, c, a) + 3 <= rom.len()
}

/// The connection triple of circuit `c`, arena `a`.
pub open spec fn spec_conns_at(rom: Seq<u8>, c: int, a: int) -> Seq<u8> {
    rom.subrange(spec_conn_slot(rom, c, a), spec_conn_slot(rom, c, a) + 3)
}

/// Linear offset of circuit `c`'s name-table pointer (a 16-bit bank-0
/// entry).
pub open spec fn spec_name_ptr_off(c: int) -> int {
    spec_snes_offset((0xE977 + 2 * c) as u32)
}

/// Linear offset of the 26-byte name record of circuit `c`, arena `a`.
pub open spec fn spec_name_off(rom: Seq<u8>, c: int, a: int) -> int
    recommends
        spec_name_ptr_off(c) + 1 < rom.len(),
{
    spec_snes_offset(
        spec_le16(rom[spec_name_ptr_off(c)], rom[spec_name_ptr_off(c) + 1]) as u32,
    ) + (a - 1) * 26
}

/// The name record lies inside the image and holds plain (ASCII-range)
/// text.
pub open spec fn spec_name_ok(rom: Seq<u8>, c: int, a: int) -> bool {
    &&& spec_name_ptr_off(c) + 1 < rom.len()
    &&& spec_name_off(rom, c, a) + 26 <= rom.len()
    &&& forall|i: int|
        0 <= i < 26 ==> (#[trigger] rom[spec_name_off(rom, c, a) + i]) < 0x80
}

/// The 26 name characters of circuit `c`, arena `a`.
pub open spec fn spec_name_chars(rom: Seq<u8>, c: int, a: int) -> Seq<char> {
    Seq::new(26, |i: int| rom[spec_name_off(rom, c, a) + i] as char)
}

/// Everything needed to decode circuit `c`, arena `a` out of the region at
/// `base` is present and valid.
pub open spec fn spec_arena_parse_ok(rom: Seq<u8>, base: u32, c: int, a: int) -> bool {
    &&& spec_arena_tables_ok(rom, base, c, a)
    &&& spec_arena_rec_ok(rom, spec_arena_rec_off(rom, base, c, a))
    &&& spec_conn_ok(rom, c, a)
    &&& spec_name_ok(rom, c, a)
}

/// The record `l` is exactly what circuit `c`, arena `a` of the region at
/// `base` decodes to.
pub open spec fn spec_arena_matches(rom: Seq<u8>, l: LevelData, base: u32, c: int, a: int) -> bool {
    let rec = spec_arena_rec_off(rom, base, c, a);
    &&& l.circuit == c
    &&& l.arena == a
    &&& l.name@ == spec_name_chars(rom, c, a)
    &&& l.waves@ == spec_waves_at(rom, rec)
    &&& l.waves_remaining == spec_threshold_at(rom, rec)
    &&& l.connections@ == spec_conns_at(rom, c, a)
}

/// The 10 serialized bytes of one wave record, in on-disk field order.
pub open spec fn spec_wave_bytes(w: Wave) -> Seq<u8> {
    seq![
        spec_to_u8(w.enemy),
        (w.count % 0x100) as u8,
        (w.count / 0x100) as u8,
        w.spawn_limit,
        w.unknown,
        (w.cooldown_timer % 0x100) as u8,
        (w.cooldown_timer / 0x100) as u8,
        w.pre_spawned,
        (w.spawn_timer % 0x100) as u8,
        (w.spawn_timer / 0x100) as u8,
    ]
}

/// The concatenated serialization of a wave list.
pub open spec fn spec_waves_bytes(ws: Seq<Wave>) -> Seq<u8>
    decreases ws.len(),
{
    if ws.len() == 0 {
        Seq::empty()
    } else {
        spec_wave_bytes(ws[0]) + spec_waves_bytes(ws.skip(1))
    }
}

/// The full serialized arena record: length byte (wave count minus one),
/// the waves, then the completion threshold byte.
pub open spec fn spec_arena_bytes(l: LevelData) -> Seq<u8>
    recommends
        1 <= l.waves@.len() <= 256,
{
    seq![(l.waves@.len() - 1) as u8] + spec_waves_bytes(l.waves@) + seq![l.waves_remaining]
}

/// Serialized size of one arena record.
pub open spec fn spec_serialized_len(l: LevelData) -> int {
    2 + 10 * l.waves@.len() as int
}

/// A wave list serializes to 10 bytes per wave.
pub proof fn lemma_waves_bytes_len(ws: Seq<Wave>)
    ensures
        spec_waves_bytes(ws).len() == 10 * ws.len(),
    decreases ws.len(),
{
    if ws.len() > 0 {
        lemma_waves_bytes_len(ws.skip(1));
    }
}

/// Appending one wave to a list appends its 10 bytes to the serialization.
pub proof fn lemma_waves_bytes_snoc(ws: Seq<Wave>, n: int)
    requires
        0 <= n < ws.len(),
    ensures
        spec_waves_bytes(ws.take(n + 1)) == spec_waves_bytes(ws.take(n)) + spec_wave_bytes(ws[n]),
    decreases n,
{
    if n == 0 {
        let t = ws.take(1);
        assert(t[0] == ws[0]);
        assert(t.skip(1) =~= Seq::<Wave>::empty());
        assert(ws.take(0) =~= Seq::<Wave>::empty());
        assert(spec_waves_bytes(t) == spec_wave_bytes(t[0]) + spec_waves_bytes(t.skip(1)));
        assert(spec_waves_bytes(ws.take(1)) =~= spec_waves_bytes(ws.take(0)) + spec_wave_bytes(
            ws[0],
        ));
    } else {
        lemma_waves_bytes_snoc(ws.skip(1), n - 1);
        assert(ws.take(n + 1)[0] == ws[0]);
        assert(ws.take(n)[0] == ws[0]);
        assert(ws.take(n + 1).skip(1) =~= ws.skip(1).take(n));
        assert(ws.take(n).skip(1) =~= ws.skip(1).take(n - 1));
        assert(ws.skip(1)[n - 1] == ws[n]);
        assert(spec_waves_bytes(ws.take(n + 1)) == spec_wave_bytes(ws[0]) + spec_waves_bytes(
            ws.skip(1).take(n),
        ));
        assert(spec_waves_bytes(ws.take(n)) + spec_wave_bytes(ws[n]) == spec_wave_bytes(ws[0]) + (
        spec_waves_bytes(ws.skip(1).take(n - 1)) + spec_wave_bytes(ws.skip(1)[n - 1])));
        assert((spec_wave_bytes(ws[0]) + spec_waves_bytes(ws.skip(1).take(n - 1))) + spec_wave_bytes(
            ws.skip(1)[n - 1],
        ) =~= spec_wave_bytes(ws[0]) + (spec_waves_bytes(ws.skip(1).take(n - 1)) + spec_wave_bytes(
            ws.skip(1)[n - 1],
        )));
    }
}

/// Parsing a serialized arena record out of an image recovers exactly the
/// record that was serialized: wave count, every wave field, and the
/// completion threshold. This is the byte-level heart of the
/// read-write-read round trip.
pub proof fn lemma_arena_bytes_parse(rom: Seq<u8>, l: LevelData, off: int)
    requires
        1 <= l.waves@.len() <= 256,
        0 <= off,
        off + spec_serialized_len(l) <= rom.len(),
        rom.subrange(off, off + spec_serialized_len(l)) == spec_arena_bytes(l),
    ensures
        spec_wave_count(rom, off) == l.waves@.len(),
        spec_arena_rec_ok(rom, off),
        spec_waves_at(rom, off) == l.waves@,
        spec_threshold_at(rom, off) == l.waves_remaining,
{
    let bytes = spec_arena_bytes(l);
    let n = l.waves@.len() as int;
    lemma_waves_bytes_len(l.waves@);
    assert(bytes.len() == spec_serialized_len(l));
    assert(forall|i: int|
        0 <= i < bytes.len() ==> #[trigger] rom[off + i] == bytes[i]) by {
        assert(forall|i: int|
            0 <= i < bytes.len() ==> rom.subrange(off, off + spec_serialized_len(l))[i]
                == #[trigger] bytes[i]);
    }
    assert(rom[off + 0] == bytes[0]);
    assert(rom[off] == (n - 1) as u8);
    assert(spec_wave_count(rom, off) == n);
    assert forall|w: int| 0 <= w < n implies spec_wave_at(rom, off + 1 + 10 * w)
        == l.waves@[w] && (#[trigger] spec_from_u8(rom[off + 1 + 10 * w])) is Some by {
        let wv = l.waves@[w];
        let wb = spec_wave_bytes(wv);
        assert forall|k: int| 0 <= k < 10 implies rom[off + 1 + 10 * w + k] == wb[k] by {
            lemma_waves_bytes_index(l.waves@, w, k);
            assert(bytes[1 + 10 * w + k] == spec_waves_bytes(l.waves@)[10 * w + k]);
        }
        crate::enemy_type::lemma_enemy_code_round_trip(wv.enemy);
        assert(rom[off + 1 + 10 * w] == spec_to_u8(wv.enemy));
        assert(rom[off + 1 + 10 * w + 1] == (wv.count % 0x100) as u8);
        assert(rom[off + 1 + 10 * w + 2] == (wv.count / 0x100) as u8);
        assert(rom[off + 1 + 10 * w + 5] == (wv.cooldown_timer % 0x100) as u8);
        assert(rom[off + 1 + 10 * w + 6] == (wv.cooldown_timer / 0x100) as u8);
        assert(rom[off + 1 + 10 * w + 8] == (wv.spawn_timer % 0x100) as u8);
        assert(rom[off + 1 + 10 * w + 9] == (wv.spawn_timer / 0x100) as u8);
        assert(spec_le16((wv.count % 0x100) as u8, (wv.count / 0x100) as u8) == wv.count);
        assert(spec_le16(
            (wv.cooldown_timer % 0x100) as u8,
            (wv.cooldown_timer / 0x100) as u8,
        ) == wv.cooldown_timer);
        assert(spec_le16(
            (wv.spawn_timer % 0x100) as u8,
            (wv.spawn_timer / 0x100) as u8,
        ) == wv.spawn_timer);
    }
    assert(spec_waves_at(rom, off) =~= l.waves@);
    assert(bytes[1 + 10 * n] == l.waves_remaining);
    assert(spec_threshold_at(rom, off) == l.waves_remaining);
}

/// Byte `10 * j + k` of a serialized wave list is byte `k` of wave `j`.
pub proof fn lemma_waves_bytes_index(ws: Seq<Wave>, j: int, k: int)
    requires
        0 <= j < ws.len(),
        0 <= k < 10,
    ensures
        spec_waves_bytes(ws)[10 * j + k] == spec_wave_bytes(ws[j])[k],
    decreases j,
{
    lemma_waves_bytes_len(ws);
    if j == 0 {
        lemma_waves_bytes_len(ws.skip(1));
    } else {
        lemma_waves_bytes_len(ws.skip(1));
        lemma_waves_bytes_index(ws.skip(1), j - 1, k);
        assert(ws.skip(1)[j - 1] == ws[j]);
    }
}

} // verus!
