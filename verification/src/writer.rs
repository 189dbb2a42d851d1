//! Serializing the edited arena-record set, relocating it into the image,
//! and rewriting the header bytes and connection tables.

use vstd::prelude::*;

use crate::addr::{from_snes_address, spec_snes_offset};
use crate::error::RomError;
use crate::layout::{
    lemma_waves_bytes_snoc, spec_arena_bytes, spec_arena_rec_off, spec_arena_tables_ok,
    spec_bank_byte, spec_circuit_entry_off, spec_conn_list_addr, spec_conn_slot, spec_conns_at,
    spec_le16, spec_region_base, spec_threshold_at, spec_wave_count, spec_waves_at,
    spec_waves_bytes, RELOCATED_REGION,
};
use crate::rom::{
    spec_arena_of, spec_circuit_base, spec_circuit_count, spec_circuit_of, LevelData, Rom,
    TOTAL_ARENAS,
};

verus! {

/// Byte length of the two offset tables that precede the arena data blob:
/// 3 circuit words plus 55 arena words (one per arena and one placeholder
/// per circuit), 2 bytes each.
pub const TABLES_SIZE: usize = 116;

/// The space reserved for the relocated block before the next fixed
/// structure: one full 32 KiB bank.
pub const BLOCK_CAPACITY: usize = 32768;

/// Linear offset the relocated block is written at.
pub const BLOCK_OFFSET: usize = 0x80000;

/// Size the image is grown to so the relocation target bank is
/// addressable.
pub const EXPANDED_IMAGE_SIZE: usize = 0x100000;

/// The collection holds exactly the 52 arenas in canonical order: circuit
/// ascending, arena ascending within its circuit.
pub open spec fn spec_canonical(arenas: Seq<LevelData>) -> bool {
    &&& arenas.len() == TOTAL_ARENAS
    &&& forall|i: int|
        0 <= i < arenas.len() ==> (#[trigger] arenas[i]).circuit == spec_circuit_of(i)
            && arenas[i].arena == spec_arena_of(i)
}

/// Every arena's wave list length fits the single on-disk length byte.
pub open spec fn spec_wave_counts_ok(arenas: Seq<LevelData>) -> bool {
    forall|i: int| 0 <= i < arenas.len() ==> 1 <= (#[trigger] arenas[i]).waves@.len() <= 256
}

/// The concatenated serialized arena records, in canonical order.
pub open spec fn spec_blob(arenas: Seq<LevelData>) -> Seq<u8>
    decreases arenas.len(),
{
    if arenas.len() == 0 {
        Seq::empty()
    } else {
        spec_blob(arenas.drop_last()) + spec_arena_bytes(arenas.last())
    }
}

/// The serialized block still fits the reserved space.
pub open spec fn spec_block_fits(arenas: Seq<LevelData>) -> bool {
    TABLES_SIZE + spec_blob(arenas).len() <= BLOCK_CAPACITY
}

/// The arena-table word for the arena at flat index `i`: its blob offset
/// relative to the block start, tagged with the ROM-address high bit so it
/// is directly usable as a bank-local console address.
pub open spec fn spec_arena_entry_word(arenas: Seq<LevelData>, i: int) -> u16 {
    (0x8000 + TABLES_SIZE + spec_blob(arenas.take(i)).len()) as u16
}

/// The arena-table word at word index `k` of the 55-entry table: each
/// circuit boundary gets one placeholder entry of value `0` ahead of its
/// first real arena entry.
pub open spec fn spec_arena_word(arenas: Seq<LevelData>, k: int) -> u16 {
    if k == 0 || k == 12 || k == 31 {
        0u16
    } else if k <= 11 {
        spec_arena_entry_word(arenas, k - 1)
    } else if k <= 30 {
        spec_arena_entry_word(arenas, k - 2)
    } else {
        spec_arena_entry_word(arenas, k - 3)
    }
}

/// All 58 table words of the block: the three circuit words (self-relative
/// pointers to where each circuit's run of arena words starts, tagged with
/// the high bit), then the 55 arena words.
pub open spec fn spec_words(arenas: Seq<LevelData>) -> Seq<u16> {
    seq![0x8006u16, 0x801Eu16, 0x8044u16] + Seq::new(55, |k: int| spec_arena_word(arenas, k))
}

/// A word sequence laid out as little-endian bytes.
pub open spec fn spec_words_le(ws: Seq<u16>) -> Seq<u8>
    decreases ws.len(),
{
    if ws.len() == 0 {
        Seq::empty()
    } else {
        spec_words_le(ws.drop_last()) + seq![
            (ws.last() % 0x100) as u8,
            (ws.last() / 0x100) as u8,
        ]
    }
}

/// The whole relocated block: circuit table, arena table, then the data
/// blob.
pub open spec fn spec_block(arenas: Seq<LevelData>) -> Seq<u8> {
    spec_words_le(spec_words(arenas)) + spec_blob(arenas)
}

/// The image grown (or truncated) to exactly the expanded size, new space
/// zero-filled.
pub open spec fn spec_grown(rom: Seq<u8>) -> Seq<u8> {
    if rom.len() >= EXPANDED_IMAGE_SIZE {
        rom.take(EXPANDED_IMAGE_SIZE as int)
    } else {
        rom + Seq::new((EXPANDED_IMAGE_SIZE - rom.len()) as nat, |i: int| 0u8)
    }
}

/// The grown image with the header bytes patched: the declared mapping
/// mode/size switched so the relocation target bank is addressable, the
/// region flag byte pointed at the relocated region, and the two known
/// cross-references repointed to it.
pub open spec fn spec_patched(rom: Seq<u8>) -> Seq<u8> {
    spec_grown(rom).update(0x7FD7, 0x0Au8).update(0x41CF, 0x10u8).update(0x41D8, 0x00u8).update(
        0x41D9,
        0x80u8,
    ).update(0x41DD, 0x01u8).update(0x41DE, 0x80u8)
}

/// A byte sequence with `data` written over it starting at `at`.
pub open spec fn spec_overwrite(s: Seq<u8>, at: int, data: Seq<u8>) -> Seq<u8> {
    Seq::new(s.len(), |i: int| if at <= i < at + data.len() { data[i - at] } else { s[i] })
}

/// The image after the connection triples of the first `n` arenas have
/// been written back in place, in order. Each arena's 3-byte slot is found
/// through the connection pointer table of the image as it stands when
/// that arena is written, exactly as the writer proceeds.
pub open spec fn spec_conns_written(rom: Seq<u8>, arenas: Seq<LevelData>, n: int) -> Seq<u8>
    decreases n,
{
    if n <= 0 {
        rom
    } else {
        let prev = spec_conns_written(rom, arenas, n - 1);
        let l = arenas[n - 1];
        let slot = spec_conn_slot(prev, l.circuit as int, l.arena as int);
        prev.update(slot, l.connections@[0]).update(slot + 1, l.connections@[1]).update(
            slot + 2,
            l.connections@[2],
        )
    }
}

/// The image with the header patched and the relocated block in place,
/// before the connection triples are written.
pub open spec fn spec_block_state(rom: Seq<u8>, arenas: Seq<LevelData>) -> Seq<u8> {
    spec_overwrite(spec_patched(rom), BLOCK_OFFSET as int, spec_block(arenas))
}

/// The full effect of a save on the image: grow and patch the header,
/// overwrite the relocation target with the serialized block, then write
/// all 52 connection triples back in place.
pub open spec fn spec_saved(rom: Seq<u8>, arenas: Seq<LevelData>) -> Seq<u8> {
    spec_conns_written(spec_block_state(rom, arenas), arenas, TOTAL_ARENAS as int)
}

/// The connection slot an arena resolves to in a given image state.
pub open spec fn spec_slot_of(rom: Seq<u8>, arenas: Seq<LevelData>, i: int) -> int {
    spec_conn_slot(rom, arenas[i].circuit as int, arenas[i].arena as int)
}

/// No arena's 3-byte connection slot, as resolved in `rom`, overlaps the
/// connection pointer table bytes or another arena's slot. This is how the
/// original layout is shaped; corrupt pointer tables could break it.
pub open spec fn spec_conn_slots_separated(rom: Seq<u8>, arenas: Seq<LevelData>) -> bool {
    &&& forall|i: int|
        0 <= i < arenas.len() ==> (#[trigger] spec_slot_of(rom, arenas, i)) + 3 <= 0x2A66
            || spec_slot_of(rom, arenas, i) >= 0x2A6C
    &&& forall|i: int, j: int|
        #![trigger spec_slot_of(rom, arenas, i), spec_slot_of(rom, arenas, j)]
        0 <= i < arenas.len() && 0 <= j < arenas.len() && i != j ==> spec_slot_of(rom, arenas, i)
            + 3 <= spec_slot_of(rom, arenas, j) || spec_slot_of(rom, arenas, j) + 3 <= spec_slot_of(
            rom,
            arenas,
            i,
        )
}

/// Linear offset of a circuit's connection pointer byte, evaluated.
proof fn lemma_conn_ptr_off(c: int)
    requires
        0 <= c < 3,
    ensures
        crate::layout::spec_conn_ptr_off(c) == 0x2A66 + c,
{
    let v = (0xAA66 + c) as u32;
    assert(v >> 16 == 0 && ((v & 0xFFFF) ^ 0x8000) + 0x8000 == v) by (bit_vector)
        requires
            0xAA66 <= v <= 0xAA69,
    ;
}

/// When the canonical collection's connection slots are pairwise disjoint
/// and clear of the pointer table — as they are in the intact original
/// layout — writing all the triples back leaves each arena's 3 bytes equal
/// to its connection triple, and touches nothing else.
pub proof fn lemma_conns_written_separated(rom: Seq<u8>, arenas: Seq<LevelData>, n: int)
    requires
        spec_canonical(arenas),
        spec_conn_slots_separated(rom, arenas),
        rom.len() >= 0x2A6C,
        forall|i: int|
            0 <= i < arenas.len() ==> 0 <= #[trigger] spec_slot_of(rom, arenas, i)
                && spec_slot_of(rom, arenas, i) + 3 <= rom.len(),
        0 <= n <= arenas.len(),
    ensures
        spec_conns_written(rom, arenas, n).len() == rom.len(),
        forall|p: int|
            0x2A66 <= p < 0x2A6C ==> #[trigger] spec_conns_written(rom, arenas, n)[p] == rom[p],
        forall|j: int, t: int|
            #![trigger arenas[j].connections@[t]]
            0 <= j < n && 0 <= t < 3 ==> spec_conns_written(rom, arenas, n)[spec_slot_of(
                rom,
                arenas,
                j,
            ) + t] == arenas[j].connections@[t],
        forall|p: int|
            0 <= p < rom.len() && (forall|j: int|
                0 <= j < n ==> !((#[trigger] spec_slot_of(rom, arenas, j)) <= p < spec_slot_of(
                    rom,
                    arenas,
                    j,
                ) + 3)) ==> #[trigger] spec_conns_written(rom, arenas, n)[p] == rom[p],
    decreases n,
{
    if n > 0 {
        lemma_conns_written_separated(rom, arenas, n - 1);
        let prev = spec_conns_written(rom, arenas, n - 1);
        let l = arenas[n - 1];
        let c = l.circuit as int;
        assert(c == spec_circuit_of(n - 1));
        lemma_conn_ptr_off(c);
        assert(prev[0x2A66 + c] == rom[0x2A66 + c]);
        assert(prev[0x2A69 + c] == rom[0x2A69 + c]);
        assert(spec_conn_slot(prev, c, l.arena as int) == spec_slot_of(rom, arenas, n - 1));
        let slot = spec_slot_of(rom, arenas, n - 1);
        let state = spec_conns_written(rom, arenas, n);
        assert(state == prev.update(slot, l.connections@[0]).update(
            slot + 1,
            l.connections@[1],
        ).update(slot + 2, l.connections@[2]));
        assert(slot + 3 <= 0x2A66 || slot >= 0x2A6C);
        assert forall|p: int| 0x2A66 <= p < 0x2A6C implies state[p] == rom[p] by {
            assert(prev[p] == rom[p]);
        }
        assert forall|j: int, t: int|
            #![trigger arenas[j].connections@[t]]
            0 <= j < n && 0 <= t < 3 implies state[spec_slot_of(rom, arenas, j) + t]
            == arenas[j].connections@[t] by {
            if j < n - 1 {
                assert(spec_slot_of(rom, arenas, j) + 3 <= slot || slot + 3 <= spec_slot_of(
                    rom,
                    arenas,
                    j,
                ));
                assert(prev[spec_slot_of(rom, arenas, j) + t] == arenas[j].connections@[t]);
            }
        }
        assert forall|p: int|
            0 <= p < rom.len() && (forall|j: int|
                0 <= j < n ==> !((#[trigger] spec_slot_of(rom, arenas, j)) <= p < spec_slot_of(
                    rom,
                    arenas,
                    j,
                ) + 3)) implies state[p] == rom[p] by {
            assert(!(spec_slot_of(rom, arenas, n - 1) <= p < spec_slot_of(rom, arenas, n - 1)
                + 3));
            assert(prev[p] == rom[p]);
        }
    }
}

/// Serializing one more arena appends its record bytes to the blob.
proof fn lemma_blob_snoc(arenas: Seq<LevelData>, i: int)
    requires
        0 <= i < arenas.len(),
    ensures
        spec_blob(arenas.take(i + 1)) == spec_blob(arenas.take(i)) + spec_arena_bytes(arenas[i]),
{
    let t = arenas.take(i + 1);
    assert(t.drop_last() =~= arenas.take(i));
    assert(t.last() == arenas[i]);
}

/// A prefix of the collection serializes to at most as many bytes as the
/// whole.
proof fn lemma_blob_len_monotone(arenas: Seq<LevelData>, m: int)
    requires
        0 <= m <= arenas.len(),
    ensures
        spec_blob(arenas.take(m)).len() <= spec_blob(arenas).len(),
    decreases arenas.len(),
{
    if m < arenas.len() {
        assert(arenas.drop_last().take(m) =~= arenas.take(m));
        lemma_blob_len_monotone(arenas.drop_last(), m);
    } else {
        assert(arenas.take(m) =~= arenas);
    }
}

/// Laying out one more word appends its two little-endian bytes.
proof fn lemma_words_le_snoc(ws: Seq<u16>, j: int)
    requires
        0 <= j < ws.len(),
    ensures
        spec_words_le(ws.take(j + 1)) == spec_words_le(ws.take(j)) + seq![
            (ws[j] % 0x100) as u8,
            (ws[j] / 0x100) as u8,
        ],
{
    let t = ws.take(j + 1);
    assert(t.drop_last() =~= ws.take(j));
    assert(t.last() == ws[j]);
}

/// Each arena's serialized record sits at its blob offset: the bytes of
/// the blob from the end of arena `i`'s prefix are exactly its record.
proof fn lemma_blob_layout(arenas: Seq<LevelData>, i: int)
    requires
        0 <= i < arenas.len(),
        1 <= arenas[i].waves@.len() <= 256,
    ensures
        spec_blob(arenas.take(i)).len() as int + (2 + 10 * arenas[i].waves@.len() as int) <= spec_blob(
            arenas,
        ).len(),
        spec_blob(arenas).subrange(
            spec_blob(arenas.take(i)).len() as int,
            spec_blob(arenas.take(i)).len() as int + (2 + 10 * arenas[i].waves@.len() as int),
        ) == spec_arena_bytes(arenas[i]),
    decreases arenas.len(),
{
    crate::layout::lemma_waves_bytes_len(arenas[i].waves@);
    if i == arenas.len() - 1 {
        assert(arenas.drop_last() =~= arenas.take(i));
        assert(spec_blob(arenas) == spec_blob(arenas.take(i)) + spec_arena_bytes(arenas[i]));
        assert(spec_blob(arenas).subrange(
            spec_blob(arenas.take(i)).len() as int,
            spec_blob(arenas.take(i)).len() as int + (2 + 10 * arenas[i].waves@.len() as int),
        ) =~= spec_arena_bytes(arenas[i]));
    } else {
        assert(arenas.drop_last()[i] == arenas[i]);
        assert(arenas.drop_last().take(i) =~= arenas.take(i));
        lemma_blob_layout(arenas.drop_last(), i);
        assert(spec_blob(arenas) == spec_blob(arenas.drop_last()) + spec_arena_bytes(
            arenas.last(),
        ));
        assert(spec_blob(arenas).subrange(
            spec_blob(arenas.take(i)).len() as int,
            spec_blob(arenas.take(i)).len() as int + (2 + 10 * arenas[i].waves@.len() as int),
        ) =~= spec_blob(arenas.drop_last()).subrange(
            spec_blob(arenas.take(i)).len() as int,
            spec_blob(arenas.take(i)).len() as int + (2 + 10 * arenas[i].waves@.len() as int),
        ));
    }
}

/// Serializing an arena set into a block and parsing any arena's record
/// back out of it recovers exactly what was serialized: the wave count,
/// every wave, and the completion threshold. Together with the reader's
/// contract this is the write-then-read round trip of the record data.
pub proof fn lemma_block_round_trip(arenas: Seq<LevelData>, i: int)
    requires
        spec_wave_counts_ok(arenas),
        0 <= i < arenas.len(),
    ensures
        ({
            let off = TABLES_SIZE + spec_blob(arenas.take(i)).len();
            let block = spec_block(arenas);
            &&& off + 2 + 10 * arenas[i].waves@.len() <= block.len()
            &&& crate::layout::spec_wave_count(block, off) == arenas[i].waves@.len()
            &&& crate::layout::spec_waves_at(block, off) == arenas[i].waves@
            &&& crate::layout::spec_threshold_at(block, off) == arenas[i].waves_remaining
        }),
{
    let off = TABLES_SIZE + spec_blob(arenas.take(i)).len();
    let block = spec_block(arenas);
    lemma_words_le_len(spec_words(arenas));
    assert(spec_words(arenas).len() == 58);
    lemma_blob_layout(arenas, i);
    assert(block.subrange(off as int, off + 2 + 10 * arenas[i].waves@.len()) =~= spec_blob(
        arenas,
    ).subrange(
        spec_blob(arenas.take(i)).len() as int,
        spec_blob(arenas.take(i)).len() as int + (2 + 10 * arenas[i].waves@.len() as int),
    ));
    crate::layout::lemma_arena_bytes_parse(block, arenas[i], off as int);
}

/// A word sequence lays out as two bytes per word.
proof fn lemma_words_le_len(ws: Seq<u16>)
    ensures
        spec_words_le(ws).len() == 2 * ws.len(),
    decreases ws.len(),
{
    if ws.len() > 0 {
        lemma_words_le_len(ws.drop_last());
    }
}

/// Word `k` of a laid-out word sequence sits at bytes `2k` and `2k + 1`.
proof fn lemma_words_le_index(ws: Seq<u16>, k: int)
    requires
        0 <= k < ws.len(),
    ensures
        spec_words_le(ws)[2 * k] == (ws[k] % 0x100) as u8,
        spec_words_le(ws)[2 * k + 1] == (ws[k] / 0x100) as u8,
    decreases ws.len(),
{
    lemma_words_le_len(ws);
    lemma_words_le_len(ws.drop_last());
    if k < ws.len() - 1 {
        lemma_words_le_index(ws.drop_last(), k);
        assert(ws.drop_last()[k] == ws[k]);
    }
}

/// A bank-16 console address assembled from a tagged 16-bit table word
/// translates to the relocated block region.
proof fn lemma_snes_offset_bank16(w: int)
    requires
        0x8000 <= w <= 0xFFFF,
    ensures
        spec_snes_offset((w + 0x100000) as u32) == 0x80000 + (w - 0x8000),
{
    let v = (w + 0x100000) as u32;
    assert((v >> 16) * 0x8000 + ((v & 0xFFFF) ^ 0x8000) + 0x88000 == v) by (bit_vector)
        requires
            0x108000 <= v <= 0x10FFFF,
    ;
}

/// A connection slot always lands in the first 66 KiB of the image, far
/// below the relocated block: the connection pointers are bank-0 words.
proof fn lemma_conn_slot_bound(rom: Seq<u8>, c: int, a: int)
    requires
        0 <= a <= 255,
    ensures
        0 <= spec_conn_slot(rom, c, a) <= 0xFFFF + 3 * 255,
{
    let v = crate::layout::spec_conn_list_addr(rom, c);
    assert(v <= 0xFFFF);
    assert((v >> 16) * 0x8000 + ((v & 0xFFFF) ^ 0x8000) <= 0xFFFF) by (bit_vector)
        requires
            v <= 0xFFFF,
    ;
}

/// The saved image's connection slots, as the block state resolves them,
/// are pairwise disjoint, clear of the connection pointer table, and clear
/// of the region flag byte. This is the shape of an intact image's layout;
/// only corrupt pointer tables break it.
pub open spec fn spec_save_layout_intact(rom: Seq<u8>, arenas: Seq<LevelData>) -> bool {
    &&& spec_conn_slots_separated(spec_block_state(rom, arenas), arenas)
    &&& forall|i: int|
        0 <= i < arenas.len() ==> !((#[trigger] spec_slot_of(
            spec_block_state(rom, arenas),
            arenas,
            i,
        )) <= 0x41CF < spec_slot_of(spec_block_state(rom, arenas), arenas, i) + 3)
}

/// Reading a saved image back recovers exactly what was saved: for every
/// arena of every circuit, the saved image's flag byte selects the
/// relocated region, the two-level table walk of that region resolves to
/// the arena's blob record, parsing that record yields the saved waves
/// and completion threshold, and the connection table holds the saved
/// triple. Together with the reader's and writer's contracts this is the
/// read-write-read round trip.
pub proof fn lemma_saved_image_read_back(rom: Seq<u8>, arenas: Seq<LevelData>, c: int, a: int)
    requires
        spec_canonical(arenas),
        spec_wave_counts_ok(arenas),
        spec_block_fits(arenas),
        spec_save_layout_intact(rom, arenas),
        0 <= c < 3,
        1 <= a <= spec_circuit_count(c),
    ensures
        ({
            let s = spec_saved(rom, arenas);
            let flat = spec_circuit_base(c) + a - 1;
            let rec = BLOCK_OFFSET + TABLES_SIZE + spec_blob(arenas.take(flat)).len();
            &&& spec_region_base(s) == RELOCATED_REGION
            &&& spec_arena_tables_ok(s, RELOCATED_REGION, c, a)
            &&& spec_arena_rec_off(s, RELOCATED_REGION, c, a) == rec
            &&& spec_wave_count(s, rec as int) == arenas[flat].waves@.len()
            &&& spec_waves_at(s, rec as int) == arenas[flat].waves@
            &&& spec_threshold_at(s, rec as int) == arenas[flat].waves_remaining
            &&& spec_conns_at(s, c, a) == arenas[flat].connections@
        }),
{
    let b = spec_block_state(rom, arenas);
    let s = spec_saved(rom, arenas);
    let block = spec_block(arenas);
    let ws = spec_words(arenas);
    let flat = spec_circuit_base(c) + a - 1;
    crate::reader::lemma_flat_index(c, a);
    lemma_words_le_len(ws);
    assert(ws.len() == 58);
    assert(block.len() == TABLES_SIZE + spec_blob(arenas).len());
    assert(block.len() <= BLOCK_CAPACITY);
    assert(spec_grown(rom).len() == EXPANDED_IMAGE_SIZE);
    assert(b.len() == EXPANDED_IMAGE_SIZE);

    assert forall|i: int|
        0 <= i < arenas.len() implies 0 <= #[trigger] spec_slot_of(b, arenas, i) && spec_slot_of(
        b,
        arenas,
        i,
    ) + 3 <= b.len() by {
        lemma_conn_slot_bound(b, arenas[i].circuit as int, arenas[i].arena as int);
    }
    lemma_conns_written_separated(b, arenas, TOTAL_ARENAS as int);
    assert(s.len() == EXPANDED_IMAGE_SIZE);

    assert forall|p: int| BLOCK_OFFSET <= p < EXPANDED_IMAGE_SIZE implies s[p] == b[p] by {
        assert forall|j: int|
            0 <= j < arenas.len() implies !((#[trigger] spec_slot_of(b, arenas, j)) <= p
            < spec_slot_of(b, arenas, j) + 3) by {
            lemma_conn_slot_bound(b, arenas[j].circuit as int, arenas[j].arena as int);
        }
    }
    assert(s[0x41CF] == b[0x41CF]);
    assert(b[0x41CF] == spec_patched(rom)[0x41CF]);
    assert(spec_patched(rom)[0x41CF] == 0x10);
    assert(spec_region_base(s) == RELOCATED_REGION);

    // Resolve the circuit table entry of the relocated region.
    lemma_snes_offset_bank16(0x8000 + 2 * c);
    let ceo = spec_circuit_entry_off(RELOCATED_REGION, c);
    assert(ceo == 0x80000 + 2 * c);
    assert(s[ceo] == b[ceo] && s[ceo + 1] == b[ceo + 1]);
    assert(b[ceo] == block[2 * c] && b[ceo + 1] == block[2 * c + 1]);
    lemma_words_le_index(ws, c);
    assert(block[2 * c] == (ws[c] % 0x100) as u8);
    assert(block[2 * c + 1] == (ws[c] / 0x100) as u8);
    let wc = ws[c];
    assert(wc == seq![0x8006u16, 0x801Eu16, 0x8044u16][c]);
    assert((0x108000u32 >> 16) & 0xFF == 0x10) by (bit_vector);
    assert(spec_bank_byte(RELOCATED_REGION) == 0x10);
    assert(spec_le16((wc % 0x100) as u8, (wc / 0x100) as u8) == wc);
    lemma_snes_offset_bank16(wc as int);

    // Resolve the arena table entry: word index k of the 55-entry table.
    let aeo = crate::layout::spec_arena_entry_off(s, RELOCATED_REGION, c, a);
    assert(aeo == 0x80000 + (wc - 0x8000) + 2 * a);
    let k = (wc - 0x8000) / 2 - 3 + a;
    assert(aeo == 0x80000 + 2 * (3 + k));
    assert(1 <= k <= 54);
    assert(s[aeo] == b[aeo] && s[aeo + 1] == b[aeo + 1]);
    assert(b[aeo] == block[2 * (3 + k)] && b[aeo + 1] == block[2 * (3 + k) + 1]);
    lemma_words_le_index(ws, 3 + k);
    assert(ws[3 + k] == spec_arena_word(arenas, k));
    assert(spec_arena_word(arenas, k) == spec_arena_entry_word(arenas, flat));

    // The entry word is the blob offset tagged with the high bit.
    lemma_blob_layout(arenas, flat);
    let prefix = spec_blob(arenas.take(flat)).len() as int;
    let li = arenas[flat];
    let slen = 2 + 10 * li.waves@.len() as int;
    assert(prefix + slen <= spec_blob(arenas).len());
    let raw = 0x8000 + TABLES_SIZE + prefix;
    assert(raw < 0x10000);
    assert(spec_arena_entry_word(arenas, flat) == raw as u16);
    assert(spec_le16(b[aeo], b[aeo + 1]) == raw);
    lemma_snes_offset_bank16(raw);
    let rec = spec_arena_rec_off(s, RELOCATED_REGION, c, a);
    assert(rec == 0x80000 + TABLES_SIZE + prefix);
    assert(spec_arena_tables_ok(s, RELOCATED_REGION, c, a));

    // The record bytes of the saved image are the blob bytes, which are
    // the arena's serialized record.
    assert forall|t: int|
        #![trigger s.subrange(rec, rec + slen)[t]]
        0 <= t < slen implies s.subrange(rec, rec + slen)[t] == spec_blob(arenas).subrange(
        prefix,
        prefix + slen,
    )[t] by {
        assert(s[rec + t] == b[rec + t]);
        assert(b[rec + t] == block[TABLES_SIZE + prefix + t]);
    }
    assert(s.subrange(rec, rec + slen) =~= spec_blob(arenas).subrange(prefix, prefix + slen));
    crate::layout::lemma_arena_bytes_parse(s, li, rec);

    // The connection triple sits at the slot the saved image resolves.
    lemma_conn_ptr_off(c);
    assert(s[0x2A66 + c] == b[0x2A66 + c]);
    assert(s[0x2A69 + c] == b[0x2A69 + c]);
    assert(spec_conn_list_addr(s, c) == spec_conn_list_addr(b, c));
    assert(spec_conn_slot(s, c, a) == spec_slot_of(b, arenas, flat));
    assert(spec_conns_at(s, c, a) =~= li.connections@);
}

impl Rom {
    /// Serializes one arena record: the length byte (wave count minus
    /// one), each wave's 10 bytes in on-disk field order, then the
    /// completion threshold byte. Fails if the wave count cannot be stored
    /// in the length byte.
    pub fn serialize_level_data(level_data: &LevelData) -> (r: Result<Vec<u8>, RomError>)
        ensures
            r is Ok <==> 1 <= level_data.waves@.len() <= 256,
            r matches Ok(v) ==> v@ == spec_arena_bytes(*level_data) && v@.len() == 2 + 10
                * level_data.waves@.len(),
            r matches Err(e) ==> e == (RomError::WaveCountOutOfRange {
                count: level_data.waves@.len() as usize,
            }),
    {
        let wc = level_data.waves.len();
        if wc == 0 || wc > 256 {
            return Err(RomError::WaveCountOutOfRange { count: wc });
        }
        let mut serial: Vec<u8> = Vec::new();
        serial.push((wc - 1) as u8);
        let mut w: usize = 0;
        while w < wc
            invariant
                w <= wc,
                1 <= wc <= 256,
                wc == level_data.waves@.len(),
                serial@ == seq![(wc - 1) as u8] + spec_waves_bytes(level_data.waves@.take(w as int)),
            decreases wc - w,
        {
            let wave = level_data.waves[w];
            serial.push(wave.enemy.to_u8());
            serial.push((wave.count % 0x100) as u8);
            serial.push((wave.count / 0x100) as u8);
            serial.push(wave.spawn_limit);
            serial.push(wave.unknown);
            serial.push((wave.cooldown_timer % 0x100) as u8);
            serial.push((wave.cooldown_timer / 0x100) as u8);
            serial.push(wave.pre_spawned);
            serial.push((wave.spawn_timer % 0x100) as u8);
            serial.push((wave.spawn_timer / 0x100) as u8);
            proof {
                lemma_waves_bytes_snoc(level_data.waves@, w as int);
                assert(serial@ =~= seq![(wc - 1) as u8] + spec_waves_bytes(
                    level_data.waves@.take(w + 1),
                ));
            }
            w = w + 1;
        }
        serial.push(level_data.waves_remaining);
        proof {
            assert(level_data.waves@.take(wc as int) =~= level_data.waves@);
            assert(serial@ =~= spec_arena_bytes(*level_data));
            crate::layout::lemma_waves_bytes_len(level_data.waves@);
        }
        Ok(serial)
    }

    /// Patches the header bytes and grows the image to the expanded size,
    /// zero-filling new space.
    pub fn modify_rom(&mut self)
        ensures
            final(self).rom@ == spec_patched(old(self).rom@),
            final(self).rom@.len() == EXPANDED_IMAGE_SIZE,
    {
        let ghost orig = self.rom@;
        self.rom.truncate(EXPANDED_IMAGE_SIZE);
        proof {
            if orig.len() >= EXPANDED_IMAGE_SIZE {
                assert(self.rom@ == orig.subrange(0, EXPANDED_IMAGE_SIZE as int));
                assert(self.rom@ =~= spec_grown(orig).take(self.rom@.len() as int));
            } else {
                assert(self.rom@ == orig);
                assert(forall|p: int|
                    0 <= p < orig.len() ==> #[trigger] spec_grown(orig)[p] == orig[p]);
                assert(self.rom@ =~= spec_grown(orig).take(self.rom@.len() as int));
            }
        }
        while self.rom.len() < EXPANDED_IMAGE_SIZE
            invariant
                self.rom@.len() <= EXPANDED_IMAGE_SIZE,
                spec_grown(orig).len() == EXPANDED_IMAGE_SIZE,
                orig.len() < EXPANDED_IMAGE_SIZE ==> orig.len() <= self.rom@.len(),
                orig.len() >= EXPANDED_IMAGE_SIZE ==> self.rom@.len() == EXPANDED_IMAGE_SIZE,
                self.rom@ == spec_grown(orig).take(self.rom@.len() as int),
            decreases EXPANDED_IMAGE_SIZE - self.rom@.len(),
        {
            proof {
                assert(spec_grown(orig)[self.rom@.len() as int] == 0);
            }
            self.rom.push(0);
            proof {
                assert(self.rom@ =~= spec_grown(orig).take(self.rom@.len() as int));
            }
        }
        proof {
            assert(self.rom@ =~= spec_grown(orig));
        }
        self.write_u8(0x7FD7, 0x0A);
        self.write_u8(0x41CF, 0x10);
        self.write_u8(0x41D8, 0x00);
        self.write_u8(0x41D9, 0x80);
        self.write_u8(0x41DD, 0x01);
        self.write_u8(0x41DE, 0x80);
    }

    /// Serializes the full edited arena-record set, relocates it to the
    /// fixed target region, rewrites the pointer tables and header bytes,
    /// and writes each arena's connection triple back in place. The image
    /// is only mutated once the whole block has been serialized and
    /// checked, so a failed save leaves it untouched.
    pub fn save_level_data(&mut self, level_data: &[LevelData]) -> (r: Result<(), RomError>)
        ensures
            r is Ok <==> spec_canonical(level_data@) && spec_wave_counts_ok(level_data@)
                && spec_block_fits(level_data@),
            r is Ok ==> final(self).rom@ == spec_saved(old(self).rom@, level_data@),
            r is Err ==> final(self).rom@ == old(self).rom@,
            level_data@.len() != TOTAL_ARENAS ==> r == Err::<(), RomError>(
                RomError::WrongArenaCount { got: level_data@.len() as usize },
            ),
    {
        let n = level_data.len();
        if n != TOTAL_ARENAS {
            return Err(RomError::WrongArenaCount { got: n });
        }
        let mut i: usize = 0;
        while i < TOTAL_ARENAS
            invariant
                i <= TOTAL_ARENAS,
                level_data@.len() == TOTAL_ARENAS,
                forall|j: int|
                    0 <= j < i ==> (#[trigger] level_data@[j]).circuit == spec_circuit_of(j)
                        && level_data@[j].arena == spec_arena_of(j),
            decreases TOTAL_ARENAS - i,
        {
            let c = crate::reader::circuit_of(i);
            let a = crate::reader::arena_of(i);
            if level_data[i].circuit != c || level_data[i].arena != a {
                return Err(RomError::NotCanonical { index: i });
            }
            i = i + 1;
        }

        let mut blob: Vec<u8> = Vec::new();
        let mut entries: Vec<u16> = Vec::new();
        let mut i: usize = 0;
        while i < TOTAL_ARENAS
            invariant
                i <= TOTAL_ARENAS,
                level_data@.len() == TOTAL_ARENAS,
                blob@ == spec_blob(level_data@.take(i as int)),
                TABLES_SIZE + blob@.len() <= BLOCK_CAPACITY,
                entries@.len() == i,
                forall|j: int|
                    0 <= j < i ==> entries@[j] == spec_arena_entry_word(level_data@, j),
                forall|j: int|
                    0 <= j < i ==> 1 <= (#[trigger] level_data@[j]).waves@.len() <= 256,
            decreases TOTAL_ARENAS - i,
        {
            let mut rec = match Self::serialize_level_data(&level_data[i]) {
                Ok(v) => v,
                Err(e) => {
                    proof {
                        assert(!spec_wave_counts_ok(level_data@)) by {
                            assert(!(1 <= level_data@[i as int].waves@.len() <= 256));
                        }
                    }
                    return Err(e);
                },
            };
            if TABLES_SIZE + blob.len() + rec.len() > BLOCK_CAPACITY {
                proof {
                    lemma_blob_snoc(level_data@, i as int);
                    lemma_blob_len_monotone(level_data@, i as int + 1);
                }
                return Err(RomError::BlobOverflow { size: TABLES_SIZE + blob.len() + rec.len() });
            }
            let entry = (TABLES_SIZE + blob.len()) as u16;
            assert(entry | 0x8000 == entry + 0x8000) by (bit_vector)
                requires
                    entry < 0x8000,
            ;
            entries.push(entry | 0x8000);
            proof {
                lemma_blob_snoc(level_data@, i as int);
            }
            blob.append(&mut rec);
            i = i + 1;
        }
        proof {
            assert(level_data@.take(TOTAL_ARENAS as int) =~= level_data@);
        }

        let mut block: Vec<u8> = Vec::new();
        block.push(0x06);
        block.push(0x80);
        block.push(0x1E);
        block.push(0x80);
        block.push(0x44);
        block.push(0x80);
        proof {
            let ws = spec_words(level_data@);
            assert(ws.take(0) =~= Seq::<u16>::empty());
            assert(spec_words_le(Seq::<u16>::empty()) == Seq::<u8>::empty());
            lemma_words_le_snoc(ws, 0);
            lemma_words_le_snoc(ws, 1);
            lemma_words_le_snoc(ws, 2);
            assert(ws[0] == 0x8006 && ws[1] == 0x801E && ws[2] == 0x8044);
            assert(block@ =~= spec_words_le(ws.take(3)));
        }
        let mut k: usize = 0;
        while k < 55
            invariant
                k <= 55,
                level_data@.len() == TOTAL_ARENAS,
                entries@.len() == TOTAL_ARENAS,
                forall|j: int|
                    0 <= j < TOTAL_ARENAS ==> entries@[j] == spec_arena_entry_word(level_data@, j),
                block@ == spec_words_le(spec_words(level_data@).take(3 + k as int)),
            decreases 55 - k,
        {
            let word: u16 = if k == 0 || k == 12 || k == 31 {
                0
            } else if k <= 11 {
                entries[k - 1]
            } else if k <= 30 {
                entries[k - 2]
            } else {
                entries[k - 3]
            };
            block.push((word % 0x100) as u8);
            block.push((word / 0x100) as u8);
            proof {
                let ws = spec_words(level_data@);
                assert(word == ws[3 + k as int]);
                lemma_words_le_snoc(ws, 3 + k as int);
                assert(block@ =~= spec_words_le(ws.take(3 + k as int + 1)));
            }
            k = k + 1;
        }
        proof {
            let ws = spec_words(level_data@);
            assert(ws.take(58) =~= ws);
            lemma_words_le_len(ws);
        }
        let mut blob2 = blob;
        block.append(&mut blob2);
        proof {
            assert(block@ =~= spec_block(level_data@));
        }

        self.modify_rom();
        let ghost patched = self.rom@;
        let mut j: usize = 0;
        while j < block.len()
            invariant
                self.rom@.len() == EXPANDED_IMAGE_SIZE,
                j <= block@.len(),
                block@.len() <= BLOCK_CAPACITY,
                patched.len() == EXPANDED_IMAGE_SIZE,
                forall|p: int|
                    0 <= p < EXPANDED_IMAGE_SIZE ==> #[trigger] self.rom@[p] == if BLOCK_OFFSET <= p
                        < BLOCK_OFFSET + j { block@[p - BLOCK_OFFSET] } else { patched[p] },
            decreases block@.len() - j,
        {
            let b = block[j];
            self.write_u8(BLOCK_OFFSET + j, b);
            j = j + 1;
        }
        proof {
            assert(self.rom@ =~= spec_overwrite(patched, BLOCK_OFFSET as int, block@));
        }

        let ghost block_state = self.rom@;
        let mut i: usize = 0;
        while i < TOTAL_ARENAS
            invariant
                i <= TOTAL_ARENAS,
                level_data@.len() == TOTAL_ARENAS,
                self.rom@.len() == EXPANDED_IMAGE_SIZE,
                block_state.len() == EXPANDED_IMAGE_SIZE,
                self.rom@ == spec_conns_written(block_state, level_data@, i as int),
            decreases TOTAL_ARENAS - i,
        {
            let circuit = level_data[i].circuit;
            let arena = level_data[i].arena;
            let caddr: u32 = 0xAA66 + circuit as u32;
            assert(caddr >> 16 == 0 && ((caddr & 0xFFFF) ^ 0x8000) <= 0xFFFF) by (bit_vector)
                requires
                    caddr <= 0xAB65,
            ;
            let cptr = from_snes_address(caddr);
            let lo = self.rom[cptr];
            let hi = self.rom[cptr + 3];
            let addr = lo as u32 + hi as u32 * 0x100;
            assert(addr >> 16 == 0 && ((addr & 0xFFFF) ^ 0x8000) <= 0xFFFF) by (bit_vector)
                requires
                    addr <= 0xFFFF,
            ;
            let slot = from_snes_address(addr) + arena as usize * 3;
            let conns = level_data[i].connections;
            self.write_u8(slot, conns[0]);
            self.write_u8(slot + 1, conns[1]);
            self.write_u8(slot + 2, conns[2]);
            proof {
                assert(self.rom@ =~= spec_conns_written(block_state, level_data@, i as int + 1));
            }
            i = i + 1;
        }
        Ok(())
    }
}

} // verus!
