//! Walking the pointer tables of a loaded image and decoding the full
//! arena-record set.

use vstd::prelude::*;

use crate::addr::from_snes_address;
use crate::enemy_type::EnemyType;
use crate::error::RomError;
use crate::layout::{
    spec_arena_matches, spec_arena_parse_ok, spec_arena_rec_off, spec_arena_tables_ok,
    spec_conns_at, spec_name_chars, spec_region_base, spec_waves_at, CANONICAL_REGION,
    REGION_FLAG_OFFSET, RELOCATED_REGION,
};
use crate::rom::{
    spec_arena_of, spec_circuit_base, spec_circuit_count, spec_circuit_of, LevelData, Rom, Wave,
    TOTAL_ARENAS,
};

verus! {

/// Everything needed to decode every arena of every circuit is present and
/// valid in the image.
pub open spec fn spec_read_ok(rom: Seq<u8>) -> bool {
    &&& rom.len() > REGION_FLAG_OFFSET
    &&& forall|c: int, a: int|
        0 <= c < 3 && 1 <= a <= spec_circuit_count(c) ==> spec_arena_parse_ok(
            rom,
            spec_region_base(rom),
            c,
            a,
        )
}

/// The circuit a flat canonical index belongs to (exec form).
pub fn circuit_of(i: usize) -> (c: u8)
    requires
        i < TOTAL_ARENAS,
    ensures
        c == spec_circuit_of(i as int),
        c < 3,
{
    if i < 11 {
        0
    } else if i < 29 {
        1
    } else {
        2
    }
}

/// The 1-based within-circuit arena number of a flat canonical index
/// (exec form).
pub fn arena_of(i: usize) -> (a: u8)
    requires
        i < TOTAL_ARENAS,
    ensures
        a == spec_arena_of(i as int),
        1 <= a <= spec_circuit_count(spec_circuit_of(i as int)),
{
    if i < 11 {
        (i + 1) as u8
    } else if i < 29 {
        (i - 11 + 1) as u8
    } else {
        (i - 29 + 1) as u8
    }
}

/// A flat canonical index round-trips through its circuit and arena
/// number.
pub proof fn lemma_flat_index(c: int, a: int)
    requires
        0 <= c < 3,
        1 <= a <= spec_circuit_count(c),
    ensures
        0 <= spec_circuit_base(c) + a - 1 < 52,
        spec_circuit_of(spec_circuit_base(c) + a - 1) == c,
        spec_arena_of(spec_circuit_base(c) + a - 1) == a,
{
}

/// Relies on String::from_utf8: a buffer of ASCII bytes is valid UTF-8 and
/// decodes to exactly one character per byte, each the character with that
/// byte's code.
#[verifier::external_body]
fn ascii_to_string(bytes: Vec<u8>) -> (r: String)
    requires
        forall|i: int| 0 <= i < bytes@.len() ==> bytes@[i] < 0x80,
    ensures
        r@ == bytes@.map(|_i: int, b: u8| b as char),
{
    String::from_utf8(bytes).unwrap_or_default()
}

impl Rom {
    /// Resolves the linear offset of one arena record by the two-level
    /// table walk: circuit table entry, then arena table entry, each a
    /// 16-bit word completed with the region's bank byte.
    pub fn arena_offset(&self, circuit: u8, arena: u8, base_offset: u32) -> (r: Result<
        usize,
        RomError,
    >)
        requires
            base_offset <= 0xFFFF00,
        ensures
            r is Ok <==> spec_arena_tables_ok(
                self.rom@,
                base_offset,
                circuit as int,
                arena as int,
            ),
            r matches Ok(o) ==> o == spec_arena_rec_off(
                self.rom@,
                base_offset,
                circuit as int,
                arena as int,
            ) && o <= 0x80007FFF,
            r matches Err(e) ==> (e matches RomError::OutOfBounds { .. }),
    {
        proof {
            assert((base_offset >> 16) & 0xFF <= 0xFF) by (bit_vector);
        }
        let bank: u32 = (base_offset >> 16) & 0xFF;
        let entry = from_snes_address(base_offset + circuit as u32 * 2);
        if entry + 1 >= self.rom.len() {
            return Err(RomError::OutOfBounds { offset: entry });
        }
        let table_addr = self.rom[entry] as u32 + self.rom[entry + 1] as u32 * 0x100 + bank
            * 0x10000;
        let entry2 = from_snes_address(table_addr) + arena as usize * 2;
        if entry2 + 1 >= self.rom.len() {
            return Err(RomError::OutOfBounds { offset: entry2 });
        }
        let rec_addr = self.rom[entry2] as u32 + self.rom[entry2 + 1] as u32 * 0x100 + bank
            * 0x10000;
        Ok(from_snes_address(rec_addr))
    }

    /// Decodes one arena of one circuit out of the wave-data region at
    /// `base`, together with its connection triple and its name record.
    fn read_arena(&self, base: u32, circuit: u8, arena: u8) -> (r: Result<LevelData, RomError>)
        requires
            base == CANONICAL_REGION || base == RELOCATED_REGION,
            circuit < 3,
            1 <= arena <= 23,
        ensures
            r is Ok <==> spec_arena_parse_ok(self.rom@, base, circuit as int, arena as int),
            r matches Ok(l) ==> spec_arena_matches(
                self.rom@,
                l,
                base,
                circuit as int,
                arena as int,
            ),
    {
        let rec = match self.arena_offset(circuit, arena, base) {
            Ok(o) => o,
            Err(e) => { return Err(e) },
        };
        if rec >= self.rom.len() {
            return Err(RomError::OutOfBounds { offset: rec });
        }
        let wave_count: usize = self.rom[rec] as usize + 1;
        let end = rec + 1 + wave_count * 10 + 1;
        if end > self.rom.len() {
            return Err(RomError::OutOfBounds { offset: end - 1 });
        }
        let mut waves: Vec<Wave> = Vec::new();
        let mut w: usize = 0;
        while w < wave_count
            invariant
                w <= wave_count,
                waves@.len() == w,
                rec + 1 + wave_count * 10 + 1 <= self.rom@.len(),
                wave_count == self.rom@[rec as int] + 1,
                rec < self.rom@.len(),
                rec <= 0x80007FFF,
                rec == spec_arena_rec_off(self.rom@, base, circuit as int, arena as int),
                forall|j: int|
                    0 <= j < w ==> (#[trigger] crate::enemy_type::spec_from_u8(
                        self.rom@[rec + 1 + 10 * j],
                    )) is Some,
                forall|j: int|
                    0 <= j < w ==> waves@[j] == crate::layout::spec_wave_at(
                        self.rom@,
                        rec + 1 + 10 * j,
                    ),
            decreases wave_count - w,
        {
            let p = rec + 1 + w * 10;
            let code = self.rom[p];
            let enemy = match EnemyType::from_u8(code) {
                Some(e) => e,
                None => {
                    proof {
                        assert(crate::enemy_type::spec_from_u8(
                            self.rom@[rec + 1 + 10 * (w as int)],
                        ) is None);
                    }
                    return Err(RomError::UnknownEnemyCode { value: code, location: p });
                },
            };
            let wave = Wave {
                enemy: enemy,
                count: self.rom[p + 1] as u16 + self.rom[p + 2] as u16 * 0x100,
                spawn_limit: self.rom[p + 3],
                unknown: self.rom[p + 4],
                cooldown_timer: self.rom[p + 5] as u16 + self.rom[p + 6] as u16 * 0x100,
                pre_spawned: self.rom[p + 7],
                spawn_timer: self.rom[p + 8] as u16 + self.rom[p + 9] as u16 * 0x100,
            };
            waves.push(wave);
            w = w + 1;
        }
        let waves_remaining = self.rom[rec + 1 + wave_count * 10];

        let cptr = from_snes_address(0xAA66 + circuit as u32);
        if cptr + 3 >= self.rom.len() {
            return Err(RomError::OutOfBounds { offset: cptr + 3 });
        }
        let conn_addr = self.rom[cptr] as u32 + self.rom[cptr + 3] as u32 * 0x100;
        let slot = from_snes_address(conn_addr) + arena as usize * 3;
        if slot + 3 > self.rom.len() {
            return Err(RomError::OutOfBounds { offset: slot + 2 });
        }
        let connections: [u8; 3] = [self.rom[slot], self.rom[slot + 1], self.rom[slot + 2]];
        proof {
            assert(connections@ =~= spec_conns_at(self.rom@, circuit as int, arena as int));
        }

        let nptr = from_snes_address(0xE977 + circuit as u32 * 2);
        if nptr + 1 >= self.rom.len() {
            return Err(RomError::OutOfBounds { offset: nptr + 1 });
        }
        let name_addr = self.rom[nptr] as u32 + self.rom[nptr + 1] as u32 * 0x100;
        let noff = from_snes_address(name_addr) + (arena as usize - 1) * 26;
        proof {
            assert(noff == crate::layout::spec_name_off(self.rom@, circuit as int, arena as int));
        }
        if noff + 26 > self.rom.len() {
            return Err(RomError::OutOfBounds { offset: noff + 25 });
        }
        let mut name_bytes: Vec<u8> = Vec::new();
        let mut i: usize = 0;
        while i < 26
            invariant
                i <= 26,
                name_bytes@.len() == i,
                noff + 26 <= self.rom@.len(),
                noff <= 0x81000000,
                noff == crate::layout::spec_name_off(self.rom@, circuit as int, arena as int),
                forall|j: int| 0 <= j < i ==> name_bytes@[j] == self.rom@[noff + j],
                forall|j: int| 0 <= j < i ==> (#[trigger] self.rom@[noff + j]) < 0x80,
            decreases 26 - i,
        {
            let b = self.rom[noff + i];
            if b >= 0x80 {
                proof {
                    assert(self.rom@[crate::layout::spec_name_off(
                        self.rom@,
                        circuit as int,
                        arena as int,
                    ) + i] >= 0x80);
                }
                return Err(RomError::InvalidText { location: noff + i });
            }
            name_bytes.push(b);
            i = i + 1;
        }
        let name = ascii_to_string(name_bytes);
        proof {
            assert(name@ =~= spec_name_chars(self.rom@, circuit as int, arena as int));
            assert(waves@ =~= spec_waves_at(
                self.rom@,
                spec_arena_rec_off(self.rom@, base, circuit as int, arena as int),
            ));
        }
        Ok(
            LevelData {
                circuit,
                arena,
                name,
                waves,
                waves_remaining,
                connections,
            },
        )
    }

    /// Reads the full arena-record set out of the image: 52 records in
    /// canonical order (circuit ascending, arena ascending within its
    /// circuit), decoded from whichever data region the flag byte says is
    /// active.
    pub fn get_level_data(&self) -> (r: Result<Vec<LevelData>, RomError>)
        ensures
            r is Ok <==> spec_read_ok(self.rom@),
            r matches Ok(levels) ==> {
                &&& levels@.len() == TOTAL_ARENAS
                &&& forall|j: int|
                    0 <= j < TOTAL_ARENAS ==> spec_arena_matches(
                        self.rom@,
                        #[trigger] levels@[j],
                        spec_region_base(self.rom@),
                        spec_circuit_of(j),
                        spec_arena_of(j),
                    )
            },
    {
        if self.rom.len() <= REGION_FLAG_OFFSET {
            return Err(RomError::OutOfBounds { offset: REGION_FLAG_OFFSET });
        }
        let base: u32 = if self.rom[REGION_FLAG_OFFSET] == 0x02 {
            CANONICAL_REGION
        } else {
            RELOCATED_REGION
        };
        let mut levels: Vec<LevelData> = Vec::new();
        let mut i: usize = 0;
        while i < TOTAL_ARENAS
            invariant
                i <= TOTAL_ARENAS,
                levels@.len() == i,
                self.rom@.len() > REGION_FLAG_OFFSET,
                base == spec_region_base(self.rom@),
                base == CANONICAL_REGION || base == RELOCATED_REGION,
                forall|j: int|
                    0 <= j < i ==> spec_arena_parse_ok(
                        self.rom@,
                        base,
                        spec_circuit_of(j),
                        spec_arena_of(j),
                    ),
                forall|j: int|
                    0 <= j < i ==> spec_arena_matches(
                        self.rom@,
                        levels@[j],
                        base,
                        spec_circuit_of(j),
                        spec_arena_of(j),
                    ),
            decreases TOTAL_ARENAS - i,
        {
            let c = circuit_of(i);
            let a = arena_of(i);
            let l = match self.read_arena(base, c, a) {
                Ok(l) => l,
                Err(e) => {
                    proof {
                        assert(!spec_read_ok(self.rom@)) by {
                            assert(!spec_arena_parse_ok(
                                self.rom@,
                                spec_region_base(self.rom@),
                                spec_circuit_of(i as int),
                                spec_arena_of(i as int),
                            ));
                        }
                    }
                    return Err(e);
                },
            };
            levels.push(l);
            i = i + 1;
        }
        proof {
            assert forall|c: int, a: int|
                0 <= c < 3 && 1 <= a <= spec_circuit_count(c) implies spec_arena_parse_ok(
                self.rom@,
                spec_region_base(self.rom@),
                c,
                a,
            ) by {
                lemma_flat_index(c, a);
            }
        }
        Ok(levels)
    }
}

} // verus!
