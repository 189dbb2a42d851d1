//! The structured entities of the level data and the image buffer they are
//! read from and written to.

use vstd::prelude::*;
use vstd::string::StringSliceAdditionalSpecFns;

use crate::enemy_type::EnemyType;
use crate::error::RomError;

verus! {

/// Number of arena circuits in the cartridge.
pub const CIRCUIT_COUNT: usize = 3;

/// Total number of playable arenas over all circuits.
pub const TOTAL_ARENAS: usize = 52;

/// Width in bytes of one serialized wave record.
pub const WAVE_RECORD_SIZE: usize = 10;

/// Width in bytes of one on-disk arena name.
pub const NAME_LEN: usize = 26;

/// Smallest accepted image size: the unexpanded cartridge.
pub const MIN_IMAGE_SIZE: usize = 524288;

/// Image sizes of four times the unexpanded cartridge or more are rejected.
pub const MAX_IMAGE_SIZE: usize = 2097152;

/// How many arenas the given circuit holds (11, 18 and 23).
pub open spec fn spec_circuit_count(c: int) -> int {
    if c == 0 {
        11
    } else if c == 1 {
        18
    } else {
        23
    }
}

/// Index of the given circuit's first arena in the flat canonical order
/// (0, 11 and 29); kept in lockstep with [`spec_circuit_count`].
pub open spec fn spec_circuit_base(c: int) -> int {
    if c == 0 {
        0
    } else if c == 1 {
        11
    } else {
        29
    }
}

/// The circuit a flat canonical index `0..52` belongs to.
pub open spec fn spec_circuit_of(i: int) -> int {
    if i < 11 {
        0
    } else if i < 29 {
        1
    } else {
        2
    }
}

/// The 1-based within-circuit arena number of a flat canonical index.
pub open spec fn spec_arena_of(i: int) -> int {
    i - spec_circuit_base(spec_circuit_of(i)) + 1
}

/// Exec table of [`spec_circuit_count`].
pub fn circuit_count(c: usize) -> (n: usize)
    requires
        c < 3,
    ensures
        n == spec_circuit_count(c as int),
{
    if c == 0 {
        11
    } else if c == 1 {
        18
    } else {
        23
    }
}

/// Exec table of [`spec_circuit_base`].
pub fn circuit_base(c: usize) -> (n: usize)
    requires
        c < 3,
    ensures
        n == spec_circuit_base(c as int),
{
    if c == 0 {
        0
    } else if c == 1 {
        11
    } else {
        29
    }
}

/// One scripted burst of enemies spawned within an arena. Stored on disk
/// as a fixed 10-byte record.
#[derive(Clone, Copy, Debug, PartialEq, Eq, Structural)]
pub struct Wave {
    pub enemy: EnemyType,
    pub count: u16,
    pub spawn_limit: u8,
    /// Variant/palette selector; semantics partly unknown.
    pub unknown: u8,
    pub cooldown_timer: u16,
    pub pre_spawned: u8,
    pub spawn_timer: u16,
}

/// One playable arena: its place in the progression, display name, wave
/// list, completion rule and connection triple.
#[derive(Clone, Debug, PartialEq, Eq)]
pub struct LevelData {
    /// Which of the 3 circuits the arena belongs to (0, 1 or 2).
    pub circuit: u8,
    /// 1-based index within its circuit.
    pub arena: u8,
    /// Display name; exactly 26 bytes on disk.
    pub name: String,
    /// Ordered wave list; its length must stay in `1..=256` because it is
    /// stored on disk as length minus one in a single byte.
    pub waves: Vec<Wave>,
    /// Number of outstanding waves still tolerated when judging the arena
    /// cleared.
    pub waves_remaining: u8,
    /// The Up, Right and Down connections: `0` for none, `0xFF` for the
    /// circuit goal, otherwise a 1-based index into the per-circuit arena
    /// list.
    pub connections: [u8; 3],
}

/// What one slot of an arena's connection triple points at.
#[derive(Clone, Copy, Debug, PartialEq, Eq, Structural)]
pub enum Connection {
    /// The slot is empty.
    NoConnection,
    /// The slot leads to the circuit goal.
    Goal,
    /// The slot leads to the arena at this index of the flat 52-entry
    /// canonical list.
    Arena { flat: u8 },
}

/// What a stored connection byte of the given circuit decodes to: `0` is
/// no connection, `0xFF` is the circuit goal, a 1-based within-circuit
/// index maps into the flat canonical list through the circuit's base
/// offset, and everything else is invalid.
pub open spec fn spec_decode_connection(circuit: int, value: u8) -> Option<Connection> {
    if value == 0 {
        Some(Connection::NoConnection)
    } else if value == 0xFF {
        Some(Connection::Goal)
    } else if value <= spec_circuit_count(circuit) {
        Some(Connection::Arena { flat: (value - 1 + spec_circuit_base(circuit)) as u8 })
    } else {
        None
    }
}

/// Decodes one stored connection byte of an arena in the given circuit.
pub fn decode_connection(circuit: u8, value: u8) -> (r: Option<Connection>)
    requires
        circuit < 3,
    ensures
        r == spec_decode_connection(circuit as int, value),
{
    if value == 0 {
        Some(Connection::NoConnection)
    } else if value == 0xFF {
        Some(Connection::Goal)
    } else if value as usize <= circuit_count(circuit as usize) {
        Some(Connection::Arena { flat: value - 1 + circuit_base(circuit as usize) as u8 })
    } else {
        None
    }
}

/// A name field brought to its exact on-disk width: truncated to 26 bytes
/// when longer, padded with spaces when shorter.
pub open spec fn spec_normalized_name(bytes: Seq<u8>) -> Seq<u8> {
    if bytes.len() >= NAME_LEN {
        bytes.take(NAME_LEN as int)
    } else {
        bytes + Seq::new((NAME_LEN - bytes.len()) as nat, |i: int| 0x20u8)
    }
}

/// Brings a display name to the exact 26-byte width the name table
/// stores: longer input is truncated, shorter input is padded with
/// spaces. Never yields more or fewer than 26 bytes.
pub fn normalize_name(name: &str) -> (r: Vec<u8>)
    ensures
        r@ == spec_normalized_name(name.spec_bytes()),
        r@.len() == NAME_LEN,
{
    let b = name.as_bytes();
    let mut out: Vec<u8> = Vec::new();
    let mut i: usize = 0;
    while i < NAME_LEN
        invariant
            i <= NAME_LEN,
            out@.len() == i,
            b@ == name.spec_bytes(),
            forall|j: int| 0 <= j < i ==> out@[j] == spec_normalized_name(b@)[j],
        decreases NAME_LEN - i,
    {
        if i < b.len() {
            out.push(b[i]);
        } else {
            out.push(0x20);
        }
        i = i + 1;
    }
    proof {
        assert(out@ =~= spec_normalized_name(name.spec_bytes()));
    }
    out
}

/// The full cartridge image: an exclusively owned, resizable byte buffer.
#[derive(Debug, Default)]
pub struct Rom {
    pub rom: Vec<u8>,
}

impl Rom {
    /// Reads one byte, failing as a typed error instead of panicking when
    /// the offset is outside the buffer.
    pub fn read_u8(&self, offset: usize) -> (r: Result<u8, RomError>)
        ensures
            match r {
                Ok(b) => offset < self.rom@.len() && b == self.rom@[offset as int],
                Err(e) => offset >= self.rom@.len() && e == (RomError::OutOfBounds {
                    offset,
                }),
            },
    {
        if offset < self.rom.len() {
            Ok(self.rom[offset])
        } else {
            Err(RomError::OutOfBounds { offset })
        }
    }

    /// Reads a 16-bit little-endian word from two consecutive bytes.
    pub fn read_u16_le(&self, offset: usize) -> (r: Result<u16, RomError>)
        requires
            offset + 1 <= usize::MAX,
        ensures
            match r {
                Ok(w) => offset + 1 < self.rom@.len() && w == self.rom@[offset as int]
                    + self.rom@[offset as int + 1] * 0x100,
                Err(e) => offset + 1 >= self.rom@.len() && (e matches RomError::OutOfBounds {
                    ..
                }),
            },
    {
        if offset + 1 < self.rom.len() {
            let lo = self.rom[offset];
            let hi = self.rom[offset + 1];
            Ok(lo as u16 + hi as u16 * 0x100)
        } else {
            Err(RomError::OutOfBounds { offset })
        }
    }

    /// Writes one byte in place; the offset must already be inside the
    /// buffer.
    pub fn write_u8(&mut self, offset: usize, value: u8)
        requires
            offset < old(self).rom@.len(),
        ensures
            final(self).rom@ == old(self).rom@.update(offset as int, value),
    {
        self.rom[offset] = value;
    }

    /// Checks that a byte buffer is an acceptable cartridge image: size in
    /// the accepted range and the three signature bytes in place.
    pub fn check_image(bytes: &Vec<u8>) -> (r: Result<(), RomError>)
        ensures
            match r {
                Ok(()) => MIN_IMAGE_SIZE <= bytes@.len() < MAX_IMAGE_SIZE && bytes@[0] == 0x78
                    && bytes@[1] == 0x9C && bytes@[2] == 0x00,
                Err(e) => match e {
                    RomError::SizeOutOfRange { got } => got == bytes@.len() && !(MIN_IMAGE_SIZE
                        <= bytes@.len() < MAX_IMAGE_SIZE),
                    RomError::InvalidSignature => MIN_IMAGE_SIZE <= bytes@.len() < MAX_IMAGE_SIZE
                        && !(bytes@[0] == 0x78 && bytes@[1] == 0x9C && bytes@[2] == 0x00),
                    _ => false,
                },
            },
    {
        let n = bytes.len();
        if n < MIN_IMAGE_SIZE || n >= MAX_IMAGE_SIZE {
            return Err(RomError::SizeOutOfRange { got: n });
        }
        if bytes[0] == 0x78 && bytes[1] == 0x9C && bytes[2] == 0x00 {
            Ok(())
        } else {
            Err(RomError::InvalidSignature)
        }
    }
}

/// The fixed display names of all 52 arenas in flat canonical order.
pub open spec fn spec_arena_names() -> Seq<Seq<char>> {
    seq![
        "Arena 1"@,
        "Collect 10 keys!"@,
        "Collect powerups!"@,
        "Meet Mr. Shrapnel"@,
        "Bonus prizes!"@,
        "Eat my shrapnel"@,
        "Total carnage"@,
        "Crowd control"@,
        "Tank trouble"@,
        "Mutoid Man!"@,
        "Secret room #1!"@,
        "Orbs!"@,
        "Meet my twin"@,
        "Smash 'em"@,
        "Fire power is needed!"@,
        "Slaughter 'em"@,
        "Lazer death zone"@,
        "Meet Scarface!"@,
        "Rowdy droids"@,
        "Vacuum clean"@,
        "Secret room #2!"@,
        "Metal death"@,
        "Watch your step"@,
        "Film at 11"@,
        "Defend me"@,
        "Turtles nearby"@,
        "Chunks galore!"@,
        "These are fast!"@,
        "Buffalo herd nearby!"@,
        "No dice"@,
        "Temple alert"@,
        "Scorpion fever"@,
        "Cobra just ahead!"@,
        "Walls of pain"@,
        "Last arena?"@,
        "Cobra death!"@,
        "Turtles beware!"@,
        "Extra sauce action!"@,
        "Secret room #3!"@,
        "Secret rooms nearby!"@,
        "Enjoy my wealth"@,
        "No turtles allowed!"@,
        "Turtle chunks needed"@,
        "Dynamite cobra boss"@,
        "Use the buffalo gun"@,
        "Witness total carnage"@,
        "Secret rooms nearby!"@,
        "Almost enough keys"@,
        "You have enough keys!"@,
        "Eat my eyeballs!"@,
        "Pleasure dome!"@,
        "Not enough keys!"@,
    ]
}

/// The fixed display-name table of all 52 arenas in flat canonical order:
/// UI metadata, independent of the name records embedded in the image.
pub fn circuit_arena_name() -> (r: [&'static str; 52])
    ensures
        r@.len() == TOTAL_ARENAS,
        forall|i: int| 0 <= i < 52 ==> (#[trigger] r@[i])@ == spec_arena_names()[i],
{
    [
        "Arena 1",
        "Collect 10 keys!",
        "Collect powerups!",
        "Meet Mr. Shrapnel",
        "Bonus prizes!",
        "Eat my shrapnel",
        "Total carnage",
        "Crowd control",
        "Tank trouble",
        "Mutoid Man!",
        "Secret room #1!",
        "Orbs!",
        "Meet my twin",
        "Smash 'em",
        "Fire power is needed!",
        "Slaughter 'em",
        "Lazer death zone",
        "Meet Scarface!",
        "Rowdy droids",
        "Vacuum clean",
        "Secret room #2!",
        "Metal death",
        "Watch your step",
        "Film at 11",
        "Defend me",
        "Turtles nearby",
        "Chunks galore!",
        "These are fast!",
        "Buffalo herd nearby!",
        "No dice",
        "Temple alert",
        "Scorpion fever",
        "Cobra just ahead!",
        "Walls of pain",
        "Last arena?",
        "Cobra death!",
        "Turtles beware!",
        "Extra sauce action!",
        "Secret room #3!",
        "Secret rooms nearby!",
        "Enjoy my wealth",
        "No turtles allowed!",
        "Turtle chunks needed",
        "Dynamite cobra boss",
        "Use the buffalo gun",
        "Witness total carnage",
        "Secret rooms nearby!",
        "Almost enough keys",
        "You have enough keys!",
        "Eat my eyeballs!",
        "Pleasure dome!",
        "Not enough keys!",
    ]
}

} // verus!
