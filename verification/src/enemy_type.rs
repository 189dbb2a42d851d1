//! The closed enemy enumeration and its one-byte codec.
//!
//! The on-disk codes are `1..=18` and `20..=22`; code `19` is reserved and
//! is never produced nor accepted, so the mapping is an explicit table
//! rather than arithmetic.

use vstd::prelude::*;
use vstd::string::StringExecFns;

verus! {

/// One of the 21 enemy kinds a wave can spawn.
#[derive(Clone, Copy, Debug, PartialEq, Eq, Structural)]
pub enum EnemyType {
    Grunt,
    WallGunner,
    Worm,
    RedDroid,
    Snakes,
    CobraGrunt,
    LaserOrb,
    Tank,
    RedCluster,
    MrShrapnel,
    WormSegment,
    PurpleRedDroid,
    Droid,
    PurpleWorm,
    Mine,
    CobraDeath,
    MutoidMan,
    Scarface,
    Presents,
    QuestionMark,
    Babe,
}

/// The byte code an enemy kind is stored as.
pub open spec fn spec_to_u8(e: EnemyType) -> u8 {
    match e {
        EnemyType::Grunt => 1,
        EnemyType::WallGunner => 2,
        EnemyType::Worm => 3,
        EnemyType::RedDroid => 4,
        EnemyType::Snakes => 5,
        EnemyType::CobraGrunt => 6,
        EnemyType::LaserOrb => 7,
        EnemyType::Tank => 8,
        EnemyType::RedCluster => 9,
        EnemyType::MrShrapnel => 10,
        EnemyType::WormSegment => 11,
        EnemyType::PurpleRedDroid => 12,
        EnemyType::Droid => 13,
        EnemyType::PurpleWorm => 14,
        EnemyType::Mine => 15,
        EnemyType::CobraDeath => 16,
        EnemyType::MutoidMan => 17,
        EnemyType::Scarface => 18,
        EnemyType::Presents => 20,
        EnemyType::QuestionMark => 21,
        EnemyType::Babe => 22,
    }
}

/// The enemy kind a byte code decodes to, if any. Code `19` is reserved
/// and decodes to nothing, as does everything outside `1..=22`.
pub open spec fn spec_from_u8(val: u8) -> Option<EnemyType> {
    match val {
        1u8 => Some(EnemyType::Grunt),
        2u8 => Some(EnemyType::WallGunner),
        3u8 => Some(EnemyType::Worm),
        4u8 => Some(EnemyType::RedDroid),
        5u8 => Some(EnemyType::Snakes),
        6u8 => Some(EnemyType::CobraGrunt),
        7u8 => Some(EnemyType::LaserOrb),
        8u8 => Some(EnemyType::Tank),
        9u8 => Some(EnemyType::RedCluster),
        10u8 => Some(EnemyType::MrShrapnel),
        11u8 => Some(EnemyType::WormSegment),
        12u8 => Some(EnemyType::PurpleRedDroid),
        13u8 => Some(EnemyType::Droid),
        14u8 => Some(EnemyType::PurpleWorm),
        15u8 => Some(EnemyType::Mine),
        16u8 => Some(EnemyType::CobraDeath),
        17u8 => Some(EnemyType::MutoidMan),
        18u8 => Some(EnemyType::Scarface),
        20u8 => Some(EnemyType::Presents),
        21u8 => Some(EnemyType::QuestionMark),
        22u8 => Some(EnemyType::Babe),
        _ => None,
    }
}

/// The display name of an enemy kind.
pub open spec fn spec_name(e: EnemyType) -> Seq<char> {
    match e {
        EnemyType::Grunt => "Grunt"@,
        EnemyType::WallGunner => "Wall gunner"@,
        EnemyType::Worm => "Worm"@,
        EnemyType::RedDroid => "Red droid"@,
        EnemyType::Snakes => "Snakes"@,
        EnemyType::CobraGrunt => "Cobra grunt"@,
        EnemyType::LaserOrb => "Laser orb"@,
        EnemyType::Tank => "Tank"@,
        EnemyType::RedCluster => "Red cluster"@,
        EnemyType::MrShrapnel => "Mr Shrapnel"@,
        EnemyType::WormSegment => "Worm segment"@,
        EnemyType::PurpleRedDroid => "Purple / red droid"@,
        EnemyType::Droid => "Droid"@,
        EnemyType::PurpleWorm => "Purple worm"@,
        EnemyType::Mine => "Mine"@,
        EnemyType::CobraDeath => "Cobra Death"@,
        EnemyType::MutoidMan => "Mutoid Man"@,
        EnemyType::Scarface => "Scarface"@,
        EnemyType::Presents => "Presents"@,
        EnemyType::QuestionMark => "Question mark"@,
        EnemyType::Babe => "Babe"@,
    }
}

impl EnemyType {
    /// Every enemy kind, in byte-code order.
    pub fn enemy_list() -> (r: [Self; 21])
        ensures
            r@ =~= seq![
                Self::Grunt,
                Self::WallGunner,
                Self::Worm,
                Self::RedDroid,
                Self::Snakes,
                Self::CobraGrunt,
                Self::LaserOrb,
                Self::Tank,
                Self::RedCluster,
                Self::MrShrapnel,
                Self::WormSegment,
                Self::PurpleRedDroid,
                Self::Droid,
                Self::PurpleWorm,
                Self::Mine,
                Self::CobraDeath,
                Self::MutoidMan,
                Self::Scarface,
                Self::Presents,
                Self::QuestionMark,
                Self::Babe,
            ],
    {
        [
            Self::Grunt,
            Self::WallGunner,
            Self::Worm,
            Self::RedDroid,
            Self::Snakes,
            Self::CobraGrunt,
            Self::LaserOrb,
            Self::Tank,
            Self::RedCluster,
            Self::MrShrapnel,
            Self::WormSegment,
            Self::PurpleRedDroid,
            Self::Droid,
            Self::PurpleWorm,
            Self::Mine,
            Self::CobraDeath,
            Self::MutoidMan,
            Self::Scarface,
            Self::Presents,
            Self::QuestionMark,
            Self::Babe,
        ]
    }

    /// Decodes a stored byte; the reserved code `19` and every byte outside
    /// the table decode to nothing.
    pub fn from_u8(val: u8) -> (r: Option<Self>)
        ensures
            r == spec_from_u8(val),
    {
        match val {
            1 => Some(Self::Grunt),
            2 => Some(Self::WallGunner),
            3 => Some(Self::Worm),
            4 => Some(Self::RedDroid),
            5 => Some(Self::Snakes),
            6 => Some(Self::CobraGrunt),
            7 => Some(Self::LaserOrb),
            8 => Some(Self::Tank),
            9 => Some(Self::RedCluster),
            10 => Some(Self::MrShrapnel),
            11 => Some(Self::WormSegment),
            12 => Some(Self::PurpleRedDroid),
            13 => Some(Self::Droid),
            14 => Some(Self::PurpleWorm),
            15 => Some(Self::Mine),
            16 => Some(Self::CobraDeath),
            17 => Some(Self::MutoidMan),
            18 => Some(Self::Scarface),
            20 => Some(Self::Presents),
            21 => Some(Self::QuestionMark),
            22 => Some(Self::Babe),
            _ => None,
        }
    }

    /// Encodes an enemy kind as its stored byte.
    pub fn to_u8(&self) -> (r: u8)
        ensures
            r == spec_to_u8(*self),
    {
        match self {
            Self::Grunt => 1,
            Self::WallGunner => 2,
            Self::Worm => 3,
            Self::RedDroid => 4,
            Self::Snakes => 5,
            Self::CobraGrunt => 6,
            Self::LaserOrb => 7,
            Self::Tank => 8,
            Self::RedCluster => 9,
            Self::MrShrapnel => 10,
            Self::WormSegment => 11,
            Self::PurpleRedDroid => 12,
            Self::Droid => 13,
            Self::PurpleWorm => 14,
            Self::Mine => 15,
            Self::CobraDeath => 16,
            Self::MutoidMan => 17,
            Self::Scarface => 18,
            Self::Presents => 20,
            Self::QuestionMark => 21,
            Self::Babe => 22,
        }
    }

    /// The display name of this enemy kind.
    pub fn name(&self) -> (r: String)
        ensures
            r@ == spec_name(*self),
    {
        match self {
            Self::Grunt => String::from_str("Grunt"),
            Self::WallGunner => String::from_str("Wall gunner"),
            Self::Worm => String::from_str("Worm"),
            Self::RedDroid => String::from_str("Red droid"),
            Self::Snakes => String::from_str("Snakes"),
            Self::CobraGrunt => String::from_str("Cobra grunt"),
            Self::LaserOrb => String::from_str("Laser orb"),
            Self::Tank => String::from_str("Tank"),
            Self::RedCluster => String::from_str("Red cluster"),
            Self::MrShrapnel => String::from_str("Mr Shrapnel"),
            Self::WormSegment => String::from_str("Worm segment"),
            Self::PurpleRedDroid => String::from_str("Purple / red droid"),
            Self::Droid => String::from_str("Droid"),
            Self::PurpleWorm => String::from_str("Purple worm"),
            Self::Mine => String::from_str("Mine"),
            Self::CobraDeath => String::from_str("Cobra Death"),
            Self::MutoidMan => String::from_str("Mutoid Man"),
            Self::Scarface => String::from_str("Scarface"),
            Self::Presents => String::from_str("Presents"),
            Self::QuestionMark => String::from_str("Question mark"),
            Self::Babe => String::from_str("Babe"),
        }
    }
}

/// Decoding a stored code recovers exactly the enemy kind it encodes, and
/// the encoder never produces the reserved code `19`.
pub proof fn lemma_enemy_code_round_trip(e: EnemyType)
    ensures
        spec_from_u8(spec_to_u8(e)) == Some(e),
        spec_to_u8(e) != 19,
        1 <= spec_to_u8(e) <= 22,
{
}

/// The reserved code `19` and the out-of-table code `0` decode to nothing.
pub proof fn lemma_reserved_codes_rejected()
    ensures
        spec_from_u8(19) is None,
        spec_from_u8(0) is None,
{
}

} // verus!
