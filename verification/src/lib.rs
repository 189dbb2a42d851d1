//! Level-data engine for a bank-switched 16-bit cartridge ROM image.
//!
//! The crate translates console bank-switched addresses into linear file
//! offsets, walks the ROM's pointer-table layout to locate per-arena
//! records, decodes those records into structured values, and serializes
//! edited records back into a relocated data block.

pub mod addr;
pub mod enemy_type;
pub mod error;
pub mod layout;
pub mod reader;
pub mod rom;
pub mod writer;
