//! Plain records read from WAD lumps.
use vstd::prelude::*;
use crate::image::{le_i16, le_u16, read_i16_le, read_u16_le};
use crate::name::WadName;

verus! {

/// A map coordinate or height, in map units.
pub type WadCoord = i16;

/// The type number of a thing placed in a level.
pub type ThingType = u16;

/// The special action number of a linedef.
pub type SpecialType = u16;

/// The index of a sector in a level.
pub type SectorId = u16;

/// A point of a level's map.
#[derive(Clone, Copy, Debug, PartialEq, Eq, Structural)]
pub struct WadVertex {
    pub x: WadCoord,
    pub y: WadCoord,
}

/// The header of a composite wall texture.
pub struct WadTextureHeader {
    pub name: WadName,
    pub masked: u32,
    pub width: u16,
    pub height: u16,
    pub column_directory: u32,
    pub num_patches: u16,
}

/// A sector of a level: a region with a floor and a ceiling.
#[derive(Clone, Copy, Debug)]
pub struct WadSector {
    pub floor_height: WadCoord,
    pub ceiling_height: WadCoord,
    pub floor_texture: WadName,
    pub ceiling_texture: WadName,
    pub light: i16,
    pub sector_type: u16,
    pub tag: u16,
}

/// The floor and ceiling heights of the sectors next to a sector.
#[derive(Clone, Copy, Debug, PartialEq, Eq, Structural)]
pub struct NeighbourHeights {
    pub lowest_floor: WadCoord,
    pub highest_floor: WadCoord,
    pub next_floor: Option<WadCoord>,
    pub lowest_ceiling: WadCoord,
    pub highest_ceiling: WadCoord,
}

/// The number of bytes a thing takes in a THINGS lump.
pub const WAD_THING_SIZE: usize = 10;

/// A thing placed in a level: its position, the angle it faces in degrees, its type and
/// its flags.
#[derive(Clone, Copy, Debug, PartialEq, Eq, Structural)]
pub struct WadThing {
    pub x: WadCoord,
    pub y: WadCoord,
    pub angle: i16,
    pub thing_type: ThingType,
    pub flags: u16,
}

/// The thing stored at the start of `b`: five 16-bit little-endian fields, `x`, `y`,
/// `angle`, `thing_type`, `flags`, in that order.
pub open spec fn spec_thing_at(b: Seq<u8>) -> WadThing {
    WadThing {
        x: le_i16(b, 0) as i16,
        y: le_i16(b, 2) as i16,
        angle: le_i16(b, 4) as i16,
        thing_type: le_u16(b, 6) as u16,
        flags: le_u16(b, 8) as u16,
    }
}

impl WadThing {
    /// Reads a thing from the first ten bytes of `b`; bytes after them are not looked at.
    /// None when `b` is shorter than a thing.
    pub fn from_bytes(b: &[u8]) -> (r: Option<WadThing>)
        ensures
            r is None <==> b@.len() < WAD_THING_SIZE,
            r matches Some(t) ==> t == spec_thing_at(b@),
    {
        if b.len() < WAD_THING_SIZE {
            return None;
        }
        Some(
            WadThing {
                x: read_i16_le(b, 0),
                y: read_i16_le(b, 2),
                angle: read_i16_le(b, 4),
                thing_type: read_u16_le(b, 6),
                flags: read_u16_le(b, 8),
            },
        )
    }
}

} // verus!
