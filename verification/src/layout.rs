//! Where the tiles stand in the window, and in which colours they are drawn.
//! All lengths are in pixels.

use vstd::prelude::*;

use crate::board::GRID_SIZE;

verus! {

/// The side of a tile.
pub const TILE_SIZE: usize = 128;

/// The gap between two tiles, and between a tile and the edge of the window.
pub const TILE_PADDING: usize = 16;

/// The side of the window: four tiles and the five gaps around them.
pub const WINDOW_SIZE: usize = (TILE_SIZE * 4) + (TILE_PADDING * 5);

/// A colour, as its red, green and blue parts.
#[derive(Clone, Copy, Debug, PartialEq, Eq, Structural)]
pub struct Rgb {
    pub red: u8,
    pub green: u8,
    pub blue: u8,
}

/// The colour of the window behind the cells.
pub open spec fn window_color_spec() -> Rgb {
    Rgb { red: 0xBB, green: 0xAD, blue: 0xA0 }
}

/// The colour of an empty cell.
pub open spec fn empty_color_spec() -> Rgb {
    Rgb { red: 0xCD, green: 0xC0, blue: 0xB4 }
}

/// The colour of the tile of the value `value`, for the tiles up to 2048: no
/// other value has a colour.
pub open spec fn tile_color_spec(value: u64) -> Option<Rgb> {
    if value == 2 {
        Some(Rgb { red: 0xEE, green: 0xE4, blue: 0xDA })
    } else if value == 4 {
        Some(Rgb { red: 0xED, green: 0xE0, blue: 0xC8 })
    } else if value == 8 {
        Some(Rgb { red: 0xF2, green: 0xB1, blue: 0x79 })
    } else if value == 16 {
        Some(Rgb { red: 0xF5, green: 0x95, blue: 0x63 })
    } else if value == 32 {
        Some(Rgb { red: 0xF5, green: 0x7C, blue: 0x5F })
    } else if value == 64 {
        Some(Rgb { red: 0xF6, green: 0x5D, blue: 0x3B })
    } else if value == 128 {
        Some(Rgb { red: 0xEC, green: 0xCF, blue: 0x6D })
    } else if value == 256 {
        Some(Rgb { red: 0xED, green: 0xCC, blue: 0x63 })
    } else if value == 512 {
        Some(Rgb { red: 0xEC, green: 0xC8, blue: 0x50 })
    } else if value == 1024 {
        Some(Rgb { red: 0xED, green: 0xC4, blue: 0x3F })
    } else if value == 2048 {
        Some(Rgb { red: 0xEE, green: 0xC2, blue: 0x2E })
    } else {
        None
    }
}

/// The colour in which a cell of the value `value` is filled: that of the
/// empty cell for 0, and that of the tile otherwise, where it has one.
pub open spec fn cell_color_spec(value: u64) -> Option<Rgb> {
    if value == 0 {
        Some(empty_color_spec())
    } else {
        tile_color_spec(value)
    }
}

/// The colour of the number on a tile: dark on the two lightest tiles, light
/// on the others.
pub open spec fn text_color_spec(value: u64) -> Rgb {
    if value <= 4 {
        Rgb { red: 0x78, green: 0x6F, blue: 0x66 }
    } else {
        Rgb { red: 0xFD, green: 0xF3, blue: 0xF1 }
    }
}

/// The colour of the window behind the cells.
pub fn window_color() -> (color: Rgb)
    ensures
        color == window_color_spec(),
{
    Rgb { red: 0xBB, green: 0xAD, blue: 0xA0 }
}

/// The colour in which a cell of the value `value` is filled, if it has one.
pub fn cell_color(value: u64) -> (color: Option<Rgb>)
    ensures
        color == cell_color_spec(value),
{
    match value {
        0 => Some(Rgb { red: 0xCD, green: 0xC0, blue: 0xB4 }),
        2 => Some(Rgb { red: 0xEE, green: 0xE4, blue: 0xDA }),
        4 => Some(Rgb { red: 0xED, green: 0xE0, blue: 0xC8 }),
        8 => Some(Rgb { red: 0xF2, green: 0xB1, blue: 0x79 }),
        16 => Some(Rgb { red: 0xF5, green: 0x95, blue: 0x63 }),
        32 => Some(Rgb { red: 0xF5, green: 0x7C, blue: 0x5F }),
        64 => Some(Rgb { red: 0xF6, green: 0x5D, blue: 0x3B }),
        128 => Some(Rgb { red: 0xEC, green: 0xCF, blue: 0x6D }),
        256 => Some(Rgb { red: 0xED, green: 0xCC, blue: 0x63 }),
        512 => Some(Rgb { red: 0xEC, green: 0xC8, blue: 0x50 }),
        1024 => Some(Rgb { red: 0xED, green: 0xC4, blue: 0x3F }),
        2048 => Some(Rgb { red: 0xEE, green: 0xC2, blue: 0x2E }),
        _ => None,
    }
}

/// The colour of the number on a tile of the value `value`.
pub fn text_color(value: u64) -> (color: Rgb)
    ensures
        color == text_color_spec(value),
{
    if value <= 4 {
        Rgb { red: 0x78, green: 0x6F, blue: 0x66 }
    } else {
        Rgb { red: 0xFD, green: 0xF3, blue: 0xF1 }
    }
}

/// The corner of a cell in the window, for a pair of cell indices: each
/// index is a count of tiles and gaps before the cell, plus the gap at the
/// edge.
pub fn grid_to_real(pos: (usize, usize)) -> (corner: (usize, usize))
    requires
        pos.0 * (TILE_SIZE + TILE_PADDING) + TILE_PADDING <= usize::MAX,
        pos.1 * (TILE_SIZE + TILE_PADDING) + TILE_PADDING <= usize::MAX,
    ensures
        corner.0 == pos.0 * (TILE_SIZE + TILE_PADDING) + TILE_PADDING,
        corner.1 == pos.1 * (TILE_SIZE + TILE_PADDING) + TILE_PADDING,
        pos.0 < GRID_SIZE ==> corner.0 + TILE_SIZE + TILE_PADDING <= WINDOW_SIZE,
        pos.1 < GRID_SIZE ==> corner.1 + TILE_SIZE + TILE_PADDING <= WINDOW_SIZE,
{
    proof {
        let pitch = TILE_SIZE + TILE_PADDING;
        assert(pos.0 * pitch == pos.0 * 144 && pos.1 * pitch == pos.1 * 144);
    }
    (
        pos.0 * (TILE_SIZE + TILE_PADDING) + TILE_PADDING,
        pos.1 * (TILE_SIZE + TILE_PADDING) + TILE_PADDING,
    )
}

/// Where a text of the length `text_size` starts so that its middle is the
/// middle of the tile that starts at `tile_start`; both run along one axis.
pub fn centered_start(tile_start: usize, text_size: u32) -> (start: i32)
    requires
        tile_start + TILE_SIZE <= i32::MAX,
        text_size <= i32::MAX,
    ensures
        start == tile_start + TILE_SIZE / 2 - text_size / 2,
{
    tile_start as i32 + (TILE_SIZE as i32 / 2) - (text_size as i32 / 2)
}

} // verus!
