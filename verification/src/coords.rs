use vstd::prelude::*;

use crate::config::{half, TilesetConfig};
use crate::value::{Orientation, Point};

verus! {

/// The anchor of a tile drawn at `point`: orthogonal tiles move by half a tile
/// on both axes, isometric tiles by half a tile height downwards.
pub open spec fn spec_center_tile(point: Point, config: TilesetConfig) -> Point {
    match config.orientation {
        Orientation::Orthogonal => Point {
            x: (point.x + half(config.tile_width)) as i32,
            y: (point.y + half(config.tile_height)) as i32,
        },
        Orientation::Isometric => Point { x: point.x, y: (point.y + half(config.tile_height)) as i32 },
    }
}

/// Adjusts a tile anchor point to the centre of the tile.
pub fn center_tile(point: Point, config: &TilesetConfig) -> (r: Point)
    requires
        i32::MIN <= point.y + half(config.tile_height) <= i32::MAX,
        config.orientation == Orientation::Orthogonal ==> i32::MIN <= point.x + half(config.tile_width)
            <= i32::MAX,
    ensures
        r == spec_center_tile(point, *config),
{
    let mut p = point;
    match config.orientation {
        Orientation::Orthogonal => {
            p.x = p.x + config.tile_width_half();
            p.y = p.y + config.tile_height_half();
        },
        Orientation::Isometric => {
            p.y = p.y + config.tile_height_half();
        },
    }
    p
}

/// The centre of a tile lies half a tile height below its anchor, and, for
/// orthogonal tiles only, half a tile width to its right; halves round
/// toward zero, so twice the shift is the dimension or one less in size.
pub proof fn lemma_center_tile_shift(point: Point, config: TilesetConfig)
    requires
        i32::MIN <= point.y + half(config.tile_height) <= i32::MAX,
        i32::MIN <= point.x + half(config.tile_width) <= i32::MAX,
    ensures
        spec_center_tile(point, config).y - point.y == half(config.tile_height),
        config.orientation == Orientation::Orthogonal ==> spec_center_tile(point, config).x - point.x
            == half(config.tile_width),
        config.orientation == Orientation::Isometric ==> spec_center_tile(point, config).x == point.x,
        0 <= config.tile_height - 2 * half(config.tile_height) <= 1 || 0 <= 2 * half(config.tile_height)
            - config.tile_height <= 1,
        0 <= config.tile_width - 2 * half(config.tile_width) <= 1 || 0 <= 2 * half(config.tile_width)
            - config.tile_width <= 1,
{
}

} // verus!
