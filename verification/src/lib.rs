//! Reading the FLARE art format: animation, tileset, map, icon and engine
//! tileset definitions, with animation and tile-animation playback and map
//! collision queries. Only paths, source rectangles and offsets come out:
//! nothing is rendered or decoded here.

use vstd::prelude::*;

pub mod error;
pub mod text;
pub mod value;
pub mod parser;
pub mod animation;
pub mod map;
pub mod collision;
pub mod config;
pub mod coords;
pub mod icons;
pub mod movement;
pub mod parallax;
pub mod tileset;

pub use animation::{Animation, AnimationEvent, AnimationPlayer, AnimationSet, Frame, DIRECTIONS};
pub use collision::{CollisionMap, CollisionType, MovementType};
pub use config::TilesetConfig;
pub use error::FlareError;
pub use icons::{IconConfig, IconSet};
pub use map::{FlareMap, MapHeader, MapLayer, RawSection, RawSectionEntry, TilesetExportEntry};
pub use parallax::{ParallaxLayer, ParallaxLayers, SpeedKey};
pub use parser::{parse_str, Entry, FsResolver};
pub use tileset::{Tile, TileAnim, TileAnimFrame, TileAtlas, TileSet};
pub use value::{ActiveSubFrame, AnimationType, BlendMode, Color, Direction, Orientation, Point, Rect};

verus! {

} // verus!
