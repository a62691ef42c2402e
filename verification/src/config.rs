use vstd::prelude::*;

use crate::error::{view_result, ErrorV, FlareError};
use crate::parser::{entries_view, parse_str, spec_parse_str, Entry, EntryV};
use crate::text::{chars_of, eq_str, string_of};
use crate::value::{
    parse_orientation_chars, parse_point_chars, spec_parse_orientation, spec_parse_point,
    Orientation, Point, int_token, lemma_point_fields,
};

verus! {

/// Global tile geometry (`engine/tileset_config.txt`).
#[derive(Debug, Clone, PartialEq, Eq)]
pub struct TilesetConfig {
    pub orientation: Orientation,
    pub tile_width: i32,
    pub tile_height: i32,
}

/// The configuration when nothing is set: isometric 64 by 32 tiles.
pub open spec fn default_config() -> TilesetConfig {
    TilesetConfig { orientation: Orientation::Isometric, tile_width: 64, tile_height: 32 }
}

impl Default for TilesetConfig {
    fn default() -> (c: Self)
        ensures
            c == default_config(),
    {
        TilesetConfig { orientation: Orientation::Isometric, tile_width: 64, tile_height: 32 }
    }
}

/// The effect of one global key.
pub open spec fn spec_config_key(c: TilesetConfig, key: Seq<char>, value: Seq<char>) -> Result<
    TilesetConfig,
    ErrorV,
> {
    if key == "orientation"@ {
        match spec_parse_orientation(value) {
            Ok(o) => Ok(TilesetConfig { orientation: o, ..c }),
            Err(e) => Err(e),
        }
    } else if key == "tile_size"@ {
        match spec_parse_point(value) {
            Ok(p) => Ok(TilesetConfig { tile_width: p.x, tile_height: p.y, ..c }),
            Err(e) => Err(e),
        }
    } else {
        Ok(c)
    }
}

/// The configuration after the global keys of `entries`, in order.
pub open spec fn spec_config_fold(entries: Seq<EntryV>) -> Result<TilesetConfig, ErrorV>
    decreases entries.len(),
{
    if entries.len() == 0 {
        Ok(default_config())
    } else {
        match spec_config_fold(entries.drop_last()) {
            Err(e) => Err(e),
            Ok(c) => {
                let e = entries.last();
                if e.section.len() != 0 {
                    Ok(c)
                } else {
                    spec_config_key(c, e.key, e.value)
                }
            },
        }
    }
}

/// The result of `TilesetConfig::from_entries`: both tile dimensions must be positive.
pub open spec fn spec_config(entries: Seq<EntryV>) -> Result<TilesetConfig, ErrorV> {
    match spec_config_fold(entries) {
        Err(e) => Err(e),
        Ok(c) => if c.tile_width <= 0 || c.tile_height <= 0 {
            Err(ErrorV::Other("tile_size width and height must be greater than 0"@))
        } else {
            Ok(c)
        },
    }
}

proof fn lemma_config_fold_error(entries: Seq<EntryV>, k: int)
    requires
        0 <= k <= entries.len(),
        spec_config_fold(entries.take(k)) is Err,
    ensures
        spec_config_fold(entries) == spec_config_fold(entries.take(k)),
    decreases entries.len() - k,
{
    if k < entries.len() {
        assert(entries.drop_last().take(k) =~= entries.take(k));
        lemma_config_fold_error(entries.drop_last(), k);
    } else {
        assert(entries.take(k) =~= entries);
    }
}

impl View for TilesetConfig {
    type V = TilesetConfig;

    open spec fn view(&self) -> TilesetConfig {
        *self
    }
}

/// Half a tile dimension, rounded toward zero.
pub open spec fn half(v: i32) -> int {
    if v >= 0 {
        v / 2
    } else {
        -((-v) / 2)
    }
}

impl TilesetConfig {
    /// Reads the global `orientation` and `tile_size` keys.
    pub fn from_entries(entries: &[Entry]) -> (r: Result<Self, FlareError>)
        ensures
            view_result(r) == spec_config(entries_view(entries@)),
    {
        let ghost ev = entries_view(entries@);
        let mut config = TilesetConfig::default();
        let mut i: usize = 0;
        assert(ev.take(0) =~= Seq::<EntryV>::empty());
        while i < entries.len()
            invariant
                i <= entries.len(),
                ev == entries_view(entries@),
                spec_config_fold(ev.take(i as int)) == Ok::<TilesetConfig, ErrorV>(config),
            decreases entries.len() - i,
        {
            let e = &entries[i];
            proof {
                assert(ev.take(i + 1).drop_last() =~= ev.take(i as int));
                assert(ev.take(i + 1).last() == e@);
            }
            if e.section.as_str().is_empty() {
                let key = chars_of(e.key.as_str());
                let value = chars_of(e.value.as_str());
                if eq_str(&key, "orientation") {
                    match parse_orientation_chars(&value) {
                        Ok(o) => config.orientation = o,
                        Err(x) => {
                            proof {
                                lemma_config_fold_error(ev, i + 1);
                            }
                            return Err(x);
                        },
                    }
                } else if eq_str(&key, "tile_size") {
                    match parse_point_chars(&value) {
                        Ok(p) => {
                            config.tile_width = p.x;
                            config.tile_height = p.y;
                        },
                        Err(x) => {
                            proof {
                                lemma_config_fold_error(ev, i + 1);
                            }
                            return Err(x);
                        },
                    }
                }
            }
            i += 1;
        }
        assert(ev.take(entries.len() as int) =~= ev);
        if config.tile_width <= 0 || config.tile_height <= 0 {
            return Err(
                FlareError::Other(
                    string_of(&chars_of("tile_size width and height must be greater than 0")),
                ),
            );
        }
        Ok(config)
    }

    /// Reads `engine/tileset_config.txt` from its text.
    pub fn parse_str(content: &str) -> (r: Result<Self, FlareError>)
        ensures
            view_result(r) == match spec_parse_str(content@, "engine/tileset_config.txt"@) {
                Err(e) => Err(e),
                Ok(es) => spec_config(es),
            },
    {
        match parse_str(content, "engine/tileset_config.txt") {
            Ok(es) => Self::from_entries(es.as_slice()),
            Err(e) => Err(e),
        }
    }

    /// Half the tile width, rounded toward zero.
    pub fn tile_width_half(&self) -> (r: i32)
        ensures
            r == half(self.tile_width),
    {
        if self.tile_width >= 0 {
            self.tile_width / 2
        } else {
            0 - ((0 - (self.tile_width as i64)) / 2) as i32
        }
    }

    /// Half the tile height, rounded toward zero.
    pub fn tile_height_half(&self) -> (r: i32)
        ensures
            r == half(self.tile_height),
    {
        if self.tile_height >= 0 {
            self.tile_height / 2
        } else {
            0 - ((0 - (self.tile_height as i64)) / 2) as i32
        }
    }
}

} // verus!

verus! {

/// A configuration that has been read has positive tile dimensions; a file
/// without entries gives the default configuration.
pub proof fn lemma_read_config_positive(entries: Seq<EntryV>)
    ensures
        spec_config(entries) matches Ok(c) ==> c.tile_width > 0 && c.tile_height > 0,
        entries.len() == 0 ==> spec_config(entries) == Ok::<TilesetConfig, ErrorV>(default_config()),
{
}

} // verus!

verus! {

/// The value of the last entry of the empty section with key `key`.
pub open spec fn last_global(entries: Seq<EntryV>, key: Seq<char>) -> Option<Seq<char>>
    decreases entries.len(),
{
    if entries.len() == 0 {
        None
    } else if entries.last().section.len() == 0 && entries.last().key == key {
        Some(entries.last().value)
    } else {
        last_global(entries.drop_last(), key)
    }
}

/// Whether every `orientation` value of the empty section names an
/// orientation and every `tile_size` value is a point.
pub open spec fn config_values_read(entries: Seq<EntryV>) -> bool
    decreases entries.len(),
{
    if entries.len() == 0 {
        true
    } else {
        let e = entries.last();
        &&& config_values_read(entries.drop_last())
        &&& e.section.len() == 0 && e.key == "orientation"@ ==> spec_parse_orientation(e.value) is Ok
        &&& e.section.len() == 0 && e.key == "tile_size"@ ==> spec_parse_point(e.value) is Ok
    }
}

/// The orientation named last, or isometric.
pub open spec fn last_orientation(entries: Seq<EntryV>) -> Orientation {
    match last_global(entries, "orientation"@) {
        Some(v) => spec_parse_orientation(v)->Ok_0,
        None => Orientation::Isometric,
    }
}

/// The tile size given last, or 64 by 32.
pub open spec fn last_tile_size(entries: Seq<EntryV>) -> Point {
    match last_global(entries, "tile_size"@) {
        Some(v) => spec_parse_point(v)->Ok_0,
        None => Point { x: 64, y: 32 },
    }
}

proof fn lemma_config_fold_last(entries: Seq<EntryV>)
    ensures
        config_values_read(entries) ==> spec_config_fold(entries) == Ok::<TilesetConfig, ErrorV>(
            TilesetConfig {
                orientation: last_orientation(entries),
                tile_width: last_tile_size(entries).x,
                tile_height: last_tile_size(entries).y,
            },
        ),
        !config_values_read(entries) ==> spec_config_fold(entries) is Err,
    decreases entries.len(),
{
    reveal_strlit("orientation");
    reveal_strlit("tile_size");
    if entries.len() > 0 {
        lemma_config_fold_last(entries.drop_last());
        assert("orientation"@ != "tile_size"@) by {
            assert("orientation"@[0] != "tile_size"@[0]);
        }
    }
}

/// The configuration is made of the last `orientation` and `tile_size`
/// entries of the empty section (isometric and 64 by 32 where there are
/// none); it is read exactly when every such value reads and both tile
/// dimensions are positive.
pub proof fn lemma_config_from_last_entries(entries: Seq<EntryV>)
    ensures
        config_values_read(entries) && last_tile_size(entries).x > 0 && last_tile_size(entries).y > 0
            ==> spec_config(entries) == Ok::<TilesetConfig, ErrorV>(
            TilesetConfig {
                orientation: last_orientation(entries),
                tile_width: last_tile_size(entries).x,
                tile_height: last_tile_size(entries).y,
            },
        ),
        !(config_values_read(entries) && last_tile_size(entries).x > 0 && last_tile_size(entries).y
            > 0) ==> spec_config(entries) is Err,
{
    lemma_config_fold_last(entries);
}

/// `tile_size=w,h` sets the tile width from its first token and the tile
/// height from its second, and keeps the orientation.
pub proof fn lemma_tile_size_key(c: TilesetConfig, value: Seq<char>, w: i32, h: i32)
    requires
        int_token(value, 0) == Some(w),
        int_token(value, 1) == Some(h),
    ensures
        spec_config_key(c, "tile_size"@, value) == Ok::<TilesetConfig, ErrorV>(
            TilesetConfig { orientation: c.orientation, tile_width: w, tile_height: h },
        ),
{
    lemma_point_fields(value, w, h);
    reveal_strlit("orientation");
    reveal_strlit("tile_size");
    assert("orientation"@.len() != "tile_size"@.len());
}

} // verus!
