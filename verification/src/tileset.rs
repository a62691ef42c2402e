use vstd::prelude::*;

use std::collections::HashMap;

use crate::error::{ErrorV, FlareError};
use crate::parser::{entries_view, parse_str, spec_parse_str, Entry, EntryV};
use crate::text::{chars_of, eq_str, pop_token, spec_pop_token, string_of};
use crate::value::{
    parse_duration_ms_chars, parse_int_chars, parse_point_chars, spec_parse_duration_ms,
    spec_parse_int, spec_parse_point, spec_take_int, take_int_msg, Point, Rect, int_token,
    lemma_take_int_token, rest_after, token_at, lemma_pop_token_at, lemma_token_after,
};

verus! {

broadcast use vstd::std_specs::hash::group_hash_axioms;

/// One frame of an animated tile: the clip origin and how long it shows.
#[derive(Debug, Clone, Copy, PartialEq, Eq)]
pub struct TileAnimFrame {
    pub x: i32,
    pub y: i32,
    pub duration_ms: u32,
}

/// The frames of an animated tile.
#[derive(Debug, Clone, PartialEq, Eq)]
pub struct TileAnim {
    pub frames: Vec<TileAnimFrame>,
}

/// One tile: its atlas, clip and anchor offset.
#[derive(Debug, Clone, Copy, PartialEq, Eq)]
pub struct Tile {
    pub atlas_index: usize,
    pub src: Rect,
    pub offset: Point,
}

/// One atlas image of a tileset.
#[derive(Debug, Clone, PartialEq, Eq)]
pub struct TileAtlas {
    pub path: String,
}

/// Playback position of one animated tile.
#[derive(Debug, Clone)]
pub struct TileAnimState {
    pub anim: TileAnim,
    pub current_frame: usize,
}

/// A tileset: atlases, tiles by id, animated tiles by id, and the playback
/// position of each animated tile that has been played.
#[derive(Debug, Clone)]
pub struct TileSet {
    pub atlases: Vec<TileAtlas>,
    pub tiles: HashMap<u32, Tile>,
    pub animations: HashMap<u32, TileAnim>,
    anim_states: HashMap<u32, TileAnimState>,
}

/// Mathematical model of the definitions of a [`TileSet`].
pub struct TileSetV {
    pub atlases: Seq<Seq<char>>,
    pub tiles: Map<u32, Tile>,
    pub animations: Map<u32, Seq<TileAnimFrame>>,
}

/// The models of animations by id.
pub open spec fn anims_view(m: Map<u32, TileAnim>) -> Map<u32, Seq<TileAnimFrame>> {
    m.map_values(|a: TileAnim| a.frames@)
}

impl View for TileSet {
    type V = TileSetV;

    closed spec fn view(&self) -> TileSetV {
        TileSetV {
            atlases: self.atlases@.map_values(|a: TileAtlas| a.path@),
            tiles: self.tiles@,
            animations: anims_view(self.animations@),
        }
    }
}

/// The playback positions: for each played tile, its frames and current frame.
pub open spec fn states_view(m: Map<u32, TileAnimState>) -> Map<u32, (Seq<TileAnimFrame>, usize)> {
    m.map_values(|s: TileAnimState| (s.anim.frames@, s.current_frame))
}

/// Each playback position lies on a frame of its animation.
pub open spec fn states_wf(m: Map<u32, (Seq<TileAnimFrame>, usize)>) -> bool {
    forall|id: u32|
        #[trigger] m.contains_key(id) ==> m[id].0.len() == 0 || m[id].1 < m[id].0.len()
}

impl TileSet {
    /// The playback positions of the animated tiles played so far.
    pub closed spec fn playback(&self) -> Map<u32, (Seq<TileAnimFrame>, usize)> {
        states_view(self.anim_states@)
    }
}

/// The state of reading a tileset: its definitions and the current atlas.
pub struct TileParseV {
    pub set: TileSetV,
    pub current: int,
}

/// A `tile=` value: `index, x, y, w, h, offset_x, offset_y`. Index 0 (empty)
/// defines nothing.
pub open spec fn spec_tile_line(value: Seq<char>) -> Result<Option<(u32, Rect, Point)>, ErrorV> {
    match spec_take_int(value, ErrorV::Other("tile line missing index"@)) {
        Err(e) => Err(e),
        Ok((idx, r1)) => if idx as u32 == 0 {
            Ok(None)
        } else {
            match spec_take_int(r1, ErrorV::Other("tile line missing x"@)) {
                Err(e) => Err(e),
                Ok((x, r2)) => match spec_take_int(r2, ErrorV::Other("tile line missing y"@)) {
                    Err(e) => Err(e),
                    Ok((y, r3)) => match spec_take_int(r3, ErrorV::Other("tile line missing width"@)) {
                        Err(e) => Err(e),
                        Ok((w, r4)) => match spec_take_int(
                            r4,
                            ErrorV::Other("tile line missing height"@),
                        ) {
                            Err(e) => Err(e),
                            Ok((h, r5)) => match spec_parse_point(r5) {
                                Err(e) => Err(e),
                                Ok(offset) => Ok(Some((idx as u32, Rect { x, y, w, h }, offset))),
                            },
                        },
                    },
                },
            }
        },
    }
}

/// `;` read as `,`: frame tuples may be separated by either.
pub open spec fn normalize_separators(v: Seq<char>) -> Seq<char> {
    v.map_values(|c: char| if c == ';' { ',' } else { c })
}

/// The frames `x, y, duration, ...` of an `animation=` value after its index.
pub open spec fn spec_anim_frames(v: Seq<char>) -> Result<Seq<TileAnimFrame>, ErrorV>
    decreases v.len(),
{
    match spec_pop_token(v).0 {
        None => Ok(Seq::empty()),
        Some(xs) => {
            let r1 = spec_pop_token(v).1;
            proof {
                crate::text::lemma_pop_token_shrinks(v);
                crate::text::lemma_pop_token_shrinks(r1);
            }
            match spec_take_int(r1, ErrorV::Other("animation frame missing y"@)) {
                Err(e) => Err(e),
                Ok((y, r2)) => {
                    proof {
                        crate::text::lemma_pop_token_shrinks(r2);
                    }
                    match spec_pop_token(r2).0 {
                        None => Err(ErrorV::Other("animation frame missing duration"@)),
                        Some(ds) => match spec_parse_duration_ms(ds) {
                            Err(e) => Err(e),
                            Ok(d) => match spec_parse_int(xs) {
                                Err(e) => Err(e),
                                Ok(x) => match spec_anim_frames(spec_pop_token(r2).1) {
                                    Err(e) => Err(e),
                                    Ok(rest) => Ok(
                                        seq![TileAnimFrame { x, y, duration_ms: d }] + rest,
                                    ),
                                },
                            },
                        },
                    }
                },
            }
        },
    }
}

/// An `animation=` value: `index, x1, y1, duration1, ...`.
pub open spec fn spec_anim_line(value: Seq<char>) -> Result<(u32, Seq<TileAnimFrame>), ErrorV> {
    match spec_take_int(normalize_separators(value), ErrorV::Other("animation line missing index"@)) {
        Err(e) => Err(e),
        Ok((idx, r1)) => match spec_anim_frames(r1) {
            Err(e) => Err(e),
            Ok(frames) => Ok((idx as u32, frames)),
        },
    }
}

/// Reads one entry of a tileset file.
///
/// A `[tileset]` header opens a new atlas; any other entry first makes sure
/// there is an atlas. `img` names the current atlas's image, `tile` defines a
/// tile on the current atlas, `animation` an animated tile.
pub open spec fn spec_tile_step(p: TileParseV, e: EntryV) -> Result<TileParseV, ErrorV> {
    if e.new_section && e.section == "tileset"@ {
        Ok(
            TileParseV {
                set: TileSetV { atlases: p.set.atlases.push(Seq::empty()), ..p.set },
                current: p.set.atlases.len() as int,
            },
        )
    } else {
        let p1 = if p.set.atlases.len() == 0 {
            TileParseV { set: TileSetV { atlases: seq![Seq::<char>::empty()], ..p.set }, ..p }
        } else {
            p
        };
        if e.key == "img"@ {
            Ok(
                TileParseV {
                    set: TileSetV { atlases: p1.set.atlases.update(p1.current, e.value), ..p1.set },
                    ..p1
                },
            )
        } else if e.key == "tile"@ {
            match spec_tile_line(e.value) {
                Err(x) => Err(x),
                Ok(None) => Ok(p1),
                Ok(Some((id, src, offset))) => Ok(
                    TileParseV {
                        set: TileSetV {
                            tiles: p1.set.tiles.insert(
                                id,
                                Tile { atlas_index: p1.current as usize, src, offset },
                            ),
                            ..p1.set
                        },
                        ..p1
                    },
                ),
            }
        } else if e.key == "animation"@ {
            match spec_anim_line(e.value) {
                Err(x) => Err(x),
                Ok((id, frames)) => Ok(
                    TileParseV {
                        set: TileSetV { animations: p1.set.animations.insert(id, frames), ..p1.set },
                        ..p1
                    },
                ),
            }
        } else {
            Ok(p1)
        }
    }
}

/// The state after reading `entries` in order.
pub open spec fn spec_tile_fold(entries: Seq<EntryV>) -> Result<TileParseV, ErrorV>
    decreases entries.len(),
{
    if entries.len() == 0 {
        Ok(
            TileParseV {
                set: TileSetV { atlases: Seq::empty(), tiles: Map::empty(), animations: Map::empty() },
                current: 0,
            },
        )
    } else {
        match spec_tile_fold(entries.drop_last()) {
            Err(e) => Err(e),
            Ok(p) => spec_tile_step(p, entries.last()),
        }
    }
}

/// The result of `TileSet::from_entries`: the definitions of the entries.
pub open spec fn spec_tileset(entries: Seq<EntryV>) -> Result<TileSetV, ErrorV> {
    match spec_tile_fold(entries) {
        Err(e) => Err(e),
        Ok(p) => Ok(p.set),
    }
}

/// Every tile has a nonzero id (0 means no tile) and lies on an atlas of
/// the set.
pub open spec fn tiles_wf(set: TileSetV) -> bool {
    &&& !set.tiles.contains_key(0)
    &&& forall|id: u32| #[trigger]
        set.tiles.contains_key(id) ==> set.tiles[id].atlas_index < set.atlases.len()
}

/// The model of a tileset or an error.
pub open spec fn tileset_result(r: Result<TileSet, FlareError>) -> Result<TileSetV, ErrorV> {
    match r {
        Ok(t) => Ok(t@),
        Err(e) => Err(e@),
    }
}

proof fn lemma_tile_fold_error(entries: Seq<EntryV>, k: int)
    requires
        0 <= k <= entries.len(),
        spec_tile_fold(entries.take(k)) is Err,
    ensures
        spec_tile_fold(entries) == spec_tile_fold(entries.take(k)),
    decreases entries.len() - k,
{
    if k < entries.len() {
        assert(entries.drop_last().take(k) =~= entries.take(k));
        lemma_tile_fold_error(entries.drop_last(), k);
    } else {
        assert(entries.take(k) =~= entries);
    }
}

fn tile_line(value: &[char]) -> (r: Result<Option<(u32, Rect, Point)>, FlareError>)
    ensures
        match r {
            Ok(t) => spec_tile_line(value@) == Ok::<Option<(u32, Rect, Point)>, ErrorV>(t),
            Err(e) => spec_tile_line(value@) == Err::<Option<(u32, Rect, Point)>, ErrorV>(e@),
        },
{
    let (idx, r1) = match take_int_msg(value, "tile line missing index") {
        Ok(p) => p,
        Err(e) => return Err(e),
    };
    if idx as u32 == 0 {
        return Ok(None);
    }
    let (x, r2) = match take_int_msg(r1, "tile line missing x") {
        Ok(p) => p,
        Err(e) => return Err(e),
    };
    let (y, r3) = match take_int_msg(r2, "tile line missing y") {
        Ok(p) => p,
        Err(e) => return Err(e),
    };
    let (w, r4) = match take_int_msg(r3, "tile line missing width") {
        Ok(p) => p,
        Err(e) => return Err(e),
    };
    let (h, r5) = match take_int_msg(r4, "tile line missing height") {
        Ok(p) => p,
        Err(e) => return Err(e),
    };
    match parse_point_chars(r5) {
        Ok(offset) => Ok(Some((idx as u32, Rect { x, y, w, h }, offset))),
        Err(e) => Err(e),
    }
}

fn normalize_separators_exec(v: &[char]) -> (r: Vec<char>)
    ensures
        r@ == normalize_separators(v@),
{
    let mut out: Vec<char> = Vec::new();
    let mut i: usize = 0;
    while i < v.len()
        invariant
            i <= v.len(),
            out@ == normalize_separators(v@.take(i as int)),
        decreases v.len() - i,
    {
        let c = v[i];
        out.push(if c == ';' { ',' } else { c });
        i += 1;
        assert(normalize_separators(v@.take(i as int)) =~= normalize_separators(v@.take(i - 1)).push(
            if c == ';' { ',' } else { c },
        ));
    }
    assert(v@.take(v.len() as int) =~= v@);
    out
}

fn anim_frames(v: &[char]) -> (r: Result<Vec<TileAnimFrame>, FlareError>)
    ensures
        match r {
            Ok(fs) => spec_anim_frames(v@) == Ok::<Seq<TileAnimFrame>, ErrorV>(fs@),
            Err(e) => spec_anim_frames(v@) == Err::<Seq<TileAnimFrame>, ErrorV>(e@),
        },
{
    let mut out: Vec<TileAnimFrame> = Vec::new();
    let mut rest = v;
    loop
        invariant
            match spec_anim_frames(v@) {
                Ok(all) => match spec_anim_frames(rest@) {
                    Ok(tail) => all == out@ + tail,
                    Err(_) => false,
                },
                Err(e) => spec_anim_frames(rest@) == Err::<Seq<TileAnimFrame>, ErrorV>(e),
            },
        decreases rest@.len(),
    {
        proof {
            crate::text::lemma_pop_token_shrinks(rest@);
        }
        let (xs, r1) = pop_token(rest);
        let xs = match xs {
            None => {
                assert(out@ + Seq::<TileAnimFrame>::empty() =~= out@);
                return Ok(out);
            },
            Some(xs) => xs,
        };
        proof {
            crate::text::lemma_pop_token_shrinks(r1@);
        }
        let (y, r2) = match take_int_msg(r1, "animation frame missing y") {
            Ok(p) => p,
            Err(e) => return Err(e),
        };
        proof {
            crate::text::lemma_pop_token_shrinks(r2@);
        }
        let (ds, r3) = pop_token(r2);
        let ds = match ds {
            None => {
                return Err(
                    FlareError::Other(string_of(&chars_of("animation frame missing duration"))),
                )
            },
            Some(ds) => ds,
        };
        let d = match parse_duration_ms_chars(&ds) {
            Ok(d) => d,
            Err(e) => return Err(e),
        };
        let x = match parse_int_chars(&xs) {
            Ok(x) => x,
            Err(e) => return Err(e),
        };
        let f = TileAnimFrame { x, y, duration_ms: d };
        proof {
            if let Ok(all) = spec_anim_frames(v@) {
                let tail = spec_anim_frames(r3@)->Ok_0;
                assert(all == out@ + (seq![f] + tail));
                assert(out@.push(f) + tail =~= out@ + (seq![f] + tail));
            }
        }
        out.push(f);
        rest = r3;
    }
}

fn anim_line(value: &[char]) -> (r: Result<(u32, Vec<TileAnimFrame>), FlareError>)
    ensures
        match r {
            Ok((id, fs)) => spec_anim_line(value@) == Ok::<(u32, Seq<TileAnimFrame>), ErrorV>(
                (id, fs@),
            ),
            Err(e) => spec_anim_line(value@) == Err::<(u32, Seq<TileAnimFrame>), ErrorV>(e@),
        },
{
    let normalized = normalize_separators_exec(value);
    let (idx, r1) = match take_int_msg(&normalized, "animation line missing index") {
        Ok(p) => p,
        Err(e) => return Err(e),
    };
    match anim_frames(r1) {
        Ok(fs) => Ok((idx as u32, fs)),
        Err(e) => Err(e),
    }
}

impl TileSet {
    /// Reads the definitions of a tileset file.
    pub fn from_entries(entries: &[Entry]) -> (r: Result<Self, FlareError>)
        ensures
            tileset_result(r) == spec_tileset(entries_view(entries@)),
            r matches Ok(t) ==> t.playback() == Map::<u32, (Seq<TileAnimFrame>, usize)>::empty(),
            r matches Ok(t) ==> tiles_wf(t@),
    {
        let ghost ev = entries_view(entries@);
        let mut set = TileSet {
            atlases: Vec::new(),
            tiles: HashMap::new(),
            animations: HashMap::new(),
            anim_states: HashMap::new(),
        };
        let mut current: usize = 0;
        assert(ev.take(0) =~= Seq::<EntryV>::empty());
        assert(set@.atlases =~= Seq::<Seq<char>>::empty());
        assert(set@.animations =~= Map::<u32, Seq<TileAnimFrame>>::empty());
        let mut i: usize = 0;
        while i < entries.len()
            invariant
                i <= entries.len(),
                ev == entries_view(entries@),
                set.atlases.len() > 0 ==> current < set.atlases.len(),
                set.atlases.len() == 0 ==> current == 0,
                set.anim_states@ == Map::<u32, TileAnimState>::empty(),
                tiles_wf(set@),
                spec_tile_fold(ev.take(i as int)) == Ok::<TileParseV, ErrorV>(
                    TileParseV { set: set@, current: current as int },
                ),
            decreases entries.len() - i,
        {
            let e = &entries[i];
            proof {
                assert(ev.take(i + 1).drop_last() =~= ev.take(i as int));
                assert(ev.take(i + 1).last() == e@);
            }
            if e.new_section && eq_str(&chars_of(e.section.as_str()), "tileset") {
                let ghost before = set@;
                set.atlases.push(TileAtlas { path: String::new() });
                assert(set@.atlases =~= before.atlases.push(Seq::empty()));
                current = set.atlases.len() - 1;
            } else {
                if set.atlases.len() == 0 {
                    set.atlases.push(TileAtlas { path: String::new() });
                    assert(set@.atlases =~= seq![Seq::<char>::empty()]);
                }
                let key = chars_of(e.key.as_str());
                let value = chars_of(e.value.as_str());
                if eq_str(&key, "img") {
                    let ghost before = set@;
                    set.atlases.set(current, TileAtlas { path: e.value.clone() });
                    assert(set@.atlases =~= before.atlases.update(current as int, e.value@));
                } else if eq_str(&key, "tile") {
                    match tile_line(&value) {
                        Err(x) => {
                            proof {
                                lemma_tile_fold_error(ev, i + 1);
                            }
                            return Err(x);
                        },
                        Ok(None) => {},
                        Ok(Some((id, src, offset))) => {
                            set.tiles.insert(id, Tile { atlas_index: current, src, offset });
                        },
                    }
                } else if eq_str(&key, "animation") {
                    match anim_line(&value) {
                        Err(x) => {
                            proof {
                                lemma_tile_fold_error(ev, i + 1);
                            }
                            return Err(x);
                        },
                        Ok((id, frames)) => {
                            let ghost before = set@;
                            let ghost fv = frames@;
                            set.animations.insert(id, TileAnim { frames });
                            assert(set@.animations =~= before.animations.insert(id, fv));
                        },
                    }
                }
            }
            i += 1;
        }
        assert(ev.take(entries.len() as int) =~= ev);
        assert(set.playback() =~= Map::<u32, (Seq<TileAnimFrame>, usize)>::empty());
        Ok(set)
    }

    /// Reads a tileset definition from its text.
    pub fn parse_str(content: &str) -> (r: Result<Self, FlareError>)
        ensures
            tileset_result(r) == match spec_parse_str(content@, "tileset.txt"@) {
                Err(e) => Err(e),
                Ok(es) => spec_tileset(es),
            },
            r matches Ok(t) ==> t.playback() == Map::<u32, (Seq<TileAnimFrame>, usize)>::empty(),
            r matches Ok(t) ==> tiles_wf(t@),
    {
        match parse_str(content, "tileset.txt") {
            Ok(es) => Self::from_entries(es.as_slice()),
            Err(e) => Err(e),
        }
    }
}

} // verus!

verus! {

/// The clip of tile `id` as currently shown: an animated tile that is being
/// played shows its current frame's origin with the tile's size.
pub open spec fn spec_current_src(
    set: TileSetV,
    playback: Map<u32, (Seq<TileAnimFrame>, usize)>,
    id: u32,
) -> Option<Rect> {
    if !set.tiles.contains_key(id) {
        None
    } else {
        let t = set.tiles[id];
        if playback.contains_key(id) && playback[id].1 < playback[id].0.len() {
            let f = playback[id].0[playback[id].1 as int];
            Some(Rect { x: f.x, y: f.y, w: t.src.w, h: t.src.h })
        } else {
            Some(t.src)
        }
    }
}

/// The playback positions once tile `id` is being played: an animated tile
/// played for the first time starts on frame 0 of its current frames.
pub open spec fn playback_started(
    set: TileSetV,
    playback: Map<u32, (Seq<TileAnimFrame>, usize)>,
    id: u32,
) -> Map<u32, (Seq<TileAnimFrame>, usize)> {
    if playback.contains_key(id) || !set.animations.contains_key(id) {
        playback
    } else {
        playback.insert(id, (set.animations[id], 0usize))
    }
}

/// How long the current frame of a played tile shows, if it has frames.
pub open spec fn current_duration(playback: Map<u32, (Seq<TileAnimFrame>, usize)>, id: u32) -> Option<u32> {
    if playback.contains_key(id) && playback[id].1 < playback[id].0.len() {
        Some(playback[id].0[playback[id].1 as int].duration_ms)
    } else {
        None
    }
}

/// The playback positions after tile `id` moves to its next frame, wrapping
/// to frame 0 after the last.
pub open spec fn playback_stepped(playback: Map<u32, (Seq<TileAnimFrame>, usize)>, id: u32) -> Map<
    u32,
    (Seq<TileAnimFrame>, usize),
> {
    if playback.contains_key(id) && playback[id].0.len() > 0 {
        playback.insert(
            id,
            (playback[id].0, ((playback[id].1 + 1) % (playback[id].0.len() as int)) as usize),
        )
    } else {
        playback
    }
}

fn copy_frames(v: &Vec<TileAnimFrame>) -> (r: Vec<TileAnimFrame>)
    ensures
        r@ == v@,
{
    let mut out: Vec<TileAnimFrame> = Vec::new();
    let mut i: usize = 0;
    while i < v.len()
        invariant
            i <= v.len(),
            out@ == v@.take(i as int),
        decreases v.len() - i,
    {
        out.push(v[i]);
        i += 1;
        assert(v@.take(i as int) =~= v@.take(i - 1).push(v@[i - 1]));
    }
    assert(v@.take(v.len() as int) =~= v@);
    out
}

impl TileSet {
    /// The tile with id `id`.
    pub fn tile(&self, id: u32) -> (r: Option<&Tile>)
        ensures
            match r {
                Some(t) => self@.tiles.contains_key(id) && *t == self@.tiles[id],
                None => !self@.tiles.contains_key(id),
            },
    {
        self.tiles.get(&id)
    }

    /// The frames of the animated tile `id`.
    pub fn animation(&self, id: u32) -> (r: Option<&TileAnim>)
        ensures
            match r {
                Some(a) => self@.animations.contains_key(id) && a.frames@ == self@.animations[id],
                None => !self@.animations.contains_key(id),
            },
    {
        self.animations.get(&id)
    }

    /// The image path of atlas `atlas_index`.
    pub fn atlas_path(&self, atlas_index: usize) -> (r: Option<&str>)
        ensures
            match r {
                Some(p) => atlas_index < self@.atlases.len() && p@ == self@.atlases[atlas_index as int],
                None => atlas_index >= self@.atlases.len(),
            },
    {
        if atlas_index < self.atlases.len() {
            Some(self.atlases[atlas_index].path.as_str())
        } else {
            None
        }
    }

    /// The clip of tile `id` as currently shown.
    pub fn current_src(&self, id: u32) -> (r: Option<Rect>)
        ensures
            r == spec_current_src(self@, self.playback(), id),
    {
        let tile = match self.tiles.get(&id) {
            Some(t) => t,
            None => return None,
        };
        if let Some(state) = self.anim_states.get(&id) {
            if state.current_frame < state.anim.frames.len() {
                let f = state.anim.frames[state.current_frame];
                return Some(Rect { x: f.x, y: f.y, w: tile.src.w, h: tile.src.h });
            }
        }
        Some(tile.src)
    }

    /// Starts playing tile `id` if it is animated and not yet played, and
    /// returns how long its current frame shows (none for an animation
    /// without frames or a tile that is not animated).
    pub fn anim_frame_duration(&mut self, id: u32) -> (r: Option<u32>)
        ensures
            final(self)@ == old(self)@,
            final(self).playback() == playback_started(old(self)@, old(self).playback(), id),
            r == current_duration(final(self).playback(), id),
            states_wf(old(self).playback()) ==> states_wf(final(self).playback()),
    {
        if !self.anim_states.contains_key(&id) {
            if let Some(anim) = self.animations.get(&id) {
                let st = TileAnimState { anim: TileAnim { frames: copy_frames(&anim.frames) }, current_frame: 0 };
                let ghost before = self.anim_states@;
                self.anim_states.insert(id, st);
                proof {
                    assert(states_view(self.anim_states@) =~= states_view(before).insert(
                        id,
                        (anim.frames@, 0usize),
                    ));
                }
            }
        }
        match self.anim_states.get(&id) {
            Some(state) => if state.current_frame < state.anim.frames.len() {
                Some(state.anim.frames[state.current_frame].duration_ms)
            } else {
                None
            },
            None => None,
        }
    }

    /// Moves tile `id`, if it is being played, to its next frame.
    pub fn advance_anim_frame(&mut self, id: u32)
        ensures
            final(self)@ == old(self)@,
            final(self).playback() == playback_stepped(old(self).playback(), id),
            states_wf(old(self).playback()) ==> states_wf(final(self).playback()),
    {
        let next = match self.anim_states.get(&id) {
            Some(state) => {
                let n = state.anim.frames.len();
                if n == 0 {
                    return;
                }
                TileAnimState {
                    anim: TileAnim { frames: copy_frames(&state.anim.frames) },
                    current_frame: (state.current_frame % n + 1) % n,
                }
            },
            None => return,
        };
        let ghost before = self.anim_states@;
        proof {
            let (fs, c) = states_view(before)[id];
            assert(((c as int % fs.len() as int) + 1) % (fs.len() as int) == (c as int + 1) % (fs.len() as int)) by (nonlinear_arith)
                requires fs.len() > 0, c >= 0;
        }
        self.anim_states.insert(id, next);
        proof {
            assert(states_view(self.anim_states@) =~= playback_stepped(states_view(before), id));
        }
    }
}

} // verus!

verus! {

/// The playback positions after tile `id` moves `k` frames on.
pub open spec fn playback_stepped_times(
    playback: Map<u32, (Seq<TileAnimFrame>, usize)>,
    id: u32,
    k: nat,
) -> Map<u32, (Seq<TileAnimFrame>, usize)>
    decreases k,
{
    if k == 0 {
        playback
    } else {
        playback_stepped(playback_stepped_times(playback, id, (k - 1) as nat), id)
    }
}

proof fn lemma_stepped_times_frame(playback: Map<u32, (Seq<TileAnimFrame>, usize)>, id: u32, k: nat)
    requires
        playback.contains_key(id),
        playback[id].1 < playback[id].0.len(),
        playback[id].0.len() <= usize::MAX,
    ensures
        playback_stepped_times(playback, id, k) == playback.insert(
            id,
            (playback[id].0, ((playback[id].1 + k) % (playback[id].0.len() as int)) as usize),
        ),
    decreases k,
{
    let n = playback[id].0.len() as int;
    let c = playback[id].1 as int;
    if k == 0 {
        vstd::arithmetic::div_mod::lemma_small_mod(c as nat, n as nat);
        assert(playback.insert(id, (playback[id].0, (c % n) as usize)) =~= playback);
    } else {
        lemma_stepped_times_frame(playback, id, (k - 1) as nat);
        let prev = playback_stepped_times(playback, id, (k - 1) as nat);
        let d = (c + k - 1) % n;
        assert(0 <= d < n) by {
            vstd::arithmetic::div_mod::lemma_mod_bound(c + k - 1, n);
        }
        assert((d + 1) % n == (c + k) % n) by {
            vstd::arithmetic::div_mod::lemma_add_mod_noop_right(1, c + k - 1, n);
        }
        assert(playback_stepped(prev, id) =~= playback.insert(
            id,
            (playback[id].0, ((c + k) % n) as usize),
        ));
    }
}

/// An animated tile that moves on as many times as it has frames shows
/// again the frame it started from: tile animations cycle.
pub proof fn lemma_tile_animation_cycles(playback: Map<u32, (Seq<TileAnimFrame>, usize)>, id: u32)
    requires
        playback.contains_key(id),
        playback[id].1 < playback[id].0.len(),
        playback[id].0.len() <= usize::MAX,
    ensures
        playback_stepped_times(playback, id, playback[id].0.len()) == playback,
{
    let n = playback[id].0.len() as int;
    let c = playback[id].1 as int;
    lemma_stepped_times_frame(playback, id, playback[id].0.len());
    assert((c + n) % n == c) by {
        vstd::arithmetic::div_mod::lemma_mod_add_multiples_vanish(c, n);
        vstd::arithmetic::div_mod::lemma_small_mod(c as nat, n as nat);
    }
    assert(playback.insert(id, (playback[id].0, c as usize)) =~= playback);
}

/// Moving one tile on leaves the playback of every other tile as it is.
pub proof fn lemma_step_leaves_other_tiles(
    playback: Map<u32, (Seq<TileAnimFrame>, usize)>,
    id: u32,
    other: u32,
)
    requires
        id != other,
    ensures
        playback_stepped(playback, id).contains_key(other) == playback.contains_key(other),
        playback.contains_key(other) ==> playback_stepped(playback, id)[other] == playback[other],
{
}

/// An animated tile that starts playing and then moves on `k` times shows
/// frame `k` modulo its frame count, at that frame's origin with the tile's
/// size: the animation cycles continuously from its first frame.
pub proof fn lemma_tile_frame_after_steps(
    set: TileSetV,
    playback: Map<u32, (Seq<TileAnimFrame>, usize)>,
    id: u32,
    k: nat,
)
    requires
        set.tiles.contains_key(id),
        set.animations.contains_key(id),
        !playback.contains_key(id),
        0 < set.animations[id].len() <= usize::MAX,
    ensures
        ({
            let frames = set.animations[id];
            let f = frames[k as int % (frames.len() as int)];
            spec_current_src(set, playback_stepped_times(playback_started(set, playback, id), id, k), id)
                == Some(Rect { x: f.x, y: f.y, w: set.tiles[id].src.w, h: set.tiles[id].src.h })
        }),
{
    let frames = set.animations[id];
    let n = frames.len() as int;
    let started = playback_started(set, playback, id);
    assert(started[id] == (frames, 0usize));
    lemma_stepped_times_frame(started, id, k);
    vstd::arithmetic::div_mod::lemma_mod_bound(k as int, n);
    let pb = playback_stepped_times(started, id, k);
    assert(pb[id] == (frames, ((0int + k) % n) as usize));
}

/// A `tile=` value `id, x, y, w, h, offset_x, offset_y` with a nonzero id
/// defines tile `id`, its clip's corner from the second and third tokens,
/// its width and height from the fourth and fifth, its offset from the last
/// two; read as an entry of a tileset, it puts that tile on the current
/// atlas.
pub proof fn lemma_tile_line_fields(p: TileParseV, e: EntryV, ints: Seq<i32>)
    requires
        ints.len() == 7,
        forall|k: int| 0 <= k < 7 ==> int_token(e.value, k as nat) == Some(#[trigger] ints[k]),
        ints[0] as u32 != 0,
        e.key == "tile"@,
        !(e.new_section && e.section == "tileset"@),
    ensures
        spec_tile_line(e.value) == Ok::<Option<(u32, Rect, Point)>, ErrorV>(
            Some((ints[0] as u32, Rect { x: ints[1], y: ints[2], w: ints[3], h: ints[4] }, Point { x: ints[5], y: ints[6] })),
        ),
        spec_tile_step(p, e) matches Ok(q) && q.set.tiles.contains_key(ints[0] as u32)
            && q.set.tiles[ints[0] as u32].src == (Rect { x: ints[1], y: ints[2], w: ints[3], h: ints[4] })
            && q.set.tiles[ints[0] as u32].offset == (Point { x: ints[5], y: ints[6] })
            && q.set.tiles[ints[0] as u32].atlas_index == p.current as usize,
{
    let v = e.value;
    assert(rest_after(v, 0) == v);
    assert(int_token(v, 0) == Some(ints[0]));
    assert(int_token(v, 1) == Some(ints[1]));
    assert(int_token(v, 2) == Some(ints[2]));
    assert(int_token(v, 3) == Some(ints[3]));
    assert(int_token(v, 4) == Some(ints[4]));
    assert(int_token(v, 5) == Some(ints[5]));
    assert(int_token(v, 6) == Some(ints[6]));
    lemma_take_int_token(v, 0, ints[0], ErrorV::Other("tile line missing index"@));
    lemma_take_int_token(v, 1, ints[1], ErrorV::Other("tile line missing x"@));
    lemma_take_int_token(v, 2, ints[2], ErrorV::Other("tile line missing y"@));
    lemma_take_int_token(v, 3, ints[3], ErrorV::Other("tile line missing width"@));
    lemma_take_int_token(v, 4, ints[4], ErrorV::Other("tile line missing height"@));
    let missing = ErrorV::Other("expected point x,y, got: "@ + rest_after(v, 5));
    lemma_take_int_token(v, 5, ints[5], missing);
    lemma_take_int_token(v, 6, ints[6], missing);
    reveal_strlit("img");
    reveal_strlit("tile");
    assert("img"@.len() != "tile"@.len());
}

/// An animated tile that starts playing and then moves on `k` times reports
/// the duration of frame `k` modulo its frame count: each frame shows for
/// its own duration.
pub proof fn lemma_tile_duration_after_steps(
    set: TileSetV,
    playback: Map<u32, (Seq<TileAnimFrame>, usize)>,
    id: u32,
    k: nat,
)
    requires
        set.animations.contains_key(id),
        !playback.contains_key(id),
        0 < set.animations[id].len() <= usize::MAX,
    ensures
        ({
            let frames = set.animations[id];
            current_duration(playback_stepped_times(playback_started(set, playback, id), id, k), id)
                == Some(frames[k as int % (frames.len() as int)].duration_ms)
        }),
{
    let frames = set.animations[id];
    let n = frames.len() as int;
    let started = playback_started(set, playback, id);
    assert(started[id] == (frames, 0usize));
    lemma_stepped_times_frame(started, id, k);
    vstd::arithmetic::div_mod::lemma_mod_bound(k as int, n);
    let pb = playback_stepped_times(started, id, k);
    assert(pb[id] == (frames, ((0int + k) % n) as usize));
}

/// Frame `j` of the frames `x, y, duration, ...` read from `v` comes from
/// tokens `3j` (x), `3j + 1` (y) and `3j + 2` (duration).
pub proof fn lemma_anim_frames_tokens(v: Seq<char>, j: nat)
    requires
        spec_anim_frames(v) matches Ok(fs) && j < fs.len(),
    ensures
        ({
            let f = spec_anim_frames(v)->Ok_0[j as int];
            &&& int_token(v, 3 * j) == Some(f.x)
            &&& int_token(v, 3 * j + 1) == Some(f.y)
            &&& token_at(v, 3 * j + 2) matches Some(ds) && spec_parse_duration_ms(ds) == Ok::<u32, ErrorV>(
                f.duration_ms,
            )
        }),
    decreases j,
{
    assert(rest_after(v, 0) == v);
    lemma_pop_token_at(v, 0);
    lemma_pop_token_at(v, 1);
    lemma_pop_token_at(v, 2);
    if j > 0 {
        let rest = rest_after(v, 3);
        assert(spec_anim_frames(v)->Ok_0[j as int] == spec_anim_frames(rest)->Ok_0[j - 1]);
        lemma_anim_frames_tokens(rest, (j - 1) as nat);
        let k = (3 * (j - 1)) as nat;
        lemma_token_after(v, 3, k);
        lemma_token_after(v, 3, k + 1);
        lemma_token_after(v, 3, k + 2);
        assert(3 + k == 3 * j);
    }
}

/// Frame `j` of a tile animation `index, x1, y1, duration1, ...` (`;` read as
/// `,`) comes from tokens `3j + 1` (x), `3j + 2` (y) and `3j + 3` (duration);
/// the first token is the tile id.
pub proof fn lemma_anim_line_tokens(value: Seq<char>, j: nat)
    requires
        spec_anim_line(value) matches Ok((id, fs)) && j < fs.len(),
    ensures
        ({
            let v = normalize_separators(value);
            let (id, fs) = spec_anim_line(value)->Ok_0;
            &&& int_token(v, 0) matches Some(i) && id == i as u32
            &&& int_token(v, 3 * j + 1) == Some(fs[j as int].x)
            &&& int_token(v, 3 * j + 2) == Some(fs[j as int].y)
            &&& token_at(v, 3 * j + 3) matches Some(ds) && spec_parse_duration_ms(ds) == Ok::<u32, ErrorV>(
                fs[j as int].duration_ms,
            )
        }),
{
    let v = normalize_separators(value);
    assert(rest_after(v, 0) == v);
    lemma_pop_token_at(v, 0);
    lemma_anim_frames_tokens(rest_after(v, 1), j);
    lemma_token_after(v, 1, 3 * j);
    lemma_token_after(v, 1, 3 * j + 1);
    lemma_token_after(v, 1, 3 * j + 2);
}

} // verus!
