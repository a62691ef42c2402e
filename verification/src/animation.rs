use vstd::prelude::*;

use crate::error::{view_result, ErrorV, FlareError};
use crate::parser::{entries_view, entries_wf, entry_wf, open_section, parse_str, spec_parse_str, Entry, EntryV};
use crate::text::{chars_of, eq_str, message, spec_pop_token, string_of};
use crate::value::{
    dir_of_index, parse_active_sub_frame_chars, parse_animation_type_chars,
    parse_blend_mode_chars, parse_color_rgba_chars, parse_direction_chars,
    parse_duration_ms_chars, parse_int_chars, parse_point_chars, pop_or_empty,
    spec_parse_active_sub_frame, spec_parse_animation_type, spec_parse_blend_mode,
    spec_parse_direction, spec_parse_duration_ms, spec_parse_int, spec_parse_point,
    spec_take_int, take_int_msg, token_or_empty, int_token, lemma_pop_token_at, lemma_take_int_token,
    rest_after, token_at, lemma_token_after, ActiveSubFrame, AnimationType, BlendMode,
    Color, Direction, Point, Rect,
};

verus! {

/// Number of facings of a directional sprite.
pub const DIRECTIONS: usize = 8;

/// One frame of one facing of an animation.
#[derive(Debug, PartialEq, Eq)]
pub struct Frame {
    pub index: u16,
    pub direction: Direction,
    pub src: Rect,
    pub offset: Point,
    pub image_id: String,
}

/// Mathematical model of a [`Frame`].
pub struct FrameV {
    pub index: u16,
    pub direction: Direction,
    pub src: Rect,
    pub offset: Point,
    pub image_id: Seq<char>,
}

impl View for Frame {
    type V = FrameV;

    open spec fn view(&self) -> FrameV {
        FrameV {
            index: self.index,
            direction: self.direction,
            src: self.src,
            offset: self.offset,
            image_id: self.image_id@,
        }
    }
}

/// The models of a sequence of frames.
pub open spec fn frames_view(v: Seq<Frame>) -> Seq<FrameV> {
    v.map_values(|f: Frame| f@)
}

impl Clone for Frame {
    /// An equal frame.
    fn clone(&self) -> (r: Self)
        ensures
            r == *self,
    {
        Frame {
            index: self.index,
            direction: self.direction,
            src: self.src,
            offset: self.offset,
            image_id: self.image_id.clone(),
        }
    }
}

/// One named animation state of a sprite.
#[derive(Debug, PartialEq, Eq)]
pub struct Animation {
    pub name: String,
    pub animation_type: AnimationType,
    pub frames: u16,
    pub duration_ms: u32,
    pub position: u16,
    pub blend_mode: BlendMode,
    pub alpha_mod: u8,
    pub color_mod: Color,
    pub active_frames: Vec<i16>,
    pub active_sub_frame: ActiveSubFrame,
    pub compressed: bool,
    pub frame_data: Vec<Frame>,
}

/// Mathematical model of an [`Animation`].
pub struct AnimationV {
    pub name: Seq<char>,
    pub animation_type: AnimationType,
    pub frames: u16,
    pub duration_ms: u32,
    pub position: u16,
    pub blend_mode: BlendMode,
    pub alpha_mod: u8,
    pub color_mod: Color,
    pub active_frames: Seq<i16>,
    pub active_sub_frame: ActiveSubFrame,
    pub compressed: bool,
    pub frame_data: Seq<FrameV>,
}

impl View for Animation {
    type V = AnimationV;

    open spec fn view(&self) -> AnimationV {
        AnimationV {
            name: self.name@,
            animation_type: self.animation_type,
            frames: self.frames,
            duration_ms: self.duration_ms,
            position: self.position,
            blend_mode: self.blend_mode,
            alpha_mod: self.alpha_mod,
            color_mod: self.color_mod,
            active_frames: self.active_frames@,
            active_sub_frame: self.active_sub_frame,
            compressed: self.compressed,
            frame_data: frames_view(self.frame_data@),
        }
    }
}

impl Clone for Animation {
    /// An animation with the same model.
    fn clone(&self) -> (r: Self)
        ensures
            r@ == self@,
    {
        let active_frames = self.active_frames.clone();
        let frame_data = self.frame_data.clone();
        proof {
            assert(active_frames@ =~= self.active_frames@);
            assert(frames_view(frame_data@) =~= frames_view(self.frame_data@));
        }
        Animation {
            name: self.name.clone(),
            animation_type: self.animation_type,
            frames: self.frames,
            duration_ms: self.duration_ms,
            position: self.position,
            blend_mode: self.blend_mode,
            alpha_mod: self.alpha_mod,
            color_mod: self.color_mod,
            active_frames,
            active_sub_frame: self.active_sub_frame,
            compressed: self.compressed,
            frame_data,
        }
    }
}

/// The models of a sequence of animations.
pub open spec fn animations_view(v: Seq<Animation>) -> Seq<AnimationV> {
    v.map_values(|a: Animation| a@)
}

/// The result of `parse_frame_line`: `index, direction, x, y, w, h, offset_x,
/// offset_y[, image_id]`, where the index must lie below the section's
/// frame count.
pub open spec fn spec_parse_frame_line(line: Seq<char>, frames: u16) -> Result<FrameV, ErrorV> {
    match spec_take_int(line, ErrorV::Other("frame line missing index"@)) {
        Err(e) => Err(e),
        Ok((index, _)) if !(0 <= index < frames) => Err(
            ErrorV::Other("frame index out of range: "@ + line),
        ),
        Ok((index, r1)) => match spec_pop_token(r1).0 {
            None => Err(ErrorV::Other("frame line missing direction"@)),
            Some(dt) => match spec_parse_direction(dt) {
                Err(e) => Err(e),
                Ok(direction) => spec_frame_rest(index, direction, spec_pop_token(r1).1),
            },
        },
    }
}

/// The part of a frame line after its direction.
pub open spec fn spec_frame_rest(index: i32, direction: Direction, r2: Seq<char>) -> Result<
    FrameV,
    ErrorV,
> {
    match spec_take_int(r2, ErrorV::Other("frame line missing x"@)) {
        Err(e) => Err(e),
        Ok((x, r3)) => match spec_take_int(r3, ErrorV::Other("frame line missing y"@)) {
            Err(e) => Err(e),
            Ok((y, r4)) => match spec_take_int(r4, ErrorV::Other("frame line missing width"@)) {
                Err(e) => Err(e),
                Ok((w, r5)) => match spec_take_int(
                    r5,
                    ErrorV::Other("frame line missing height"@),
                ) {
                    Err(e) => Err(e),
                    Ok((h, r6)) => match spec_take_int(
                        r6,
                        ErrorV::Other("frame line missing offset_x"@),
                    ) {
                        Err(e) => Err(e),
                        Ok((ox, r7)) => match spec_take_int(
                            r7,
                            ErrorV::Other("frame line missing offset_y"@),
                        ) {
                            Err(e) => Err(e),
                            Ok((oy, r8)) => Ok(
                                FrameV {
                                    index: index as u16,
                                    direction,
                                    src: Rect { x, y, w, h },
                                    offset: Point { x: ox, y: oy },
                                    image_id: token_or_empty(spec_pop_token(r8).0),
                                },
                            ),
                        },
                    },
                },
            },
        },
    }
}

fn frame_rest(index: i32, direction: Direction, r2: &[char]) -> (r: Result<Frame, FlareError>)
    ensures
        view_result(r) == spec_frame_rest(index, direction, r2@),
{
    let (x, r3) = match take_int_msg(r2, "frame line missing x") {
        Ok(p) => p,
        Err(e) => return Err(e),
    };
    let (y, r4) = match take_int_msg(r3, "frame line missing y") {
        Ok(p) => p,
        Err(e) => return Err(e),
    };
    let (w, r5) = match take_int_msg(r4, "frame line missing width") {
        Ok(p) => p,
        Err(e) => return Err(e),
    };
    let (h, r6) = match take_int_msg(r5, "frame line missing height") {
        Ok(p) => p,
        Err(e) => return Err(e),
    };
    let (ox, r7) = match take_int_msg(r6, "frame line missing offset_x") {
        Ok(p) => p,
        Err(e) => return Err(e),
    };
    let (oy, r8) = match take_int_msg(r7, "frame line missing offset_y") {
        Ok(p) => p,
        Err(e) => return Err(e),
    };
    let (id, _) = pop_or_empty(r8);
    Ok(
        Frame {
            index: index as u16,
            direction,
            src: Rect { x, y, w, h },
            offset: Point { x: ox, y: oy },
            image_id: string_of(&id),
        },
    )
}

/// Parses one `frame=` value of a compressed animation of `frames` frames.
pub fn parse_frame_line(line: &[char], frames: u16) -> (r: Result<Frame, FlareError>)
    ensures
        view_result(r) == spec_parse_frame_line(line@, frames),
{
    let (index, r1) = match take_int_msg(line, "frame line missing index") {
        Ok(p) => p,
        Err(e) => return Err(e),
    };
    if index < 0 || index >= frames as i32 {
        return Err(FlareError::Other(message("frame index out of range: ", line)));
    }
    let (dt, r2) = crate::text::pop_token(r1);
    match dt {
        None => Err(FlareError::Other(string_of(&chars_of("frame line missing direction")))),
        Some(dt) => match parse_direction_chars(&dt) {
            Err(e) => Err(e),
            Ok(direction) => frame_rest(index, direction, r2),
        },
    }
}

} // verus!

verus! {

/// The parse state of one `[animation]` section.
#[derive(Debug)]
pub struct SectionState {
    pub position: u16,
    pub frames: u16,
    pub duration_ms: u32,
    pub animation_type: Option<AnimationType>,
    pub active_frames: Vec<i16>,
    pub active_all: bool,
    pub active_sub_frame: ActiveSubFrame,
    pub compressed: bool,
    pub frame_lines: Vec<String>,
}

/// Mathematical model of a [`SectionState`].
pub struct SectionV {
    pub position: u16,
    pub frames: u16,
    pub duration_ms: u32,
    pub animation_type: Option<AnimationType>,
    pub active_frames: Seq<i16>,
    pub active_all: bool,
    pub active_sub_frame: ActiveSubFrame,
    pub compressed: bool,
    pub frame_lines: Seq<Seq<char>>,
}

impl View for SectionState {
    type V = SectionV;

    open spec fn view(&self) -> SectionV {
        SectionV {
            position: self.position,
            frames: self.frames,
            duration_ms: self.duration_ms,
            animation_type: self.animation_type,
            active_frames: self.active_frames@,
            active_all: self.active_all,
            active_sub_frame: self.active_sub_frame,
            compressed: self.compressed,
            frame_lines: self.frame_lines@.map_values(|s: String| s@),
        }
    }
}

/// The state of a section before any of its keys.
pub open spec fn fresh_section() -> SectionV {
    SectionV {
        position: 0,
        frames: 0,
        duration_ms: 0,
        animation_type: None,
        active_frames: Seq::empty(),
        active_all: false,
        active_sub_frame: ActiveSubFrame::End,
        compressed: false,
        frame_lines: Seq::empty(),
    }
}

impl SectionState {
    /// A section before any of its keys.
    pub fn new() -> (s: Self)
        ensures
            s@ == fresh_section(),
    {
        let s = SectionState {
            position: 0,
            frames: 0,
            duration_ms: 0,
            animation_type: None,
            active_frames: Vec::new(),
            active_all: false,
            active_sub_frame: ActiveSubFrame::End,
            compressed: false,
            frame_lines: Vec::new(),
        };
        assert(s@.frame_lines =~= Seq::<Seq<char>>::empty());
        s
    }
}

/// The frames of the `frame=` lines, in order; the first malformed line is the error.
pub open spec fn spec_parse_frames(lines: Seq<Seq<char>>, frames: u16) -> Result<Seq<FrameV>, ErrorV>
    decreases lines.len(),
{
    if lines.len() == 0 {
        Ok(Seq::empty())
    } else {
        match spec_parse_frames(lines.drop_last(), frames) {
            Err(e) => Err(e),
            Ok(fs) => match spec_parse_frame_line(lines.last(), frames) {
                Err(e) => Err(e),
                Ok(f) => Ok(fs.push(f)),
            },
        }
    }
}

/// The frames of an uncompressed animation: for each frame index and each of
/// the 8 directions, the grid cell at column `position + index` and row
/// `direction` (products in wrapping `i32` arithmetic).
pub open spec fn spec_grid_frames(
    render_size: Point,
    position: u16,
    frames: u16,
    offset: Point,
    image_id: Seq<char>,
) -> Seq<FrameV> {
    Seq::new(
        (frames * 8) as nat,
        |k: int|
            FrameV {
                index: (k / 8) as u16,
                direction: dir_of_index(k % 8)->0,
                src: Rect {
                    x: render_size.x.wrapping_mul((position + k / 8) as i32),
                    y: render_size.y.wrapping_mul((k % 8) as i32),
                    w: render_size.x,
                    h: render_size.y,
                },
                offset,
                image_id,
            },
    )
}

fn dir_from_small(d: usize) -> (r: Direction)
    requires
        d < 8,
    ensures
        dir_of_index(d as int) == Some(r),
{
    if d == 0 {
        Direction::Sw
    } else if d == 1 {
        Direction::W
    } else if d == 2 {
        Direction::Nw
    } else if d == 3 {
        Direction::N
    } else if d == 4 {
        Direction::Ne
    } else if d == 5 {
        Direction::E
    } else if d == 6 {
        Direction::Se
    } else {
        Direction::S
    }
}

fn grid_frames(render_size: Point, position: u16, frames: u16, offset: Point, image_id: &String) -> (r: Vec<Frame>)
    ensures
        frames_view(r@) == spec_grid_frames(render_size, position, frames, offset, image_id@),
{
    let n: usize = frames as usize * 8;
    let ghost goal = spec_grid_frames(render_size, position, frames, offset, image_id@);
    let mut out: Vec<Frame> = Vec::new();
    let mut k: usize = 0;
    while k < n
        invariant
            k <= n,
            n == frames * 8,
            goal == spec_grid_frames(render_size, position, frames, offset, image_id@),
            frames_view(out@) == goal.take(k as int),
        decreases n - k,
    {
        let i = k / 8;
        let d = k % 8;
        let f = Frame {
            index: i as u16,
            direction: dir_from_small(d),
            src: Rect {
                x: render_size.x.wrapping_mul((position as i32) + (i as i32)),
                y: render_size.y.wrapping_mul(d as i32),
                w: render_size.x,
                h: render_size.y,
            },
            offset,
            image_id: image_id.clone(),
        };
        proof {
            assert(frames_view(out@.push(f)) =~= frames_view(out@).push(f@));
            assert(goal.take(k + 1) =~= goal.take(k as int).push(goal[k as int]));
        }
        out.push(f);
        k += 1;
    }
    assert(goal.take(n as int) =~= goal);
    out
}

/// The list of integers of an `active_frame` value after its first token.
pub open spec fn spec_int_list(v: Seq<char>) -> Result<Seq<i16>, ErrorV>
    decreases v.len(),
{
    match spec_pop_token(v).0 {
        None => Ok(Seq::empty()),
        Some(tok) => {
            proof {
                crate::text::lemma_pop_token_shrinks(v);
            }
            match spec_parse_int(tok) {
                Err(e) => Err(e),
                Ok(x) => match spec_int_list(spec_pop_token(v).1) {
                    Err(e) => Err(e),
                    Ok(rest) => Ok(seq![x as i16] + rest),
                },
            }
        },
    }
}

fn int_list(v: &[char]) -> (r: Result<Vec<i16>, FlareError>)
    ensures
        match r {
            Ok(xs) => spec_int_list(v@) == Ok::<Seq<i16>, ErrorV>(xs@),
            Err(e) => spec_int_list(v@) == Err::<Seq<i16>, ErrorV>(e@),
        },
{
    let mut out: Vec<i16> = Vec::new();
    let mut rest = v;
    loop
        invariant
            match spec_int_list(v@) {
                Ok(all) => match spec_int_list(rest@) {
                    Ok(tail) => all == out@ + tail,
                    Err(_) => false,
                },
                Err(e) => spec_int_list(rest@) == Err::<Seq<i16>, ErrorV>(e),
            },
        decreases rest@.len(),
    {
        proof {
            crate::text::lemma_pop_token_shrinks(rest@);
        }
        let (tok, r2) = crate::text::pop_token(rest);
        match tok {
            None => {
                assert(out@ + Seq::<i16>::empty() =~= out@);
                return Ok(out);
            },
            Some(t) => match parse_int_chars(&t) {
                Err(e) => return Err(e),
                Ok(x) => {
                    proof {
                        if let Ok(all) = spec_int_list(v@) {
                            let tail = spec_int_list(r2@)->Ok_0;
                            assert(all == out@ + (seq![x as i16] + tail));
                            assert(out@.push(x as i16) + tail =~= out@ + (seq![x as i16] + tail));
                        }
                    }
                    out.push(x as i16);
                    rest = r2;
                },
            },
        }
    }
}

} // verus!

verus! {

/// A sprite's animation definitions.
///
/// `images` holds each registered image id with its path, in the order of first
/// registration; `image_order` lists the same ids in the same order.
#[derive(Debug, Clone, PartialEq, Eq)]
pub struct AnimationSet {
    pub images: Vec<(String, String)>,
    pub image_order: Vec<String>,
    pub render_size: Option<Point>,
    pub render_offset: Point,
    pub blend_mode: BlendMode,
    pub alpha_mod: u8,
    pub color_mod: Color,
    pub animations: Vec<Animation>,
    pub default_animation: String,
}

/// Mathematical model of an [`AnimationSet`].
pub struct AnimSetV {
    pub images: Seq<(Seq<char>, Seq<char>)>,
    pub image_order: Seq<Seq<char>>,
    pub render_size: Option<Point>,
    pub render_offset: Point,
    pub blend_mode: BlendMode,
    pub alpha_mod: u8,
    pub color_mod: Color,
    pub animations: Seq<AnimationV>,
    pub default_animation: Seq<char>,
}

impl View for AnimationSet {
    type V = AnimSetV;

    open spec fn view(&self) -> AnimSetV {
        AnimSetV {
            images: images_view(self.images@),
            image_order: self.image_order@.map_values(|s: String| s@),
            render_size: self.render_size,
            render_offset: self.render_offset,
            blend_mode: self.blend_mode,
            alpha_mod: self.alpha_mod,
            color_mod: self.color_mod,
            animations: animations_view(self.animations@),
            default_animation: self.default_animation@,
        }
    }
}

/// An animation set before any entry is read.
pub open spec fn initial_set() -> AnimSetV {
    AnimSetV {
        images: Seq::empty(),
        image_order: Seq::empty(),
        render_size: None,
        render_offset: Point { x: 0, y: 0 },
        blend_mode: BlendMode::Normal,
        alpha_mod: 255,
        color_mod: Color { r: 255, g: 255, b: 255, a: 255 },
        animations: Seq::empty(),
        default_animation: Seq::empty(),
    }
}

/// The image id that frames without one use: the first registered id, or empty.
pub open spec fn first_image_id(set: AnimSetV) -> Seq<char> {
    if set.image_order.len() > 0 {
        set.image_order[0]
    } else {
        Seq::empty()
    }
}

/// The position of the image `key` among the registered images.
pub open spec fn image_index(images: Seq<(Seq<char>, Seq<char>)>, key: Seq<char>) -> Option<int> {
    image_keys(images).index_of_first(key)
}

/// The ids of the registered images, in order.
pub open spec fn image_keys(images: Seq<(Seq<char>, Seq<char>)>) -> Seq<Seq<char>> {
    images.map_values(|p: (Seq<char>, Seq<char>)| p.0)
}

/// The model of the image list of a set.
pub open spec fn images_view(images: Seq<(String, String)>) -> Seq<(Seq<char>, Seq<char>)> {
    images.map_values(|p: (String, String)| (p.0@, p.1@))
}

/// Registers the image `path` under `key`: a new key is appended, a known key
/// gets the new path in place.
pub open spec fn insert_image(set: AnimSetV, key: Seq<char>, path: Seq<char>) -> AnimSetV {
    match image_index(set.images, key) {
        Some(i) => AnimSetV { images: set.images.update(i, (key, path)), ..set },
        None => AnimSetV {
            images: set.images.push((key, path)),
            image_order: set.image_order.push(key),
            ..set
        },
    }
}

/// The animation that a finished section adds to the set.
pub open spec fn spec_finish_section(set: AnimSetV, section: Seq<char>, st: SectionV) -> Result<
    AnimSetV,
    ErrorV,
> {
    let animation_type = match st.animation_type {
        Some(t) => t,
        None => AnimationType::PlayOnce,
    };
    let active_frames = if st.active_all {
        seq![-1i16]
    } else {
        st.active_frames
    };
    let frame_data = if st.compressed {
        spec_parse_frames(st.frame_lines, st.frames)
    } else {
        match set.render_size {
            Some(rs) => Ok(
                spec_grid_frames(rs, st.position, st.frames, set.render_offset, first_image_id(set)),
            ),
            None => Err(
                ErrorV::Other(
                    "uncompressed animation '"@ + section + "' requires global render_size"@,
                ),
            ),
        }
    };
    match frame_data {
        Err(e) => Err(e),
        Ok(fd) => Ok(
            AnimSetV {
                animations: set.animations.push(
                    AnimationV {
                        name: section,
                        animation_type,
                        frames: st.frames,
                        duration_ms: st.duration_ms,
                        position: st.position,
                        blend_mode: set.blend_mode,
                        alpha_mod: set.alpha_mod,
                        color_mod: set.color_mod,
                        active_frames,
                        active_sub_frame: st.active_sub_frame,
                        compressed: st.compressed,
                        frame_data: fd,
                    },
                ),
                ..set
            },
        ),
    }
}

fn parse_frames(lines: &Vec<String>, frames: u16) -> (r: Result<Vec<Frame>, FlareError>)
    ensures
        match r {
            Ok(fs) => spec_parse_frames(lines@.map_values(|s: String| s@), frames) == Ok::<
                Seq<FrameV>,
                ErrorV,
            >(frames_view(fs@)),
            Err(e) => spec_parse_frames(lines@.map_values(|s: String| s@), frames) == Err::<
                Seq<FrameV>,
                ErrorV,
            >(e@),
        },
{
    let ghost lv = lines@.map_values(|s: String| s@);
    let mut out: Vec<Frame> = Vec::new();
    let mut i: usize = 0;
    assert(lv.take(0) =~= Seq::<Seq<char>>::empty());
    assert(frames_view(out@) =~= Seq::<FrameV>::empty());
    while i < lines.len()
        invariant
            i <= lines.len(),
            lv == lines@.map_values(|s: String| s@),
            spec_parse_frames(lv.take(i as int), frames) == Ok::<Seq<FrameV>, ErrorV>(frames_view(out@)),
        decreases lines.len() - i,
    {
        assert(lv.take(i + 1).drop_last() =~= lv.take(i as int));
        assert(lv.take(i + 1).last() == lines@[i as int]@);
        let f = match parse_frame_line(&chars_of(lines[i].as_str()), frames) {
            Ok(f) => f,
            Err(e) => {
                proof {
                    lemma_parse_frames_error(lv, frames, i as int + 1);
                }
                return Err(e);
            },
        };
        proof {
            assert(frames_view(out@.push(f)) =~= frames_view(out@).push(f@));
        }
        out.push(f);
        i += 1;
    }
    assert(lv.take(lines.len() as int) =~= lv);
    Ok(out)
}

/// An error in a prefix of the frame lines is the error of all of them.
proof fn lemma_parse_frames_error(lines: Seq<Seq<char>>, frames: u16, k: int)
    requires
        0 <= k <= lines.len(),
        spec_parse_frames(lines.take(k), frames) is Err,
    ensures
        spec_parse_frames(lines, frames) == spec_parse_frames(lines.take(k), frames),
    decreases lines.len() - k,
{
    if k < lines.len() {
        assert(lines.drop_last().take(k) =~= lines.take(k));
        lemma_parse_frames_error(lines.drop_last(), frames, k);
    } else {
        assert(lines.take(k) =~= lines);
    }
}

impl AnimationSet {
    fn finish_section(&mut self, section: &String, state: &SectionState) -> (r: Result<(), FlareError>)
        ensures
            match spec_finish_section(old(self)@, section@, state@) {
                Ok(s) => r is Ok && final(self)@ == s,
                Err(e) => r matches Err(x) && x@ == e,
            },
    {
        let animation_type = match state.animation_type {
            Some(t) => t,
            None => AnimationType::PlayOnce,
        };
        let mut active_frames: Vec<i16> = state.active_frames.clone();
        if state.active_all {
            active_frames = Vec::new();
            active_frames.push(-1);
            assert(active_frames@ =~= seq![-1i16]);
        }
        let frame_data = if state.compressed {
            match parse_frames(&state.frame_lines, state.frames) {
                Ok(fs) => fs,
                Err(e) => return Err(e),
            }
        } else {
            match self.render_size {
                Some(rs) => {
                    let id = if self.image_order.len() > 0 {
                        self.image_order[0].clone()
                    } else {
                        String::new()
                    };
                    grid_frames(rs, state.position, state.frames, self.render_offset, &id)
                },
                None => {
                    let head = message("uncompressed animation '", &chars_of(section.as_str()));
                    let tail = chars_of(head.as_str());
                    let m = crate::value::message_after(&tail, "' requires global render_size");
                    return Err(FlareError::Other(m));
                },
            }
        };
        let a = Animation {
            name: section.clone(),
            animation_type,
            frames: state.frames,
            duration_ms: state.duration_ms,
            position: state.position,
            blend_mode: self.blend_mode,
            alpha_mod: self.alpha_mod,
            color_mod: self.color_mod,
            active_frames,
            active_sub_frame: state.active_sub_frame,
            compressed: state.compressed,
            frame_data,
        };
        proof {
            assert(animations_view(self.animations@.push(a)) =~= animations_view(self.animations@).push(a@));
        }
        self.animations.push(a);
        Ok(())
    }
}

} // verus!

verus! {

/// The effect of a key of the global (empty) section on the set.
pub open spec fn spec_global_key(set: AnimSetV, key: Seq<char>, value: Seq<char>) -> Result<
    AnimSetV,
    ErrorV,
> {
    if key == "image"@ {
        let path = token_or_empty(spec_pop_token(value).0);
        let id = token_or_empty(spec_pop_token(spec_pop_token(value).1).0);
        let k = if id.len() == 0 {
            path
        } else {
            id
        };
        Ok(insert_image(set, k, path))
    } else if key == "render_size"@ {
        match spec_parse_point(value) {
            Ok(p) => Ok(AnimSetV { render_size: Some(p), ..set }),
            Err(e) => Err(e),
        }
    } else if key == "render_offset"@ {
        match spec_parse_point(value) {
            Ok(p) => Ok(AnimSetV { render_offset: p, ..set }),
            Err(e) => Err(e),
        }
    } else if key == "blend_mode"@ {
        match spec_parse_blend_mode(value) {
            Ok(b) => Ok(AnimSetV { blend_mode: b, ..set }),
            Err(e) => Err(e),
        }
    } else if key == "alpha_mod"@ {
        match spec_parse_int(value) {
            Ok(v) => Ok(AnimSetV { alpha_mod: v as u8, ..set }),
            Err(e) => Err(e),
        }
    } else if key == "color_mod"@ {
        match crate::value::spec_parse_color_rgb(value) {
            Ok(c) => Ok(AnimSetV { color_mod: c, ..set }),
            Err(e) => Err(e),
        }
    } else {
        Ok(set)
    }
}

/// The effect of a key inside an animation section on its state.
pub open spec fn spec_section_key(st: SectionV, key: Seq<char>, value: Seq<char>) -> Result<
    SectionV,
    ErrorV,
> {
    if key == "position"@ {
        match spec_parse_int(value) {
            Ok(v) => Ok(SectionV { position: v as u16, ..st }),
            Err(e) => Err(e),
        }
    } else if key == "frames"@ {
        match spec_parse_int(value) {
            Ok(v) => Ok(SectionV { frames: v as u16, ..st }),
            Err(e) => Err(e),
        }
    } else if key == "duration"@ {
        match spec_parse_duration_ms(value) {
            Ok(d) => Ok(SectionV { duration_ms: d, ..st }),
            Err(e) => Err(e),
        }
    } else if key == "type"@ {
        match spec_parse_animation_type(value) {
            Ok(t) => Ok(SectionV { animation_type: Some(t), ..st }),
            Err(e) => Err(e),
        }
    } else if key == "active_frame"@ {
        let first = token_or_empty(spec_pop_token(value).0);
        if first == "all"@ {
            Ok(SectionV { active_frames: Seq::empty(), active_all: true, ..st })
        } else {
            match spec_parse_int(first) {
                Err(e) => Err(e),
                Ok(x) => match spec_int_list(spec_pop_token(value).1) {
                    Err(e) => Err(e),
                    Ok(rest) => Ok(SectionV { active_frames: seq![x as i16] + rest, ..st }),
                },
            }
        }
    } else if key == "active_sub_frame"@ {
        match spec_parse_active_sub_frame(value) {
            Ok(a) => Ok(SectionV { active_sub_frame: a, ..st }),
            Err(e) => Err(e),
        }
    } else if key == "frame"@ {
        Ok(SectionV { compressed: true, frame_lines: st.frame_lines.push(value), ..st })
    } else {
        Ok(st)
    }
}

fn find_image(images: &Vec<(String, String)>, key: &String) -> (r: Option<usize>)
    ensures
        match r {
            Some(i) => i < images.len() && image_index(images_view(images@), key@) == Some(i as int),
            None => image_index(images_view(images@), key@) is None,
        },
{
    let ghost keys = image_keys(images_view(images@));
    let mut i: usize = 0;
    while i < images.len()
        invariant
            i <= images.len(),
            keys == image_keys(images_view(images@)),
            keys.len() == images.len(),
            forall|j: int| 0 <= j < images.len() ==> #[trigger] keys[j] == images@[j].0@,
            forall|j: int| 0 <= j < i ==> #[trigger] keys[j] != key@,
        decreases images.len() - i,
    {
        if images[i].0 == *key {
            proof {
                assert(keys[i as int] == key@);
                keys.index_of_first_ensures(key@);
                let k = keys.index_of_first(key@).unwrap();
                assert(!(k < i as int));
                assert(!((i as int) < k));
                assert(keys.index_of_first(key@) == Some(i as int));
                assert(image_index(images_view(images@), key@) == Some(i as int));
            }
            return Some(i);
        }
        i += 1;
    }
    proof {
        keys.index_of_first_ensures(key@);
    }
    None
}

impl AnimationSet {
    fn register_image(&mut self, key: String, path: String)
        ensures
            final(self)@ == insert_image(old(self)@, key@, path@),
    {
        let ghost old_v = self@;
        match find_image(&self.images, &key) {
            Some(i) => {
                self.images.set(i, (key, path));
                proof {
                    assert(self@.images =~= old_v.images.update(i as int, (key@, path@)));
                }
            },
            None => {
                let k2 = key.clone();
                self.images.push((key, path));
                self.image_order.push(k2);
                proof {
                    assert(self@.images =~= old_v.images.push((key@, path@)));
                    assert(self@.image_order =~= old_v.image_order.push(key@));
                }
            },
        }
    }

    fn apply_global(&mut self, key: &[char], value: &[char]) -> (r: Result<(), FlareError>)
        ensures
            match spec_global_key(old(self)@, key@, value@) {
                Ok(s) => r is Ok && final(self)@ == s,
                Err(e) => r matches Err(x) && x@ == e,
            },
    {
        if eq_str(key, "image") {
            let (path, r1) = pop_or_empty(value);
            let (id, _) = pop_or_empty(r1);
            let k = if id.len() == 0 {
                string_of(&path)
            } else {
                string_of(&id)
            };
            self.register_image(k, string_of(&path));
            Ok(())
        } else if eq_str(key, "render_size") {
            match parse_point_chars(value) {
                Ok(p) => {
                    self.render_size = Some(p);
                    Ok(())
                },
                Err(e) => Err(e),
            }
        } else if eq_str(key, "render_offset") {
            match parse_point_chars(value) {
                Ok(p) => {
                    self.render_offset = p;
                    Ok(())
                },
                Err(e) => Err(e),
            }
        } else if eq_str(key, "blend_mode") {
            match parse_blend_mode_chars(value) {
                Ok(b) => {
                    self.blend_mode = b;
                    Ok(())
                },
                Err(e) => Err(e),
            }
        } else if eq_str(key, "alpha_mod") {
            match parse_int_chars(value) {
                Ok(v) => {
                    self.alpha_mod = v as u8;
                    Ok(())
                },
                Err(e) => Err(e),
            }
        } else if eq_str(key, "color_mod") {
            match crate::value::parse_color_rgb_chars(value) {
                Ok(c) => {
                    self.color_mod = c;
                    Ok(())
                },
                Err(e) => Err(e),
            }
        } else {
            Ok(())
        }
    }
}

fn apply_section_key(st: &mut SectionState, key: &[char], value: &[char]) -> (r: Result<(), FlareError>)
    ensures
        match spec_section_key(old(st)@, key@, value@) {
            Ok(s) => r is Ok && final(st)@ == s,
            Err(e) => r matches Err(x) && x@ == e,
        },
{
    if eq_str(key, "position") {
        match parse_int_chars(value) {
            Ok(v) => {
                st.position = v as u16;
                Ok(())
            },
            Err(e) => Err(e),
        }
    } else if eq_str(key, "frames") {
        match parse_int_chars(value) {
            Ok(v) => {
                st.frames = v as u16;
                Ok(())
            },
            Err(e) => Err(e),
        }
    } else if eq_str(key, "duration") {
        match parse_duration_ms_chars(value) {
            Ok(d) => {
                st.duration_ms = d;
                Ok(())
            },
            Err(e) => Err(e),
        }
    } else if eq_str(key, "type") {
        match parse_animation_type_chars(value) {
            Ok(t) => {
                st.animation_type = Some(t);
                Ok(())
            },
            Err(e) => Err(e),
        }
    } else if eq_str(key, "active_frame") {
        let (first, r1) = pop_or_empty(value);
        st.active_frames = Vec::new();
        if eq_str(&first, "all") {
            st.active_all = true;
            assert(st@.active_frames =~= Seq::<i16>::empty());
            Ok(())
        } else {
            match parse_int_chars(&first) {
                Err(e) => Err(e),
                Ok(x) => match int_list(r1) {
                    Err(e) => Err(e),
                    Ok(rest) => {
                        let mut v: Vec<i16> = Vec::new();
                        v.push(x as i16);
                        let mut j: usize = 0;
                        while j < rest.len()
                            invariant
                                j <= rest.len(),
                                v@ == seq![x as i16] + rest@.take(j as int),
                            decreases rest.len() - j,
                        {
                            v.push(rest[j]);
                            j += 1;
                            assert(seq![x as i16] + rest@.take(j as int) =~= (seq![x as i16]
                                + rest@.take(j - 1)).push(rest@[j - 1]));
                        }
                        assert(rest@.take(rest.len() as int) =~= rest@);
                        st.active_frames = v;
                        Ok(())
                    },
                },
            }
        }
    } else if eq_str(key, "active_sub_frame") {
        match parse_active_sub_frame_chars(value) {
            Ok(a) => {
                st.active_sub_frame = a;
                Ok(())
            },
            Err(e) => Err(e),
        }
    } else if eq_str(key, "frame") {
        st.compressed = true;
        let ghost old_lines = st@.frame_lines;
        st.frame_lines.push(string_of(value));
        assert(st@.frame_lines =~= old_lines.push(value@));
        Ok(())
    } else {
        Ok(())
    }
}

} // verus!

verus! {

/// The state of reading an animation file: the set so far, the current
/// section's name and state, and whether no section header was met yet.
pub struct AnimParseV {
    pub set: AnimSetV,
    pub current: Seq<char>,
    pub state: SectionV,
    pub first: bool,
}

/// Reads one entry.
///
/// A section header finishes the section before it (unless it is the first
/// header) and starts a fresh one; the first header names the default
/// animation. Keys of the empty section are global keys; other keys belong to
/// the section they name.
pub open spec fn spec_anim_step(p: AnimParseV, e: EntryV) -> Result<AnimParseV, ErrorV> {
    if e.new_section && e.section.len() > 0 {
        let fin = if !p.first {
            spec_finish_section(p.set, p.current, p.state)
        } else {
            Ok(p.set)
        };
        match fin {
            Err(x) => Err(x),
            Ok(s1) => Ok(
                AnimParseV {
                    set: if s1.default_animation.len() == 0 {
                        AnimSetV { default_animation: e.section, ..s1 }
                    } else {
                        s1
                    },
                    current: e.section,
                    state: fresh_section(),
                    first: false,
                },
            ),
        }
    } else if e.section.len() == 0 {
        match spec_global_key(p.set, e.key, e.value) {
            Err(x) => Err(x),
            Ok(s1) => Ok(AnimParseV { set: s1, ..p }),
        }
    } else {
        match spec_section_key(p.state, e.key, e.value) {
            Err(x) => Err(x),
            Ok(st) => Ok(AnimParseV { current: e.section, state: st, ..p }),
        }
    }
}

/// The state after reading `entries` in order.
pub open spec fn spec_anim_fold(entries: Seq<EntryV>) -> Result<AnimParseV, ErrorV>
    decreases entries.len(),
{
    if entries.len() == 0 {
        Ok(
            AnimParseV {
                set: initial_set(),
                current: Seq::empty(),
                state: fresh_section(),
                first: true,
            },
        )
    } else {
        match spec_anim_fold(entries.drop_last()) {
            Err(e) => Err(e),
            Ok(p) => spec_anim_step(p, entries.last()),
        }
    }
}

/// The result of `AnimationSet::from_entries`: all entries read, the last
/// section finished, and the first animation as default when no section
/// header named one.
pub open spec fn spec_animation_set(entries: Seq<EntryV>) -> Result<AnimSetV, ErrorV> {
    match spec_anim_fold(entries) {
        Err(e) => Err(e),
        Ok(p) => {
            let fin = if p.current.len() > 0 {
                spec_finish_section(p.set, p.current, p.state)
            } else {
                Ok(p.set)
            };
            match fin {
                Err(e) => Err(e),
                Ok(s) => Ok(
                    if s.default_animation.len() == 0 && s.animations.len() > 0 {
                        AnimSetV { default_animation: s.animations[0].name, ..s }
                    } else {
                        s
                    },
                ),
            }
        },
    }
}

/// The result of `AnimationSet::parse_str`.
pub open spec fn spec_animation_set_str(content: Seq<char>) -> Result<AnimSetV, ErrorV> {
    match spec_parse_str(content, "animation.txt"@) {
        Err(e) => Err(e),
        Ok(es) => spec_animation_set(es),
    }
}

proof fn lemma_anim_fold_error(entries: Seq<EntryV>, k: int)
    requires
        0 <= k <= entries.len(),
        spec_anim_fold(entries.take(k)) is Err,
    ensures
        spec_anim_fold(entries) == spec_anim_fold(entries.take(k)),
    decreases entries.len() - k,
{
    if k < entries.len() {
        assert(entries.drop_last().take(k) =~= entries.take(k));
        lemma_anim_fold_error(entries.drop_last(), k);
    } else {
        assert(entries.take(k) =~= entries);
    }
}

impl AnimationSet {
    fn initial() -> (s: Self)
        ensures
            s@ == initial_set(),
    {
        let s = AnimationSet {
            images: Vec::new(),
            image_order: Vec::new(),
            render_size: None,
            render_offset: Point { x: 0, y: 0 },
            blend_mode: BlendMode::Normal,
            alpha_mod: 255,
            color_mod: Color { r: 255, g: 255, b: 255, a: 255 },
            animations: Vec::new(),
            default_animation: String::new(),
        };
        assert(s@.images =~= Seq::<(Seq<char>, Seq<char>)>::empty());
        assert(s@.image_order =~= Seq::<Seq<char>>::empty());
        assert(s@.animations =~= Seq::<AnimationV>::empty());
        s
    }

    /// Builds an animation set from the entries of a definition file.
    pub fn from_entries(entries: &[Entry]) -> (r: Result<Self, FlareError>)
        ensures
            view_result(r) == spec_animation_set(entries_view(entries@)),
            sections_follow_headers(entries_view(entries@)) ==> (r matches Ok(s) ==> {
                &&& animation_names(s@.animations) == headers(entries_view(entries@))
                &&& headers(entries_view(entries@)).len() > 0 ==> s@.default_animation
                    == headers(entries_view(entries@))[0]
                &&& images_wf(s@)
                &&& forall|k: Seq<char>| #[trigger] image_registered(s@.images, k, last_image(entries_view(entries@), k))
            }),
    {
        proof {
            if sections_follow_headers(entries_view(entries@)) {
                lemma_set_sections_and_images(entries_view(entries@));
            }
        }
        let ghost ev = entries_view(entries@);
        let mut set = AnimationSet::initial();
        let mut current = String::new();
        let mut state = SectionState::new();
        let mut first = true;
        let mut i: usize = 0;
        assert(ev.take(0) =~= Seq::<EntryV>::empty());
        while i < entries.len()
            invariant
                i <= entries.len(),
                ev == entries_view(entries@),
                spec_anim_fold(ev.take(i as int)) == Ok::<AnimParseV, ErrorV>(
                    AnimParseV { set: set@, current: current@, state: state@, first },
                ),
            decreases entries.len() - i,
        {
            let e = &entries[i];
            proof {
                assert(ev.take(i + 1).drop_last() =~= ev.take(i as int));
                assert(ev.take(i + 1).last() == e@);
            }
            let step: Result<(), FlareError> = if e.new_section && !e.section.as_str().is_empty() {
                let fin = if !first {
                    set.finish_section(&current, &state)
                } else {
                    Ok(())
                };
                match fin {
                    Err(x) => Err(x),
                    Ok(()) => {
                        first = false;
                        current = e.section.clone();
                        state = SectionState::new();
                        if set.default_animation.as_str().is_empty() {
                            set.default_animation = current.clone();
                        }
                        Ok(())
                    },
                }
            } else if e.section.as_str().is_empty() {
                set.apply_global(&chars_of(e.key.as_str()), &chars_of(e.value.as_str()))
            } else {
                current = e.section.clone();
                apply_section_key(&mut state, &chars_of(e.key.as_str()), &chars_of(e.value.as_str()))
            };
            if let Err(x) = step {
                proof {
                    lemma_anim_fold_error(ev, i + 1);
                }
                return Err(x);
            }
            i += 1;
        }
        assert(ev.take(entries.len() as int) =~= ev);
        if !current.as_str().is_empty() {
            if let Err(x) = set.finish_section(&current, &state) {
                return Err(x);
            }
        }
        if set.default_animation.as_str().is_empty() && set.animations.len() > 0 {
            set.default_animation = set.animations[0].name.clone();
        }
        Ok(set)
    }

    /// Parses an animation definition from text.
    pub fn parse_str(content: &str) -> (r: Result<Self, FlareError>)
        ensures
            view_result(r) == spec_animation_set_str(content@),
            content@.len() < usize::MAX ==> (spec_parse_str(content@, "animation.txt"@) matches Ok(
                es,
            ) ==> (r matches Ok(s) ==> {
                &&& animation_names(s@.animations) == headers(es)
                &&& headers(es).len() > 0 ==> s@.default_animation == headers(es)[0]
                &&& images_wf(s@)
                &&& forall|k: Seq<char>| #[trigger] image_registered(s@.images, k, last_image(es, k))
            })),
    {
        proof {
            if content@.len() < usize::MAX {
                lemma_read_file_sections_and_images(content@, "animation.txt"@);
            }
        }
        match parse_str(content, "animation.txt") {
            Ok(es) => Self::from_entries(es.as_slice()),
            Err(e) => Err(e),
        }
    }
}

} // verus!

verus! {

/// The names of a sequence of animations.
pub open spec fn animation_names(anims: Seq<AnimationV>) -> Seq<Seq<char>> {
    anims.map_values(|a: AnimationV| a.name)
}

/// The position of the first animation called `name`.
pub open spec fn animation_index(anims: Seq<AnimationV>, name: Seq<char>) -> Option<int> {
    animation_names(anims).index_of_first(name)
}

/// The position of the animation that `default_animation` returns.
pub open spec fn default_index(set: AnimSetV) -> Option<int> {
    match animation_index(set.animations, set.default_animation) {
        Some(i) => Some(i),
        None => if set.animations.len() > 0 {
            Some(0)
        } else {
            None
        },
    }
}

/// The path that `image_path` returns: the image registered under `id`, or
/// for an empty `id` the first registered image.
pub open spec fn spec_image_path(set: AnimSetV, id: Seq<char>) -> Option<Seq<char>> {
    let key = if id.len() == 0 {
        if set.image_order.len() > 0 {
            Some(set.image_order[0])
        } else {
            None
        }
    } else {
        Some(id)
    };
    match key {
        None => None,
        Some(k) => match image_index(set.images, k) {
            Some(i) => Some(set.images[i].1),
            None => None,
        },
    }
}

impl AnimationSet {
    fn find_animation(&self, name: &str) -> (r: Option<usize>)
        ensures
            match r {
                Some(i) => i < self.animations.len() && animation_index(self@.animations, name@)
                    == Some(i as int),
                None => animation_index(self@.animations, name@) is None,
            },
    {
        let ghost names = animation_names(self@.animations);
        let mut i: usize = 0;
        while i < self.animations.len()
            invariant
                i <= self.animations.len(),
                names == animation_names(self@.animations),
                names.len() == self.animations.len(),
                forall|j: int| 0 <= j < i ==> #[trigger] names[j] != name@,
            decreases self.animations.len() - i,
        {
            assert(names[i as int] == self.animations@[i as int].name@);
            if eq_str(&chars_of(self.animations[i].name.as_str()), name) {
                proof {
                    names.index_of_first_ensures(name@);
                    let k = names.index_of_first(name@).unwrap();
                    assert(!(k < i as int));
                    assert(!((i as int) < k));
                }
                return Some(i);
            }
            i += 1;
        }
        proof {
            names.index_of_first_ensures(name@);
        }
        None
    }

    /// The first animation called `name`.
    pub fn animation(&self, name: &str) -> (r: Option<&Animation>)
        ensures
            match animation_index(self@.animations, name@) {
                Some(i) => r == Some(&self.animations@[i]),
                None => r is None,
            },
    {
        match self.find_animation(name) {
            Some(i) => Some(&self.animations[i]),
            None => None,
        }
    }

    /// The animation named by `default_animation`, or else the first one.
    pub fn default_animation(&self) -> (r: Option<&Animation>)
        ensures
            match default_index(self@) {
                Some(i) => r == Some(&self.animations@[i]),
                None => r is None,
            },
    {
        match self.find_animation(self.default_animation.as_str()) {
            Some(i) => Some(&self.animations[i]),
            None => if self.animations.len() > 0 {
                Some(&self.animations[0])
            } else {
                None
            },
        }
    }

    /// The path of the image registered under `image_id`; an empty id means the
    /// first registered image.
    pub fn image_path(&self, image_id: &str) -> (r: Option<&str>)
        ensures
            match r {
                Some(p) => spec_image_path(self@, image_id@) == Some(p@),
                None => spec_image_path(self@, image_id@) is None,
            },
    {
        let key = if image_id.is_empty() {
            if self.image_order.len() > 0 {
                self.image_order[0].clone()
            } else {
                return None;
            }
        } else {
            string_of(&chars_of(image_id))
        };
        match find_image(&self.images, &key) {
            Some(i) => Some(self.images[i].1.as_str()),
            None => None,
        }
    }
}

/// The frame keys `(index, direction)` of a sequence of frames.
pub open spec fn frame_keys(fd: Seq<FrameV>) -> Seq<(u16, Direction)> {
    fd.map_values(|f: FrameV| (f.index, f.direction))
}

/// The position of the first frame for `index` facing `direction`.
pub open spec fn frame_position(fd: Seq<FrameV>, index: u16, direction: Direction) -> Option<int> {
    frame_keys(fd).index_of_first((index, direction))
}

impl Animation {
    /// The frame for `index` facing `direction`; the first one if there are several.
    pub fn frame(&self, index: u16, direction: Direction) -> (r: Option<&Frame>)
        ensures
            match frame_position(self@.frame_data, index, direction) {
                Some(i) => r == Some(&self.frame_data@[i]),
                None => r is None,
            },
    {
        let ghost keys = frame_keys(self@.frame_data);
        let mut i: usize = 0;
        while i < self.frame_data.len()
            invariant
                i <= self.frame_data.len(),
                keys == frame_keys(self@.frame_data),
                keys.len() == self.frame_data.len(),
                forall|j: int| 0 <= j < i ==> #[trigger] keys[j] != (index, direction),
            decreases self.frame_data.len() - i,
        {
            let f = &self.frame_data[i];
            assert(keys[i as int] == (f.index, f.direction));
            if f.index == index && f.direction == direction {
                proof {
                    keys.index_of_first_ensures((index, direction));
                    let k = keys.index_of_first((index, direction)).unwrap();
                    assert(!(k < i as int));
                    assert(!((i as int) < k));
                }
                return Some(f);
            }
            i += 1;
        }
        proof {
            keys.index_of_first_ensures((index, direction));
        }
        None
    }
}

} // verus!

verus! {

/// What one call of [`AnimationPlayer::advance_frames`] reports.
#[derive(Debug, Clone, Copy, PartialEq, Eq, Structural)]
pub enum AnimationEvent {
    /// Nothing happened that callers track.
    Nothing,
    Looped,
    ActiveFrame { frame: u16 },
}

/// Playback state of one animation, advanced frame by frame.
///
/// How much time one frame lasts is the caller's business: it hands over how
/// many frame periods have passed.
#[derive(Debug)]
pub struct AnimationPlayer {
    animation: Animation,
    frame_index: u16,
    reverse: bool,
    finished: bool,
    loop_count: u32,
    active_triggered: bool,
}

/// Mathematical model of an [`AnimationPlayer`].
pub struct PlayerV {
    pub animation: AnimationV,
    pub frame_index: u16,
    pub reverse: bool,
    pub finished: bool,
    pub loop_count: u32,
    pub active_triggered: bool,
}

impl View for AnimationPlayer {
    type V = PlayerV;

    closed spec fn view(&self) -> PlayerV {
        PlayerV {
            animation: self.animation@,
            frame_index: self.frame_index,
            reverse: self.reverse,
            finished: self.finished,
            loop_count: self.loop_count,
            active_triggered: self.active_triggered,
        }
    }
}

/// The frame index stays on a frame of the animation.
pub open spec fn frame_in_range(p: PlayerV) -> bool {
    p.frame_index < p.animation.frames || (p.animation.frames == 0 && p.frame_index == 0)
}

/// A player at the start of `animation`.
pub open spec fn start_of(animation: AnimationV) -> PlayerV {
    PlayerV {
        animation,
        frame_index: 0,
        reverse: false,
        finished: false,
        loop_count: 0,
        active_triggered: false,
    }
}

/// One frame period of playback, and whether it completed a loop.
///
/// `play_once` steps forward and finishes on the last frame; `looped` wraps to
/// frame 0, counting a loop; `back_forth` turns around at the last frame and
/// counts a loop when it is back at frame 0 (or at once, for an animation of
/// one frame).
pub open spec fn spec_tick(p: PlayerV) -> (PlayerV, bool) {
    let n = p.animation.frames;
    let f = p.frame_index;
    match p.animation.animation_type {
        AnimationType::PlayOnce => if f + 1 >= n {
            (
                PlayerV {
                    frame_index: if n > 0 {
                        (n - 1) as u16
                    } else {
                        0
                    },
                    finished: true,
                    ..p
                },
                false,
            )
        } else {
            (PlayerV { frame_index: (f + 1) as u16, ..p }, false)
        },
        AnimationType::Looped => {
            let g = ((f + 1) % (n as int)) as u16;
            if g == 0 {
                (PlayerV { frame_index: g, loop_count: p.loop_count.wrapping_add(1), ..p }, true)
            } else {
                (PlayerV { frame_index: g, ..p }, false)
            }
        },
        AnimationType::BackForth => if !p.reverse {
            if f + 1 >= n {
                if n <= 1 {
                    (PlayerV { reverse: true, loop_count: p.loop_count.wrapping_add(1), ..p }, true)
                } else {
                    (PlayerV { reverse: true, ..p }, false)
                }
            } else {
                (PlayerV { frame_index: (f + 1) as u16, ..p }, false)
            }
        } else if f == 0 {
            (PlayerV { reverse: false, loop_count: p.loop_count.wrapping_add(1), ..p }, true)
        } else {
            (PlayerV { frame_index: (f - 1) as u16, ..p }, false)
        },
    }
}

/// Up to `n` frame periods of playback, stopping once finished, and whether any
/// of them completed a loop.
pub open spec fn spec_ticks(p: PlayerV, n: nat) -> (PlayerV, bool)
    decreases n,
{
    if n == 0 || p.finished {
        (p, false)
    } else {
        let (p1, l1) = spec_tick(p);
        let (p2, l2) = spec_ticks(p1, (n - 1) as nat);
        (p2, l1 || l2)
    }
}

/// Whether `frame` is an active frame of the animation (`-1` alone means all).
pub open spec fn spec_is_active_frame(a: AnimationV, frame: u16) -> bool {
    if a.active_frames.len() == 0 {
        false
    } else if a.active_frames.len() == 1 && a.active_frames[0] == -1 {
        true
    } else {
        exists|i: int| 0 <= i < a.active_frames.len() && (a.active_frames[i] as u16) == frame
    }
}

/// The effect of `advance_frames(n)`: nothing for a finished player or an
/// animation without frames or duration; else `n` frame periods, then an
/// active-frame event if the frame changed onto an active frame, else a loop
/// event if a loop was completed.
pub open spec fn spec_advance(p: PlayerV, n: nat) -> (PlayerV, AnimationEvent) {
    if p.finished || p.animation.frames == 0 || p.animation.duration_ms == 0 {
        (p, AnimationEvent::Nothing)
    } else {
        let (q, looped) = spec_ticks(p, n);
        if p.frame_index != q.frame_index && spec_is_active_frame(q.animation, q.frame_index) {
            (PlayerV { active_triggered: true, ..q }, AnimationEvent::ActiveFrame { frame: q.frame_index })
        } else if looped {
            (q, AnimationEvent::Looped)
        } else {
            (q, AnimationEvent::Nothing)
        }
    }
}

impl Clone for AnimationPlayer {
    /// A player in the same state.
    fn clone(&self) -> (r: Self)
        ensures
            r@ == self@,
    {
        proof {
            use_type_invariant(self);
        }
        AnimationPlayer {
            animation: self.animation.clone(),
            frame_index: self.frame_index,
            reverse: self.reverse,
            finished: self.finished,
            loop_count: self.loop_count,
            active_triggered: self.active_triggered,
        }
    }
}

impl AnimationPlayer {
    /// Every player is in a state that playback can reach.
    #[verifier::type_invariant]
    spec fn reachable(self) -> bool {
        player_wf(self@)
    }

    /// A player at the first frame of `animation`.
    pub fn new(animation: Animation) -> (r: Self)
        ensures
            r@ == start_of(animation@),
    {
        AnimationPlayer {
            animation,
            frame_index: 0,
            reverse: false,
            finished: false,
            loop_count: 0,
            active_triggered: false,
        }
    }

    /// Back to the first frame, forward, unfinished, with no loops counted.
    pub fn reset(&mut self)
        ensures
            final(self)@ == start_of(old(self)@.animation),
    {
        proof {
            use_type_invariant(&*self);
        }
        self.finished = false;
        self.frame_index = 0;
        self.reverse = false;
        self.loop_count = 0;
        self.active_triggered = false;
    }

    /// Whether a `play_once` animation has stopped on its last frame.
    pub fn is_finished(&self) -> (r: bool)
        ensures
            r == self@.finished,
            player_wf(self@),
    {
        proof {
            use_type_invariant(self);
        }
        self.finished
    }

    /// How many loops have completed.
    pub fn loop_count(&self) -> (r: u32)
        ensures
            r == self@.loop_count,
    {
        self.loop_count
    }

    /// The current frame index.
    pub fn frame_index(&self) -> (r: u16)
        ensures
            r == self@.frame_index,
            player_wf(self@),
    {
        proof {
            use_type_invariant(self);
        }
        self.frame_index
    }

    /// The animation being played.
    pub fn animation(&self) -> (r: &Animation)
        ensures
            r@ == self@.animation,
    {
        &self.animation
    }

    /// The frame of the current frame index facing `direction`.
    pub fn current_frame(&self, direction: Direction) -> (r: Option<&Frame>)
        ensures
            match frame_position(self@.animation.frame_data, self@.frame_index, direction) {
                Some(i) => r is Some && r->0@ == self@.animation.frame_data[i],
                None => r is None,
            },
    {
        proof {
            frame_keys(self@.animation.frame_data).index_of_first_ensures((self@.frame_index, direction));
        }
        self.animation.frame(self.frame_index, direction)
    }

    fn tick(&mut self) -> (looped: bool)
        requires
            old(self)@.animation.frames > 0,
            !old(self)@.finished,
        ensures
            (final(self)@, looped) == spec_tick(old(self)@),
    {
        proof {
            use_type_invariant(&*self);
        }
        let n = self.animation.frames as u32;
        let f = self.frame_index as u32;
        match self.animation.animation_type {
            AnimationType::PlayOnce => {
                if f + 1 >= n {
                    self.frame_index = (n - 1) as u16;
                    self.finished = true;
                } else {
                    self.frame_index = (f + 1) as u16;
                }
                false
            },
            AnimationType::Looped => {
                let g = ((f + 1) % n) as u16;
                self.frame_index = g;
                if g == 0 {
                    self.loop_count = self.loop_count.wrapping_add(1);
                    true
                } else {
                    false
                }
            },
            AnimationType::BackForth => {
                if !self.reverse {
                    if f + 1 >= n {
                        self.reverse = true;
                        if n <= 1 {
                            self.loop_count = self.loop_count.wrapping_add(1);
                            true
                        } else {
                            false
                        }
                    } else {
                        self.frame_index = (f + 1) as u16;
                        false
                    }
                } else if f == 0 {
                    self.reverse = false;
                    self.loop_count = self.loop_count.wrapping_add(1);
                    true
                } else {
                    self.frame_index = (f - 1) as u16;
                    false
                }
            },
        }
    }

    fn is_active_frame(&self, frame: u16) -> (r: bool)
        ensures
            r == spec_is_active_frame(self@.animation, frame),
    {
        let af = &self.animation.active_frames;
        if af.len() == 0 {
            return false;
        }
        if af.len() == 1 && af[0] == -1 {
            return true;
        }
        let mut i: usize = 0;
        while i < af.len()
            invariant
                i <= af.len(),
                af@ == self@.animation.active_frames,
                forall|j: int| 0 <= j < i ==> (#[trigger] af@[j] as u16) != frame,
            decreases af.len() - i,
        {
            if af[i] as u16 == frame {
                return true;
            }
            i += 1;
        }
        false
    }

    /// Advances playback by `periods` frame periods and reports what happened.
    ///
    /// Whatever the player: it stays in a state that playback can reach, on
    /// the same animation; a finished player reports nothing and does not
    /// move; the loop count does not decrease unless it passes `u32::MAX`;
    /// an active-frame report names the new frame, which differs from the
    /// frame before.
    pub fn advance_frames(&mut self, periods: u64) -> (ev: AnimationEvent)
        ensures
            (final(self)@, ev) == spec_advance(old(self)@, periods as nat),
            player_wf(old(self)@),
            player_wf(final(self)@),
            final(self)@.animation == old(self)@.animation,
            old(self)@.finished ==> ev == AnimationEvent::Nothing && final(self)@ == old(self)@,
            final(self)@.loop_count >= old(self)@.loop_count || old(self)@.loop_count + periods
                > u32::MAX,
            ev matches AnimationEvent::ActiveFrame { frame } ==> frame == final(self)@.frame_index
                && frame != old(self)@.frame_index,
    {
        proof {
            use_type_invariant(&*self);
            if old(self)@.loop_count + periods <= u32::MAX {
                lemma_advance_step(old(self)@, periods as nat);
            } else {
                lemma_advance_keeps_reachable(old(self)@, periods as nat);
            }
        }
        if self.finished || self.animation.frames == 0 || self.animation.duration_ms == 0 {
            return AnimationEvent::Nothing;
        }
        let prev = self.frame_index;
        let ghost start = self@;
        let mut looped = false;
        let mut t: u64 = 0;
        while t < periods && !self.finished
            invariant
                t <= periods,
                player_wf(self@),
                self@.animation == start.animation,
                start.animation.frames > 0,
                spec_ticks(start, periods as nat) == ({
                    let (q, l) = spec_ticks(self@, (periods - t) as nat);
                    (q, looped || l)
                }),
            decreases periods - t,
        {
            proof {
                use_type_invariant(&*self);
            }
            let l = self.tick();
            looped = looped || l;
            t += 1;
        }
        proof {
            use_type_invariant(&*self);
        }
        let f = self.frame_index;
        if prev != f && self.is_active_frame(f) {
            self.active_triggered = true;
            return AnimationEvent::ActiveFrame { frame: f };
        }
        if looped {
            AnimationEvent::Looped
        } else {
            AnimationEvent::Nothing
        }
    }
}

} // verus!

verus! {

/// The playback position of a player: everything but the active-frame flag.
pub open spec fn same_position(p: PlayerV, q: PlayerV) -> bool {
    &&& p.animation == q.animation
    &&& p.frame_index == q.frame_index
    &&& p.reverse == q.reverse
    &&& p.finished == q.finished
    &&& p.loop_count == q.loop_count
}

proof fn lemma_tick_in_range(p: PlayerV)
    requires
        p.animation.frames > 0,
        p.frame_index < p.animation.frames,
    ensures
        spec_tick(p).0.frame_index < p.animation.frames,
        spec_tick(p).0.animation == p.animation,
{
}

proof fn lemma_ticks_in_range(p: PlayerV, n: nat)
    requires
        p.animation.frames > 0,
        p.frame_index < p.animation.frames,
    ensures
        spec_ticks(p, n).0.frame_index < p.animation.frames,
        spec_ticks(p, n).0.animation == p.animation,
    decreases n,
{
    if n > 0 && !p.finished {
        lemma_tick_in_range(p);
        lemma_ticks_in_range(spec_tick(p).0, (n - 1) as nat);
    }
}

proof fn lemma_ticks_follow_position(p: PlayerV, q: PlayerV, n: nat)
    requires
        same_position(p, q),
    ensures
        same_position(spec_ticks(p, n).0, spec_ticks(q, n).0),
        spec_ticks(p, n).1 == spec_ticks(q, n).1,
    decreases n,
{
    if n > 0 && !p.finished {
        lemma_ticks_follow_position(spec_tick(p).0, spec_tick(q).0, (n - 1) as nat);
    }
}

proof fn lemma_ticks_compose(p: PlayerV, a: nat, b: nat)
    ensures
        spec_ticks(spec_ticks(p, a).0, b).0 == spec_ticks(p, a + b).0,
    decreases a,
{
    if a > 0 && !p.finished {
        lemma_ticks_compose(spec_tick(p).0, (a - 1) as nat, b);
        assert((a - 1) as nat + b == (a + b - 1) as nat);
    }
}

/// Playback keeps the frame index on a frame of the animation.
pub proof fn lemma_advance_keeps_frame_in_range(p: PlayerV, n: nat)
    requires
        frame_in_range(p),
    ensures
        frame_in_range(spec_advance(p, n).0),
        spec_advance(p, n).0.animation == p.animation,
{
    if !(p.finished || p.animation.frames == 0 || p.animation.duration_ms == 0) {
        lemma_ticks_in_range(p, n);
    }
}

/// A finished player stays as it is and reports nothing.
pub proof fn lemma_finished_stays(p: PlayerV, n: nat)
    requires
        p.finished,
    ensures
        spec_advance(p, n) == (p, AnimationEvent::Nothing),
{
}

/// Advancing by no frame period changes nothing and reports nothing.
pub proof fn lemma_advance_zero(p: PlayerV)
    ensures
        spec_advance(p, 0) == (p, AnimationEvent::Nothing),
{
}

/// Advancing by `a` and then by `b` frame periods reaches the same playback
/// position as advancing by `a + b` at once.
pub proof fn lemma_advance_compose(p: PlayerV, a: nat, b: nat)
    ensures
        same_position(spec_advance(spec_advance(p, a).0, b).0, spec_advance(p, a + b).0),
{
    if !(p.finished || p.animation.frames == 0 || p.animation.duration_ms == 0) {
        let t = spec_ticks(p, a).0;
        let q = spec_advance(p, a).0;
        lemma_ticks_compose(p, a, b);
        lemma_ticks_follow_position(t, q, b);
        assert(same_position(t, q));
        lemma_ticks_in_range_animation(p, a);
        if !q.finished {
            assert(same_position(spec_advance(q, b).0, spec_ticks(q, b).0));
        }
    }
}

proof fn lemma_ticks_in_range_animation(p: PlayerV, n: nat)
    ensures
        spec_ticks(p, n).0.animation == p.animation,
    decreases n,
{
    if n > 0 && !p.finished {
        lemma_ticks_in_range_animation(spec_tick(p).0, (n - 1) as nat);
    }
}

proof fn lemma_play_once_ticks(p: PlayerV, n: nat)
    requires
        p.animation.animation_type == AnimationType::PlayOnce,
        !p.finished,
        p.frame_index < p.animation.frames,
    ensures
        p.frame_index + n < p.animation.frames ==> spec_ticks(p, n).0 == (PlayerV {
            frame_index: (p.frame_index + n) as u16,
            ..p
        }),
        p.frame_index + n >= p.animation.frames ==> spec_ticks(p, n).0 == (PlayerV {
            frame_index: (p.animation.frames - 1) as u16,
            finished: true,
            ..p
        }),
    decreases n,
{
    if n > 0 {
        let t = spec_tick(p).0;
        if p.frame_index + 1 >= p.animation.frames {
            assert(spec_ticks(t, (n - 1) as nat).0 == t);
        } else {
            lemma_play_once_ticks(t, (n - 1) as nat);
        }
    }
}

/// `play_once` moves one frame forward per frame period and stops, finished,
/// on the last frame.
pub proof fn lemma_play_once_stops_on_last_frame(p: PlayerV, n: nat)
    requires
        p.animation.animation_type == AnimationType::PlayOnce,
        p.animation.duration_ms > 0,
        !p.finished,
        p.frame_index < p.animation.frames,
    ensures
        spec_advance(p, n).0.frame_index == (if p.frame_index + n < p.animation.frames {
            p.frame_index + n
        } else {
            p.animation.frames - 1
        }),
        spec_advance(p, n).0.finished == (p.frame_index + n >= p.animation.frames),
        spec_advance(p, n).0.loop_count == p.loop_count,
{
    lemma_play_once_ticks(p, n);
}

proof fn lemma_looped_ticks(p: PlayerV, n: nat)
    requires
        p.animation.animation_type == AnimationType::Looped,
        !p.finished,
        p.frame_index < p.animation.frames,
    ensures
        spec_ticks(p, n).0.frame_index == (p.frame_index + n) % (p.animation.frames as int),
        !spec_ticks(p, n).0.finished,
        spec_ticks(p, n).0.animation == p.animation,
        spec_ticks(p, n).1 == (p.frame_index + n >= p.animation.frames),
    decreases n,
{
    let m = p.animation.frames as int;
    let f = p.frame_index as int;
    if n == 0 {
        vstd::arithmetic::div_mod::lemma_small_mod(f as nat, m as nat);
    } else {
        let t = spec_tick(p).0;
        lemma_looped_ticks(t, (n - 1) as nat);
        if f + 1 < m {
            vstd::arithmetic::div_mod::lemma_small_mod((f + 1) as nat, m as nat);
            assert(t.frame_index == f + 1);
        } else {
            assert((f + 1) % m == 0) by {
                vstd::arithmetic::div_mod::lemma_mod_add_multiples_vanish(0, m);
            }
            assert(t.frame_index == 0);
            vstd::arithmetic::div_mod::lemma_mod_add_multiples_vanish(n - 1, m);
            assert(f + n == m + (n - 1));
        }
    }
}

/// `looped` moves one frame forward per frame period, wraps to frame 0
/// after the last frame, and never finishes; it reports a completed loop
/// exactly when the periods pass the last frame.
pub proof fn lemma_looped_wraps(p: PlayerV, n: nat)
    requires
        p.animation.animation_type == AnimationType::Looped,
        p.animation.duration_ms > 0,
        !p.finished,
        p.frame_index < p.animation.frames,
    ensures
        spec_advance(p, n).0.frame_index == (p.frame_index + n) % (p.animation.frames as int),
        !spec_advance(p, n).0.finished,
        p.frame_index + n >= p.animation.frames && !spec_is_active_frame(p.animation, spec_advance(
            p,
            n,
        ).0.frame_index) ==> spec_advance(p, n).1 == AnimationEvent::Looped,
{
    lemma_looped_ticks(p, n);
}

/// `back_forth` never finishes and stays on the frames of the animation.
pub proof fn lemma_back_forth_never_finishes(p: PlayerV, n: nat)
    requires
        p.animation.animation_type == AnimationType::BackForth,
        !p.finished,
    ensures
        !spec_advance(p, n).0.finished,
{
    lemma_ticks_not_finished(p, n);
}

proof fn lemma_ticks_not_finished(p: PlayerV, n: nat)
    requires
        p.animation.animation_type != AnimationType::PlayOnce,
        !p.finished,
    ensures
        !spec_ticks(p, n).0.finished,
        spec_ticks(p, n).0.animation == p.animation,
    decreases n,
{
    if n > 0 {
        lemma_ticks_not_finished(spec_tick(p).0, (n - 1) as nat);
    }
}

} // verus!

verus! {

/// The image registry of a set: no id occurs twice, and `image_order` lists
/// the ids in the order in which they were first registered.
pub open spec fn images_wf(set: AnimSetV) -> bool {
    &&& image_keys(set.images).no_duplicates()
    &&& set.image_order == image_keys(set.images)
}

/// Registering an image keeps the registry free of duplicate ids.
pub proof fn lemma_insert_image_wf(set: AnimSetV, key: Seq<char>, path: Seq<char>)
    requires
        images_wf(set),
    ensures
        images_wf(insert_image(set, key, path)),
        image_index(insert_image(set, key, path).images, key) is Some,
{
    let keys = image_keys(set.images);
    keys.index_of_first_ensures(key);
    let s2 = insert_image(set, key, path);
    match image_index(set.images, key) {
        Some(i) => {
            assert(image_keys(s2.images) =~= keys);
        },
        None => {
            assert(image_keys(s2.images) =~= keys.push(key));
            assert forall|a: int, b: int|
                0 <= a < keys.push(key).len() && 0 <= b < keys.push(key).len() && a != b implies keys.push(
                key,
            )[a] != keys.push(key)[b] by {
                if a < keys.len() && b < keys.len() {
                } else if a < keys.len() {
                    assert(keys[a] != key);
                } else {
                    assert(keys[b] != key);
                }
            }
        },
    }
    let k2 = image_keys(s2.images);
    match image_index(set.images, key) {
        Some(i) => {
            assert(k2[i] == key);
        },
        None => {
            assert(k2[k2.len() - 1] == key);
        },
    }
    assert(k2.contains(key));
    k2.index_of_first_ensures(key);
}

proof fn lemma_anim_fold_images(entries: Seq<EntryV>)
    ensures
        spec_anim_fold(entries) matches Ok(p) ==> images_wf(p.set),
    decreases entries.len(),
{
    if entries.len() == 0 {
        assert(image_keys(initial_set().images) =~= Seq::<Seq<char>>::empty());
    } else {
        lemma_anim_fold_images(entries.drop_last());
        if let Ok(p) = spec_anim_fold(entries.drop_last()) {
            let e = entries.last();
            if !(e.new_section && e.section.len() > 0) && e.section.len() == 0 && e.key == "image"@ {
                let path = token_or_empty(spec_pop_token(e.value).0);
                let id = token_or_empty(spec_pop_token(spec_pop_token(e.value).1).0);
                let k = if id.len() == 0 {
                    path
                } else {
                    id
                };
                lemma_insert_image_wf(p.set, k, path);
            }
        }
    }
}

/// A set read from a file registers each image id once, and `image_order`
/// lists the ids in the order in which they were first registered.
pub proof fn lemma_read_set_images_wf(entries: Seq<EntryV>)
    ensures
        spec_animation_set(entries) matches Ok(s) ==> images_wf(s),
{
    lemma_anim_fold_images(entries);
}

} // verus!

verus! {

/// The name of the first section header among `entries`, if there is one.
pub open spec fn first_header(entries: Seq<EntryV>) -> Option<Seq<char>>
    decreases entries.len(),
{
    if entries.len() == 0 {
        None
    } else {
        match first_header(entries.drop_last()) {
            Some(t) => Some(t),
            None => if entries.last().new_section && entries.last().section.len() > 0 {
                Some(entries.last().section)
            } else {
                None
            },
        }
    }
}

proof fn lemma_finish_keeps_default(set: AnimSetV, section: Seq<char>, st: SectionV)
    ensures
        spec_finish_section(set, section, st) matches Ok(s) ==> s.default_animation
            == set.default_animation && s.animations.len() == set.animations.len() + 1,
{
}

proof fn lemma_anim_fold_default(entries: Seq<EntryV>)
    ensures
        spec_anim_fold(entries) matches Ok(p) ==> {
            &&& (first_header(entries) is None <==> p.first)
            &&& p.first ==> p.set.default_animation.len() == 0
            &&& first_header(entries) matches Some(t) ==> p.set.default_animation == t && t.len() > 0
        },
    decreases entries.len(),
{
    if entries.len() > 0 {
        lemma_anim_fold_default(entries.drop_last());
        if let Ok(p) = spec_anim_fold(entries.drop_last()) {
            lemma_finish_keeps_default(p.set, p.current, p.state);
        }
    }
}

/// The first section header of a file names the default animation; a file
/// without one takes its first animation, if any, as the default.
pub proof fn lemma_default_is_first_section(entries: Seq<EntryV>)
    ensures
        spec_animation_set(entries) matches Ok(s) ==> match first_header(entries) {
            Some(t) => s.default_animation == t,
            None => s.default_animation == (if s.animations.len() > 0 {
                s.animations[0].name
            } else {
                Seq::empty()
            }),
        },
{
    lemma_anim_fold_default(entries);
    if let Ok(p) = spec_anim_fold(entries) {
        lemma_finish_keeps_default(p.set, p.current, p.state);
    }
}

} // verus!

verus! {

/// In the uncompressed layout each frame index below `frames` has exactly
/// one frame per direction, found by [`Animation::frame`]: the grid cell at
/// column `position + index` and row `direction`, with the global render
/// offset and the first registered image.
pub proof fn lemma_grid_layout(
    render_size: Point,
    position: u16,
    frames: u16,
    offset: Point,
    image_id: Seq<char>,
    index: u16,
    d: int,
)
    requires
        index < frames,
        0 <= d < 8,
    ensures
        ({
            let g = spec_grid_frames(render_size, position, frames, offset, image_id);
            let k = index * 8 + d;
            &&& g.len() == frames * 8
            &&& frame_position(g, index, dir_of_index(d)->0) == Some(k)
            &&& g[k].src == (Rect {
                x: render_size.x.wrapping_mul((position + index) as i32),
                y: render_size.y.wrapping_mul(d as i32),
                w: render_size.x,
                h: render_size.y,
            })
            &&& g[k].offset == offset
            &&& g[k].image_id == image_id
        }),
{
    let g = spec_grid_frames(render_size, position, frames, offset, image_id);
    let keys = frame_keys(g);
    let dir = dir_of_index(d)->0;
    let k = index * 8 + d;
    assert(0 <= k < frames * 8) by (nonlinear_arith)
        requires
            0 <= index < frames,
            0 <= d < 8,
            k == index * 8 + d,
    ;
    vstd::arithmetic::div_mod::lemma_fundamental_div_mod_converse_div(k, 8, index as int, d);
    vstd::arithmetic::div_mod::lemma_fundamental_div_mod_converse_mod(k, 8, index as int, d);
    assert(keys[k] == (index, dir));
    keys.index_of_first_ensures((index, dir));
    let m = keys.index_of_first((index, dir))->0;
    assert(0 <= m < keys.len());
    assert(keys[m] == (index, dir));
    vstd::arithmetic::div_mod::lemma_fundamental_div_mod(m, 8);
    assert(m / 8 < frames) by (nonlinear_arith)
        requires
            0 <= m < frames * 8,
    ;
    assert(0 <= m % 8 < 8) by {
        vstd::arithmetic::div_mod::lemma_mod_bound(m, 8);
    }
    assert(((m / 8) as u16) as int == m / 8);
    assert(m / 8 == index as int);
    assert(m % 8 == d);
    assert(m == k);
}

} // verus!

verus! {

/// A frame that names no image shows the first registered image.
pub proof fn lemma_unnamed_frame_image(s: AnimSetV)
    requires
        images_wf(s),
        s.images.len() > 0,
    ensures
        spec_image_path(s, Seq::empty()) == Some(s.images[0].1),
{
    let keys = image_keys(s.images);
    assert(keys[0] == s.image_order[0]);
    keys.index_of_first_ensures(keys[0]);
    let m = keys.index_of_first(keys[0])->0;
    assert(!(0 < m));
}

} // verus!

verus! {

/// A player state that playback can reach: the frame lies on the animation,
/// and a finished player is a `play_once` player on its last frame.
pub open spec fn player_wf(p: PlayerV) -> bool {
    &&& frame_in_range(p)
    &&& p.finished ==> p.animation.animation_type == AnimationType::PlayOnce && p.animation.frames > 0
        && p.frame_index == p.animation.frames - 1
}

/// A new or reset player is in a state that playback can reach.
pub proof fn lemma_start_wf(animation: AnimationV)
    ensures
        player_wf(start_of(animation)),
{
}

proof fn lemma_ticks_wf(p: PlayerV, n: nat)
    requires
        player_wf(p),
        p.animation.frames > 0,
        p.loop_count + n <= u32::MAX,
    ensures
        player_wf(spec_ticks(p, n).0),
        spec_ticks(p, n).0.animation == p.animation,
        p.loop_count <= spec_ticks(p, n).0.loop_count <= p.loop_count + n,
    decreases n,
{
    if n > 0 && !p.finished {
        let t = spec_tick(p).0;
        assert(p.loop_count <= t.loop_count <= p.loop_count + 1);
        assert(player_wf(t));
        lemma_ticks_wf(t, (n - 1) as nat);
    }
}

proof fn lemma_ticks_reachable(p: PlayerV, n: nat)
    requires
        player_wf(p),
        p.animation.frames > 0,
    ensures
        player_wf(spec_ticks(p, n).0),
        spec_ticks(p, n).0.animation == p.animation,
    decreases n,
{
    if n > 0 && !p.finished {
        lemma_ticks_reachable(spec_tick(p).0, (n - 1) as nat);
    }
}

/// Playback keeps a player in a state that playback can reach.
pub proof fn lemma_advance_keeps_reachable(p: PlayerV, n: nat)
    requires
        player_wf(p),
    ensures
        player_wf(spec_advance(p, n).0),
        spec_advance(p, n).0.animation == p.animation,
        p.finished ==> spec_advance(p, n) == (p, AnimationEvent::Nothing),
        spec_advance(p, n).1 matches AnimationEvent::ActiveFrame { frame } ==> frame
            == spec_advance(p, n).0.frame_index && frame != p.frame_index,
{
    if !(p.finished || p.animation.frames == 0 || p.animation.duration_ms == 0) {
        lemma_ticks_reachable(p, n);
    }
}

/// What every call of `advance_frames` keeps (every player's model meets
/// `player_wf`, the type invariant of `AnimationPlayer`): the player stays in a
/// reachable state on the same animation; a finished player reports nothing
/// and does not move; the loop count never decreases (below `u32::MAX`); an
/// active-frame report names the new frame, which differs from the old one.
pub proof fn lemma_advance_step(p: PlayerV, n: nat)
    requires
        player_wf(p),
        p.loop_count + n <= u32::MAX,
    ensures
        player_wf(spec_advance(p, n).0),
        spec_advance(p, n).0.animation == p.animation,
        p.finished ==> spec_advance(p, n) == (p, AnimationEvent::Nothing),
        spec_advance(p, n).0.loop_count >= p.loop_count,
        spec_advance(p, n).1 matches AnimationEvent::ActiveFrame { frame } ==> frame
            == spec_advance(p, n).0.frame_index && frame != p.frame_index,
{
    if !(p.finished || p.animation.frames == 0 || p.animation.duration_ms == 0) {
        lemma_ticks_wf(p, n);
    }
}

} // verus!

verus! {

/// The titles of the section headers among `entries`, in order (headers
/// with an empty title open no animation).
pub open spec fn headers(entries: Seq<EntryV>) -> Seq<Seq<char>>
    decreases entries.len(),
{
    if entries.len() == 0 {
        Seq::empty()
    } else if entries.last().new_section && entries.last().section.len() > 0 {
        headers(entries.drop_last()).push(entries.last().section)
    } else {
        headers(entries.drop_last())
    }
}

/// Every entry that is not a header and names a section lies in the
/// section of the last header before it.
pub open spec fn sections_follow_headers(entries: Seq<EntryV>) -> bool {
    forall|i: int|
        0 <= i < entries.len() && !entries[i].new_section && entries[i].section.len() > 0 ==> {
            &&& headers(#[trigger] entries.take(i)).len() > 0
            &&& entries[i].section == headers(entries.take(i)).last()
        }
}

/// The key under which an `image=` value registers its path: its id, or the
/// path when it names none.
pub open spec fn image_line_key(value: Seq<char>) -> Seq<char> {
    let path = token_or_empty(spec_pop_token(value).0);
    let id = token_or_empty(spec_pop_token(spec_pop_token(value).1).0);
    if id.len() == 0 {
        path
    } else {
        id
    }
}

/// The path of the last `image=` line of the empty section registered under
/// `key`.
pub open spec fn last_image(entries: Seq<EntryV>, key: Seq<char>) -> Option<Seq<char>>
    decreases entries.len(),
{
    if entries.len() == 0 {
        None
    } else {
        let e = entries.last();
        if e.section.len() == 0 && e.key == "image"@ && image_line_key(e.value) == key {
            Some(token_or_empty(spec_pop_token(e.value).0))
        } else {
            last_image(entries.drop_last(), key)
        }
    }
}

/// Where image `k` is registered, and with which path.
pub open spec fn image_registered(images: Seq<(Seq<char>, Seq<char>)>, k: Seq<char>, path: Option<Seq<char>>) -> bool {
    match path {
        Some(p) => image_index(images, k) matches Some(i) && images[i].1 == p,
        None => image_index(images, k) is None,
    }
}

proof fn lemma_push_index_of_first(s: Seq<Seq<char>>, x: Seq<char>, k: Seq<char>)
    requires
        k != x,
    ensures
        s.push(x).index_of_first(k) == s.index_of_first(k),
{
    s.index_of_first_ensures(k);
    s.push(x).index_of_first_ensures(k);
    if let Some(i) = s.index_of_first(k) {
        assert(s.push(x)[i] == k);
        let j = s.push(x).index_of_first(k)->0;
        assert(!(j < i));
        assert(!(i < j));
    } else {
        if let Some(j) = s.push(x).index_of_first(k) {
            assert(s[j] == k);
        }
    }
}

proof fn lemma_insert_image_registers(set: AnimSetV, key: Seq<char>, path: Seq<char>, k: Seq<char>)
    ensures
        k == key ==> image_registered(insert_image(set, key, path).images, k, Some(path)),
        k != key ==> (image_index(insert_image(set, key, path).images, k) == image_index(set.images, k)
            && forall|q: Option<Seq<char>>|
            #![trigger image_registered(set.images, k, q)]
            image_registered(set.images, k, q) ==> image_registered(
                insert_image(set, key, path).images,
                k,
                q,
            )),
{
    let keys = image_keys(set.images);
    let s2 = insert_image(set, key, path);
    let keys2 = image_keys(s2.images);
    keys.index_of_first_ensures(key);
    match image_index(set.images, key) {
        Some(i) => {
            assert(keys2 =~= keys);
            assert(s2.images[i] == (key, path));
        },
        None => {
            assert(keys2 =~= keys.push(key));
            if k != key {
                lemma_push_index_of_first(keys, key, k);
            } else {
                keys2.index_of_first_ensures(key);
                assert(keys2[keys.len() as int] == key);
                let j = keys2.index_of_first(key)->0;
                assert(!(j < keys.len()));
            }
        },
    }
    if k != key {
        keys.index_of_first_ensures(k);
        match image_index(set.images, k) {
            Some(j) => {
                match image_index(set.images, key) {
                    Some(i) => {
                        assert(keys[i] == key);
                        assert(j != i);
                    },
                    None => {},
                }
            },
            None => {},
        }
    }
}

proof fn lemma_finish_names(set: AnimSetV, section: Seq<char>, st: SectionV)
    ensures
        spec_finish_section(set, section, st) matches Ok(s) ==> animation_names(s.animations)
            == animation_names(set.animations).push(section) && s.images == set.images
            && s.image_order == set.image_order,
{
    if let Ok(s) = spec_finish_section(set, section, st) {
        assert(animation_names(s.animations) =~= animation_names(set.animations).push(section));
    }
}

proof fn lemma_global_keeps_animations(set: AnimSetV, key: Seq<char>, value: Seq<char>)
    ensures
        spec_global_key(set, key, value) matches Ok(s) ==> s.animations == set.animations && (key
            != "image"@ ==> s.images == set.images),
{
}

proof fn lemma_anim_fold_sections(entries: Seq<EntryV>)
    requires
        sections_follow_headers(entries),
    ensures
        spec_anim_fold(entries) matches Ok(p) ==> {
            &&& (p.first <==> headers(entries).len() == 0)
            &&& p.first ==> p.set.animations.len() == 0 && p.current.len() == 0
            &&& !p.first ==> p.current == headers(entries).last() && animation_names(p.set.animations)
                == headers(entries).drop_last()
            &&& forall|k: Seq<char>| #[trigger]
                image_registered(p.set.images, k, last_image(entries, k))
        },
    decreases entries.len(),
{
    if entries.len() == 0 {
        assert forall|k: Seq<char>| #[trigger]
            image_registered(initial_set().images, k, last_image(entries, k)) by {
            image_keys(initial_set().images).index_of_first_ensures(k);
        }
    } else {
        let prev = entries.drop_last();
        assert forall|i: int|
            0 <= i < prev.len() && !prev[i].new_section && prev[i].section.len() > 0 implies {
            &&& headers(#[trigger] prev.take(i)).len() > 0
            &&& prev[i].section == headers(prev.take(i)).last()
        } by {
            assert(prev.take(i) =~= entries.take(i));
            assert(entries[i] == prev[i]);
        }
        lemma_anim_fold_sections(prev);
        let e = entries.last();
        let n = entries.len() - 1;
        assert(entries.take(n) =~= prev);
        if let Ok(p) = spec_anim_fold(prev) {
            lemma_finish_names(p.set, p.current, p.state);
            if e.new_section && e.section.len() > 0 {
                assert(headers(entries) == headers(prev).push(e.section));
                assert(headers(entries).drop_last() =~= headers(prev));
                if !p.first {
                    assert(headers(prev) =~= headers(prev).drop_last().push(headers(prev).last()));
                } else {
                    assert(animation_names(p.set.animations) =~= Seq::<Seq<char>>::empty());
                }
                if let Ok(q) = spec_anim_step(p, e) {
                    assert(q.set.images == p.set.images);
                    assert forall|k: Seq<char>| #[trigger]
                        image_registered(q.set.images, k, last_image(entries, k)) by {
                        assert(image_registered(p.set.images, k, last_image(prev, k)));
                        assert(last_image(entries, k) == last_image(prev, k));
                    }
                }
            } else if e.section.len() == 0 {
                lemma_global_keeps_animations(p.set, e.key, e.value);
                if let Ok(s1) = spec_global_key(p.set, e.key, e.value) {
                    assert forall|k: Seq<char>|
                        #[trigger] image_registered(s1.images, k, last_image(entries, k)) by {
                        assert(image_registered(p.set.images, k, last_image(prev, k)));
                        if e.key == "image"@ {
                            let key = image_line_key(e.value);
                            let path = token_or_empty(spec_pop_token(e.value).0);
                            lemma_insert_image_registers(p.set, key, path, k);
                        }
                    }
                }
            } else {
                assert(!e.new_section);
                assert(headers(entries) == headers(prev));
                if let Ok(q) = spec_anim_step(p, e) {
                    assert(q.set == p.set);
                    assert forall|k: Seq<char>| #[trigger]
                        image_registered(q.set.images, k, last_image(entries, k)) by {
                        assert(image_registered(p.set.images, k, last_image(prev, k)));
                        assert(last_image(entries, k) == last_image(prev, k));
                    }
                }
            }
        }
    }
}

proof fn lemma_headers_nonempty(entries: Seq<EntryV>)
    ensures
        forall|i: int| 0 <= i < headers(entries).len() ==> #[trigger] headers(entries)[i].len() > 0,
    decreases entries.len(),
{
    if entries.len() > 0 {
        let prev = entries.drop_last();
        lemma_headers_nonempty(prev);
        assert forall|i: int| 0 <= i < headers(entries).len() implies #[trigger] headers(entries)[i].len()
            > 0 by {
            if i < headers(prev).len() {
                assert(headers(entries)[i] == headers(prev)[i]);
            }
        }
    }
}

proof fn lemma_first_header_is_first(entries: Seq<EntryV>)
    ensures
        first_header(entries) == (if headers(entries).len() > 0 {
            Some(headers(entries)[0])
        } else {
            None
        }),
    decreases entries.len(),
{
    if entries.len() > 0 {
        lemma_first_header_is_first(entries.drop_last());
    }
}

/// A set read from entries whose sections follow their headers has one
/// animation per section header, named by it, in file order; the first
/// header names the default animation; and every image id is registered
/// once, with the path of the last `image=` line that names it.
pub proof fn lemma_set_sections_and_images(entries: Seq<EntryV>)
    requires
        sections_follow_headers(entries),
    ensures
        spec_animation_set(entries) matches Ok(s) ==> {
            &&& animation_names(s.animations) == headers(entries)
            &&& headers(entries).len() > 0 ==> s.default_animation == headers(entries)[0]
            &&& images_wf(s)
            &&& forall|k: Seq<char>| #[trigger] image_registered(s.images, k, last_image(entries, k))
        },
{
    lemma_anim_fold_sections(entries);
    lemma_read_set_images_wf(entries);
    lemma_default_is_first_section(entries);
    lemma_first_header_is_first(entries);
    lemma_headers_nonempty(entries);
    if let Ok(p) = spec_anim_fold(entries) {
        lemma_finish_names(p.set, p.current, p.state);
        if !p.first {
            let h = headers(entries);
            assert(h[h.len() - 1].len() > 0);
            assert(p.current.len() > 0);
            assert(h =~= h.drop_last().push(h.last()));
        } else {
            assert(animation_names(p.set.animations) =~= headers(entries));
        }
    }
}

proof fn lemma_open_section_is_last_header(acc: Seq<EntryV>)
    ensures
        open_section(acc).len() > 0 ==> headers(acc).len() > 0 && open_section(acc) == headers(acc).last(),
    decreases acc.len(),
{
    if acc.len() > 0 {
        lemma_open_section_is_last_header(acc.drop_last());
    }
}

/// The entries of a file have their sections follow their headers.
pub proof fn lemma_parsed_sections_follow_headers(content: Seq<char>, source: Seq<char>)
    requires
        content.len() < usize::MAX,
    ensures
        spec_parse_str(content, source) matches Ok(es) ==> sections_follow_headers(es),
{
    crate::parser::lemma_parsed_entries_wf(content, source);
    if let Ok(es) = spec_parse_str(content, source) {
        assert forall|i: int|
            0 <= i < es.len() && !es[i].new_section && es[i].section.len() > 0 implies {
            &&& headers(#[trigger] es.take(i)).len() > 0
            &&& es[i].section == headers(es.take(i)).last()
        } by {
            assert(entry_wf(es, i));
            lemma_open_section_is_last_header(es.take(i));
        }
    }
}

} // verus!

verus! {

/// An animation file that reads: one animation per section header, named by
/// it, in file order; the first header names the default animation; every
/// image id registered once, with the path of its last `image=` line.
pub proof fn lemma_read_file_sections_and_images(content: Seq<char>, source: Seq<char>)
    requires
        content.len() < usize::MAX,
    ensures
        spec_parse_str(content, source) matches Ok(es) ==> (spec_animation_set(es) matches Ok(
            s,
        ) ==> {
            &&& animation_names(s.animations) == headers(es)
            &&& headers(es).len() > 0 ==> s.default_animation == headers(es)[0]
            &&& images_wf(s)
            &&& forall|k: Seq<char>| #[trigger] image_registered(s.images, k, last_image(es, k))
        }),
{
    lemma_parsed_sections_follow_headers(content, source);
    if let Ok(es) = spec_parse_str(content, source) {
        lemma_set_sections_and_images(es);
    }
}

} // verus!

verus! {

/// A frame line `index, direction, x, y, width, height, offset_x, offset_y`
/// whose index lies below the frame count reads as that frame, in that
/// order: the third and fourth tokens are the clip's corner, the fifth its
/// width and the sixth its height, the last two the offset; a ninth token,
/// if any, is the image id.
pub proof fn lemma_frame_line_fields(
    line: Seq<char>,
    frames: u16,
    direction: Direction,
    ints: Seq<i32>,
)
    requires
        ints.len() == 8,
        forall|k: int| 0 <= k < 8 && k != 1 ==> int_token(line, k as nat) == Some(#[trigger] ints[k]),
        0 <= ints[0] < frames,
        token_at(line, 1) matches Some(dt) && spec_parse_direction(dt) == Ok::<Direction, ErrorV>(direction),
    ensures
        spec_parse_frame_line(line, frames) == Ok::<FrameV, ErrorV>(
            FrameV {
                index: ints[0] as u16,
                direction,
                src: Rect { x: ints[2], y: ints[3], w: ints[4], h: ints[5] },
                offset: Point { x: ints[6], y: ints[7] },
                image_id: token_or_empty(token_at(line, 8)),
            },
        ),
{
    assert(rest_after(line, 0) == line);
    assert(int_token(line, 0) == Some(ints[0]));
    lemma_take_int_token(line, 0, ints[0], ErrorV::Other("frame line missing index"@));
    lemma_pop_token_at(line, 1);
    assert(int_token(line, 2) == Some(ints[2]));
    assert(int_token(line, 3) == Some(ints[3]));
    assert(int_token(line, 4) == Some(ints[4]));
    assert(int_token(line, 5) == Some(ints[5]));
    assert(int_token(line, 6) == Some(ints[6]));
    assert(int_token(line, 7) == Some(ints[7]));
    lemma_take_int_token(line, 2, ints[2], ErrorV::Other("frame line missing x"@));
    lemma_take_int_token(line, 3, ints[3], ErrorV::Other("frame line missing y"@));
    lemma_take_int_token(line, 4, ints[4], ErrorV::Other("frame line missing width"@));
    lemma_take_int_token(line, 5, ints[5], ErrorV::Other("frame line missing height"@));
    lemma_take_int_token(line, 6, ints[6], ErrorV::Other("frame line missing offset_x"@));
    lemma_take_int_token(line, 7, ints[7], ErrorV::Other("frame line missing offset_y"@));
    lemma_pop_token_at(line, 8);
}

/// Every frame named in an animation's `active_frame` list is active, and,
/// unless the list is `-1` alone (all frames), no other frame is.
pub proof fn lemma_listed_frames_are_active(a: AnimationV)
    ensures
        forall|i: int| 0 <= i < a.active_frames.len() ==> spec_is_active_frame(a, #[trigger] a.active_frames[i] as u16),
        !(a.active_frames.len() == 1 && a.active_frames[0] == -1) ==> forall|frame: u16|
            (forall|i: int| 0 <= i < a.active_frames.len() ==> #[trigger] a.active_frames[i] as u16 != frame)
            ==> !spec_is_active_frame(a, frame),
{
}

/// Playback that moves a player onto a frame named in its animation's
/// `active_frame` list reports that frame as active.
pub proof fn lemma_moving_onto_listed_frame_reports_it(p: PlayerV, n: nat, i: int)
    requires
        !p.finished,
        p.animation.frames > 0,
        p.animation.duration_ms > 0,
        0 <= i < p.animation.active_frames.len(),
        spec_ticks(p, n).0.frame_index != p.frame_index,
        p.animation.active_frames[i] as u16 == spec_ticks(p, n).0.frame_index,
    ensures
        spec_advance(p, n).1 == (AnimationEvent::ActiveFrame { frame: p.animation.active_frames[i] as u16 }),
{
    lemma_ticks_in_range_animation(p, n);
    lemma_listed_frames_are_active(p.animation);
}

proof fn lemma_back_forth_forward(p: PlayerV, j: nat)
    requires
        p.animation.animation_type == AnimationType::BackForth,
        !p.finished,
        !p.reverse,
        p.frame_index + j < p.animation.frames,
    ensures
        spec_ticks(p, j) == (PlayerV { frame_index: (p.frame_index + j) as u16, ..p }, false),
    decreases j,
{
    if j > 0 {
        let t = spec_tick(p).0;
        lemma_back_forth_forward(t, (j - 1) as nat);
        assert(PlayerV { frame_index: (t.frame_index + (j - 1)) as u16, ..t } == PlayerV {
            frame_index: (p.frame_index + j) as u16,
            ..p
        });
    } else {
        assert(PlayerV { frame_index: (p.frame_index + j) as u16, ..p } == p);
    }
}

proof fn lemma_back_forth_backward(p: PlayerV, j: nat)
    requires
        p.animation.animation_type == AnimationType::BackForth,
        !p.finished,
        p.reverse,
        j <= p.frame_index,
    ensures
        spec_ticks(p, j) == (PlayerV { frame_index: (p.frame_index - j) as u16, ..p }, false),
    decreases j,
{
    if j > 0 {
        let t = spec_tick(p).0;
        lemma_back_forth_backward(t, (j - 1) as nat);
        assert(PlayerV { frame_index: (t.frame_index - (j - 1)) as u16, ..t } == PlayerV {
            frame_index: (p.frame_index - j) as u16,
            ..p
        });
    } else {
        assert(PlayerV { frame_index: (p.frame_index - j) as u16, ..p } == p);
    }
}

/// A `back_forth` animation of `n >= 2` frames, started at frame 0 going
/// forward, shows frame `k` after `k < n` periods, turns on the last frame
/// and shows frame `2n - 1 - k` after `n <= k < 2n` periods, and after `2n`
/// periods is back at frame 0 going forward with one more loop counted.
pub proof fn lemma_back_forth_cycle(p: PlayerV, k: nat)
    requires
        p.animation.animation_type == AnimationType::BackForth,
        p.animation.duration_ms > 0,
        p.animation.frames >= 2,
        !p.finished,
        !p.reverse,
        p.frame_index == 0,
        k <= 2 * p.animation.frames,
    ensures
        ({
            let n = p.animation.frames as int;
            let q = spec_advance(p, k).0;
            &&& q.frame_index == (if k < n {
                k as int
            } else if k < 2 * n {
                2 * n - 1 - k
            } else {
                0
            })
            &&& q.reverse == (n <= k < 2 * n)
            &&& !q.finished
            &&& q.loop_count == (if k == 2 * n {
                p.loop_count.wrapping_add(1)
            } else {
                p.loop_count
            })
        }),
{
    let n = p.animation.frames as int;
    if k < n {
        lemma_back_forth_forward(p, k);
    } else {
        lemma_back_forth_forward(p, (n - 1) as nat);
        let q1 = spec_ticks(p, (n - 1) as nat).0;
        assert(q1.frame_index == n - 1);
        let q2 = spec_tick(q1).0;
        assert(q2 == PlayerV { reverse: true, ..q1 });
        let m = (k - n) as nat;
        lemma_ticks_compose(p, (n - 1) as nat, (m + 1) as nat);
        assert((n - 1) as nat + (m + 1) as nat == k);
        assert(spec_ticks(q1, (m + 1) as nat).0 == spec_ticks(q2, m).0);
        if k < 2 * n {
            lemma_back_forth_backward(q2, m);
        } else {
            lemma_back_forth_backward(q2, (n - 1) as nat);
            let q3 = spec_ticks(q2, (n - 1) as nat).0;
            assert(q3.frame_index == 0 && q3.reverse);
            assert(m == n);
            lemma_ticks_compose(q2, (n - 1) as nat, 1);
            assert(spec_ticks(spec_tick(q3).0, 0).0 == spec_tick(q3).0);
            assert(spec_ticks(q3, 1).0 == spec_tick(q3).0);
        }
    }
}

/// Looking up a frame finds the first frame with that index and direction,
/// and finds none exactly when no frame has both.
pub proof fn lemma_frame_lookup(fd: Seq<FrameV>, index: u16, direction: Direction)
    ensures
        match frame_position(fd, index, direction) {
            Some(i) => {
                &&& 0 <= i < fd.len()
                &&& fd[i].index == index && fd[i].direction == direction
                &&& forall|j: int| 0 <= j < i ==> !(#[trigger] fd[j].index == index && fd[j].direction == direction)
            },
            None => forall|j: int| 0 <= j < fd.len() ==> !(#[trigger] fd[j].index == index && fd[j].direction
                == direction),
        },
{
    let keys = frame_keys(fd);
    keys.index_of_first_ensures((index, direction));
    match frame_position(fd, index, direction) {
        Some(i) => {
            assert(keys[i] == (fd[i].index, fd[i].direction));
            assert forall|j: int| 0 <= j < i implies !(#[trigger] fd[j].index == index && fd[j].direction
                == direction) by {
                assert(keys[j] == (fd[j].index, fd[j].direction));
            }
        },
        None => {
            assert forall|j: int| 0 <= j < fd.len() implies !(#[trigger] fd[j].index == index
                && fd[j].direction == direction) by {
                assert(keys[j] == (fd[j].index, fd[j].direction));
            }
        },
    }
}

/// Looking up an animation by name finds the first animation of that name,
/// and finds none exactly when no animation has it; looking up an image id
/// likewise finds the first registration of that id.
pub proof fn lemma_name_lookups(anims: Seq<AnimationV>, name: Seq<char>, images: Seq<(Seq<char>, Seq<char>)>)
    ensures
        match animation_index(anims, name) {
            Some(i) => 0 <= i < anims.len() && anims[i].name == name && forall|j: int|
                0 <= j < i ==> (#[trigger] anims[j]).name != name,
            None => forall|j: int| 0 <= j < anims.len() ==> (#[trigger] anims[j]).name != name,
        },
        match image_index(images, name) {
            Some(i) => 0 <= i < images.len() && images[i].0 == name && forall|j: int|
                0 <= j < i ==> (#[trigger] images[j]).0 != name,
            None => forall|j: int| 0 <= j < images.len() ==> (#[trigger] images[j]).0 != name,
        },
{
    let names = animation_names(anims);
    names.index_of_first_ensures(name);
    let keys = image_keys(images);
    keys.index_of_first_ensures(name);
    assert forall|j: int| 0 <= j < anims.len() implies names[j] == (#[trigger] anims[j]).name by {}
    assert forall|j: int| 0 <= j < images.len() implies keys[j] == (#[trigger] images[j]).0 by {}
}

proof fn lemma_int_list_tokens(v: Seq<char>, ints: Seq<i32>)
    requires
        forall|k: int| 0 <= k < ints.len() ==> int_token(v, k as nat) == Some(#[trigger] ints[k]),
        token_at(v, ints.len()) is None,
    ensures
        spec_int_list(v) == Ok::<Seq<i16>, ErrorV>(ints.map_values(|x: i32| x as i16)),
    decreases ints.len(),
{
    assert(rest_after(v, 0) == v);
    lemma_pop_token_at(v, 0);
    if ints.len() == 0 {
        assert(ints.map_values(|x: i32| x as i16) =~= Seq::<i16>::empty());
    } else {
        let rest = rest_after(v, 1);
        let tail = ints.drop_first();
        assert forall|k: int| 0 <= k < tail.len() implies int_token(rest, k as nat) == Some(
            #[trigger] tail[k],
        ) by {
            lemma_token_after(v, 1, k as nat);
            assert(int_token(v, (k + 1) as nat) == Some(ints[k + 1]));
        }
        lemma_token_after(v, 1, tail.len());
        assert(1 + tail.len() == ints.len());
        lemma_int_list_tokens(rest, tail);
        assert(int_token(v, 0) == Some(ints[0]));
        assert(ints.map_values(|x: i32| x as i16) =~= seq![ints[0] as i16] + tail.map_values(
            |x: i32| x as i16,
        ));
    }
}

/// `active_frame=f1,f2,...` with integer tokens sets the section's active
/// frames to exactly those frames, in order (each kept as an `i16`).
pub proof fn lemma_active_frame_tokens(st: SectionV, value: Seq<char>, ints: Seq<i32>)
    requires
        ints.len() > 0,
        forall|k: int| 0 <= k < ints.len() ==> int_token(value, k as nat) == Some(#[trigger] ints[k]),
        token_at(value, ints.len()) is None,
    ensures
        spec_section_key(st, "active_frame"@, value) == Ok::<SectionV, ErrorV>(
            SectionV { active_frames: ints.map_values(|x: i32| x as i16), ..st },
        ),
{
    assert(rest_after(value, 0) == value);
    lemma_pop_token_at(value, 0);
    assert(int_token(value, 0) == Some(ints[0]));
    let first = token_at(value, 0)->0;
    reveal_strlit("all");
    if first == "all"@ {
        assert(crate::text::spec_trim(first) == first);
        assert(!crate::value::is_digit(first[0]));
    }
    let rest = rest_after(value, 1);
    let tail = ints.drop_first();
    assert forall|k: int| 0 <= k < tail.len() implies int_token(rest, k as nat) == Some(#[trigger] tail[k]) by {
        lemma_token_after(value, 1, k as nat);
        assert(int_token(value, (k + 1) as nat) == Some(ints[k + 1]));
    }
    lemma_token_after(value, 1, tail.len());
    assert(1 + tail.len() == ints.len());
    lemma_int_list_tokens(rest, tail);
    assert(ints.map_values(|x: i32| x as i16) =~= seq![ints[0] as i16] + tail.map_values(|x: i32| x as i16));
    reveal_strlit("position");
    reveal_strlit("frames");
    reveal_strlit("duration");
    reveal_strlit("type");
    reveal_strlit("active_frame");
    assert("position"@.len() != "active_frame"@.len());
    assert("frames"@.len() != "active_frame"@.len());
    assert("duration"@.len() != "active_frame"@.len());
    assert("type"@.len() != "active_frame"@.len());
}

/// The `frame=` lines of a compressed section read one frame each, in
/// order: they are accepted exactly when every line is, and frame `k` is
/// what line `k` reads as.
pub proof fn lemma_frame_lines_in_order(lines: Seq<Seq<char>>, frames: u16)
    ensures
        spec_parse_frames(lines, frames) is Ok <==> forall|k: int|
            0 <= k < lines.len() ==> (#[trigger] spec_parse_frame_line(lines[k], frames)) is Ok,
        spec_parse_frames(lines, frames) matches Ok(fs) ==> fs.len() == lines.len() && forall|k: int|
            0 <= k < lines.len() ==> spec_parse_frame_line(lines[k], frames) == Ok::<FrameV, ErrorV>(
                #[trigger] fs[k],
            ),
    decreases lines.len(),
{
    if lines.len() > 0 {
        let init = lines.drop_last();
        lemma_frame_lines_in_order(init, frames);
        assert forall|k: int| 0 <= k < init.len() implies init[k] == lines[k] by {}
        if !(spec_parse_frames(lines, frames) is Ok) {
            if spec_parse_frames(init, frames) is Ok {
                assert(!(spec_parse_frame_line(lines[lines.len() - 1], frames) is Ok));
            } else {
                let k = choose|k: int| 0 <= k < init.len() && !(#[trigger] spec_parse_frame_line(init[k], frames) is Ok);
                assert(!(spec_parse_frame_line(lines[k], frames) is Ok));
            }
        }
    }
}

/// A finished section adds one animation after those of the set, named by
/// the section, with the section's frame count, duration and position, its
/// type (`play_once` when none was given), its active frames (`-1` alone
/// for `all`), and the set's blend mode, alpha and colour; a compressed
/// section's frames are those of its `frame=` lines.
pub proof fn lemma_finish_section_fields(set: AnimSetV, section: Seq<char>, st: SectionV)
    ensures
        spec_finish_section(set, section, st) matches Ok(s) ==> {
            let a = s.animations.last();
            &&& s.animations.len() == set.animations.len() + 1
            &&& s.animations.drop_last() == set.animations
            &&& a.name == section
            &&& a.frames == st.frames
            &&& a.duration_ms == st.duration_ms
            &&& a.position == st.position
            &&& a.animation_type == (if st.animation_type is Some { st.animation_type->0 } else { AnimationType::PlayOnce })
            &&& a.active_frames == (if st.active_all { seq![-1i16] } else { st.active_frames })
            &&& a.blend_mode == set.blend_mode && a.alpha_mod == set.alpha_mod && a.color_mod == set.color_mod
            &&& st.compressed ==> spec_parse_frames(st.frame_lines, st.frames) == Ok::<Seq<FrameV>, ErrorV>(a.frame_data)
        },
{
    if let Ok(s) = spec_finish_section(set, section, st) {
        assert(s.animations.drop_last() =~= set.animations);
    }
}

} // verus!
