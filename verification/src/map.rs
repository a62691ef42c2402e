use vstd::prelude::*;

use crate::error::{view_result, ErrorV, FlareError};
use crate::parser::{include_cycles, is_listed, lines_view, names_view};
use crate::text::{
    chars_of, decimal, decimal_chars, eq_str, find_char, message, section_title_chars,
    skip_line_chars, spec_lines, spec_pop_token, spec_section_title, spec_skip_line,
    spec_split_key_value, spec_trim, split_key_value_chars, split_lines, starts_with_str,
    strip_end_all, strip_end_char, string_of, trim_chars,
};
use crate::value::{
    message_after, parse_bool, parse_color_rgba_chars, parse_int_chars, parse_point_chars,
    pop_or_empty, spec_parse_bool, spec_parse_color_rgba, spec_parse_int, spec_parse_point,
    token_or_empty, Color, Point, int_token, lemma_pop_token_at, rest_after, token_at,
    lemma_point_fields, lemma_token_after,
};

verus! {

/// The `[header]` of a map.
///
/// `hero_pos` is the spawn tile as written in the file; the spawn position in
/// map units is the centre of that tile.
#[derive(Debug, Clone, PartialEq, Eq)]
pub struct MapHeader {
    pub title: String,
    pub width: u16,
    pub height: u16,
    pub tileset: String,
    pub music: String,
    pub hero_pos: Option<Point>,
    pub parallax_layers: String,
    pub background_color: Color,
    pub fogofwar: u16,
    pub save_fogofwar: bool,
}

/// Mathematical model of a [`MapHeader`].
pub struct HeaderV {
    pub title: Seq<char>,
    pub width: u16,
    pub height: u16,
    pub tileset: Seq<char>,
    pub music: Seq<char>,
    pub hero_pos: Option<Point>,
    pub parallax_layers: Seq<char>,
    pub background_color: Color,
    pub fogofwar: u16,
    pub save_fogofwar: bool,
}

impl View for MapHeader {
    type V = HeaderV;

    open spec fn view(&self) -> HeaderV {
        HeaderV {
            title: self.title@,
            width: self.width,
            height: self.height,
            tileset: self.tileset@,
            music: self.music@,
            hero_pos: self.hero_pos,
            parallax_layers: self.parallax_layers@,
            background_color: self.background_color,
            fogofwar: self.fogofwar,
            save_fogofwar: self.save_fogofwar,
        }
    }
}

/// The header of a map before any `[header]` key.
pub open spec fn default_header() -> HeaderV {
    HeaderV {
        title: Seq::empty(),
        width: 1,
        height: 1,
        tileset: Seq::empty(),
        music: Seq::empty(),
        hero_pos: None,
        parallax_layers: Seq::empty(),
        background_color: Color { r: 0, g: 0, b: 0, a: 0 },
        fogofwar: 0,
        save_fogofwar: false,
    }
}

impl Default for MapHeader {
    fn default() -> (h: Self)
        ensures
            h@ == default_header(),
    {
        MapHeader {
            title: String::new(),
            width: 1,
            height: 1,
            tileset: String::new(),
            music: String::new(),
            hero_pos: None,
            parallax_layers: String::new(),
            background_color: Color { r: 0, g: 0, b: 0, a: 0 },
            fogofwar: 0,
            save_fogofwar: false,
        }
    }
}

/// A tile layer: rows of tile ids, `data[y][x]`.
#[derive(Debug, Clone, PartialEq, Eq)]
pub struct MapLayer {
    pub name: String,
    pub data: Vec<Vec<u16>>,
}

/// Mathematical model of a [`MapLayer`].
pub struct LayerV {
    pub name: Seq<char>,
    pub data: Seq<Seq<u16>>,
}

/// The model of rows of tile ids.
pub open spec fn rows_view(rows: Seq<Vec<u16>>) -> Seq<Seq<u16>> {
    rows.map_values(|r: Vec<u16>| r@)
}

impl View for MapLayer {
    type V = LayerV;

    open spec fn view(&self) -> LayerV {
        LayerV { name: self.name@, data: rows_view(self.data@) }
    }
}

/// One `key=value` of an entity or event section, kept as written.
#[derive(Debug, Clone, PartialEq, Eq)]
pub struct RawSectionEntry {
    pub key: String,
    pub value: String,
}

/// An `[enemy]`, `[npc]` or `[event]` section, kept as written.
#[derive(Debug, Clone, PartialEq, Eq)]
pub struct RawSection {
    pub name: String,
    pub entries: Vec<RawSectionEntry>,
}

/// Mathematical model of a [`RawSection`].
pub struct RawSectionV {
    pub name: Seq<char>,
    pub entries: Seq<(Seq<char>, Seq<char>)>,
}

impl View for RawSection {
    type V = RawSectionV;

    open spec fn view(&self) -> RawSectionV {
        RawSectionV {
            name: self.name@,
            entries: self.entries@.map_values(|e: RawSectionEntry| (e.key@, e.value@)),
        }
    }
}

/// One line of the `[tilesets]` section (editor metadata).
#[derive(Debug, Clone, PartialEq, Eq)]
pub struct TilesetExportEntry {
    pub path: String,
    pub tile_width: i32,
    pub tile_height: i32,
    pub offset_x: i32,
    pub offset_y: i32,
}

/// Mathematical model of a [`TilesetExportEntry`].
pub struct ExportV {
    pub path: Seq<char>,
    pub tile_width: i32,
    pub tile_height: i32,
    pub offset_x: i32,
    pub offset_y: i32,
}

impl View for TilesetExportEntry {
    type V = ExportV;

    open spec fn view(&self) -> ExportV {
        ExportV {
            path: self.path@,
            tile_width: self.tile_width,
            tile_height: self.tile_height,
            offset_x: self.offset_x,
            offset_y: self.offset_y,
        }
    }
}

/// A parsed map.
#[derive(Debug, Clone, PartialEq, Eq)]
pub struct FlareMap {
    pub header: MapHeader,
    pub tileset_exports: Vec<TilesetExportEntry>,
    pub layers: Vec<MapLayer>,
    pub raw_sections: Vec<RawSection>,
}

/// Mathematical model of a [`FlareMap`].
pub struct MapV {
    pub header: HeaderV,
    pub tileset_exports: Seq<ExportV>,
    pub layers: Seq<LayerV>,
    pub raw_sections: Seq<RawSectionV>,
}

/// The models of a sequence of layers.
pub open spec fn layers_view(v: Seq<MapLayer>) -> Seq<LayerV> {
    v.map_values(|l: MapLayer| l@)
}

impl View for FlareMap {
    type V = MapV;

    open spec fn view(&self) -> MapV {
        MapV {
            header: self.header@,
            tileset_exports: self.tileset_exports@.map_values(|e: TilesetExportEntry| e@),
            layers: layers_view(self.layers@),
            raw_sections: self.raw_sections@.map_values(|r: RawSection| r@),
        }
    }
}

/// A parsed integer raised to at least 1.
pub open spec fn at_least_one(v: i32) -> i32 {
    if v < 1 {
        1
    } else {
        v
    }
}

/// The effect of one `[header]` key. Widths and heights are raised to at least
/// 1; numbers are kept modulo 2^16 where the field is 16 bits wide.
pub open spec fn spec_apply_header(h: HeaderV, key: Seq<char>, value: Seq<char>) -> Result<
    HeaderV,
    ErrorV,
> {
    if key == "title"@ {
        Ok(HeaderV { title: value, ..h })
    } else if key == "width"@ {
        match spec_parse_int(value) {
            Ok(v) => Ok(HeaderV { width: at_least_one(v) as u16, ..h }),
            Err(e) => Err(e),
        }
    } else if key == "height"@ {
        match spec_parse_int(value) {
            Ok(v) => Ok(HeaderV { height: at_least_one(v) as u16, ..h }),
            Err(e) => Err(e),
        }
    } else if key == "tileset"@ {
        Ok(HeaderV { tileset: value, ..h })
    } else if key == "music"@ {
        Ok(HeaderV { music: value, ..h })
    } else if key == "hero_pos"@ {
        match spec_parse_point(value) {
            Ok(p) => Ok(HeaderV { hero_pos: Some(p), ..h }),
            Err(e) => Err(e),
        }
    } else if key == "parallax_layers"@ {
        Ok(HeaderV { parallax_layers: value, ..h })
    } else if key == "background_color"@ {
        match spec_parse_color_rgba(value) {
            Ok(c) => Ok(HeaderV { background_color: c, ..h }),
            Err(e) => Err(e),
        }
    } else if key == "fogofwar"@ {
        match spec_parse_int(value) {
            Ok(v) => Ok(HeaderV { fogofwar: v as u16, ..h }),
            Err(e) => Err(e),
        }
    } else if key == "save_fogofwar"@ {
        Ok(HeaderV { save_fogofwar: spec_parse_bool(value), ..h })
    } else {
        Ok(h)
    }
}

fn apply_header(h: &mut MapHeader, key: &[char], value: &[char]) -> (r: Result<(), FlareError>)
    ensures
        match spec_apply_header(old(h)@, key@, value@) {
            Ok(x) => r is Ok && final(h)@ == x,
            Err(e) => r matches Err(x) && x@ == e,
        },
{
    if eq_str(key, "title") {
        h.title = string_of(value);
        Ok(())
    } else if eq_str(key, "width") {
        match parse_int_chars(value) {
            Ok(v) => {
                h.width = (if v < 1 { 1 } else { v }) as u16;
                Ok(())
            },
            Err(e) => Err(e),
        }
    } else if eq_str(key, "height") {
        match parse_int_chars(value) {
            Ok(v) => {
                h.height = (if v < 1 { 1 } else { v }) as u16;
                Ok(())
            },
            Err(e) => Err(e),
        }
    } else if eq_str(key, "tileset") {
        h.tileset = string_of(value);
        Ok(())
    } else if eq_str(key, "music") {
        h.music = string_of(value);
        Ok(())
    } else if eq_str(key, "hero_pos") {
        match parse_point_chars(value) {
            Ok(p) => {
                h.hero_pos = Some(p);
                Ok(())
            },
            Err(e) => Err(e),
        }
    } else if eq_str(key, "parallax_layers") {
        h.parallax_layers = string_of(value);
        Ok(())
    } else if eq_str(key, "background_color") {
        match parse_color_rgba_chars(value) {
            Ok(c) => {
                h.background_color = c;
                Ok(())
            },
            Err(e) => Err(e),
        }
    } else if eq_str(key, "fogofwar") {
        match parse_int_chars(value) {
            Ok(v) => {
                h.fogofwar = v as u16;
                Ok(())
            },
            Err(e) => Err(e),
        }
    } else if eq_str(key, "save_fogofwar") {
        h.save_fogofwar = parse_bool(string_of(value).as_str());
        Ok(())
    } else {
        Ok(())
    }
}

/// The tile ids of a layer row: the integer tokens, empty tokens passed over,
/// each kept modulo 2^16.
pub open spec fn spec_row_values(v: Seq<char>) -> Result<Seq<u16>, ErrorV>
    decreases v.len(),
{
    match spec_pop_token(v).0 {
        None => Ok(Seq::empty()),
        Some(tok) => {
            proof {
                crate::text::lemma_pop_token_shrinks(v);
            }
            if tok.len() == 0 {
                spec_row_values(spec_pop_token(v).1)
            } else {
                match spec_parse_int(tok) {
                    Err(e) => Err(e),
                    Ok(x) => match spec_row_values(spec_pop_token(v).1) {
                        Err(e) => Err(e),
                        Ok(rest) => Ok(seq![x as u16] + rest),
                    },
                }
            }
        },
    }
}

/// The result of `parse_layer_row`: the row's ids, which must number `width`.
pub open spec fn spec_parse_layer_row(row: Seq<char>, width: u16) -> Result<Seq<u16>, ErrorV> {
    match spec_row_values(row) {
        Err(e) => Err(e),
        Ok(vals) => if vals.len() == width {
            Ok(vals)
        } else {
            Err(
                ErrorV::Other(
                    "layer row width "@ + decimal(vals.len()) + " != map width "@ + decimal(
                        width as nat,
                    ),
                ),
            )
        },
    }
}

fn row_values(v: &[char]) -> (r: Result<Vec<u16>, FlareError>)
    ensures
        match r {
            Ok(xs) => spec_row_values(v@) == Ok::<Seq<u16>, ErrorV>(xs@),
            Err(e) => spec_row_values(v@) == Err::<Seq<u16>, ErrorV>(e@),
        },
{
    let mut out: Vec<u16> = Vec::new();
    let mut rest = v;
    loop
        invariant
            match spec_row_values(v@) {
                Ok(all) => match spec_row_values(rest@) {
                    Ok(tail) => all == out@ + tail,
                    Err(_) => false,
                },
                Err(e) => spec_row_values(rest@) == Err::<Seq<u16>, ErrorV>(e),
            },
        decreases rest@.len(),
    {
        proof {
            crate::text::lemma_pop_token_shrinks(rest@);
        }
        let (tok, r2) = crate::text::pop_token(rest);
        match tok {
            None => {
                assert(out@ + Seq::<u16>::empty() =~= out@);
                return Ok(out);
            },
            Some(t) => {
                if t.len() == 0 {
                    rest = r2;
                } else {
                    match parse_int_chars(&t) {
                        Err(e) => return Err(e),
                        Ok(x) => {
                            proof {
                                if let Ok(all) = spec_row_values(v@) {
                                    let tail = spec_row_values(r2@)->Ok_0;
                                    assert(all == out@ + (seq![x as u16] + tail));
                                    assert(out@.push(x as u16) + tail =~= out@ + (seq![x as u16]
                                        + tail));
                                }
                            }
                            out.push(x as u16);
                            rest = r2;
                        },
                    }
                }
            },
        }
    }
}

/// Parses one data row of a layer, which must hold `width` tile ids.
pub fn parse_layer_row(row: &[char], width: u16) -> (r: Result<Vec<u16>, FlareError>)
    ensures
        match r {
            Ok(xs) => spec_parse_layer_row(row@, width) == Ok::<Seq<u16>, ErrorV>(xs@),
            Err(e) => spec_parse_layer_row(row@, width) == Err::<Seq<u16>, ErrorV>(e@),
        },
{
    let vals = match row_values(row) {
        Ok(v) => v,
        Err(e) => return Err(e),
    };
    if vals.len() == width as usize {
        Ok(vals)
    } else {
        let head = message("layer row width ", &decimal_chars(vals.len() as u64));
        let head = message_after(&chars_of(head.as_str()), " != map width ");
        let m = message(head.as_str(), &decimal_chars(width as u64));
        Err(FlareError::Other(m))
    }
}

/// The effect of one line of the `[tilesets]` section:
/// `path, tile_width, tile_height, offset_x, offset_y`.
pub open spec fn spec_export_line(value: Seq<char>) -> Result<ExportV, ErrorV> {
    let (t1, r1) = spec_pop_token(value);
    let (t2, r2) = spec_pop_token(r1);
    let (t3, r3) = spec_pop_token(r2);
    let (t4, r4) = spec_pop_token(r3);
    let (t5, _) = spec_pop_token(r4);
    match spec_parse_int(token_or_empty(t2)) {
        Err(e) => Err(e),
        Ok(w) => match spec_parse_int(token_or_empty(t3)) {
            Err(e) => Err(e),
            Ok(h) => match spec_parse_int(token_or_empty(t4)) {
                Err(e) => Err(e),
                Ok(ox) => match spec_parse_int(token_or_empty(t5)) {
                    Err(e) => Err(e),
                    Ok(oy) => Ok(
                        ExportV {
                            path: token_or_empty(t1),
                            tile_width: w,
                            tile_height: h,
                            offset_x: ox,
                            offset_y: oy,
                        },
                    ),
                },
            },
        },
    }
}

fn export_line(value: &[char]) -> (r: Result<TilesetExportEntry, FlareError>)
    ensures
        view_result(r) == spec_export_line(value@),
{
    let (path, r1) = pop_or_empty(value);
    let (t2, r2) = pop_or_empty(r1);
    let w = match parse_int_chars(&t2) {
        Ok(v) => v,
        Err(e) => return Err(e),
    };
    let (t3, r3) = pop_or_empty(r2);
    let h = match parse_int_chars(&t3) {
        Ok(v) => v,
        Err(e) => return Err(e),
    };
    let (t4, r4) = pop_or_empty(r3);
    let ox = match parse_int_chars(&t4) {
        Ok(v) => v,
        Err(e) => return Err(e),
    };
    let (t5, _) = pop_or_empty(r4);
    let oy = match parse_int_chars(&t5) {
        Ok(v) => v,
        Err(e) => return Err(e),
    };
    Ok(
        TilesetExportEntry {
            path: string_of(&path),
            tile_width: w,
            tile_height: h,
            offset_x: ox,
            offset_y: oy,
        },
    )
}

} // verus!

verus! {

/// The state of reading a map file line by line.
#[derive(Debug)]
pub struct MapReader {
    pub map: FlareMap,
    pub section: String,
    pub current_layer: Option<MapLayer>,
    pub current_raw: Option<RawSection>,
    pub reading_layer_data: bool,
    pub layer_rows_read: usize,
}

/// Mathematical model of a [`MapReader`].
pub struct MapStateV {
    pub map: MapV,
    pub section: Seq<char>,
    pub layer: Option<LayerV>,
    pub raw: Option<RawSectionV>,
    pub reading: bool,
    pub rows_read: usize,
}

/// The model of an optional layer.
pub open spec fn opt_layer_view(o: Option<MapLayer>) -> Option<LayerV> {
    match o {
        Some(l) => Some(l@),
        None => None,
    }
}

/// The model of an optional raw section.
pub open spec fn opt_raw_view(o: Option<RawSection>) -> Option<RawSectionV> {
    match o {
        Some(r) => Some(r@),
        None => None,
    }
}

impl View for MapReader {
    type V = MapStateV;

    open spec fn view(&self) -> MapStateV {
        MapStateV {
            map: self.map@,
            section: self.section@,
            layer: opt_layer_view(self.current_layer),
            raw: opt_raw_view(self.current_raw),
            reading: self.reading_layer_data,
            rows_read: self.layer_rows_read,
        }
    }
}

/// The row counter stays small: while data rows are read it is below the map
/// height, which is at most 2^16 - 1.
pub open spec fn reader_wf(st: MapStateV) -> bool {
    &&& st.rows_read <= 65536
    &&& st.reading ==> st.rows_read <= 65535
}

/// A map before any line.
pub open spec fn empty_map() -> MapV {
    MapV {
        header: default_header(),
        tileset_exports: Seq::empty(),
        layers: Seq::empty(),
        raw_sections: Seq::empty(),
    }
}

/// The reading state before any line.
pub open spec fn initial_reader() -> MapStateV {
    MapStateV {
        map: empty_map(),
        section: Seq::empty(),
        layer: None,
        raw: None,
        reading: false,
        rows_read: 0,
    }
}

/// Whether a section keeps its entries as raw entity or event data.
pub open spec fn is_raw_section(name: Seq<char>) -> bool {
    name == "enemy"@ || name == "npc"@ || name == "event"@
}

/// The open layer and the open raw section are stored.
pub open spec fn close_open(st: MapStateV) -> MapStateV {
    let m1 = match st.layer {
        Some(l) => MapV { layers: st.map.layers.push(l), ..st.map },
        None => st.map,
    };
    let m2 = match st.raw {
        Some(r) => MapV { raw_sections: m1.raw_sections.push(r), ..m1 },
        None => m1,
    };
    MapStateV { map: m2, layer: None, raw: None, ..st }
}

/// A section header: the open layer and raw section are stored, data rows
/// stop, and an entity or event section opens a raw section.
pub open spec fn spec_section_start(st: MapStateV, title: Seq<char>) -> MapStateV {
    let c = close_open(st);
    MapStateV {
        section: title,
        reading: false,
        raw: if is_raw_section(title) {
            Some(RawSectionV { name: title, entries: Seq::empty() })
        } else {
            None
        },
        ..c
    }
}

/// What one line does to the reading state.
pub enum MapStep {
    Next(MapStateV),
    /// An `INCLUDE` of the path, with the state at the directive.
    Include(MapStateV, Seq<char>),
    Failed(ErrorV),
}

/// A `key=value` line of the current section.
pub open spec fn spec_map_key(
    st: MapStateV,
    key: Seq<char>,
    value: Seq<char>,
    source: Seq<char>,
    ln: usize,
) -> MapStep {
    if st.section == "header"@ {
        match spec_apply_header(st.map.header, key, value) {
            Ok(h) => MapStep::Next(MapStateV { map: MapV { header: h, ..st.map }, ..st }),
            Err(e) => MapStep::Failed(e),
        }
    } else if st.section == "tilesets"@ {
        match spec_export_line(value) {
            Ok(x) => MapStep::Next(
                MapStateV {
                    map: MapV { tileset_exports: st.map.tileset_exports.push(x), ..st.map },
                    ..st
                },
            ),
            Err(e) => MapStep::Failed(e),
        }
    } else if st.section == "layer"@ {
        if key == "type"@ {
            let m = match st.layer {
                Some(l) => MapV { layers: st.map.layers.push(l), ..st.map },
                None => st.map,
            };
            MapStep::Next(
                MapStateV { map: m, layer: Some(LayerV { name: value, data: Seq::empty() }), ..st },
            )
        } else if key == "format"@ && value != "dec"@ {
            MapStep::Failed(
                ErrorV::Parse { file: source, line: ln, message: "layer format must be 'dec'"@ },
            )
        } else if key == "data"@ {
            match st.layer {
                None => MapStep::Failed(
                    ErrorV::Parse { file: source, line: ln, message: "data before layer type"@ },
                ),
                Some(_) => MapStep::Next(MapStateV { reading: true, rows_read: 0, ..st }),
            }
        } else {
            MapStep::Next(st)
        }
    } else if is_raw_section(st.section) {
        match st.raw {
            None => MapStep::Failed(
                ErrorV::Parse { file: source, line: ln, message: "raw section missing"@ },
            ),
            Some(r) => MapStep::Next(
                MapStateV {
                    raw: Some(RawSectionV { entries: r.entries.push((key, value)), ..r }),
                    ..st
                },
            ),
        }
    } else {
        MapStep::Next(st)
    }
}

/// A trimmed line that is neither a header nor a data row.
pub open spec fn spec_map_plain_line(st: MapStateV, t: Seq<char>, source: Seq<char>, ln: usize) -> MapStep {
    if t == "APPEND"@ {
        MapStep::Next(st)
    } else if "INCLUDE "@.len() <= t.len() && t.take("INCLUDE "@.len() as int) == "INCLUDE "@ {
        MapStep::Include(st, spec_trim(t.skip("INCLUDE "@.len() as int)))
    } else {
        match spec_split_key_value(t) {
            None => MapStep::Failed(
                ErrorV::Parse { file: source, line: ln, message: "expected key=value"@ },
            ),
            Some((k, v)) => spec_map_key(st, k, v, source, ln),
        }
    }
}

/// What line number `ln` does to the reading state.
///
/// While data rows are read, a line holding `=` ends them and is then read
/// as an ordinary line; any other line is one row of the open layer, which
/// ends the rows once the map height is reached.
pub open spec fn spec_map_line(st: MapStateV, line: Seq<char>, source: Seq<char>, ln: usize) -> MapStep {
    let t = spec_trim(line);
    if spec_skip_line(line) {
        MapStep::Next(st)
    } else if t[0] == '[' {
        MapStep::Next(spec_section_start(st, spec_section_title(t)))
    } else if st.reading {
        if t.contains('=') {
            spec_map_plain_line(MapStateV { reading: false, ..st }, t, source, ln)
        } else {
            match st.layer {
                None => MapStep::Failed(
                    ErrorV::Parse { file: source, line: ln, message: "layer data without active layer"@ },
                ),
                Some(l) => match spec_parse_layer_row(strip_end_all(t, ','), st.map.header.width) {
                    Err(e) => MapStep::Failed(e),
                    Ok(row) => MapStep::Next(
                        MapStateV {
                            layer: Some(LayerV { data: l.data.push(row), ..l }),
                            rows_read: (st.rows_read + 1) as usize,
                            reading: !(st.rows_read + 1 >= st.map.header.height),
                            ..st
                        },
                    ),
                },
            }
        }
    } else {
        spec_map_plain_line(st, t, source, ln)
    }
}

/// How reading the lines of a map stopped.
pub enum MapScanV {
    Done(MapStateV),
    Include(MapStateV, Seq<char>, int),
    Failed(ErrorV),
}

/// Reads `lines` from index `i` on up to the end, an `INCLUDE`, or an error.
pub open spec fn spec_map_scan(
    lines: Seq<Seq<char>>,
    source: Seq<char>,
    ancestors: Seq<Seq<char>>,
    i: int,
    st: MapStateV,
) -> MapScanV
    decreases lines.len() - i,
{
    if i < 0 || i >= lines.len() {
        MapScanV::Done(st)
    } else {
        match spec_map_line(st, lines[i], source, (i + 1) as usize) {
            MapStep::Next(s2) => spec_map_scan(lines, source, ancestors, i + 1, s2),
            MapStep::Include(s2, p) => if include_cycles(p, source, ancestors) {
                MapScanV::Failed(ErrorV::RecursiveInclude(p))
            } else {
                MapScanV::Include(s2, p, i + 1)
            },
            MapStep::Failed(e) => MapScanV::Failed(e),
        }
    }
}

/// Whether a map has a layer called `collision`.
pub open spec fn has_collision_layer(m: MapV) -> bool {
    exists|i: int| 0 <= i < m.layers.len() && m.layers[i].name == "collision"@
}

/// A `collision` layer of zeros covering the map: `height` rows of `width` ids.
pub open spec fn zero_collision_layer(h: HeaderV) -> LayerV {
    LayerV {
        name: "collision"@,
        data: Seq::new(h.height as nat, |i: int| Seq::new(h.width as nat, |j: int| 0u16)),
    }
}

/// The map with a zero collision layer added when it has none.
pub open spec fn spec_ensure_collision(m: MapV) -> MapV {
    if has_collision_layer(m) {
        m
    } else {
        MapV { layers: m.layers.push(zero_collision_layer(m.header)), ..m }
    }
}

/// The map once every line is read.
pub open spec fn spec_finish(st: MapStateV) -> MapV {
    spec_ensure_collision(close_open(st).map)
}

/// A map read from an included file laid onto the map being read: its header
/// replaces the current one when it names a tileset; its lists are appended.
pub open spec fn spec_merge(st: MapStateV, other: MapV) -> MapStateV {
    MapStateV {
        map: MapV {
            header: if other.header.tileset.len() > 0 {
                other.header
            } else {
                st.map.header
            },
            tileset_exports: st.map.tileset_exports + other.tileset_exports,
            layers: st.map.layers + other.layers,
            raw_sections: st.map.raw_sections + other.raw_sections,
        },
        ..st
    }
}

/// The result of `FlareMap::from_content`, in which no `INCLUDE` can be read.
pub open spec fn spec_map_from_content(content: Seq<char>, source: Seq<char>) -> Result<MapV, ErrorV> {
    match spec_map_scan(spec_lines(content), source, Seq::empty(), 0, initial_reader()) {
        MapScanV::Done(st) => Ok(spec_finish(st)),
        MapScanV::Include(_, p, _) => Err(ErrorV::FileNotFound(p)),
        MapScanV::Failed(e) => Err(e),
    }
}

} // verus!

verus! {

/// Where [`MapReader::scan`] stopped without error.
#[derive(Debug, Clone, PartialEq, Eq)]
pub enum MapScan {
    /// Every line was read.
    Done,
    /// The line before `next_line` includes the map file `path`.
    Include { path: String, next_line: usize },
}

impl FlareMap {
    fn empty() -> (m: Self)
        ensures
            m@ == empty_map(),
    {
        let m = FlareMap {
            header: MapHeader::default(),
            tileset_exports: Vec::new(),
            layers: Vec::new(),
            raw_sections: Vec::new(),
        };
        assert(m@.tileset_exports =~= Seq::<ExportV>::empty());
        assert(m@.layers =~= Seq::<LayerV>::empty());
        assert(m@.raw_sections =~= Seq::<RawSectionV>::empty());
        m
    }
}

impl MapReader {
    /// A reader before the first line.
    pub fn new() -> (r: Self)
        ensures
            r@ == initial_reader(),
            reader_wf(r@),
    {
        MapReader {
            map: FlareMap::empty(),
            section: String::new(),
            current_layer: None,
            current_raw: None,
            reading_layer_data: false,
            layer_rows_read: 0,
        }
    }

    fn close_open(&mut self)
        ensures
            final(self)@ == close_open(old(self)@),
    {
        let ghost st = self@;
        let ghost m1 = match st.layer {
            Some(l) => MapV { layers: st.map.layers.push(l), ..st.map },
            None => st.map,
        };
        if let Some(layer) = self.current_layer.take() {
            proof {
                assert(layers_view(self.map.layers@.push(layer)) =~= layers_view(self.map.layers@).push(layer@));
            }
            self.map.layers.push(layer);
        }
        assert(self@.map == m1);
        if let Some(raw) = self.current_raw.take() {
            let ghost before = self.map.raw_sections@;
            self.map.raw_sections.push(raw);
            assert(self.map.raw_sections@.map_values(|r: RawSection| r@) =~= before.map_values(
                |r: RawSection| r@,
            ).push(raw@));
        }
    }

    fn section_start(&mut self, title: &[char])
        ensures
            final(self)@ == spec_section_start(old(self)@, title@),
    {
        self.close_open();
        self.reading_layer_data = false;
        self.section = string_of(title);
        if eq_str(title, "enemy") || eq_str(title, "npc") || eq_str(title, "event") {
            let r = RawSection { name: string_of(title), entries: Vec::new() };
            assert(r@.entries =~= Seq::<(Seq<char>, Seq<char>)>::empty());
            self.current_raw = Some(r);
        }
    }

    fn map_key(&mut self, key: &[char], value: &[char], source: &str, ln: usize) -> (r: Result<(), FlareError>)
        ensures
            reader_wf(old(self)@) ==> reader_wf(final(self)@),
            match spec_map_key(old(self)@, key@, value@, source@, ln) {
                MapStep::Next(s) => r is Ok && final(self)@ == s,
                MapStep::Include(_, _) => false,
                MapStep::Failed(e) => r matches Err(x) && x@ == e,
            },
    {
        let sec = chars_of(self.section.as_str());
        if eq_str(&sec, "header") {
            apply_header(&mut self.map.header, key, value)
        } else if eq_str(&sec, "tilesets") {
            match export_line(value) {
                Ok(x) => {
                    let ghost before = self.map.tileset_exports@;
                    self.map.tileset_exports.push(x);
                    assert(self.map.tileset_exports@.map_values(|e: TilesetExportEntry| e@)
                        =~= before.map_values(|e: TilesetExportEntry| e@).push(x@));
                    Ok(())
                },
                Err(e) => Err(e),
            }
        } else if eq_str(&sec, "layer") {
            if eq_str(key, "type") {
                if let Some(layer) = self.current_layer.take() {
                    proof {
                        assert(layers_view(self.map.layers@.push(layer)) =~= layers_view(
                            self.map.layers@,
                        ).push(layer@));
                    }
                    self.map.layers.push(layer);
                }
                let l = MapLayer { name: string_of(value), data: Vec::new() };
                assert(l@.data =~= Seq::<Seq<u16>>::empty());
                self.current_layer = Some(l);
                Ok(())
            } else if eq_str(key, "format") && !eq_str(value, "dec") {
                Err(FlareError::parse(source, ln, "layer format must be 'dec'"))
            } else if eq_str(key, "data") {
                if self.current_layer.is_none() {
                    return Err(FlareError::parse(source, ln, "data before layer type"));
                }
                self.reading_layer_data = true;
                self.layer_rows_read = 0;
                Ok(())
            } else {
                Ok(())
            }
        } else if eq_str(&sec, "enemy") || eq_str(&sec, "npc") || eq_str(&sec, "event") {
            match self.current_raw.take() {
                None => Err(FlareError::parse(source, ln, "raw section missing")),
                Some(mut raw) => {
                    let ghost before = raw@;
                    raw.entries.push(RawSectionEntry { key: string_of(key), value: string_of(value) });
                    assert(raw@.entries =~= before.entries.push((key@, value@)));
                    self.current_raw = Some(raw);
                    Ok(())
                },
            }
        } else {
            Ok(())
        }
    }

    fn plain_line(&mut self, t: &[char], source: &str, ln: usize) -> (r: Result<Option<Vec<char>>, FlareError>)
        ensures
            reader_wf(old(self)@) ==> reader_wf(final(self)@),
            match spec_map_plain_line(old(self)@, t@, source@, ln) {
                MapStep::Next(s) => r matches Ok(None) && final(self)@ == s,
                MapStep::Include(s, p) => r matches Ok(Some(q)) && q@ == p && final(self)@ == s,
                MapStep::Failed(e) => r matches Err(x) && x@ == e,
            },
    {
        if eq_str(t, "APPEND") {
            return Ok(None);
        }
        if starts_with_str(t, "INCLUDE ") {
            let n = chars_of("INCLUDE ").len();
            let rest = vstd::slice::slice_subrange(t, n, t.len());
            assert(rest@ =~= t@.skip("INCLUDE "@.len() as int));
            return Ok(Some(vstd::slice::slice_to_vec(trim_chars(rest))));
        }
        match split_key_value_chars(t) {
            None => Err(FlareError::parse(source, ln, "expected key=value")),
            Some((k, v)) => match self.map_key(k, v, source, ln) {
                Ok(()) => Ok(None),
                Err(e) => Err(e),
            },
        }
    }

    fn map_line(&mut self, line: &[char], source: &str, ln: usize) -> (r: Result<Option<Vec<char>>, FlareError>)
        requires
            reader_wf(old(self)@),
        ensures
            reader_wf(final(self)@),
            match spec_map_line(old(self)@, line@, source@, ln) {
                MapStep::Next(s) => r matches Ok(None) && final(self)@ == s,
                MapStep::Include(s, p) => r matches Ok(Some(q)) && q@ == p && final(self)@ == s,
                MapStep::Failed(e) => r matches Err(x) && x@ == e,
            },
    {
        if skip_line_chars(line) {
            return Ok(None);
        }
        let t = trim_chars(line);
        if t[0] == '[' {
            self.section_start(section_title_chars(t));
            return Ok(None);
        }
        if self.reading_layer_data {
            if find_char(t, '=').is_some() {
                self.reading_layer_data = false;
                return self.plain_line(t, source, ln);
            }
            let width = self.map.header.width;
            let height = self.map.header.height;
            match self.current_layer.take() {
                None => Err(FlareError::parse(source, ln, "layer data without active layer")),
                Some(mut layer) => {
                    let row = match parse_layer_row(strip_end_char(t, ','), width) {
                        Ok(row) => row,
                        Err(e) => return Err(e),
                    };
                    let ghost before = layer@;
                    layer.data.push(row);
                    assert(layer@.data =~= before.data.push(row@));
                    self.current_layer = Some(layer);
                    self.layer_rows_read = self.layer_rows_read + 1;
                    if self.layer_rows_read >= height as usize {
                        self.reading_layer_data = false;
                    }
                    Ok(None)
                },
            }
        } else {
            self.plain_line(t, source, ln)
        }
    }

    /// Reads `lines` of the map file `source` from index `start` on.
    ///
    /// Reading stops at the end of the lines, at an `INCLUDE` directive
    /// (whose file the caller reads and lays on with [`MapReader::merge`]),
    /// or at the first error; an `INCLUDE` of `source` itself is a recursive
    /// include.
    pub fn scan(&mut self, lines: &Vec<Vec<char>>, source: &str, start: usize) -> (r: Result<MapScan, FlareError>)
        requires
            reader_wf(old(self)@),
        ensures
            reader_wf(final(self)@),
            ({
                let s = spec_map_scan(lines_view(lines@), source@, Seq::empty(), start as int, old(self)@);
                match r {
                    Ok(MapScan::Done) => s == MapScanV::Done(final(self)@),
                    Ok(MapScan::Include { path, next_line }) => s == MapScanV::Include(
                        final(self)@,
                        path@,
                        next_line as int,
                    ),
                    Err(e) => s == MapScanV::Failed(e@),
                }
            }),
    {
        let none: Vec<String> = Vec::new();
        assert(names_view(none@) =~= Seq::<Seq<char>>::empty());
        self.scan_within(lines, source, none.as_slice(), start)
    }

    /// Reads `lines` of the map file `source`, reached through the includes
    /// of the files `ancestors`, from index `start` on.
    ///
    /// As [`MapReader::scan`]; an `INCLUDE` of `source` or of one of
    /// `ancestors` is a recursive include.
    pub fn scan_within(
        &mut self,
        lines: &Vec<Vec<char>>,
        source: &str,
        ancestors: &[String],
        start: usize,
    ) -> (r: Result<MapScan, FlareError>)
        requires
            reader_wf(old(self)@),
        ensures
            reader_wf(final(self)@),
            ({
                let s = spec_map_scan(
                    lines_view(lines@),
                    source@,
                    names_view(ancestors@),
                    start as int,
                    old(self)@,
                );
                match r {
                    Ok(MapScan::Done) => s == MapScanV::Done(final(self)@),
                    Ok(MapScan::Include { path, next_line }) => s == MapScanV::Include(
                        final(self)@,
                        path@,
                        next_line as int,
                    ),
                    Err(e) => s == MapScanV::Failed(e@),
                }
            }),
    {
        let ghost lv = lines_view(lines@);
        let ghost av = names_view(ancestors@);
        let ghost goal = spec_map_scan(lv, source@, av, start as int, self@);
        let mut i = start;
        if i > lines.len() {
            i = lines.len();
        }
        while i < lines.len()
            invariant
                lv == lines_view(lines@),
                av == names_view(ancestors@),
                goal == spec_map_scan(lv, source@, av, start as int, old(self)@),
                i <= lines.len(),
                reader_wf(self@),
                goal == spec_map_scan(lv, source@, av, i as int, self@),
            decreases lines.len() - i,
        {
            assert(lv[i as int] == lines@[i as int]@);
            match self.map_line(lines[i].as_slice(), source, i + 1) {
                Err(e) => return Err(e),
                Ok(Some(p)) => {
                    if eq_str(&p, source) || is_listed(ancestors, &p) {
                        return Err(FlareError::RecursiveInclude(string_of(&p)));
                    }
                    return Ok(MapScan::Include { path: string_of(&p), next_line: i + 1 });
                },
                Ok(None) => {},
            }
            i += 1;
        }
        Ok(MapScan::Done)
    }

    /// Lays a map read from an included file onto the map being read.
    pub fn merge(&mut self, other: FlareMap)
        requires
            reader_wf(old(self)@),
        ensures
            final(self)@ == spec_merge(old(self)@, other@),
            reader_wf(final(self)@),
    {
        let FlareMap { header, tileset_exports, layers, raw_sections } = other;
        if !header.tileset.as_str().is_empty() {
            self.map.header = header;
        }
        let ghost e0 = self.map.tileset_exports@;
        let ghost l0 = self.map.layers@;
        let ghost r0 = self.map.raw_sections@;
        let mut te = tileset_exports;
        self.map.tileset_exports.append(&mut te);
        let mut ls = layers;
        self.map.layers.append(&mut ls);
        let mut rs = raw_sections;
        self.map.raw_sections.append(&mut rs);
        proof {
            assert(self.map.tileset_exports@.map_values(|e: TilesetExportEntry| e@) =~= e0.map_values(
                |e: TilesetExportEntry| e@,
            ) + other.tileset_exports@.map_values(|e: TilesetExportEntry| e@));
            assert(layers_view(self.map.layers@) =~= layers_view(l0) + layers_view(other.layers@));
            assert(self.map.raw_sections@.map_values(|r: RawSection| r@) =~= r0.map_values(
                |r: RawSection| r@,
            ) + other.raw_sections@.map_values(|r: RawSection| r@));
        }
    }

    /// The map once every line is read.
    pub fn finish(self) -> (m: FlareMap)
        ensures
            m@ == spec_finish(self@),
    {
        let mut me = self;
        me.close_open();
        let mut map = me.map;
        ensure_collision_layer(&mut map);
        map
    }
}

fn find_layer(layers: &Vec<MapLayer>, name: &str) -> (r: Option<usize>)
    ensures
        match r {
            Some(i) => i < layers.len() && layer_index(layers_view(layers@), name@) == Some(i as int),
            None => layer_index(layers_view(layers@), name@) is None,
        },
{
    let ghost names = layer_names(layers_view(layers@));
    let mut i: usize = 0;
    while i < layers.len()
        invariant
            i <= layers.len(),
            names == layer_names(layers_view(layers@)),
            names.len() == layers.len(),
            forall|j: int| 0 <= j < i ==> #[trigger] names[j] != name@,
        decreases layers.len() - i,
    {
        assert(names[i as int] == layers@[i as int].name@);
        if eq_str(&chars_of(layers[i].name.as_str()), name) {
            proof {
                names.index_of_first_ensures(name@);
                let k = names.index_of_first(name@).unwrap();
                assert(!(k < i as int));
                assert(!((i as int) < k));
            }
            return Some(i);
        }
        i += 1;
    }
    proof {
        names.index_of_first_ensures(name@);
    }
    None
}

/// The names of a sequence of layers.
pub open spec fn layer_names(layers: Seq<LayerV>) -> Seq<Seq<char>> {
    layers.map_values(|l: LayerV| l.name)
}

/// The position of the first layer called `name`.
pub open spec fn layer_index(layers: Seq<LayerV>, name: Seq<char>) -> Option<int> {
    layer_names(layers).index_of_first(name)
}

proof fn lemma_has_collision(m: MapV)
    ensures
        has_collision_layer(m) <==> layer_index(m.layers, "collision"@) is Some,
{
    layer_names(m.layers).index_of_first_ensures("collision"@);
    if has_collision_layer(m) {
        let i = choose|i: int| 0 <= i < m.layers.len() && m.layers[i].name == "collision"@;
        assert(layer_names(m.layers)[i] == "collision"@);
    }
}

fn ensure_collision_layer(map: &mut FlareMap)
    ensures
        final(map)@ == spec_ensure_collision(old(map)@),
{
    proof {
        lemma_has_collision(map@);
    }
    if find_layer(&map.layers, "collision").is_some() {
        return;
    }
    let width = map.header.width as usize;
    let height = map.header.height as usize;
    let ghost goal = zero_collision_layer(map@.header);
    let mut data: Vec<Vec<u16>> = Vec::new();
    let mut y: usize = 0;
    while y < height
        invariant
            y <= height,
            width == map.header.width,
            height == map.header.height,
            goal == zero_collision_layer(map@.header),
            rows_view(data@) == goal.data.take(y as int),
        decreases height - y,
    {
        let mut row: Vec<u16> = Vec::new();
        let mut x: usize = 0;
        while x < width
            invariant
                x <= width,
                row@ == Seq::new(x as nat, |j: int| 0u16),
            decreases width - x,
        {
            row.push(0);
            x += 1;
            assert(row@ =~= Seq::new(x as nat, |j: int| 0u16));
        }
        proof {
            assert(rows_view(data@.push(row)) =~= rows_view(data@).push(row@));
            assert(goal.data.take(y + 1) =~= goal.data.take(y as int).push(goal.data[y as int]));
            assert(row@ =~= goal.data[y as int]);
        }
        data.push(row);
        y += 1;
    }
    assert(goal.data.take(height as int) =~= goal.data);
    let layer = MapLayer { name: string_of(&chars_of("collision")), data };
    proof {
        assert(layers_view(map.layers@.push(layer)) =~= layers_view(map.layers@).push(layer@));
    }
    map.layers.push(layer);
}

impl FlareMap {
    /// Reads a map from its text; an `INCLUDE` directive cannot be read here
    /// and is reported as `FileNotFound`.
    pub fn from_content(content: &str, source: &str) -> (r: Result<Self, FlareError>)
        ensures
            view_result(r) == spec_map_from_content(content@, source@),
    {
        let lines = split_lines(content);
        let mut reader = MapReader::new();
        match reader.scan(&lines, source, 0) {
            Ok(MapScan::Done) => Ok(reader.finish()),
            Ok(MapScan::Include { path, next_line: _ }) => Err(FlareError::FileNotFound(path)),
            Err(e) => Err(e),
        }
    }

    /// Reads a map from its text, named `map.txt` in messages.
    pub fn parse_str(content: &str) -> (r: Result<Self, FlareError>)
        ensures
            view_result(r) == spec_map_from_content(content@, "map.txt"@),
    {
        Self::from_content(content, "map.txt")
    }

    /// The first layer called `name`.
    pub fn layer(&self, name: &str) -> (r: Option<&MapLayer>)
        ensures
            match layer_index(self@.layers, name@) {
                Some(i) => r == Some(&self.layers@[i]),
                None => r is None,
            },
    {
        match find_layer(&self.layers, name) {
            Some(i) => Some(&self.layers[i]),
            None => None,
        }
    }

    /// The layer called `collision`.
    pub fn collision_layer(&self) -> (r: Option<&MapLayer>)
        ensures
            match layer_index(self@.layers, "collision"@) {
                Some(i) => r == Some(&self.layers@[i]),
                None => r is None,
            },
    {
        self.layer("collision")
    }
}

} // verus!

verus! {

/// A map that has been read always has a `collision` layer: one of zeros
/// is added when the file has none.
pub proof fn lemma_read_map_has_collision(content: Seq<char>, source: Seq<char>)
    ensures
        spec_map_from_content(content, source) matches Ok(m) ==> layer_index(
            m.layers,
            "collision"@,
        ) is Some,
{
    if let MapScanV::Done(st) = spec_map_scan(spec_lines(content), source, Seq::empty(), 0, initial_reader()) {
        lemma_ensured_collision(close_open(st).map);
    }
}

/// Adding the zero layer where it is missing leaves the map with a
/// `collision` layer.
pub proof fn lemma_ensured_collision(m: MapV)
    ensures
        has_collision_layer(spec_ensure_collision(m)),
        layer_index(spec_ensure_collision(m).layers, "collision"@) is Some,
{
    let e = spec_ensure_collision(m);
    if !has_collision_layer(m) {
        assert(e.layers[e.layers.len() - 1].name == "collision"@);
    }
    lemma_has_collision(e);
}

/// A `[tilesets]` line `path, a, b, c, d` with integer `a`, `b`, `c`, `d`
/// exports the tileset `path` with tile width `a`, tile height `b` and
/// offset (`c`, `d`); read in the `[tilesets]` section, it is added after
/// the exports read before it.
pub proof fn lemma_export_line_fields(
    st: MapStateV,
    key: Seq<char>,
    value: Seq<char>,
    source: Seq<char>,
    ln: usize,
    ints: Seq<i32>,
)
    requires
        ints.len() == 4,
        forall|k: int| 0 <= k < 4 ==> int_token(value, (k + 1) as nat) == Some(#[trigger] ints[k]),
        st.section == "tilesets"@,
    ensures
        ({
            let x = ExportV {
                path: token_or_empty(token_at(value, 0)),
                tile_width: ints[0],
                tile_height: ints[1],
                offset_x: ints[2],
                offset_y: ints[3],
            };
            &&& spec_export_line(value) == Ok::<ExportV, ErrorV>(x)
            &&& spec_map_key(st, key, value, source, ln) == MapStep::Next(
                MapStateV { map: MapV { tileset_exports: st.map.tileset_exports.push(x), ..st.map }, ..st },
            )
        }),
{
    assert(rest_after(value, 0) == value);
    lemma_pop_token_at(value, 0);
    lemma_pop_token_at(value, 1);
    lemma_pop_token_at(value, 2);
    lemma_pop_token_at(value, 3);
    lemma_pop_token_at(value, 4);
    assert(int_token(value, 1) == Some(ints[0]));
    assert(int_token(value, 2) == Some(ints[1]));
    assert(int_token(value, 3) == Some(ints[2]));
    assert(int_token(value, 4) == Some(ints[3]));
    reveal_strlit("header");
    reveal_strlit("tilesets");
    assert("header"@.len() != "tilesets"@.len());
}

/// In `[header]`, `width=` and `height=` set the width and the height
/// respectively, raised to at least 1 and kept modulo 2^16, and leave the
/// rest of the header as it is; `hero_pos=x,y` sets the spawn tile to
/// (`x`, `y`).
pub proof fn lemma_header_size_keys(h: HeaderV, value: Seq<char>, v: i32)
    requires
        spec_parse_int(value) == Ok::<i32, ErrorV>(v),
    ensures
        spec_apply_header(h, "width"@, value) == Ok::<HeaderV, ErrorV>(
            HeaderV { width: (if v < 1 { 1 } else { v }) as u16, ..h },
        ),
        spec_apply_header(h, "height"@, value) == Ok::<HeaderV, ErrorV>(
            HeaderV { height: (if v < 1 { 1 } else { v }) as u16, ..h },
        ),
        forall|x: i32, y: i32|
            int_token(value, 0) == Some(x) && int_token(value, 1) == Some(y) ==> spec_apply_header(
                h,
                "hero_pos"@,
                value,
            ) == Ok::<HeaderV, ErrorV>(HeaderV { hero_pos: Some(Point { x, y }), ..h }),
{
    reveal_strlit("title");
    reveal_strlit("width");
    reveal_strlit("height");
    reveal_strlit("tileset");
    reveal_strlit("music");
    reveal_strlit("hero_pos");
    assert("title"@[0] != "width"@[0]);
    assert("title"@.len() != "height"@.len());
    assert("width"@ != "height"@);
    assert("title"@ != "hero_pos"@);
    assert("width"@ != "hero_pos"@);
    assert("height"@ != "hero_pos"@);
    assert("tileset"@.len() != "hero_pos"@.len());
    assert("music"@.len() != "hero_pos"@.len());
    assert forall|x: i32, y: i32|
        int_token(value, 0) == Some(x) && int_token(value, 1) == Some(y) implies spec_apply_header(
            h,
            "hero_pos"@,
            value,
        ) == Ok::<HeaderV, ErrorV>(HeaderV { hero_pos: Some(Point { x, y }), ..h }) by {
        lemma_point_fields(value, x, y);
    }
}

/// A layer row of integer tokens `x0, x1, ...` reads as those ids in
/// order, each kept modulo 2^16, and is accepted exactly when it holds
/// `width` of them.
pub proof fn lemma_row_tokens(v: Seq<char>, ints: Seq<i32>, width: u16)
    requires
        forall|k: int| 0 <= k < ints.len() ==> int_token(v, k as nat) == Some(#[trigger] ints[k]),
        token_at(v, ints.len()) is None,
    ensures
        spec_row_values(v) == Ok::<Seq<u16>, ErrorV>(ints.map_values(|x: i32| x as u16)),
        spec_parse_layer_row(v, width) is Ok <==> ints.len() == width,
        ints.len() == width ==> spec_parse_layer_row(v, width) == Ok::<Seq<u16>, ErrorV>(
            ints.map_values(|x: i32| x as u16),
        ),
{
    lemma_row_values_tokens(v, ints);
}

proof fn lemma_row_values_tokens(v: Seq<char>, ints: Seq<i32>)
    requires
        forall|k: int| 0 <= k < ints.len() ==> int_token(v, k as nat) == Some(#[trigger] ints[k]),
        token_at(v, ints.len()) is None,
    ensures
        spec_row_values(v) == Ok::<Seq<u16>, ErrorV>(ints.map_values(|x: i32| x as u16)),
    decreases ints.len(),
{
    assert(rest_after(v, 0) == v);
    lemma_pop_token_at(v, 0);
    if ints.len() == 0 {
        assert(ints.map_values(|x: i32| x as u16) =~= Seq::<u16>::empty());
    } else {
        let rest = rest_after(v, 1);
        let tail = ints.drop_first();
        assert forall|k: int| 0 <= k < tail.len() implies int_token(rest, k as nat) == Some(
            #[trigger] tail[k],
        ) by {
            lemma_token_after(v, 1, k as nat);
            assert(int_token(v, (k + 1) as nat) == Some(ints[k + 1]));
        }
        lemma_token_after(v, 1, tail.len());
        assert(1 + tail.len() == ints.len());
        lemma_row_values_tokens(rest, tail);
        let t = token_at(v, 0)->0;
        assert(int_token(v, 0) == Some(ints[0]));
        if t.len() == 0 {
            assert(spec_trim(t) =~= t);
        }
        assert(ints.map_values(|x: i32| x as u16) =~= seq![ints[0] as u16] + tail.map_values(
            |x: i32| x as u16,
        ));
    }
}

} // verus!
