use vstd::prelude::*;

use crate::error::{view_result, ErrorV, FlareError};
use crate::text::{
    chars_of, decimal, decimal_chars, digit_char, is_ws, ends_with_str, eq_str, message, pop_token, pop_token_span,
    section_title_chars, skip_line_chars, spec_pop_token, spec_section_title, spec_skip_line,
    spec_split_key_value, spec_trim, split_key_value_chars, string_of, trim_chars, trim_span,
};

verus! {

/// An integer 2D point.
#[derive(Debug, Clone, Copy, PartialEq, Eq, Structural)]
pub struct Point {
    pub x: i32,
    pub y: i32,
}

/// An integer rectangle: top-left corner and size.
#[derive(Debug, Clone, Copy, PartialEq, Eq, Structural)]
pub struct Rect {
    pub x: i32,
    pub y: i32,
    pub w: i32,
    pub h: i32,
}

/// An RGBA colour.
#[derive(Debug, Clone, Copy, PartialEq, Eq, Structural)]
pub struct Color {
    pub r: u8,
    pub g: u8,
    pub b: u8,
    pub a: u8,
}

/// One of the eight facings, counter-clockwise from south-west.
#[derive(Debug, Clone, Copy, PartialEq, Eq, Hash, Structural)]
pub enum Direction {
    Sw,
    W,
    Nw,
    N,
    Ne,
    E,
    Se,
    S,
}

#[derive(Debug, Clone, Copy, PartialEq, Eq, Structural)]
pub enum Orientation {
    Isometric,
    Orthogonal,
}

#[derive(Debug, Clone, Copy, PartialEq, Eq, Structural)]
pub enum BlendMode {
    Normal,
    Add,
}

#[derive(Debug, Clone, Copy, PartialEq, Eq, Structural)]
pub enum AnimationType {
    PlayOnce,
    Looped,
    BackForth,
}

#[derive(Debug, Clone, Copy, PartialEq, Eq, Structural)]
pub enum ActiveSubFrame {
    End,
    Start,
    All,
}

impl View for Point {
    type V = Point;

    open spec fn view(&self) -> Point {
        *self
    }
}

impl View for Color {
    type V = Color;

    open spec fn view(&self) -> Color {
        *self
    }
}

impl View for Direction {
    type V = Direction;

    open spec fn view(&self) -> Direction {
        *self
    }
}

impl View for Orientation {
    type V = Orientation;

    open spec fn view(&self) -> Orientation {
        *self
    }
}

impl View for BlendMode {
    type V = BlendMode;

    open spec fn view(&self) -> BlendMode {
        *self
    }
}

impl View for AnimationType {
    type V = AnimationType;

    open spec fn view(&self) -> AnimationType {
        *self
    }
}

impl View for ActiveSubFrame {
    type V = ActiveSubFrame;

    open spec fn view(&self) -> ActiveSubFrame {
        *self
    }
}

impl Default for Point {
    fn default() -> (p: Self)
        ensures
            p == (Point { x: 0, y: 0 }),
    {
        Point { x: 0, y: 0 }
    }
}

impl Default for Rect {
    fn default() -> (r: Self)
        ensures
            r == (Rect { x: 0, y: 0, w: 0, h: 0 }),
    {
        Rect { x: 0, y: 0, w: 0, h: 0 }
    }
}

impl Default for Color {
    fn default() -> (c: Self)
        ensures
            c == (Color { r: 0, g: 0, b: 0, a: 0 }),
    {
        Color { r: 0, g: 0, b: 0, a: 0 }
    }
}

impl Default for Direction {
    fn default() -> (d: Self)
        ensures
            d == Direction::Sw,
    {
        Direction::Sw
    }
}

impl Default for Orientation {
    fn default() -> (o: Self)
        ensures
            o == Orientation::Isometric,
    {
        Orientation::Isometric
    }
}

impl Default for BlendMode {
    fn default() -> (b: Self)
        ensures
            b == BlendMode::Normal,
    {
        BlendMode::Normal
    }
}

impl Default for AnimationType {
    fn default() -> (t: Self)
        ensures
            t == AnimationType::PlayOnce,
    {
        AnimationType::PlayOnce
    }
}

impl Default for ActiveSubFrame {
    fn default() -> (a: Self)
        ensures
            a == ActiveSubFrame::End,
    {
        ActiveSubFrame::End
    }
}

/// The index of a direction, 0 for south-west up to 7 for south.
pub open spec fn dir_index(d: Direction) -> u8 {
    match d {
        Direction::Sw => 0,
        Direction::W => 1,
        Direction::Nw => 2,
        Direction::N => 3,
        Direction::Ne => 4,
        Direction::E => 5,
        Direction::Se => 6,
        Direction::S => 7,
    }
}

/// The direction with a given index, if the index is below 8.
pub open spec fn dir_of_index(i: int) -> Option<Direction> {
    if i == 0 {
        Some(Direction::Sw)
    } else if i == 1 {
        Some(Direction::W)
    } else if i == 2 {
        Some(Direction::Nw)
    } else if i == 3 {
        Some(Direction::N)
    } else if i == 4 {
        Some(Direction::Ne)
    } else if i == 5 {
        Some(Direction::E)
    } else if i == 6 {
        Some(Direction::Se)
    } else if i == 7 {
        Some(Direction::S)
    } else {
        None
    }
}

/// The result of `Direction::from_index`.
pub open spec fn spec_dir_from_index(index: u8) -> Result<Direction, ErrorV> {
    match dir_of_index(index as int) {
        Some(d) => Ok(d),
        None => Err(
            ErrorV::Other(
                "direction index "@ + decimal(index as nat) + " is not within range 0-7"@,
            ),
        ),
    }
}

impl Direction {
    /// The direction with index `index` (0 for south-west up to 7 for south).
    pub fn from_index(index: u8) -> (r: Result<Self, FlareError>)
        ensures
            view_result(r) == spec_dir_from_index(index),
    {
        match index {
            0 => Ok(Direction::Sw),
            1 => Ok(Direction::W),
            2 => Ok(Direction::Nw),
            3 => Ok(Direction::N),
            4 => Ok(Direction::Ne),
            5 => Ok(Direction::E),
            6 => Ok(Direction::Se),
            7 => Ok(Direction::S),
            _ => {
                let mut v = chars_of("direction index ");
                let digits = decimal_chars(index as u64);
                let mut i: usize = 0;
                let ghost head = v@;
                while i < digits.len()
                    invariant
                        i <= digits.len(),
                        v@ == head + digits@.take(i as int),
                    decreases digits.len() - i,
                {
                    v.push(digits[i]);
                    i += 1;
                    assert(head + digits@.take(i as int) =~= (head + digits@.take(i - 1)).push(
                        digits@[i - 1],
                    ));
                }
                assert(digits@.take(digits.len() as int) =~= digits@);
                let m = message_after(&v, " is not within range 0-7");
                Err(FlareError::Other(m))
            },
        }
    }

    /// The index of the direction.
    pub fn index(self) -> (i: u8)
        ensures
            i == dir_index(self),
    {
        match self {
            Direction::Sw => 0,
            Direction::W => 1,
            Direction::Nw => 2,
            Direction::N => 3,
            Direction::Ne => 4,
            Direction::E => 5,
            Direction::Se => 6,
            Direction::S => 7,
        }
    }
}

/// Some characters followed by a fixed text.
pub fn message_after(head: &[char], suffix: &str) -> (r: String)
    ensures
        r@ == head@ + suffix@,
{
    let s = chars_of(suffix);
    let mut v: Vec<char> = Vec::new();
    let mut i: usize = 0;
    while i < head.len()
        invariant
            i <= head.len(),
            v@ == head@.take(i as int),
        decreases head.len() - i,
    {
        v.push(head[i]);
        i += 1;
    }
    let mut j: usize = 0;
    while j < s.len()
        invariant
            j <= s.len(),
            head@.take(head.len() as int) == head@,
            v@ == head@ + s@.take(j as int),
        decreases s.len() - j,
    {
        v.push(s[j]);
        j += 1;
        assert(head@ + s@.take(j as int) =~= (head@ + s@.take(j - 1)).push(s@[j - 1]));
    }
    assert(s@.take(s.len() as int) =~= s@);
    string_of(&v)
}

} // verus!

verus! {

/// Whether `c` is an ASCII decimal digit.
pub open spec fn is_digit(c: char) -> bool {
    '0' <= c && c <= '9'
}

/// The value of a decimal digit.
pub open spec fn digit_value(c: char) -> int {
    (c as u32) as int - 48
}

/// The value of a string of decimal digits, most significant first.
pub open spec fn digits_value(s: Seq<char>) -> int
    decreases s.len(),
{
    if s.len() == 0 {
        0
    } else {
        digits_value(s.drop_last()) * 10 + digit_value(s.last())
    }
}

/// Whether every character is a decimal digit.
pub open spec fn all_digits(s: Seq<char>) -> bool {
    forall|i: int| 0 <= i < s.len() ==> is_digit(#[trigger] s[i])
}

/// What `i32::from_str` accepts: an optional sign, then at least one decimal
/// digit, denoting a value within the range of `i32`.
pub open spec fn spec_parse_i32(s: Seq<char>) -> Option<i32> {
    let signed = s.len() > 0 && (s[0] == '-' || s[0] == '+');
    let body = if signed {
        s.drop_first()
    } else {
        s
    };
    let v = if s.len() > 0 && s[0] == '-' {
        -digits_value(body)
    } else {
        digits_value(body)
    };
    if body.len() > 0 && all_digits(body) && i32::MIN <= v <= i32::MAX {
        Some(v as i32)
    } else {
        None
    }
}

/// The result of `parse_int`: the trimmed text as an `i32`.
pub open spec fn spec_parse_int(s: Seq<char>) -> Result<i32, ErrorV> {
    match spec_parse_i32(spec_trim(s)) {
        Some(v) => Ok(v),
        None => Err(ErrorV::Other("invalid integer: "@ + s)),
    }
}

proof fn lemma_digits_value_nonneg(s: Seq<char>)
    requires
        all_digits(s),
    ensures
        digits_value(s) >= 0,
    decreases s.len(),
{
    if s.len() > 0 {
        lemma_digits_value_nonneg(s.drop_last());
    }
}

proof fn lemma_digits_value_grows(s: Seq<char>, k: int)
    requires
        all_digits(s),
        0 <= k <= s.len(),
    ensures
        digits_value(s) >= digits_value(s.take(k)),
    decreases s.len() - k,
{
    if k < s.len() {
        lemma_digits_value_nonneg(s.drop_last());
        assert(s.drop_last().take(k) =~= s.take(k));
        lemma_digits_value_grows(s.drop_last(), k);
    } else {
        assert(s.take(k) =~= s);
    }
}

/// The value of the decimal digits of `s`, if all are digits and the value
/// fits below 2^31 + 1.
fn digits_to_u32(s: &[char]) -> (r: Option<u32>)
    ensures
        match r {
            Some(v) => all_digits(s@) && v == digits_value(s@) && v <= 0x8000_0000,
            None => !all_digits(s@) || digits_value(s@) > 0x8000_0000,
        },
{
    let mut acc: u64 = 0;
    let mut i: usize = 0;
    while i < s.len()
        invariant
            i <= s.len(),
            all_digits(s@.take(i as int)),
            acc == digits_value(s@.take(i as int)),
            acc <= 0x8000_0000,
        decreases s.len() - i,
    {
        let c = s[i];
        if !('0' <= c && c <= '9') {
            assert(!is_digit(s@[i as int]));
            return None;
        }
        let d = (c as u32 - 48) as u64;
        acc = acc * 10 + d;
        assert(s@.take(i + 1).drop_last() =~= s@.take(i as int));
        i += 1;
        if acc > 0x8000_0000 {
            proof {
                if all_digits(s@) {
                    lemma_digits_value_grows(s@, i as int);
                }
            }
            return None;
        }
    }
    assert(s@.take(s.len() as int) =~= s@);
    Some(acc as u32)
}

/// `i32::from_str` on a character sequence.
pub fn parse_i32_chars(s: &[char]) -> (r: Option<i32>)
    ensures
        r == spec_parse_i32(s@),
{
    let signed = s.len() > 0 && (s[0] == '-' || s[0] == '+');
    let body = if signed {
        vstd::slice::slice_subrange(s, 1, s.len())
    } else {
        s
    };
    assert(signed ==> body@ =~= s@.drop_first());
    if body.len() == 0 {
        return None;
    }
    match digits_to_u32(body) {
        None => None,
        Some(v) => {
            if s[0] == '-' {
                Some((0 - (v as i64)) as i32)
            } else if v <= 0x7fff_ffff {
                Some(v as i32)
            } else {
                None
            }
        },
    }
}

/// `parse_int` on a character sequence.
pub fn parse_int_chars(s: &[char]) -> (r: Result<i32, FlareError>)
    ensures
        view_result(r) == spec_parse_int(s@),
{
    match parse_i32_chars(trim_chars(s)) {
        Some(v) => Ok(v),
        None => Err(FlareError::Other(message("invalid integer: ", s))),
    }
}

/// Parses the trimmed text as an `i32`.
pub fn parse_int(s: &str) -> (r: Result<i32, FlareError>)
    ensures
        view_result(r) == spec_parse_int(s@),
{
    parse_int_chars(&chars_of(s))
}

} // verus!

verus! {

/// The model of an optional string.
pub open spec fn opt_string_view(o: Option<String>) -> Option<Seq<char>> {
    match o {
        Some(s) => Some(s@),
        None => None,
    }
}

/// Pops a token and reads it as an integer; `missing` is the error when there is no token.
pub open spec fn spec_take_int(rest: Seq<char>, missing: ErrorV) -> Result<(i32, Seq<char>), ErrorV> {
    let (t, r) = spec_pop_token(rest);
    match t {
        None => Err(missing),
        Some(x) => match spec_parse_int(x) {
            Ok(v) => Ok((v, r)),
            Err(e) => Err(e),
        },
    }
}

/// What is left of the list value `s` once its first `k` tokens are taken.
pub open spec fn rest_after(s: Seq<char>, k: nat) -> Seq<char>
    decreases k,
{
    if k == 0 {
        s
    } else {
        spec_pop_token(rest_after(s, (k - 1) as nat)).1
    }
}

/// Token `k` (counting from 0) of the list value `s`, if it has one.
pub open spec fn token_at(s: Seq<char>, k: nat) -> Option<Seq<char>> {
    spec_pop_token(rest_after(s, k)).0
}

/// Token `k` of the list value `s` read as an integer: none when the token
/// is missing or is no integer.
pub open spec fn int_token(s: Seq<char>, k: nat) -> Option<i32> {
    match token_at(s, k) {
        Some(t) => match spec_parse_int(t) {
            Ok(v) => Some(v),
            Err(_) => None,
        },
        None => None,
    }
}

/// Reading an integer token where token `k` is the integer `v` gives `v` and
/// leaves what follows token `k`.
pub proof fn lemma_take_int_token(s: Seq<char>, k: nat, v: i32, missing: ErrorV)
    requires
        int_token(s, k) == Some(v),
    ensures
        spec_take_int(rest_after(s, k), missing) == Ok::<(i32, Seq<char>), ErrorV>((v, rest_after(s, k + 1))),
{
    assert(rest_after(s, k + 1) == spec_pop_token(rest_after(s, k)).1);
}

/// Popping a token where token `k` is `t` gives `t` and leaves what follows
/// token `k`.
pub proof fn lemma_pop_token_at(s: Seq<char>, k: nat)
    ensures
        spec_pop_token(rest_after(s, k)) == (token_at(s, k), rest_after(s, k + 1)),
{
    assert(rest_after(s, k + 1) == spec_pop_token(rest_after(s, k)).1);
}

/// Taking `a` tokens and then `b` more is taking `a + b` tokens.
pub proof fn lemma_rest_after_add(s: Seq<char>, a: nat, b: nat)
    ensures
        rest_after(rest_after(s, a), b) == rest_after(s, a + b),
    decreases b,
{
    if b > 0 {
        lemma_rest_after_add(s, a, (b - 1) as nat);
        assert(rest_after(s, a + b) == spec_pop_token(rest_after(s, (a + b - 1) as nat)).1);
    }
}

/// Token `b` of what follows the first `a` tokens is token `a + b`.
pub proof fn lemma_token_after(s: Seq<char>, a: nat, b: nat)
    ensures
        token_at(rest_after(s, a), b) == token_at(s, a + b),
        int_token(rest_after(s, a), b) == int_token(s, a + b),
{
    lemma_rest_after_add(s, a, b);
}

/// Pops a token of `rest` and reads it as an integer. Without a token the error
/// is `Other` with the message `missing` followed by `tail`.
pub fn take_int<'a>(rest: &'a [char], missing: &str, tail: &[char]) -> (r: Result<
    (i32, &'a [char]),
    FlareError,
>)
    ensures
        match r {
            Ok((v, r2)) => spec_take_int(rest@, ErrorV::Other(missing@ + tail@)) == Ok::<
                (i32, Seq<char>),
                ErrorV,
            >((v, r2@)),
            Err(e) => spec_take_int(rest@, ErrorV::Other(missing@ + tail@)) == Err::<
                (i32, Seq<char>),
                ErrorV,
            >(e@),
        },
{
    let (tok, r2) = pop_token(rest);
    match tok {
        None => Err(FlareError::Other(message(missing, tail))),
        Some(x) => match parse_int_chars(&x) {
            Ok(v) => Ok((v, r2)),
            Err(e) => Err(e),
        },
    }
}

/// `s` without leading and trailing whitespace.
pub fn trim(s: &str) -> (r: &str)
    ensures
        r@ == spec_trim(s@),
{
    let cs = chars_of(s);
    let (a, b) = trim_span(&cs);
    s.substring_char(a, b)
}

/// Whether a line is blank or a `#` comment.
pub fn skip_line(line: &str) -> (r: bool)
    ensures
        r == spec_skip_line(line@),
{
    skip_line_chars(&chars_of(line))
}

/// The name of a `[section]` header line.
pub fn get_section_title(line: &str) -> (r: String)
    ensures
        r@ == spec_section_title(line@),
{
    let cs = chars_of(line);
    string_of(section_title_chars(&cs))
}

/// Splits a `key=value` line at its first `=`; both halves trimmed.
pub fn split_key_value(line: &str) -> (r: Option<(String, String)>)
    ensures
        match r {
            Some((k, v)) => spec_split_key_value(line@) == Some((k@, v@)),
            None => spec_split_key_value(line@) is None,
        },
{
    let cs = chars_of(line);
    match split_key_value_chars(&cs) {
        Some((k, v)) => Some((string_of(k), string_of(v))),
        None => None,
    }
}

/// Removes the first token of a list value and returns it; `val` keeps the rest.
pub fn pop_first_token(val: &mut &str) -> (r: Option<String>)
    ensures
        opt_string_view(r) == spec_pop_token(old(val)@).0,
        final(val)@ == spec_pop_token(old(val)@).1,
{
    let cs = chars_of(*val);
    let (tok, rest) = pop_token_span(&cs);
    *val = val.substring_char(rest.0, rest.1);
    match tok {
        Some((a, b)) => Some(string_of(vstd::slice::slice_subrange(&cs, a, b))),
        None => None,
    }
}

/// Whether `a` is `lower` or, for a lowercase ASCII letter, its uppercase form.
pub open spec fn ascii_matches_lower(a: char, lower: char) -> bool {
    a == lower || ('a' <= lower && lower <= 'z' && (a as u32) == (lower as u32) - 32)
}

/// Whether `s` lowercases to `lower`, for a `lower` made of ASCII characters.
pub open spec fn lowercases_to(s: Seq<char>, lower: Seq<char>) -> bool {
    &&& s.len() == lower.len()
    &&& forall|i: int| 0 <= i < s.len() ==> ascii_matches_lower(#[trigger] s[i], lower[i])
}

/// The result of `parse_bool`: whether the trimmed text is `true`, `1` or `yes`,
/// in any letter case.
pub open spec fn spec_parse_bool(s: Seq<char>) -> bool {
    let t = spec_trim(s);
    lowercases_to(t, "true"@) || lowercases_to(t, "1"@) || lowercases_to(t, "yes"@)
}

fn lowercases_to_exec(s: &[char], lower: &str) -> (r: bool)
    ensures
        r == lowercases_to(s@, lower@),
{
    let l = chars_of(lower);
    if s.len() != l.len() {
        return false;
    }
    let mut i: usize = 0;
    while i < s.len()
        invariant
            i <= s.len(),
            s.len() == l.len(),
            l@ == lower@,
            forall|j: int| 0 <= j < i ==> ascii_matches_lower(#[trigger] s@[j], l@[j]),
        decreases s.len() - i,
    {
        let a = s[i];
        let b = l[i];
        if !(a == b || ('a' <= b && b <= 'z' && (a as u32) == (b as u32) - 32)) {
            return false;
        }
        i += 1;
    }
    true
}

/// Whether the trimmed text is `true`, `1` or `yes`, in any letter case.
pub fn parse_bool(s: &str) -> (r: bool)
    ensures
        r == spec_parse_bool(s@),
{
    let cs = chars_of(s);
    let t = trim_chars(&cs);
    lowercases_to_exec(t, "true") || lowercases_to_exec(t, "1") || lowercases_to_exec(t, "yes")
}

/// The result of `parse_point`: two integer tokens `x, y`.
pub open spec fn spec_parse_point(s: Seq<char>) -> Result<Point, ErrorV> {
    let missing = ErrorV::Other("expected point x,y, got: "@ + s);
    match spec_take_int(s, missing) {
        Err(e) => Err(e),
        Ok((x, r1)) => match spec_take_int(r1, missing) {
            Err(e) => Err(e),
            Ok((y, _)) => Ok(Point { x, y }),
        },
    }
}

/// `parse_point` on characters.
pub fn parse_point_chars(s: &[char]) -> (r: Result<Point, FlareError>)
    ensures
        view_result(r) == spec_parse_point(s@),
{
    let (x, r1) = match take_int(s, "expected point x,y, got: ", s) {
        Ok(p) => p,
        Err(e) => return Err(e),
    };
    let (y, _r2) = match take_int(r1, "expected point x,y, got: ", s) {
        Ok(p) => p,
        Err(e) => return Err(e),
    };
    Ok(Point { x, y })
}

/// Parses `x, y` as a point.
pub fn parse_point(s: &str) -> (r: Result<Point, FlareError>)
    ensures
        view_result(r) == spec_parse_point(s@),
{
    parse_point_chars(&chars_of(s))
}

/// The result of `parse_color_rgb`: three integer tokens, each kept modulo 256,
/// and an opaque alpha.
pub open spec fn spec_parse_color_rgb(s: Seq<char>) -> Result<Color, ErrorV> {
    match spec_rgb_tokens(s) {
        Err(e) => Err(e),
        Ok((c, _)) => Ok(c),
    }
}

/// The colour of the first three tokens of `s`, and what follows them.
pub open spec fn spec_rgb_tokens(s: Seq<char>) -> Result<(Color, Seq<char>), ErrorV> {
    let missing = ErrorV::Other("expected color r,g,b, got: "@ + s);
    match spec_take_int(s, missing) {
        Err(e) => Err(e),
        Ok((r, r1)) => match spec_take_int(r1, missing) {
            Err(e) => Err(e),
            Ok((g, r2)) => match spec_take_int(r2, missing) {
                Err(e) => Err(e),
                Ok((b, r3)) => Ok((Color { r: r as u8, g: g as u8, b: b as u8, a: 255 }, r3)),
            },
        },
    }
}

fn rgb_tokens(s: &[char]) -> (r: Result<(Color, &[char]), FlareError>)
    ensures
        match r {
            Ok((c, rest)) => spec_rgb_tokens(s@) == Ok::<(Color, Seq<char>), ErrorV>((c, rest@)),
            Err(e) => spec_rgb_tokens(s@) == Err::<(Color, Seq<char>), ErrorV>(e@),
        },
{
    let (r, r1) = match take_int(s, "expected color r,g,b, got: ", s) {
        Ok(p) => p,
        Err(e) => return Err(e),
    };
    let (g, r2) = match take_int(r1, "expected color r,g,b, got: ", s) {
        Ok(p) => p,
        Err(e) => return Err(e),
    };
    let (b, r3) = match take_int(r2, "expected color r,g,b, got: ", s) {
        Ok(p) => p,
        Err(e) => return Err(e),
    };
    Ok((Color { r: r as u8, g: g as u8, b: b as u8, a: 255 }, r3))
}

/// `parse_color_rgb` on characters.
pub fn parse_color_rgb_chars(s: &[char]) -> (r: Result<Color, FlareError>)
    ensures
        view_result(r) == spec_parse_color_rgb(s@),
{
    match rgb_tokens(s) {
        Ok((c, _)) => Ok(c),
        Err(e) => Err(e),
    }
}

/// Parses `r, g, b` as an opaque colour; each component is kept modulo 256.
pub fn parse_color_rgb(s: &str) -> (r: Result<Color, FlareError>)
    ensures
        view_result(r) == spec_parse_color_rgb(s@),
{
    let cs = chars_of(s);
    match rgb_tokens(&cs) {
        Ok((c, _)) => Ok(c),
        Err(e) => Err(e),
    }
}

/// The result of `parse_color_rgba`: `r, g, b` as for `parse_color_rgb`, and an
/// optional fourth token as alpha (255 when absent).
pub open spec fn spec_parse_color_rgba(s: Seq<char>) -> Result<Color, ErrorV> {
    match spec_rgb_tokens(s) {
        Err(e) => Err(e),
        Ok((c, rest)) => match spec_pop_token(rest).0 {
            None => Ok(c),
            Some(a) => match spec_parse_int(a) {
                Err(e) => Err(e),
                Ok(av) => Ok(Color { a: av as u8, ..c }),
            },
        },
    }
}

/// `parse_color_rgba` on characters.
pub fn parse_color_rgba_chars(s: &[char]) -> (r: Result<Color, FlareError>)
    ensures
        view_result(r) == spec_parse_color_rgba(s@),
{
    let (c, rest) = match rgb_tokens(s) {
        Ok(p) => p,
        Err(e) => return Err(e),
    };
    let (tok, _) = pop_token(rest);
    match tok {
        None => Ok(c),
        Some(a) => match parse_int_chars(&a) {
            Err(e) => Err(e),
            Ok(av) => Ok(Color { a: av as u8, ..c }),
        },
    }
}

/// Parses `r, g, b[, a]` as a colour; alpha is 255 when absent.
pub fn parse_color_rgba(s: &str) -> (r: Result<Color, FlareError>)
    ensures
        view_result(r) == spec_parse_color_rgba(s@),
{
    parse_color_rgba_chars(&chars_of(s))
}

/// A parsed integer with negative values raised to 0.
pub open spec fn non_negative(v: i32) -> u32 {
    if v < 0 {
        0
    } else {
        v as u32
    }
}

/// The result of `parse_duration_ms`: `{N}ms` is N milliseconds, `{N}s` is N
/// seconds (saturating at `u32::MAX` milliseconds), a bare number is
/// milliseconds, a blank text is 0; negative counts become 0.
pub open spec fn spec_parse_duration_ms(s: Seq<char>) -> Result<u32, ErrorV> {
    let t = spec_trim(s);
    if t.len() == 0 {
        Ok(0)
    } else if 2 <= t.len() && t.skip(t.len() - 2) == "ms"@ {
        match spec_parse_int(t.take(t.len() - 2)) {
            Ok(v) => Ok(non_negative(v)),
            Err(e) => Err(e),
        }
    } else if 1 <= t.len() && t.skip(t.len() - 1) == "s"@ {
        match spec_parse_int(t.take(t.len() - 1)) {
            Ok(v) => Ok(
                if non_negative(v) * 1000 > u32::MAX {
                    u32::MAX
                } else {
                    (non_negative(v) * 1000) as u32
                },
            ),
            Err(e) => Err(e),
        }
    } else {
        match spec_parse_int(t) {
            Ok(v) => Ok(non_negative(v)),
            Err(e) => Err(e),
        }
    }
}

fn non_negative_exec(v: i32) -> (r: u32)
    ensures
        r == non_negative(v),
{
    if v < 0 {
        0
    } else {
        v as u32
    }
}

/// `parse_duration_ms` on characters.
pub fn parse_duration_ms_chars(s: &[char]) -> (r: Result<u32, FlareError>)
    ensures
        view_result(r) == spec_parse_duration_ms(s@),
{
    let t = trim_chars(s);
    if t.len() == 0 {
        return Ok(0);
    }
    proof {
        reveal_strlit("ms");
        reveal_strlit("s");
    }
    if ends_with_str(t, "ms") {
        let num = vstd::slice::slice_subrange(t, 0, t.len() - 2);
        assert(num@ =~= t@.take(t@.len() - 2));
        return match parse_int_chars(num) {
            Ok(v) => Ok(non_negative_exec(v)),
            Err(e) => Err(e),
        };
    }
    if ends_with_str(t, "s") {
        let num = vstd::slice::slice_subrange(t, 0, t.len() - 1);
        assert(num@ =~= t@.take(t@.len() - 1));
        return match parse_int_chars(num) {
            Ok(v) => {
                let n = non_negative_exec(v);
                if n > u32::MAX / 1000 {
                    Ok(u32::MAX)
                } else {
                    Ok(n * 1000)
                }
            },
            Err(e) => Err(e),
        };
    }
    match parse_int_chars(t) {
        Ok(v) => Ok(non_negative_exec(v)),
        Err(e) => Err(e),
    }
}

/// Parses a duration and returns milliseconds.
///
/// Supports `{N}ms` and `{N}s`. Values without a suffix are treated as milliseconds.
pub fn parse_duration_ms(s: &str) -> (r: Result<u32, FlareError>)
    ensures
        view_result(r) == spec_parse_duration_ms(s@),
{
    parse_duration_ms_chars(&chars_of(s))
}

} // verus!

verus! {

/// The result of `parse_direction`: a compass name or a direction index from
/// 0 to 7.
pub open spec fn spec_parse_direction(s: Seq<char>) -> Result<Direction, ErrorV> {
    let t = spec_trim(s);
    if t == "N"@ {
        Ok(Direction::N)
    } else if t == "NE"@ {
        Ok(Direction::Ne)
    } else if t == "E"@ {
        Ok(Direction::E)
    } else if t == "SE"@ {
        Ok(Direction::Se)
    } else if t == "S"@ {
        Ok(Direction::S)
    } else if t == "SW"@ {
        Ok(Direction::Sw)
    } else if t == "W"@ {
        Ok(Direction::W)
    } else if t == "NW"@ {
        Ok(Direction::Nw)
    } else {
        match spec_parse_int(t) {
            Ok(v) => if 0 <= v < 8 {
                spec_dir_from_index(v as u8)
            } else {
                Err(
                    ErrorV::Other(
                        "direction index "@ + int_text(v as int) + " is not within range 0-7"@,
                    ),
                )
            },
            Err(e) => Err(e),
        }
    }
}

/// The decimal text of an integer, with a leading `-` when it is negative.
pub open spec fn int_text(v: int) -> Seq<char> {
    if v < 0 {
        seq!['-'] + decimal((-v) as nat)
    } else {
        decimal(v as nat)
    }
}

/// The decimal text of an `i32`.
pub fn int_text_chars(v: i32) -> (r: Vec<char>)
    ensures
        r@ == int_text(v as int),
{
    if v < 0 {
        let mut out: Vec<char> = Vec::new();
        out.push('-');
        let mut digits = decimal_chars((0 - (v as i64)) as u64);
        out.append(&mut digits);
        assert(out@ =~= seq!['-'] + decimal((-(v as int)) as nat));
        out
    } else {
        decimal_chars(v as u64)
    }
}

/// `parse_direction` on characters.
pub fn parse_direction_chars(s: &[char]) -> (r: Result<Direction, FlareError>)
    ensures
        view_result(r) == spec_parse_direction(s@),
{
    let t = trim_chars(s);
    if eq_str(t, "N") {
        Ok(Direction::N)
    } else if eq_str(t, "NE") {
        Ok(Direction::Ne)
    } else if eq_str(t, "E") {
        Ok(Direction::E)
    } else if eq_str(t, "SE") {
        Ok(Direction::Se)
    } else if eq_str(t, "S") {
        Ok(Direction::S)
    } else if eq_str(t, "SW") {
        Ok(Direction::Sw)
    } else if eq_str(t, "W") {
        Ok(Direction::W)
    } else if eq_str(t, "NW") {
        Ok(Direction::Nw)
    } else {
        match parse_int_chars(t) {
            Ok(v) => if 0 <= v && v < 8 {
                Direction::from_index(v as u8)
            } else {
                let mut m = chars_of("direction index ");
                let mut digits = int_text_chars(v);
                m.append(&mut digits);
                Err(FlareError::Other(message_after(&m, " is not within range 0-7")))
            },
            Err(e) => Err(e),
        }
    }
}

/// Parses a compass name (`N`, `NE`, ...) or a direction index.
pub fn parse_direction(s: &str) -> (r: Result<Direction, FlareError>)
    ensures
        view_result(r) == spec_parse_direction(s@),
{
    parse_direction_chars(&chars_of(s))
}

/// The result of `parse_blend_mode`.
pub open spec fn spec_parse_blend_mode(s: Seq<char>) -> Result<BlendMode, ErrorV> {
    let t = spec_trim(s);
    if t == "normal"@ {
        Ok(BlendMode::Normal)
    } else if t == "add"@ {
        Ok(BlendMode::Add)
    } else {
        Err(ErrorV::Other("invalid blend mode: "@ + t))
    }
}

/// `parse_blend_mode` on characters.
pub fn parse_blend_mode_chars(s: &[char]) -> (r: Result<BlendMode, FlareError>)
    ensures
        view_result(r) == spec_parse_blend_mode(s@),
{
    let t = trim_chars(s);
    if eq_str(t, "normal") {
        Ok(BlendMode::Normal)
    } else if eq_str(t, "add") {
        Ok(BlendMode::Add)
    } else {
        Err(FlareError::Other(message("invalid blend mode: ", t)))
    }
}

/// Parses `normal` or `add`.
pub fn parse_blend_mode(s: &str) -> (r: Result<BlendMode, FlareError>)
    ensures
        view_result(r) == spec_parse_blend_mode(s@),
{
    parse_blend_mode_chars(&chars_of(s))
}

/// The result of `parse_animation_type`.
pub open spec fn spec_parse_animation_type(s: Seq<char>) -> Result<AnimationType, ErrorV> {
    let t = spec_trim(s);
    if t == "play_once"@ {
        Ok(AnimationType::PlayOnce)
    } else if t == "looped"@ {
        Ok(AnimationType::Looped)
    } else if t == "back_forth"@ {
        Ok(AnimationType::BackForth)
    } else {
        Err(ErrorV::Other("invalid animation type: "@ + t))
    }
}

/// `parse_animation_type` on characters.
pub fn parse_animation_type_chars(s: &[char]) -> (r: Result<AnimationType, FlareError>)
    ensures
        view_result(r) == spec_parse_animation_type(s@),
{
    let t = trim_chars(s);
    if eq_str(t, "play_once") {
        Ok(AnimationType::PlayOnce)
    } else if eq_str(t, "looped") {
        Ok(AnimationType::Looped)
    } else if eq_str(t, "back_forth") {
        Ok(AnimationType::BackForth)
    } else {
        Err(FlareError::Other(message("invalid animation type: ", t)))
    }
}

/// Parses `play_once`, `looped` or `back_forth`.
pub fn parse_animation_type(s: &str) -> (r: Result<AnimationType, FlareError>)
    ensures
        view_result(r) == spec_parse_animation_type(s@),
{
    parse_animation_type_chars(&chars_of(s))
}

/// The result of `parse_active_sub_frame`.
pub open spec fn spec_parse_active_sub_frame(s: Seq<char>) -> Result<ActiveSubFrame, ErrorV> {
    let t = spec_trim(s);
    if t == "end"@ {
        Ok(ActiveSubFrame::End)
    } else if t == "start"@ {
        Ok(ActiveSubFrame::Start)
    } else if t == "all"@ {
        Ok(ActiveSubFrame::All)
    } else {
        Err(ErrorV::Other("invalid active_sub_frame: "@ + t))
    }
}

/// `parse_active_sub_frame` on characters.
pub fn parse_active_sub_frame_chars(s: &[char]) -> (r: Result<ActiveSubFrame, FlareError>)
    ensures
        view_result(r) == spec_parse_active_sub_frame(s@),
{
    let t = trim_chars(s);
    if eq_str(t, "end") {
        Ok(ActiveSubFrame::End)
    } else if eq_str(t, "start") {
        Ok(ActiveSubFrame::Start)
    } else if eq_str(t, "all") {
        Ok(ActiveSubFrame::All)
    } else {
        Err(FlareError::Other(message("invalid active_sub_frame: ", t)))
    }
}

/// Parses `end`, `start` or `all`.
pub fn parse_active_sub_frame(s: &str) -> (r: Result<ActiveSubFrame, FlareError>)
    ensures
        view_result(r) == spec_parse_active_sub_frame(s@),
{
    parse_active_sub_frame_chars(&chars_of(s))
}

/// The result of `parse_orientation`.
pub open spec fn spec_parse_orientation(s: Seq<char>) -> Result<Orientation, ErrorV> {
    let t = spec_trim(s);
    if t == "isometric"@ {
        Ok(Orientation::Isometric)
    } else if t == "orthogonal"@ {
        Ok(Orientation::Orthogonal)
    } else {
        Err(ErrorV::Other("invalid orientation: "@ + t))
    }
}

/// `parse_orientation` on characters.
pub fn parse_orientation_chars(s: &[char]) -> (r: Result<Orientation, FlareError>)
    ensures
        view_result(r) == spec_parse_orientation(s@),
{
    let t = trim_chars(s);
    if eq_str(t, "isometric") {
        Ok(Orientation::Isometric)
    } else if eq_str(t, "orthogonal") {
        Ok(Orientation::Orthogonal)
    } else {
        Err(FlareError::Other(message("invalid orientation: ", t)))
    }
}

/// Parses `isometric` or `orthogonal`.
pub fn parse_orientation(s: &str) -> (r: Result<Orientation, FlareError>)
    ensures
        view_result(r) == spec_parse_orientation(s@),
{
    parse_orientation_chars(&chars_of(s))
}

} // verus!

verus! {

/// Pops a token of `rest` and reads it as an integer. Without a token the error
/// is `Other(missing)`.
pub fn take_int_msg<'a>(rest: &'a [char], missing: &str) -> (r: Result<(i32, &'a [char]), FlareError>)
    ensures
        match r {
            Ok((v, r2)) => spec_take_int(rest@, ErrorV::Other(missing@)) == Ok::<
                (i32, Seq<char>),
                ErrorV,
            >((v, r2@)),
            Err(e) => spec_take_int(rest@, ErrorV::Other(missing@)) == Err::<
                (i32, Seq<char>),
                ErrorV,
            >(e@),
        },
{
    let empty: Vec<char> = Vec::new();
    assert(missing@ + empty@ =~= missing@);
    take_int(rest, missing, empty.as_slice())
}

/// A popped token, or the empty text when there is none.
pub open spec fn token_or_empty(t: Option<Seq<char>>) -> Seq<char> {
    match t {
        Some(x) => x,
        None => Seq::empty(),
    }
}

/// Pops a token, or gives an empty text when there is none.
pub fn pop_or_empty(rest: &[char]) -> (r: (Vec<char>, &[char]))
    ensures
        r.0@ == token_or_empty(spec_pop_token(rest@).0),
        r.1@ == spec_pop_token(rest@).1,
{
    let (tok, r2) = pop_token(rest);
    match tok {
        Some(t) => (t, r2),
        None => (Vec::new(), r2),
    }
}

} // verus!

verus! {

/// Every direction has an index below 8, and that index names it back.
pub proof fn lemma_direction_index_round_trip(d: Direction)
    ensures
        dir_index(d) < 8,
        spec_dir_from_index(dir_index(d)) == Ok::<Direction, ErrorV>(d),
{
}

/// Exactly the indices below 8 name a direction, and each names the
/// direction whose index it is.
pub proof fn lemma_direction_indices(index: u8)
    ensures
        spec_dir_from_index(index) is Ok <==> index < 8,
        spec_dir_from_index(index) matches Ok(d) ==> dir_index(d) == index,
{
}

} // verus!

verus! {

/// The compass name of a direction.
pub open spec fn direction_name(d: Direction) -> Seq<char> {
    match d {
        Direction::Sw => "SW"@,
        Direction::W => "W"@,
        Direction::Nw => "NW"@,
        Direction::N => "N"@,
        Direction::Ne => "NE"@,
        Direction::E => "E"@,
        Direction::Se => "SE"@,
        Direction::S => "S"@,
    }
}

proof fn lemma_trim_plain(s: Seq<char>)
    requires
        s.len() > 0,
        !is_ws(s[0]),
        !is_ws(s.last()),
    ensures
        spec_trim(s) == s,
{
}

/// Every direction is read back both from its compass name and from its index.
pub proof fn lemma_direction_names_and_indices(d: Direction)
    ensures
        spec_parse_direction(direction_name(d)) == Ok::<Direction, ErrorV>(d),
        spec_parse_direction(decimal(dir_index(d) as nat)) == Ok::<Direction, ErrorV>(d),
{
    reveal_strlit("SW");
    reveal_strlit("W");
    reveal_strlit("NW");
    reveal_strlit("N");
    reveal_strlit("NE");
    reveal_strlit("E");
    reveal_strlit("SE");
    reveal_strlit("S");
    let name = direction_name(d);
    lemma_trim_plain(name);
    let i = dir_index(d) as nat;
    let digits = decimal(i);
    assert(digits == seq![digit_char(i)]);
    lemma_trim_plain(digits);
    assert(digits.drop_last() =~= Seq::<char>::empty());
    assert(all_digits(digits));
    assert(digit_value(digit_char(i)) == i as int) by {
        assert(('0' as u32) == 48);
        assert(('1' as u32) == 49);
        assert(('2' as u32) == 50);
        assert(('3' as u32) == 51);
        assert(('4' as u32) == 52);
        assert(('5' as u32) == 53);
        assert(('6' as u32) == 54);
        assert(('7' as u32) == 55);
    }
    assert(digits.last() == digit_char(i));
    assert(digits_value(digits.drop_last()) == 0);
    assert(digits_value(digits) == i);
}

} // verus!

verus! {

proof fn lemma_digits_parse(ds: Seq<char>)
    requires
        ds.len() > 0,
        all_digits(ds),
        digits_value(ds) <= i32::MAX,
    ensures
        spec_parse_int(ds) == Ok::<i32, ErrorV>(digits_value(ds) as i32),
        digits_value(ds) >= 0,
        non_negative(digits_value(ds) as i32) == digits_value(ds) as u32,
        !is_ws(ds[0]),
        !is_ws(ds.last()),
{
    assert(is_digit(ds[0]));
    assert(is_digit(ds.last()));
    lemma_trim_plain(ds);
    lemma_digits_value_nonneg(ds);
}

/// A duration counts milliseconds when it ends in `ms` or has no suffix, and
/// seconds, a thousand milliseconds each (at most `u32::MAX` in all), when it
/// ends in `s`.
pub proof fn lemma_duration_units(ds: Seq<char>)
    requires
        ds.len() > 0,
        all_digits(ds),
        digits_value(ds) <= i32::MAX,
    ensures
        spec_parse_duration_ms(ds + "ms"@) == Ok::<u32, ErrorV>(digits_value(ds) as u32),
        spec_parse_duration_ms(ds) == Ok::<u32, ErrorV>(digits_value(ds) as u32),
        spec_parse_duration_ms(ds + "s"@) == Ok::<u32, ErrorV>(
            if digits_value(ds) * 1000 > u32::MAX {
                u32::MAX
            } else {
                (digits_value(ds) * 1000) as u32
            },
        ),
{
    reveal_strlit("ms");
    reveal_strlit("s");
    lemma_digits_parse(ds);
    let v = digits_value(ds);
    let ms = ds + "ms"@;
    let s = ds + "s"@;
    lemma_trim_plain(ms);
    lemma_trim_plain(s);
    assert(ms.skip(ms.len() - 2) =~= "ms"@);
    assert(ms.take(ms.len() - 2) =~= ds);
    assert(s.skip(s.len() - 1) =~= "s"@);
    assert(s.take(s.len() - 1) =~= ds);
    if s.len() >= 2 {
        assert(s.skip(s.len() - 2)[0] == ds.last());
        assert(is_digit(ds.last()));
        assert(s.skip(s.len() - 2) != "ms"@);
    }
    assert(is_digit(ds.last()));
    if ds.len() >= 2 {
        assert(ds.skip(ds.len() - 2)[1] == ds.last());
        assert(ds.skip(ds.len() - 2) != "ms"@);
    }
    assert(ds.skip(ds.len() - 1)[0] == ds.last());
    assert(ds.skip(ds.len() - 1) != "s"@);
}

} // verus!

verus! {

proof fn lemma_digit_char_value(d: nat)
    requires
        d < 10,
    ensures
        is_digit(digit_char(d)),
        digit_value(digit_char(d)) == d as int,
{
    assert(('0' as u32) == 48);
    assert(('1' as u32) == 49);
    assert(('2' as u32) == 50);
    assert(('3' as u32) == 51);
    assert(('4' as u32) == 52);
    assert(('5' as u32) == 53);
    assert(('6' as u32) == 54);
    assert(('7' as u32) == 55);
    assert(('8' as u32) == 56);
    assert(('9' as u32) == 57);
}

/// The decimal text of a number is a nonempty run of digits whose value is
/// the number.
pub proof fn lemma_decimal_digits(n: nat)
    ensures
        decimal(n).len() > 0,
        all_digits(decimal(n)),
        digits_value(decimal(n)) == n as int,
    decreases n,
{
    let s = decimal(n);
    if n < 10 {
        lemma_digit_char_value(n);
        assert(s.drop_last() =~= Seq::<char>::empty());
        assert(s.last() == digit_char(n));
        assert(digits_value(s) == digits_value(s.drop_last()) * 10 + digit_value(s.last()));
    } else {
        lemma_decimal_digits(n / 10);
        lemma_digit_char_value(n % 10);
        let h = decimal(n / 10);
        assert(s.drop_last() =~= h);
        assert(s.last() == digit_char(n % 10));
        assert forall|i: int| 0 <= i < s.len() implies is_digit(#[trigger] s[i]) by {
            if i < h.len() {
                assert(s[i] == h[i]);
            }
        }
        assert((n / 10) * 10 + n % 10 == n) by {
            vstd::arithmetic::div_mod::lemma_fundamental_div_mod(n as int, 10);
        }
        assert(digits_value(s) == digits_value(h) * 10 + digit_value(digit_char(n % 10)));
    }
}

/// A text with one space on either side trims to the text itself, when it
/// neither starts nor ends with whitespace.
pub proof fn lemma_trim_padded(t: Seq<char>)
    requires
        t.len() > 0,
        !is_ws(t[0]),
        !is_ws(t.last()),
    ensures
        spec_trim(seq![' '] + t + seq![' ']) == t,
{
    let p = seq![' '] + t + seq![' '];
    let q = t + seq![' '];
    assert(is_ws(' '));
    assert(p.drop_first() =~= q);
    assert(crate::text::trim_start(q) == q);
    assert(crate::text::trim_start(p) == q);
    assert(q.drop_last() =~= t);
    assert(crate::text::trim_end(t) == t);
}

/// `parse_int` reads back the decimal text of every `i32`, also with
/// surrounding spaces.
pub proof fn lemma_parse_int_text(v: i32)
    ensures
        spec_parse_int(int_text(v as int)) == Ok::<i32, ErrorV>(v),
        spec_parse_int(seq![' '] + int_text(v as int) + seq![' ']) == Ok::<i32, ErrorV>(v),
{
    let t = int_text(v as int);
    if v >= 0 {
        lemma_decimal_digits(v as nat);
        let d = decimal(v as nat);
        assert(is_digit(d[0]));
        assert(is_digit(d.last()));
        lemma_trim_plain(t);
        lemma_trim_padded(t);
    } else {
        let m = (-(v as int)) as nat;
        lemma_decimal_digits(m);
        let d = decimal(m);
        assert(t.drop_first() =~= d);
        assert(t[0] == '-');
        assert(t.last() == d.last());
        assert(is_digit(d.last()));
        lemma_trim_plain(t);
        lemma_trim_padded(t);
    }
}

/// A duration written as a number followed by `ms`, or bare, is that many
/// milliseconds; followed by `s`, a thousand times as many (at most
/// `u32::MAX`).
pub proof fn lemma_duration_of_number(n: i32)
    requires
        n >= 0,
    ensures
        spec_parse_duration_ms(int_text(n as int) + "ms"@) == Ok::<u32, ErrorV>(n as u32),
        spec_parse_duration_ms(int_text(n as int)) == Ok::<u32, ErrorV>(n as u32),
        spec_parse_duration_ms(int_text(n as int) + "s"@) == Ok::<u32, ErrorV>(
            if n * 1000 > u32::MAX {
                u32::MAX
            } else {
                (n * 1000) as u32
            },
        ),
{
    lemma_decimal_digits(n as nat);
    lemma_duration_units(decimal(n as nat));
}

/// Directions are read back from their names and indices with surrounding
/// spaces too.
pub proof fn lemma_direction_text_padded(d: Direction)
    ensures
        spec_parse_direction(seq![' '] + direction_name(d) + seq![' ']) == Ok::<Direction, ErrorV>(d),
        spec_parse_direction(seq![' '] + decimal(dir_index(d) as nat) + seq![' ']) == Ok::<
            Direction,
            ErrorV,
        >(d),
{
    reveal_strlit("SW");
    reveal_strlit("W");
    reveal_strlit("NW");
    reveal_strlit("N");
    reveal_strlit("NE");
    reveal_strlit("E");
    reveal_strlit("SE");
    reveal_strlit("S");
    lemma_direction_names_and_indices(d);
    let name = direction_name(d);
    lemma_trim_plain(name);
    lemma_trim_padded(name);
    let i = dir_index(d) as nat;
    lemma_decimal_digits(i);
    let digits = decimal(i);
    assert(is_digit(digits[0]));
    assert(is_digit(digits.last()));
    lemma_trim_plain(digits);
    lemma_trim_padded(digits);
}

} // verus!

verus! {

/// The ASCII lowercase form of a character.
pub open spec fn ascii_lower(c: char) -> char {
    if 'A' <= c && c <= 'Z' {
        ((c as u32) + 32) as char
    } else {
        c
    }
}

/// The ASCII lowercase form of a text.
pub open spec fn ascii_lowercase(s: Seq<char>) -> Seq<char> {
    s.map_values(|c: char| ascii_lower(c))
}

proof fn lemma_matches_lower_char(a: char, l: char)
    requires
        ('a' <= l && l <= 'z') || ('0' <= l && l <= '9'),
    ensures
        ascii_matches_lower(a, l) <==> ascii_lower(a) == l,
{
    if 'A' <= a && a <= 'Z' {
        let u = (a as u32) + 32;
        assert(u <= 0xD7FF);
        assert(((u as char) as u32) == u);
        if ascii_lower(a) == l {
            assert((l as u32) == u);
        }
    }
}

proof fn lemma_lowercases_to(t: Seq<char>, w: Seq<char>)
    requires
        forall|i: int|
            0 <= i < w.len() ==> ('a' <= #[trigger] w[i] && w[i] <= 'z') || ('0' <= w[i] && w[i] <= '9'),
    ensures
        lowercases_to(t, w) <==> ascii_lowercase(t) == w,
{
    assert forall|i: int| 0 <= i < t.len() && i < w.len() implies (ascii_matches_lower(
        #[trigger] t[i],
        w[i],
    ) <==> ascii_lower(t[i]) == w[i]) by {
        lemma_matches_lower_char(t[i], w[i]);
    }
    if lowercases_to(t, w) {
        assert(ascii_lowercase(t) =~= w);
    }
    if ascii_lowercase(t) == w {
        assert forall|i: int| 0 <= i < t.len() implies ascii_matches_lower(#[trigger] t[i], w[i]) by {
            assert(ascii_lowercase(t)[i] == ascii_lower(t[i]));
        }
    }
}

/// `parse_bool` is true exactly when the trimmed text, in ASCII lowercase,
/// is `true`, `1` or `yes`.
pub proof fn lemma_parse_bool_words(s: Seq<char>)
    ensures
        spec_parse_bool(s) <==> {
            let l = ascii_lowercase(spec_trim(s));
            l == "true"@ || l == "1"@ || l == "yes"@
        },
{
    reveal_strlit("true");
    reveal_strlit("1");
    reveal_strlit("yes");
    let t = spec_trim(s);
    lemma_lowercases_to(t, "true"@);
    lemma_lowercases_to(t, "1"@);
    lemma_lowercases_to(t, "yes"@);
}

/// A point `x, y` reads with the first token as `x` and the second as `y`.
pub proof fn lemma_point_fields(s: Seq<char>, x: i32, y: i32)
    requires
        int_token(s, 0) == Some(x),
        int_token(s, 1) == Some(y),
    ensures
        spec_parse_point(s) == Ok::<Point, ErrorV>(Point { x, y }),
{
    assert(rest_after(s, 0) == s);
    let missing = ErrorV::Other("expected point x,y, got: "@ + s);
    lemma_take_int_token(s, 0, x, missing);
    lemma_take_int_token(s, 1, y, missing);
}

/// A colour `r, g, b[, a]` reads its components in that order, each kept
/// modulo 256; without a fourth token it is opaque.
pub proof fn lemma_color_fields(s: Seq<char>, r: i32, g: i32, b: i32)
    requires
        int_token(s, 0) == Some(r),
        int_token(s, 1) == Some(g),
        int_token(s, 2) == Some(b),
    ensures
        spec_parse_color_rgb(s) == Ok::<Color, ErrorV>(Color { r: r as u8, g: g as u8, b: b as u8, a: 255 }),
        token_at(s, 3) is None ==> spec_parse_color_rgba(s) == Ok::<Color, ErrorV>(
            Color { r: r as u8, g: g as u8, b: b as u8, a: 255 },
        ),
        forall|a: i32| int_token(s, 3) == Some(a) ==> spec_parse_color_rgba(s) == Ok::<Color, ErrorV>(
            Color { r: r as u8, g: g as u8, b: b as u8, a: a as u8 },
        ),
{
    assert(rest_after(s, 0) == s);
    let missing = ErrorV::Other("expected color r,g,b, got: "@ + s);
    lemma_take_int_token(s, 0, r, missing);
    lemma_take_int_token(s, 1, g, missing);
    lemma_take_int_token(s, 2, b, missing);
    lemma_pop_token_at(s, 3);
}

/// The word that names an animation type in a file.
pub open spec fn animation_type_name(t: AnimationType) -> Seq<char> {
    match t {
        AnimationType::PlayOnce => "play_once"@,
        AnimationType::Looped => "looped"@,
        AnimationType::BackForth => "back_forth"@,
    }
}

/// The word that names a blend mode in a file.
pub open spec fn blend_mode_name(b: BlendMode) -> Seq<char> {
    match b {
        BlendMode::Normal => "normal"@,
        BlendMode::Add => "add"@,
    }
}

/// The word that names an active sub-frame in a file.
pub open spec fn active_sub_frame_name(a: ActiveSubFrame) -> Seq<char> {
    match a {
        ActiveSubFrame::End => "end"@,
        ActiveSubFrame::Start => "start"@,
        ActiveSubFrame::All => "all"@,
    }
}

/// The word that names an orientation in a file.
pub open spec fn orientation_name(o: Orientation) -> Seq<char> {
    match o {
        Orientation::Isometric => "isometric"@,
        Orientation::Orthogonal => "orthogonal"@,
    }
}

/// Each animation type, blend mode, active sub-frame and orientation is
/// read from its own word, also with surrounding whitespace; a value reads
/// as one of them only when it trims to that one's word.
pub proof fn lemma_keyword_names(t: AnimationType, b: BlendMode, a: ActiveSubFrame, o: Orientation, s: Seq<char>)
    ensures
        spec_parse_animation_type(animation_type_name(t)) == Ok::<AnimationType, ErrorV>(t),
        spec_parse_blend_mode(blend_mode_name(b)) == Ok::<BlendMode, ErrorV>(b),
        spec_parse_active_sub_frame(active_sub_frame_name(a)) == Ok::<ActiveSubFrame, ErrorV>(a),
        spec_parse_orientation(orientation_name(o)) == Ok::<Orientation, ErrorV>(o),
        spec_parse_animation_type(s) matches Ok(x) ==> spec_trim(s) == animation_type_name(x),
        spec_parse_blend_mode(s) matches Ok(x) ==> spec_trim(s) == blend_mode_name(x),
        spec_parse_active_sub_frame(s) matches Ok(x) ==> spec_trim(s) == active_sub_frame_name(x),
        spec_parse_orientation(s) matches Ok(x) ==> spec_trim(s) == orientation_name(x),
{
    reveal_strlit("play_once");
    reveal_strlit("looped");
    reveal_strlit("back_forth");
    reveal_strlit("normal");
    reveal_strlit("add");
    reveal_strlit("end");
    reveal_strlit("start");
    reveal_strlit("all");
    reveal_strlit("isometric");
    reveal_strlit("orthogonal");
    lemma_trim_plain(animation_type_name(t));
    lemma_trim_plain(blend_mode_name(b));
    lemma_trim_plain(active_sub_frame_name(a));
    lemma_trim_plain(orientation_name(o));
    assert("play_once"@.len() != "looped"@.len());
    assert("play_once"@.len() != "back_forth"@.len());
    assert("looped"@.len() != "back_forth"@.len());
    assert("normal"@.len() != "add"@.len());
    assert("end"@.len() != "start"@.len());
    assert("end"@[0] != "all"@[0]);
    assert("start"@.len() != "all"@.len());
    assert("isometric"@.len() != "orthogonal"@.len());
}

} // verus!
