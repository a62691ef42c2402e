use vstd::prelude::*;

use crate::map::{layer_index, layer_names, rows_view, zero_collision_layer, FlareMap, HeaderV, MapLayer, MapV};

verus! {

/// What a collision tile blocks (the values 0 to 8 of a `collision` layer).
#[derive(Debug, Clone, Copy, PartialEq, Eq, Structural)]
pub enum CollisionType {
    BlocksNone,
    BlocksAll,
    BlocksMovement,
    BlocksAllHidden,
    BlocksMovementHidden,
    MapOnly,
    MapOnlyAlt,
    BlocksEntities,
    BlocksEnemies,
}

/// How an entity moves.
#[derive(Debug, Clone, Copy, PartialEq, Eq, Structural)]
pub enum MovementType {
    Normal,
    Flying,
    Intangible,
}

impl Default for CollisionType {
    fn default() -> (c: Self)
        ensures
            c == CollisionType::BlocksNone,
    {
        CollisionType::BlocksNone
    }
}

impl Default for MovementType {
    fn default() -> (m: Self)
        ensures
            m == MovementType::Normal,
    {
        MovementType::Normal
    }
}

/// The collision type of a layer value; unknown values block nothing.
pub open spec fn collision_of(value: u16) -> CollisionType {
    if value == 1 {
        CollisionType::BlocksAll
    } else if value == 2 {
        CollisionType::BlocksMovement
    } else if value == 3 {
        CollisionType::BlocksAllHidden
    } else if value == 4 {
        CollisionType::BlocksMovementHidden
    } else if value == 5 {
        CollisionType::MapOnly
    } else if value == 6 {
        CollisionType::MapOnlyAlt
    } else if value == 7 {
        CollisionType::BlocksEntities
    } else if value == 8 {
        CollisionType::BlocksEnemies
    } else {
        CollisionType::BlocksNone
    }
}

impl CollisionType {
    /// The collision type of a layer value.
    pub fn from_u16(value: u16) -> (c: Self)
        ensures
            c == collision_of(value),
    {
        match value {
            1 => CollisionType::BlocksAll,
            2 => CollisionType::BlocksMovement,
            3 => CollisionType::BlocksAllHidden,
            4 => CollisionType::BlocksMovementHidden,
            5 => CollisionType::MapOnly,
            6 => CollisionType::MapOnlyAlt,
            7 => CollisionType::BlocksEntities,
            8 => CollisionType::BlocksEnemies,
            _ => CollisionType::BlocksNone,
        }
    }
}

/// Walkability of the tiles of a map, `tiles[x][y]`.
#[derive(Debug, Clone, PartialEq, Eq)]
pub struct CollisionMap {
    pub width: u16,
    pub height: u16,
    pub tiles: Vec<Vec<CollisionType>>,
}

/// Mathematical model of a [`CollisionMap`].
pub struct CollisionV {
    pub width: u16,
    pub height: u16,
    pub tiles: Seq<Seq<CollisionType>>,
}

impl View for CollisionMap {
    type V = CollisionV;

    open spec fn view(&self) -> CollisionV {
        CollisionV {
            width: self.width,
            height: self.height,
            tiles: self.tiles@.map_values(|c: Vec<CollisionType>| c@),
        }
    }
}

/// The grid has `width` columns of `height` tiles.
pub open spec fn collision_wf(c: CollisionV) -> bool {
    &&& c.tiles.len() == c.width
    &&& forall|x: int| 0 <= x < c.tiles.len() ==> (#[trigger] c.tiles[x]).len() == c.height
}

/// What `in_bounds` answers; the coordinates are compared as 16-bit values.
pub open spec fn spec_in_bounds(c: CollisionV, x: i32, y: i32) -> bool {
    x >= 0 && y >= 0 && (x as u16) < c.width && (y as u16) < c.height
}

/// The tile lookup of a position stays on the grid: a position that passes
/// the bounds test has a tile in `tiles`.
pub open spec fn lookup_safe(c: CollisionV, x: i32, y: i32) -> bool {
    spec_in_bounds(c, x, y) ==> x < c.tiles.len() && y < c.tiles[x as int].len()
}

/// On a well-formed grid every position below 2^16 on both axes can be
/// looked up.
pub proof fn lemma_wf_lookup_safe(c: CollisionV, x: i32, y: i32)
    requires
        collision_wf(c),
        x < 65536,
        y < 65536,
    ensures
        lookup_safe(c, x, y),
{
    if spec_in_bounds(c, x, y) {
        assert((x as u16) as int == x);
        assert((y as u16) as int == y);
    }
}

/// What `get` answers.
pub open spec fn spec_get(c: CollisionV, x: i32, y: i32) -> Option<CollisionType> {
    if spec_in_bounds(c, x, y) {
        Some(c.tiles[x as int][y as int])
    } else {
        None
    }
}

/// Whether a tile is a wall: it blocks everything.
pub open spec fn is_wall_type(t: CollisionType) -> bool {
    t == CollisionType::BlocksAll || t == CollisionType::BlocksAllHidden
}

/// Whether a tile blocks an entity moving in the given way.
pub open spec fn type_blocks(t: CollisionType, movement: MovementType) -> bool {
    match movement {
        MovementType::Intangible => false,
        MovementType::Flying => is_wall_type(t),
        MovementType::Normal => !(t == CollisionType::BlocksNone || t == CollisionType::MapOnly || t
            == CollisionType::MapOnlyAlt),
    }
}

/// What `blocks_movement` answers: outside the map everything is blocked.
pub open spec fn spec_blocks(c: CollisionV, x: i32, y: i32, movement: MovementType) -> bool {
    if !spec_in_bounds(c, x, y) {
        true
    } else {
        type_blocks(c.tiles[x as int][y as int], movement)
    }
}

/// Whether every value of a layer lands on the grid that `from_layer` makes:
/// its height is the row count and its width the length of the first row,
/// both as 16-bit values.
pub open spec fn layer_fits(data: Seq<Seq<u16>>) -> bool {
    forall|y: int|
        0 <= y < data.len() && (#[trigger] data[y]).len() > 0 ==> y < (data.len() as u16) && data[y].len()
            <= (data[0].len() as u16)
}

/// The grid of a collision layer given as rows `data[y][x]`.
pub open spec fn spec_from_layer(data: Seq<Seq<u16>>) -> CollisionV {
    let h = data.len() as u16;
    let w = if data.len() > 0 {
        data[0].len() as u16
    } else {
        0u16
    };
    CollisionV {
        width: w,
        height: h,
        tiles: Seq::new(
            w as nat,
            |x: int|
                Seq::new(
                    h as nat,
                    |y: int|
                        if y < data.len() && x < data[y].len() {
                            collision_of(data[y][x])
                        } else {
                            CollisionType::BlocksNone
                        },
                ),
        ),
    }
}

/// A grid of `width` by `height` tiles that block nothing.
pub open spec fn open_grid(width: u16, height: u16) -> CollisionV {
    CollisionV {
        width,
        height,
        tiles: Seq::new(
            width as nat,
            |x: int| Seq::new(height as nat, |y: int| CollisionType::BlocksNone),
        ),
    }
}

/// The collision grid of a map: its `collision` layer, or an open grid of
/// the header's size.
pub open spec fn spec_from_map(m: MapV) -> CollisionV {
    match layer_index(m.layers, "collision"@) {
        Some(i) => spec_from_layer(m.layers[i].data),
        None => open_grid(m.header.width, m.header.height),
    }
}

fn open_column(height: u16) -> (col: Vec<CollisionType>)
    ensures
        col@ == Seq::new(height as nat, |y: int| CollisionType::BlocksNone),
{
    let mut col: Vec<CollisionType> = Vec::new();
    let mut y: usize = 0;
    while y < height as usize
        invariant
            y <= height,
            col@ == Seq::new(y as nat, |j: int| CollisionType::BlocksNone),
        decreases height - y,
    {
        col.push(CollisionType::BlocksNone);
        y += 1;
        assert(col@ =~= Seq::new(y as nat, |j: int| CollisionType::BlocksNone));
    }
    col
}

impl CollisionMap {
    /// Builds the grid of a collision layer, `data[y][x]`.
    pub fn from_layer(layer: &MapLayer) -> (r: Self)
        requires
            layer_fits(rows_view(layer.data@)),
        ensures
            r@ == spec_from_layer(rows_view(layer.data@)),
            collision_wf(r@),
    {
        let data = &layer.data;
        let ghost dv = rows_view(data@);
        let height = data.len() as u16;
        let width: u16 = if data.len() > 0 {
            data[0].len() as u16
        } else {
            0
        };
        let ghost goal = spec_from_layer(dv);
        let mut tiles: Vec<Vec<CollisionType>> = Vec::new();
        let mut x: usize = 0;
        while x < width as usize
            invariant
                x <= width,
                dv == rows_view(data@),
                goal == spec_from_layer(dv),
                goal.width == width,
                goal.height == height,
                tiles.len() == x,
                forall|i: int| 0 <= i < x ==> (#[trigger] tiles@[i])@ == goal.tiles[i],
            decreases width - x,
        {
            let mut col: Vec<CollisionType> = Vec::new();
            let mut y: usize = 0;
            while y < height as usize
                invariant
                    x < width,
                    y <= height,
                    dv == rows_view(data@),
                    goal == spec_from_layer(dv),
                    goal.width == width,
                    goal.height == height,
                    col@ == goal.tiles[x as int].take(y as int),
                decreases height - y,
            {
                let v = if y < data.len() && x < data[y].len() {
                    CollisionType::from_u16(data[y][x])
                } else {
                    CollisionType::BlocksNone
                };
                proof {
                    assert(dv[y as int] == data@[y as int]@);
                    assert(goal.tiles[x as int].take(y + 1) =~= goal.tiles[x as int].take(y as int).push(v));
                }
                col.push(v);
                y += 1;
            }
            assert(goal.tiles[x as int].take(height as int) =~= goal.tiles[x as int]);
            tiles.push(col);
            x += 1;
        }
        let r = CollisionMap { width, height, tiles };
        assert(r@.tiles =~= goal.tiles);
        r
    }

    /// Builds the grid of a map's `collision` layer, or an open grid of the
    /// map's size when it has none.
    pub fn from_map(map: &FlareMap) -> (r: Self)
        requires
            match layer_index(map@.layers, "collision"@) {
                Some(i) => layer_fits(map@.layers[i].data),
                None => true,
            },
        ensures
            r@ == spec_from_map(map@),
            collision_wf(r@),
    {
        proof {
            layer_names(map@.layers).index_of_first_ensures("collision"@);
        }
        match map.collision_layer() {
            Some(layer) => Self::from_layer(layer),
            None => {
                let width = map.header.width;
                let height = map.header.height;
                let ghost goal = open_grid(width, height);
                let mut tiles: Vec<Vec<CollisionType>> = Vec::new();
                let mut x: usize = 0;
                while x < width as usize
                    invariant
                        x <= width,
                        goal == open_grid(width, height),
                        tiles.len() == x,
                        forall|i: int| 0 <= i < x ==> (#[trigger] tiles@[i])@ == goal.tiles[i],
                    decreases width - x,
                {
                    tiles.push(open_column(height));
                    x += 1;
                }
                let r = CollisionMap { width, height, tiles };
                assert(r@.tiles =~= goal.tiles);
                r
            },
        }
    }

    /// Whether `(x, y)` lies on the map; the coordinates are compared as
    /// 16-bit values.
    pub fn in_bounds(&self, x: i32, y: i32) -> (r: bool)
        ensures
            r == spec_in_bounds(self@, x, y),
    {
        x >= 0 && y >= 0 && (x as u16) < self.width && (y as u16) < self.height
    }

    /// The tile at `(x, y)`, if it lies on the map.
    pub fn get(&self, x: i32, y: i32) -> (r: Option<CollisionType>)
        requires
            lookup_safe(self@, x, y),
        ensures
            r == spec_get(self@, x, y),
    {
        if !self.in_bounds(x, y) {
            return None;
        }
        assert(self@.tiles[x as int] == self.tiles@[x as int]@);
        Some(self.tiles[x as usize][y as usize])
    }

    /// Whether `(x, y)` is a wall (blocks all movement).
    pub fn is_wall(&self, x: i32, y: i32) -> (r: bool)
        requires
            lookup_safe(self@, x, y),
        ensures
            r == (spec_get(self@, x, y) matches Some(t) && is_wall_type(t)),
    {
        match self.get(x, y) {
            Some(CollisionType::BlocksAll) | Some(CollisionType::BlocksAllHidden) => true,
            _ => false,
        }
    }

    /// Whether an entity moving in the given way cannot enter `(x, y)`.
    pub fn blocks_movement(&self, x: i32, y: i32, movement: MovementType) -> (r: bool)
        requires
            lookup_safe(self@, x, y),
        ensures
            r == spec_blocks(self@, x, y, movement),
    {
        if !self.in_bounds(x, y) {
            return true;
        }
        assert(self@.tiles[x as int] == self.tiles@[x as int]@);
        let tile = self.tiles[x as usize][y as usize];
        match movement {
            MovementType::Intangible => false,
            MovementType::Flying => match tile {
                CollisionType::BlocksAll | CollisionType::BlocksAllHidden => true,
                _ => false,
            },
            MovementType::Normal => match tile {
                CollisionType::BlocksNone | CollisionType::MapOnly | CollisionType::MapOnlyAlt => false,
                _ => true,
            },
        }
    }

    /// Whether an entity moving in the given way may stand on `(x, y)`.
    pub fn can_occupy(&self, x: i32, y: i32, movement: MovementType) -> (r: bool)
        requires
            lookup_safe(self@, x, y),
        ensures
            r == !spec_blocks(self@, x, y, movement),
    {
        !self.blocks_movement(x, y, movement)
    }
}

} // verus!

verus! {

/// The meaning of the values of a collision layer: 1 and 3 are walls; 2, 4,
/// 7 and 8 block walking but let flying entities pass; 0, 5, 6 and every
/// other value block nothing.
pub proof fn lemma_collision_values(value: u16)
    ensures
        (value == 1 || value == 3) <==> is_wall_type(collision_of(value)),
        (value == 1 || value == 2 || value == 3 || value == 4 || value == 7 || value == 8)
            <==> type_blocks(collision_of(value), MovementType::Normal),
        type_blocks(collision_of(value), MovementType::Flying) <==> is_wall_type(collision_of(value)),
        !type_blocks(collision_of(value), MovementType::Intangible),
{
}

/// What blocks what: outside the map every movement is blocked; on the map
/// an intangible entity is never blocked, a flying one exactly by walls, and
/// whatever blocks flying blocks walking too.
pub proof fn lemma_blocking_order(c: CollisionV, x: i32, y: i32)
    ensures
        !spec_in_bounds(c, x, y) ==> spec_blocks(c, x, y, MovementType::Normal) && spec_blocks(
            c,
            x,
            y,
            MovementType::Flying,
        ) && spec_blocks(c, x, y, MovementType::Intangible),
        spec_in_bounds(c, x, y) ==> !spec_blocks(c, x, y, MovementType::Intangible),
        spec_in_bounds(c, x, y) ==> (spec_blocks(c, x, y, MovementType::Flying) <==> (spec_get(
            c,
            x,
            y,
        ) matches Some(t) && is_wall_type(t))),
        spec_blocks(c, x, y, MovementType::Flying) ==> spec_blocks(c, x, y, MovementType::Normal),
{
}

/// The collision layer added to a map that has none covers the map and
/// blocks nothing: its grid is the open grid of the map's size.
pub proof fn lemma_added_collision_is_open(h: HeaderV)
    requires
        h.height > 0,
    ensures
        spec_from_layer(zero_collision_layer(h).data) == open_grid(h.width, h.height),
{
    let data = zero_collision_layer(h).data;
    let c = spec_from_layer(data);
    let o = open_grid(h.width, h.height);
    assert(data.len() == h.height);
    assert(data[0].len() == h.width);
    assert((h.height as nat) as u16 == h.height);
    assert((h.width as nat) as u16 == h.width);
    assert forall|x: int| 0 <= x < c.tiles.len() implies #[trigger] c.tiles[x] =~= o.tiles[x] by {
        assert forall|y: int| 0 <= y < c.tiles[x].len() implies c.tiles[x][y] == o.tiles[x][y] by {
            if y < data.len() && x < data[y].len() {
                assert(data[y][x] == 0u16);
            }
        }
    }
    assert(c.tiles =~= o.tiles);
}

/// Every tile of an open grid can be entered, however the entity moves.
pub proof fn lemma_open_grid_walkable(width: u16, height: u16, x: i32, y: i32, movement: MovementType)
    requires
        spec_in_bounds(open_grid(width, height), x, y),
        x < 65536,
        y < 65536,
    ensures
        !spec_blocks(open_grid(width, height), x, y, movement),
{
    assert((x as u16) as int == x);
    assert((y as u16) as int == y);
}

/// A rectangular collision layer of `h` rows of `w` values (both below
/// 2^16) gives a grid `w` wide and `h` high whose tile at column `x` and row
/// `y` is the value in row `y` at position `x`.
pub proof fn lemma_layer_grid_cells(data: Seq<Seq<u16>>, w: int, x: i32, y: i32)
    requires
        0 < data.len() < 65536,
        0 < w < 65536,
        forall|r: int| 0 <= r < data.len() ==> (#[trigger] data[r]).len() == w,
        0 <= x < w,
        0 <= y < data.len(),
    ensures
        spec_from_layer(data).width == w,
        spec_from_layer(data).height == data.len(),
        spec_get(spec_from_layer(data), x, y) == Some(collision_of(data[y as int][x as int])),
{
    assert(data[0].len() == w);
    assert((data.len() as u16) as int == data.len());
    assert((w as u16) as int == w);
    assert((x as u16) as int == x);
    assert((y as u16) as int == y);
}

} // verus!
