//! The game map: a grid of wall and floor tiles read from the rows of a map
//! file, with the wall and item entities that stand on it.
//!
//! Entities are identified by their 64-bit ids; walls are 8×8 cells, items
//! are tracked on a 2×2 grid.  Wall heights are whole world units.
use vstd::prelude::*;
use std::collections::HashMap;
use crate::text::{chars_of, string_from_chars};

verus! {

broadcast use {vstd::std_specs::hash::group_hash_axioms, vstd::string::group_string_axioms};

/// What occupies a grid cell.
#[derive(Debug, Clone, Copy, PartialEq, Eq, Structural)]
pub enum TileType {
    Empty,
    Wall { height: u32 },
}

/// The tile that a map-file character stands for: `#` and `X` are full
/// walls (height 16), `x` a low wall (height 8), anything else floor.
pub open spec fn tile_of(c: char) -> TileType {
    if c == '#' || c == 'X' {
        TileType::Wall { height: 16 }
    } else if c == 'x' {
        TileType::Wall { height: 8 }
    } else {
        TileType::Empty
    }
}

/// The map-file character of a tile: walls higher than 10 are `X`, lower
/// ones `x`, floor is `.`.
pub open spec fn char_of(t: TileType) -> char {
    match t {
        TileType::Wall { height } => if height > 10 { 'X' } else { 'x' },
        TileType::Empty => '.',
    }
}

/// The hash key of a cell.
pub open spec fn cell_key(c: (i32, i32)) -> u64 {
    ((c.0 as u32 as u64) << 32u64) | (c.1 as u32 as u64)
}

fn key_of(x: i32, y: i32) -> (k: u64)
    ensures
        k == cell_key((x, y)),
{
    ((x as u32 as u64) << 32u64) | (y as u32 as u64)
}

proof fn lemma_cell_key_injective(a: (i32, i32), b: (i32, i32))
    ensures
        cell_key(a) == cell_key(b) ==> a == b,
{
    let (x1, y1) = a;
    let (x2, y2) = b;
    assert((((x1 as u32 as u64) << 32u64) | (y1 as u32 as u64)) >> 32u64 == x1 as u32 as u64) by (bit_vector);
    assert((((x1 as u32 as u64) << 32u64) | (y1 as u32 as u64)) as u32 == y1 as u32) by (bit_vector);
    assert((((x2 as u32 as u64) << 32u64) | (y2 as u32 as u64)) >> 32u64 == x2 as u32 as u64) by (bit_vector);
    assert((((x2 as u32 as u64) << 32u64) | (y2 as u32 as u64)) as u32 == y2 as u32) by (bit_vector);
    assert(x1 as u32 == x2 as u32 ==> x1 == x2) by (bit_vector);
    assert(y1 as u32 == y2 as u32 ==> y1 == y2) by (bit_vector);
}

/// The cells of a hash map keyed by cell keys.
pub open spec fn cells<V>(m: Map<u64, V>) -> Map<(i32, i32), V> {
    Map::new(|c: (i32, i32)| m.contains_key(cell_key(c)), |c: (i32, i32)| m[cell_key(c)])
}

proof fn lemma_cells_insert<V>(m: Map<u64, V>, c: (i32, i32), v: V)
    ensures
        cells(m.insert(cell_key(c), v)) == cells(m).insert(c, v),
{
    assert forall|d: (i32, i32)| #![trigger cells(m.insert(cell_key(c), v)).contains_key(d)]
        cells(m.insert(cell_key(c), v)).contains_key(d) == cells(m).insert(c, v).contains_key(d)
        && (cells(m.insert(cell_key(c), v)).contains_key(d) ==> cells(m.insert(cell_key(c), v))[d] == cells(m).insert(c, v)[d]) by {
        lemma_cell_key_injective(c, d);
    }
    assert(cells(m.insert(cell_key(c), v)) =~= cells(m).insert(c, v));
}

proof fn lemma_cells_remove<V>(m: Map<u64, V>, c: (i32, i32))
    ensures
        cells(m.remove(cell_key(c))) == cells(m).remove(c),
{
    assert forall|d: (i32, i32)| #![trigger cells(m.remove(cell_key(c))).contains_key(d)]
        cells(m.remove(cell_key(c))).contains_key(d) == cells(m).remove(c).contains_key(d) by {
        lemma_cell_key_injective(c, d);
    }
    assert(cells(m.remove(cell_key(c))) =~= cells(m).remove(c));
}

/// The tiles after reading the first `upto` characters of row `r`.
pub open spec fn row_tiles(m: Map<(i32, i32), TileType>, row: Seq<char>, r: int, upto: int) -> Map<(i32, i32), TileType>
    decreases upto,
{
    if upto <= 0 {
        m
    } else {
        row_tiles(m, row, r, upto - 1).insert(((upto - 1) as i32, r as i32), tile_of(row[upto - 1]))
    }
}

/// The tiles after reading the first `upto` rows, each character of row
/// `r`, column `c`, giving the tile of cell `(c, r)` (as `i32` coordinates;
/// a later cell with the same coordinates replaces an earlier one).
pub open spec fn grid_tiles(rows: Seq<Seq<char>>, upto: int) -> Map<(i32, i32), TileType>
    decreases upto,
{
    if upto <= 0 {
        Map::empty()
    } else {
        row_tiles(grid_tiles(rows, upto - 1), rows[upto - 1], upto - 1, rows[upto - 1].len() as int)
    }
}

/// The map: its size in cells, the tiles, and the entities of walls and items.
pub struct WorldMap {
    width: i32,
    height: i32,
    collision_grid: HashMap<u64, TileType>,
    walls: HashMap<u64, u64>,
    items: HashMap<u64, u64>,
}

impl WorldMap {
    /// Width in cells.
    pub closed spec fn grid_width(&self) -> i32 {
        self.width
    }

    /// Height in cells.
    pub closed spec fn grid_height(&self) -> i32 {
        self.height
    }

    pub fn width(&self) -> (w: i32)
        ensures
            w == self.grid_width(),
    {
        self.width
    }

    pub fn height(&self) -> (h: i32)
        ensures
            h == self.grid_height(),
    {
        self.height
    }

    /// Tiles by cell.
    pub closed spec fn tiles(&self) -> Map<(i32, i32), TileType> {
        cells(self.collision_grid@)
    }

    /// Wall entities by cell.
    pub closed spec fn wall_entities(&self) -> Map<(i32, i32), u64> {
        cells(self.walls@)
    }

    /// Item entities by cell of the 2×2 item grid.
    pub closed spec fn item_entities(&self) -> Map<(i32, i32), u64> {
        cells(self.items@)
    }

    /// Whether the cell holds a wall.
    pub open spec fn solid(&self, c: (i32, i32)) -> bool {
        self.tiles().contains_key(c) && self.tiles()[c] is Wall
    }

    /// An empty map of the given size.
    pub fn new(width: i32, height: i32) -> (m: Self)
        ensures
            m.grid_width() == width,
            m.grid_height() == height,
            m.tiles() == Map::<(i32, i32), TileType>::empty(),
            m.wall_entities() == Map::<(i32, i32), u64>::empty(),
            m.item_entities() == Map::<(i32, i32), u64>::empty(),
    {
        let m = WorldMap {
            width,
            height,
            collision_grid: HashMap::new(),
            walls: HashMap::new(),
            items: HashMap::new(),
        };
        assert(m.tiles() =~= Map::<(i32, i32), TileType>::empty());
        assert(m.wall_entities() =~= Map::<(i32, i32), u64>::empty());
        assert(m.item_entities() =~= Map::<(i32, i32), u64>::empty());
        m
    }

    fn set_tile(&mut self, x: i32, y: i32, t: TileType)
        ensures
            final(self).tiles() == old(self).tiles().insert((x, y), t),
            final(self).wall_entities() == old(self).wall_entities(),
            final(self).item_entities() == old(self).item_entities(),
            final(self).grid_width() == old(self).grid_width(),
            final(self).grid_height() == old(self).grid_height(),
    {
        proof { lemma_cells_insert(self.collision_grid@, (x, y), t); }
        self.collision_grid.insert(key_of(x, y), t);
    }

    /// The map described by the rows of a map file.  The height is the
    /// number of rows and the width the length in bytes of the first row
    /// (both as `i32`).
    pub fn from_grid_rows(grid: &Vec<String>) -> (m: Self)
        ensures
            m.grid_height() == grid@.len() as i32,
            m.grid_width() == if grid@.len() as i32 > 0 { vstd::utf8::encode_utf8(grid@[0]@).len() as usize as i32 } else { 0 },
            m.tiles() == grid_tiles(crate::text::string_views(grid@), grid@.len() as int),
            m.wall_entities() == Map::<(i32, i32), u64>::empty(),
            m.item_entities() == Map::<(i32, i32), u64>::empty(),
    {
        let height = grid.len() as i32;
        let width = if height > 0 { grid[0].as_str().len() as i32 } else { 0 };
        let mut map = Self::new(width, height);
        let ghost rows = crate::text::string_views(grid@);
        let mut r: usize = 0;
        while r < grid.len()
            invariant
                r <= grid@.len(),
                rows == crate::text::string_views(grid@),
                map.width == width,
                map.height == height,
                map.tiles() == grid_tiles(rows, r as int),
                map.wall_entities() == Map::<(i32, i32), u64>::empty(),
                map.item_entities() == Map::<(i32, i32), u64>::empty(),
            decreases grid.len() - r,
        {
            let row = chars_of(grid[r].as_str());
            assert(row@ == rows[r as int]);
            let mut c: usize = 0;
            while c < row.len()
                invariant
                    c <= row@.len(),
                    row@ == rows[r as int],
                    r < grid@.len(),
                    rows == crate::text::string_views(grid@),
                    map.width == width,
                    map.height == height,
                    map.tiles() == row_tiles(grid_tiles(rows, r as int), row@, r as int, c as int),
                    map.wall_entities() == Map::<(i32, i32), u64>::empty(),
                    map.item_entities() == Map::<(i32, i32), u64>::empty(),
                decreases row.len() - c,
            {
                let ch = row[c];
                let t = if ch == '#' || ch == 'X' {
                    TileType::Wall { height: 16 }
                } else if ch == 'x' {
                    TileType::Wall { height: 8 }
                } else {
                    TileType::Empty
                };
                map.set_tile(c as i32, r as i32, t);
                c += 1;
            }
            r += 1;
        }
        map
    }

    /// The rows of a map file for this map: row `y`, column `x` holds the
    /// character of the tile at `(x, y)`, or a space where there is none.
    pub fn to_grid_rows(&self) -> (rows: Vec<String>)
        requires
            self.grid_width() >= 0,
            self.grid_height() >= 0,
        ensures
            rows@.len() == self.grid_height(),
            forall|y: int| 0 <= y < self.grid_height() ==> (#[trigger] rows@[y])@.len() == self.grid_width(),
            forall|y: int, x: int| 0 <= y < self.grid_height() && 0 <= x < self.grid_width() ==> #[trigger] rows@[y]@[x]
                == if self.tiles().contains_key((x as i32, y as i32)) { char_of(self.tiles()[(x as i32, y as i32)]) } else { ' ' },
    {
        let mut rows: Vec<String> = Vec::new();
        let mut y: i32 = 0;
        while y < self.height
            invariant
                0 <= y <= self.height,
                self.width >= 0,
                rows@.len() == y,
                forall|yy: int| 0 <= yy < y ==> (#[trigger] rows@[yy])@.len() == self.width,
                forall|yy: int, x: int| 0 <= yy < y && 0 <= x < self.width ==> #[trigger] rows@[yy]@[x]
                    == if self.tiles().contains_key((x as i32, yy as i32)) { char_of(self.tiles()[(x as i32, yy as i32)]) } else { ' ' },
            decreases self.height - y,
        {
            let mut row: Vec<char> = Vec::new();
            let mut x: i32 = 0;
            while x < self.width
                invariant
                    0 <= x <= self.width,
                    row@.len() == x,
                    forall|xx: int| 0 <= xx < x ==> #[trigger] row@[xx]
                        == if self.tiles().contains_key((xx as i32, y)) { char_of(self.tiles()[(xx as i32, y)]) } else { ' ' },
                decreases self.width - x,
            {
                proof { lemma_cell_key_injective((x, y), (x, y)); }
                let ch = match self.collision_grid.get(&key_of(x, y)) {
                    Some(TileType::Wall { height }) => if *height > 10 { 'X' } else { 'x' },
                    Some(TileType::Empty) => '.',
                    None => ' ',
                };
                row.push(ch);
                x += 1;
            }
            rows.push(string_from_chars(&row));
            y += 1;
        }
        rows
    }

    /// Whether the cell holds a wall.
    pub fn is_solid(&self, grid_x: i32, grid_y: i32) -> (b: bool)
        ensures
            b == self.solid((grid_x, grid_y)),
    {
        match self.collision_grid.get(&key_of(grid_x, grid_y)) {
            Some(TileType::Wall { .. }) => true,
            _ => false,
        }
    }

    /// Whether a cell is inside the map and free of walls.
    pub open spec fn open_cell(&self, x: int, y: int) -> bool {
        0 <= x < self.grid_width() && 0 <= y < self.grid_height() && !self.solid((x as i32, y as i32))
    }

    /// Whether every cell from `(min_x, min_y)` to `(max_x, max_y)`, bounds
    /// included, is inside the map and free of walls; the player's bounding
    /// box may move into these cells.
    pub fn area_is_open(&self, min_x: i32, max_x: i32, min_y: i32, max_y: i32) -> (b: bool)
        ensures
            b == forall|x: int, y: int| min_x <= x <= max_x && min_y <= y <= max_y ==> #[trigger] self.open_cell(x, y),
    {
        let mut y: i64 = min_y as i64;
        while y <= max_y as i64
            invariant
                min_y <= y,
                y <= max_y as i64 + 1 || y == min_y,
                forall|xx: int, yy: int| min_x <= xx <= max_x && min_y <= yy < y ==> #[trigger] self.open_cell(xx, yy),
            decreases max_y as i64 + 1 - y,
        {
            let mut x: i64 = min_x as i64;
            while x <= max_x as i64
                invariant
                    min_x <= x,
                    x <= max_x as i64 + 1 || x == min_x,
                    min_y <= y <= max_y,
                    forall|xx: int, yy: int| min_x <= xx <= max_x && min_y <= yy < y ==> #[trigger] self.open_cell(xx, yy),
                    forall|xx: int| min_x <= xx < x ==> #[trigger] self.open_cell(xx, y as int),
                decreases max_x as i64 + 1 - x,
            {
                let gx = x as i32;
                let gy = y as i32;
                if gx < 0 || gx >= self.width || gy < 0 || gy >= self.height {
                    assert(!self.open_cell(x as int, y as int));
                    return false;
                }
                if self.is_solid(gx, gy) {
                    assert(!self.open_cell(x as int, y as int));
                    return false;
                }
                x += 1;
            }
            y += 1;
        }
        true
    }

    /// Records a wall entity at a cell (the tile becomes a wall of the given height).
    pub fn add_wall(&mut self, grid_x: i32, grid_y: i32, wall_height: u32, entity: u64)
        ensures
            final(self).tiles() == old(self).tiles().insert((grid_x, grid_y), TileType::Wall { height: wall_height }),
            final(self).wall_entities() == old(self).wall_entities().insert((grid_x, grid_y), entity),
            final(self).item_entities() == old(self).item_entities(),
            final(self).grid_width() == old(self).grid_width(),
            final(self).grid_height() == old(self).grid_height(),
    {
        self.set_tile(grid_x, grid_y, TileType::Wall { height: wall_height });
        proof { lemma_cells_insert(self.walls@, (grid_x, grid_y), entity); }
        self.walls.insert(key_of(grid_x, grid_y), entity);
    }

    /// Clears a cell: its tile becomes floor, and the wall entity on it, if
    /// any, is forgotten and returned (to be despawned).
    pub fn remove_wall(&mut self, grid_x: i32, grid_y: i32) -> (removed: Option<u64>)
        ensures
            final(self).tiles() == old(self).tiles().insert((grid_x, grid_y), TileType::Empty),
            final(self).wall_entities() == old(self).wall_entities().remove((grid_x, grid_y)),
            removed == if old(self).wall_entities().contains_key((grid_x, grid_y)) {
                Some(old(self).wall_entities()[(grid_x, grid_y)])
            } else {
                None::<u64>
            },
            final(self).item_entities() == old(self).item_entities(),
            final(self).grid_width() == old(self).grid_width(),
            final(self).grid_height() == old(self).grid_height(),
    {
        self.set_tile(grid_x, grid_y, TileType::Empty);
        proof { lemma_cells_remove(self.walls@, (grid_x, grid_y)); }
        self.walls.remove(&key_of(grid_x, grid_y))
    }

    /// Records an item entity at a cell of the item grid.
    pub fn register_item(&mut self, grid_x: i32, grid_y: i32, entity: u64)
        ensures
            final(self).item_entities() == old(self).item_entities().insert((grid_x, grid_y), entity),
            final(self).tiles() == old(self).tiles(),
            final(self).wall_entities() == old(self).wall_entities(),
            final(self).grid_width() == old(self).grid_width(),
            final(self).grid_height() == old(self).grid_height(),
    {
        proof { lemma_cells_insert(self.items@, (grid_x, grid_y), entity); }
        self.items.insert(key_of(grid_x, grid_y), entity);
    }

    /// Forgets the item entity at a cell of the item grid.
    pub fn unregister_item(&mut self, grid_x: i32, grid_y: i32)
        ensures
            final(self).item_entities() == old(self).item_entities().remove((grid_x, grid_y)),
            final(self).tiles() == old(self).tiles(),
            final(self).wall_entities() == old(self).wall_entities(),
            final(self).grid_width() == old(self).grid_width(),
            final(self).grid_height() == old(self).grid_height(),
    {
        proof { lemma_cells_remove(self.items@, (grid_x, grid_y)); }
        self.items.remove(&key_of(grid_x, grid_y));
    }

    /// The item entity at a cell of the item grid, if any.
    pub fn get_item_at(&self, grid_x: i32, grid_y: i32) -> (e: Option<u64>)
        ensures
            e == if self.item_entities().contains_key((grid_x, grid_y)) {
                Some(self.item_entities()[(grid_x, grid_y)])
            } else {
                None::<u64>
            },
    {
        match self.items.get(&key_of(grid_x, grid_y)) {
            Some(e) => Some(*e),
            None => None,
        }
    }
}


//=========================================================================
// Laws
//=========================================================================

/// The character a grid cell reads back as once loaded: `#` becomes `X`,
/// `X` and `x` stay, anything else is an empty floor `.`.
pub open spec fn canonical_cell(c: char) -> char {
    if c == '#' || c == 'X' {
        'X'
    } else if c == 'x' {
        'x'
    } else {
        '.'
    }
}

proof fn lemma_row_tiles(m: Map<(i32, i32), TileType>, row: Seq<char>, r: int, upto: int)
    requires
        0 <= upto <= row.len(),
        upto <= i32::MAX + 1,
        0 <= r <= i32::MAX,
    ensures
        forall|x: int| 0 <= x < upto ==> #[trigger] row_tiles(m, row, r, upto).contains_key((x as i32, r as i32))
            && row_tiles(m, row, r, upto)[(x as i32, r as i32)] == tile_of(row[x]),
        forall|c: (i32, i32)| c.1 != r as i32 ==> (#[trigger] row_tiles(m, row, r, upto).contains_key(c) == m.contains_key(c))
            && (m.contains_key(c) ==> row_tiles(m, row, r, upto)[c] == m[c]),
    decreases upto,
{
    if upto > 0 {
        lemma_row_tiles(m, row, r, upto - 1);
        assert forall|x: int| 0 <= x < upto implies #[trigger] row_tiles(m, row, r, upto).contains_key((x as i32, r as i32))
            && row_tiles(m, row, r, upto)[(x as i32, r as i32)] == tile_of(row[x]) by {
            if x < upto - 1 {
                assert((x as i32) != ((upto - 1) as i32));
                assert(row_tiles(m, row, r, upto - 1).contains_key((x as i32, r as i32)));
            }
        }
    }
}

proof fn lemma_grid_tiles(rows: Seq<Seq<char>>, upto: int, x: int, y: int)
    requires
        0 <= y < upto <= rows.len(),
        rows.len() <= i32::MAX,
        forall|r: int| 0 <= r < rows.len() ==> (#[trigger] rows[r]).len() <= i32::MAX,
        0 <= x < rows[y].len(),
    ensures
        grid_tiles(rows, upto).contains_key((x as i32, y as i32)),
        grid_tiles(rows, upto)[(x as i32, y as i32)] == tile_of(rows[y][x]),
    decreases upto,
{
    let prev = grid_tiles(rows, upto - 1);
    let last = row_tiles(prev, rows[upto - 1], upto - 1, rows[upto - 1].len() as int);
    lemma_row_tiles(prev, rows[upto - 1], upto - 1, rows[upto - 1].len() as int);
    assert(grid_tiles(rows, upto) == last);
    let c = (x as i32, y as i32);
    if y < upto - 1 {
        lemma_grid_tiles(rows, upto - 1, x, y);
        assert((y as i32) != ((upto - 1) as i32));
        assert(last.contains_key(c) == prev.contains_key(c));
        assert(last[c] == prev[c]);
    } else {
        assert(last.contains_key(c));
    }
}

/// Loading a grid and writing it back gives the grid again, with `#` read
/// back as `X` and any unknown character as `.`: the tile loaded for the
/// cell at column `x` of row `y` is written as `canonical_cell` of the
/// character there.
pub proof fn law_grid_round_trip(rows: Seq<Seq<char>>, x: int, y: int)
    requires
        rows.len() <= i32::MAX,
        forall|r: int| 0 <= r < rows.len() ==> (#[trigger] rows[r]).len() <= i32::MAX,
        0 <= y < rows.len(),
        0 <= x < rows[y].len(),
    ensures
        grid_tiles(rows, rows.len() as int).contains_key((x as i32, y as i32)),
        char_of(grid_tiles(rows, rows.len() as int)[(x as i32, y as i32)]) == canonical_cell(rows[y][x]),
{
    lemma_grid_tiles(rows, rows.len() as int, x, y);
}

/// A wall added to a cell makes it solid; removing it again makes the cell
/// walkable, hands back the wall's entity, and forgets the wall.
pub proof fn law_wall_add_then_remove(
    m0: &WorldMap,
    m1: &WorldMap,
    m2: &WorldMap,
    x: i32,
    y: i32,
    h: u32,
    e: u64,
    removed: Option<u64>,
)
    requires
        m1.tiles() == m0.tiles().insert((x, y), TileType::Wall { height: h }),
        m1.wall_entities() == m0.wall_entities().insert((x, y), e),
        m2.tiles() == m1.tiles().insert((x, y), TileType::Empty),
        m2.wall_entities() == m1.wall_entities().remove((x, y)),
        removed == if m1.wall_entities().contains_key((x, y)) {
            Some(m1.wall_entities()[(x, y)])
        } else {
            None::<u64>
        },
    ensures
        m1.solid((x, y)),
        !m2.solid((x, y)),
        removed == Some(e),
        m2.wall_entities() == m0.wall_entities().remove((x, y)),
{
    assert(m2.wall_entities() =~= m0.wall_entities().remove((x, y)));
}

/// An item registered at a cell is found there until it is unregistered.
pub proof fn law_item_register_then_unregister(m0: &WorldMap, m1: &WorldMap, m2: &WorldMap, x: i32, y: i32, e: u64)
    requires
        m1.item_entities() == m0.item_entities().insert((x, y), e),
        m2.item_entities() == m1.item_entities().remove((x, y)),
    ensures
        m1.item_entities().contains_key((x, y)),
        m1.item_entities()[(x, y)] == e,
        !m2.item_entities().contains_key((x, y)),
        m2.item_entities() == m0.item_entities().remove((x, y)),
{
    assert(m2.item_entities() =~= m0.item_entities().remove((x, y)));
}

/// Writing back a map loaded from a rectangular grid of `X`, `x` and `.`
/// gives that grid again, row for row: `rows` is the grid that was loaded
/// (`m` as `from_grid_rows` builds it) and `out` the rows that
/// `to_grid_rows` writes for `m`.
pub proof fn law_rectangular_grid_round_trip(rows: Seq<Seq<char>>, m: &WorldMap, out: Seq<Seq<char>>)
    requires
        rows.len() <= i32::MAX,
        forall|r: int| 0 <= r < rows.len() ==> (#[trigger] rows[r]).len() == rows[0].len(),
        rows.len() > 0 ==> rows[0].len() <= i32::MAX,
        forall|r: int, c: int| 0 <= r < rows.len() && 0 <= c < rows[r].len()
            ==> (#[trigger] rows[r][c] == 'X' || rows[r][c] == 'x' || rows[r][c] == '.'),
        m.grid_height() == rows.len() as i32,
        m.grid_width() == if rows.len() as i32 > 0 { vstd::utf8::encode_utf8(rows[0]).len() as usize as i32 } else { 0 },
        m.tiles() == grid_tiles(rows, rows.len() as int),
        out.len() == m.grid_height(),
        forall|y: int| 0 <= y < m.grid_height() ==> (#[trigger] out[y]).len() == m.grid_width(),
        forall|y: int, x: int| 0 <= y < m.grid_height() && 0 <= x < m.grid_width() ==> #[trigger] out[y][x]
            == if m.tiles().contains_key((x as i32, y as i32)) { char_of(m.tiles()[(x as i32, y as i32)]) } else { ' ' },
    ensures
        out == rows,
{
    if rows.len() > 0 {
        assert(vstd::utf8::is_ascii_chars(rows[0])) by {
            assert forall|i: int| 0 <= i < rows[0].len() implies '\0' <= #[trigger] rows[0][i] <= '\u{7f}' by {
                assert(rows[0][i] == 'X' || rows[0][i] == 'x' || rows[0][i] == '.');
            }
        }
        vstd::utf8::is_ascii_chars_encode_utf8(rows[0]);
        assert(m.grid_width() == rows[0].len());
    }
    assert forall|y: int| 0 <= y < rows.len() implies #[trigger] out[y] == rows[y] by {
        assert forall|x: int| 0 <= x < rows[y].len() implies out[y][x] == rows[y][x] by {
            law_grid_round_trip(rows, x, y);
        }
        assert(out[y] =~= rows[y]);
    }
    assert(out =~= rows);
}

} // verus!
