use vstd::prelude::*;

verus! {

/// A logical integer cell coordinate.
#[derive(Debug, Clone, Copy, PartialEq, Eq, Structural, Hash)]
pub struct GridCoord {
    pub x: i32,
    pub y: i32,
}

/// One of the four grid directions; `Up` increases `y`, `Right` increases `x`.
#[derive(Debug, Clone, Copy, PartialEq, Eq, Structural, Hash)]
pub enum Dir {
    Up,
    Down,
    Left,
    Right,
}

/// Spatial classification used by the occupancy index.
#[derive(Debug, Clone, Copy, PartialEq, Eq, Structural, Hash)]
pub enum Layer {
    Terrain,
    Blockers,
    Actors,
    Items,
}

/// Horizontal offset of a direction.
pub open spec fn dx(d: Dir) -> int {
    match d {
        Dir::Left => -1,
        Dir::Right => 1,
        _ => 0,
    }
}

/// Vertical offset of a direction.
pub open spec fn dy(d: Dir) -> int {
    match d {
        Dir::Up => 1,
        Dir::Down => -1,
        _ => 0,
    }
}

/// The mathematical cell one step from `(x, y)` in direction `d`.
pub open spec fn step_xy(d: Dir, x: int, y: int) -> (int, int) {
    (x + dx(d), y + dy(d))
}

/// `i32` bounds hold for the coordinate pair.
pub open spec fn fits_i32(p: (int, int)) -> bool {
    i32::MIN <= p.0 <= i32::MAX && i32::MIN <= p.1 <= i32::MAX
}

/// The cell one step from `p` in direction `d`.
pub open spec fn step_spec(d: Dir, p: GridCoord) -> GridCoord {
    GridCoord { x: (p.x + dx(d)) as i32, y: (p.y + dy(d)) as i32 }
}

/// The step from `p` in direction `d` stays representable.
pub open spec fn can_step(d: Dir, p: GridCoord) -> bool {
    fits_i32(step_xy(d, p.x as int, p.y as int))
}

/// Manhattan distance between two cells.
pub open spec fn manhattan_spec(a: GridCoord, b: GridCoord) -> int {
    (if a.x >= b.x { a.x - b.x } else { b.x - a.x }) + (if a.y >= b.y { a.y - b.y } else { b.y - a.y })
}

/// Two cells are 4-adjacent: they differ by one in exactly one coordinate.
pub open spec fn adjacent(a: GridCoord, b: GridCoord) -> bool {
    manhattan_spec(a, b) == 1
}

/// No cell occurs twice in `p`.
pub open spec fn distinct_cells(p: Seq<GridCoord>) -> bool {
    forall|i: int, j: int| 0 <= i < j < p.len() ==> p[i] != p[j]
}

/// The cell lies in the rectangle `[0, width) x [0, height)`.
pub open spec fn in_bounds_spec(c: GridCoord, width: int, height: int) -> bool {
    0 <= c.x < width && 0 <= c.y < height
}

impl GridCoord {
    pub fn new(x: i32, y: i32) -> (r: GridCoord)
        ensures
            r.x == x,
            r.y == y,
    {
        GridCoord { x, y }
    }
}

impl Dir {
    /// The adjacent cell in this direction.
    pub fn step(self, p: GridCoord) -> (r: GridCoord)
        requires
            can_step(self, p),
        ensures
            r == step_spec(self, p),
            r.x == p.x + dx(self),
            r.y == p.y + dy(self),
            adjacent(p, r),
    {
        match self {
            Dir::Up => GridCoord { x: p.x, y: p.y + 1 },
            Dir::Down => GridCoord { x: p.x, y: p.y - 1 },
            Dir::Left => GridCoord { x: p.x - 1, y: p.y },
            Dir::Right => GridCoord { x: p.x + 1, y: p.y },
        }
    }

    /// The adjacent cell in this direction, or `None` where a coordinate would
    /// leave the `i32` range.
    pub fn checked_step(self, p: GridCoord) -> (r: Option<GridCoord>)
        ensures
            r == (if can_step(self, p) { Some(step_spec(self, p)) } else { None::<GridCoord> }),
    {
        match self {
            Dir::Up => if p.y < i32::MAX { Some(GridCoord { x: p.x, y: p.y + 1 }) } else { None },
            Dir::Down => if p.y > i32::MIN { Some(GridCoord { x: p.x, y: p.y - 1 }) } else { None },
            Dir::Left => if p.x > i32::MIN { Some(GridCoord { x: p.x - 1, y: p.y }) } else { None },
            Dir::Right => if p.x < i32::MAX { Some(GridCoord { x: p.x + 1, y: p.y }) } else { None },
        }
    }
}

/// The four neighbours of a cell: right, left, up, down.
pub fn neighbours_4(c: GridCoord) -> (r: [GridCoord; 4])
    requires
        i32::MIN < c.x < i32::MAX,
        i32::MIN < c.y < i32::MAX,
    ensures
        r@ == seq![
            GridCoord { x: (c.x + 1) as i32, y: c.y },
            GridCoord { x: (c.x - 1) as i32, y: c.y },
            GridCoord { x: c.x, y: (c.y + 1) as i32 },
            GridCoord { x: c.x, y: (c.y - 1) as i32 },
        ],
        forall|i: int| 0 <= i < 4 ==> adjacent(c, #[trigger] r@[i]),
{
    [
        GridCoord::new(c.x + 1, c.y),
        GridCoord::new(c.x - 1, c.y),
        GridCoord::new(c.x, c.y + 1),
        GridCoord::new(c.x, c.y - 1),
    ]
}

/// The eight neighbours of a cell: the four of `neighbours_4`, then the diagonals.
pub fn neighbours_8(c: GridCoord) -> (r: [GridCoord; 8])
    requires
        i32::MIN < c.x < i32::MAX,
        i32::MIN < c.y < i32::MAX,
    ensures
        r@ == seq![
            GridCoord { x: (c.x + 1) as i32, y: c.y },
            GridCoord { x: (c.x - 1) as i32, y: c.y },
            GridCoord { x: c.x, y: (c.y + 1) as i32 },
            GridCoord { x: c.x, y: (c.y - 1) as i32 },
            GridCoord { x: (c.x + 1) as i32, y: (c.y + 1) as i32 },
            GridCoord { x: (c.x - 1) as i32, y: (c.y + 1) as i32 },
            GridCoord { x: (c.x + 1) as i32, y: (c.y - 1) as i32 },
            GridCoord { x: (c.x - 1) as i32, y: (c.y - 1) as i32 },
        ],
{
    [
        GridCoord::new(c.x + 1, c.y),
        GridCoord::new(c.x - 1, c.y),
        GridCoord::new(c.x, c.y + 1),
        GridCoord::new(c.x, c.y - 1),
        GridCoord::new(c.x + 1, c.y + 1),
        GridCoord::new(c.x - 1, c.y + 1),
        GridCoord::new(c.x + 1, c.y - 1),
        GridCoord::new(c.x - 1, c.y - 1),
    ]
}

/// Whether the cell lies in the rectangle `[0, width) x [0, height)`.
pub fn in_bounds(c: GridCoord, width: i32, height: i32) -> (r: bool)
    ensures
        r == in_bounds_spec(c, width as int, height as int),
{
    c.x >= 0 && c.x < width && c.y >= 0 && c.y < height
}

/// Manhattan distance between two cells.
pub fn manhattan(a: GridCoord, b: GridCoord) -> (r: u64)
    ensures
        r == manhattan_spec(a, b),
{
    let ddx: i64 = if a.x >= b.x { a.x as i64 - b.x as i64 } else { b.x as i64 - a.x as i64 };
    let ddy: i64 = if a.y >= b.y { a.y as i64 - b.y as i64 } else { b.y as i64 - a.y as i64 };
    (ddx + ddy) as u64
}

/// The direction that leads from `from` to the adjacent cell `to`, if they are
/// 4-adjacent.
pub fn grid_step_to_dir(from: GridCoord, to: GridCoord) -> (r: Option<Dir>)
    ensures
        match r {
            Some(d) => can_step(d, from) && step_spec(d, from) == to,
            None => !adjacent(from, to),
        },
{
    let ddx: i64 = to.x as i64 - from.x as i64;
    let ddy: i64 = to.y as i64 - from.y as i64;
    if ddx == 1 && ddy == 0 {
        Some(Dir::Right)
    } else if ddx == -1 && ddy == 0 {
        Some(Dir::Left)
    } else if ddx == 0 && ddy == 1 {
        Some(Dir::Up)
    } else if ddx == 0 && ddy == -1 {
        Some(Dir::Down)
    } else {
        None
    }
}

} // verus!
