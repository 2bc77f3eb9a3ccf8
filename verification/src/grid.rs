//! Grid geometry: coordinate bounds, the row-major cell index, directions and
//! the downstream-target arithmetic, and the (unused) building-placement grid.

use vstd::prelude::*;

verus! {

/// Width of the playing field, in cells.
pub const MAP_WIDTH: i32 = 80;

/// Height of the playing field, in cells.
pub const MAP_HEIGHT: i32 = 50;

/// Number of cells in the grid; equals `MAP_WIDTH * MAP_HEIGHT`.
pub const GRID_CELLS: usize = 4000;

/// An integer grid coordinate. Valid iff `0 <= x < MAP_WIDTH` and
/// `0 <= y < MAP_HEIGHT`.
#[derive(Clone, Copy, PartialEq, Eq, Structural, Debug, Hash)]
pub struct Position {
    pub x: i32,
    pub y: i32,
}

impl Position {
    /// Whether this coordinate lies on the grid.
    pub open spec fn spec_valid(&self) -> bool {
        0 <= self.x < MAP_WIDTH && 0 <= self.y < MAP_HEIGHT
    }

    /// Bounds check against the fixed grid dimensions.
    #[verifier::when_used_as_spec(spec_valid)]
    pub fn valid(&self) -> (b: bool)
        ensures
            b == self.spec_valid(),
    {
        self.x >= 0 && self.x < MAP_WIDTH && self.y >= 0 && self.y < MAP_HEIGHT
    }
}

/// Row-major cell index of a coordinate.
pub open spec fn cell_index(p: Position) -> int {
    p.y * MAP_WIDTH + p.x
}

/// The coordinate whose row-major cell index is `i`.
pub open spec fn position_of_index(i: int) -> Position {
    Position { x: (i % (MAP_WIDTH as int)) as i32, y: (i / (MAP_WIDTH as int)) as i32 }
}

/// A cardinal direction a conveyor segment can feed toward.
#[derive(Clone, Copy, PartialEq, Eq, Structural, Debug)]
pub enum Direction {
    Up,
    Down,
    Left,
    Right,
}

impl Direction {
    /// The next direction a quarter turn clockwise.
    pub open spec fn rotated(&self) -> Direction {
        match self {
            Direction::Up => Direction::Right,
            Direction::Right => Direction::Down,
            Direction::Down => Direction::Left,
            Direction::Left => Direction::Up,
        }
    }

    /// Turn a quarter turn clockwise.
    #[verifier::when_used_as_spec(rotated)]
    pub fn rotate(&self) -> (r: Self)
        ensures
            r == self.rotated(),
    {
        match self {
            Self::Up => Self::Right,
            Self::Right => Self::Down,
            Self::Down => Self::Left,
            Self::Left => Self::Up,
        }
    }
}

/// The coordinate one cell from `p` toward `d`; may lie off the grid.
pub open spec fn target_spec(p: Position, d: Direction) -> Position {
    match d {
        Direction::Up => Position { x: p.x, y: (p.y - 1) as i32 },
        Direction::Down => Position { x: p.x, y: (p.y + 1) as i32 },
        Direction::Left => Position { x: (p.x - 1) as i32, y: p.y },
        Direction::Right => Position { x: (p.x + 1) as i32, y: p.y },
    }
}

/// Downstream target of a valid coordinate: the neighbouring cell toward `d`.
pub fn target_position(p: &Position, d: Direction) -> (t: Position)
    requires
        p.spec_valid(),
    ensures
        t == target_spec(*p, d),
{
    match d {
        Direction::Up => Position { x: p.x, y: p.y - 1 },
        Direction::Down => Position { x: p.x, y: p.y + 1 },
        Direction::Left => Position { x: p.x - 1, y: p.y },
        Direction::Right => Position { x: p.x + 1, y: p.y },
    }
}

/// Clamp `value` into the closed interval `[minimum, maximum]`.
pub open spec fn clamp_spec(value: int, minimum: int, maximum: int) -> int {
    if value < minimum {
        minimum
    } else if value > maximum {
        maximum
    } else {
        value
    }
}

/// Clamp `value` into the closed interval `[minimum, maximum]`.
pub fn clamp(value: i32, minimum: i32, maximum: i32) -> (r: i32)
    requires
        minimum <= maximum,
    ensures
        r == clamp_spec(value as int, minimum as int, maximum as int),
{
    if value < minimum {
        minimum
    } else if value > maximum {
        maximum
    } else {
        value
    }
}

/// Kinds of building a segment can belong to.
#[derive(Clone, Copy, PartialEq, Eq, Structural, Debug)]
#[non_exhaustive]
pub enum BuildingKind {
    Belt,
    Extractor,
}

/// The building-placement grid: one optional building kind per cell.
/// Reserved for future building variety; the propagation engine never
/// reads it.
#[derive(Debug)]
pub struct GridIndex {
    pub buildings: Vec<Option<BuildingKind>>,
}

impl Default for GridIndex {
    /// An all-empty grid of `GRID_CELLS` cells.
    fn default() -> (r: Self)
        ensures
            r.buildings@.len() == GRID_CELLS,
            forall|i: int| 0 <= i < GRID_CELLS ==> r.buildings@[i] is None,
    {
        let mut buildings: Vec<Option<BuildingKind>> = Vec::new();
        while buildings.len() < GRID_CELLS
            invariant
                buildings@.len() <= GRID_CELLS,
                forall|i: int| 0 <= i < buildings@.len() ==> buildings@[i] is None,
            decreases GRID_CELLS - buildings@.len(),
        {
            buildings.push(None);
        }
        GridIndex { buildings }
    }
}

impl GridIndex {
    /// Row-major cell index of the coordinate `(x, y)`.
    pub fn xy_idx(x: i32, y: i32) -> (idx: i32)
        requires
            0 <= x < MAP_WIDTH,
            0 <= y < MAP_HEIGHT,
        ensures
            idx == cell_index(Position { x, y }),
            0 <= idx < GRID_CELLS,
    {
        (y * MAP_WIDTH) + x
    }
}

/// A valid coordinate's cell index lies in the grid, and the index maps back
/// to the same coordinate.
pub proof fn lemma_cell_index_bijective(p: Position)
    requires
        p.spec_valid(),
    ensures
        0 <= cell_index(p) < GRID_CELLS,
        position_of_index(cell_index(p)) == p,
{
    let i = cell_index(p);
    assert(i == p.y * 80 + p.x);
    assert(0 <= i < 4000) by (nonlinear_arith)
        requires
            0 <= p.x < 80 && 0 <= p.y < 50 && i == p.y * 80 + p.x,
    ;
    assert(i % 80 == p.x && i / 80 == p.y) by (nonlinear_arith)
        requires
            0 <= p.x < 80 && 0 <= p.y < 50 && i == p.y * 80 + p.x,
    ;
}

/// Every in-range cell index comes from a valid coordinate.
pub proof fn lemma_position_of_index_valid(i: int)
    requires
        0 <= i < GRID_CELLS,
    ensures
        position_of_index(i).spec_valid(),
        cell_index(position_of_index(i)) == i,
{
    assert(0 <= i % 80 < 80 && 0 <= i / 80 < 50 && (i / 80) * 80 + i % 80 == i)
        by (nonlinear_arith)
        requires
            0 <= i < 4000,
    ;
}

} // verus!
