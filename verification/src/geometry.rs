//! Sub-tile positions, the five pivots of a tile, and slopes as exact
//! ratios.

use vstd::prelude::*;
use vstd::std_specs::convert::FromSpecImpl;
use crate::grid::GridCoords;

verus! {

/// A reference point on a tile: its centre or one of its four corners.
pub enum Pivot {
    Center,
    TopRight,
    BottomRight,
    BottomLeft,
    TopLeft,
}

/// The ratio `rise / run`, kept exact. A zero `run` with a non-zero `rise`
/// is a vertical (infinite) slope; zero over zero is no slope at all.
#[derive(PartialEq, Eq, Clone, Copy, Debug)]
pub struct Slope {
    pub rise: i64,
    pub run: i64,
}

/// The centre of a tile, in half-tile units.
impl From<&GridCoords<i32>> for GridCoords<i64> {
    fn from(value: &GridCoords<i32>) -> (point: GridCoords<i64>) {
        GridCoords { x: 2 * (value.x as i64), y: 2 * (value.y as i64) }
    }
}

impl FromSpecImpl<&GridCoords<i32>> for GridCoords<i64> {
    open spec fn obeys_from_spec() -> bool {
        true
    }

    open spec fn from_spec(value: &GridCoords<i32>) -> GridCoords<i64> {
        GridCoords { x: (2 * value.x) as i64, y: (2 * value.y) as i64 }
    }
}

/// The coordinate of the tile that a half-tile position falls in, cut off
/// towards zero and kept between `0` and `i32::MAX`.
pub open spec fn snap(half: int) -> int {
    if half <= 0 {
        0
    } else if half / 2 > i32::MAX {
        i32::MAX as int
    } else {
        half / 2
    }
}

fn snap_to_tile(half: i64) -> (t: i32)
    ensures
        t == snap(half as int),
{
    if half <= 0 {
        0
    } else if half / 2 > i32::MAX as i64 {
        i32::MAX
    } else {
        (half / 2) as i32
    }
}

/// The tile that a position in half-tile units falls in; negative
/// coordinates snap to zero.
impl From<&GridCoords<i64>> for GridCoords<i32> {
    fn from(value: &GridCoords<i64>) -> (tile: GridCoords<i32>) {
        GridCoords { x: snap_to_tile(value.x), y: snap_to_tile(value.y) }
    }
}

impl FromSpecImpl<&GridCoords<i64>> for GridCoords<i32> {
    open spec fn obeys_from_spec() -> bool {
        true
    }

    open spec fn from_spec(value: &GridCoords<i64>) -> GridCoords<i32> {
        GridCoords { x: snap(value.x as int) as i32, y: snap(value.y as int) as i32 }
    }
}

impl Pivot {
    /// The pivot's offset from the tile's centre along x, in half-tile units.
    pub open spec fn dx(&self) -> int {
        match self {
            Pivot::Center => 0,
            Pivot::TopRight | Pivot::BottomRight => 1,
            Pivot::BottomLeft | Pivot::TopLeft => -1,
        }
    }

    /// The pivot's offset from the tile's centre along y, in half-tile units.
    pub open spec fn dy(&self) -> int {
        match self {
            Pivot::Center => 0,
            Pivot::TopRight | Pivot::TopLeft => 1,
            Pivot::BottomRight | Pivot::BottomLeft => -1,
        }
    }

    /// The position of this pivot of the given tile, in half-tile units.
    pub fn coords(&self, tile_coords: &GridCoords<i32>) -> (point: GridCoords<i64>)
        ensures
            point.x == 2 * tile_coords.x + self.dx(),
            point.y == 2 * tile_coords.y + self.dy(),
    {
        let centre: GridCoords<i64> = GridCoords::<i64>::from(tile_coords);
        match self {
            Pivot::Center => centre,
            Pivot::TopRight => GridCoords { x: centre.x + 1, y: centre.y + 1 },
            Pivot::BottomRight => GridCoords { x: centre.x + 1, y: centre.y - 1 },
            Pivot::BottomLeft => GridCoords { x: centre.x - 1, y: centre.y - 1 },
            Pivot::TopLeft => GridCoords { x: centre.x - 1, y: centre.y + 1 },
        }
    }
}

/// A slope as a ratio of two integers without bound: what a `Slope` stands
/// for.
pub struct Ratio {
    pub rise: int,
    pub run: int,
}

impl View for Slope {
    type V = Ratio;

    open spec fn view(&self) -> Ratio {
        Ratio { rise: self.rise as int, run: self.run as int }
    }
}

/// `depth * rise / run` rounded to the nearest integer, halves upwards, for a
/// positive `run`; a ratio below zero gives zero.
pub open spec fn rounded_product(depth: int, rise: int, run: int) -> int {
    if rise <= 0 {
        0
    } else {
        (2 * depth * rise + run) / (2 * run)
    }
}

impl Ratio {
    /// Zero over zero.
    pub open spec fn is_nan(&self) -> bool {
        self.rise == 0 && self.run == 0
    }

    /// The slope from the observer to a pivot of the tile at
    /// `(depth, column)`, in the octant's own frame: depth is the run,
    /// the column is the rise.
    pub open spec fn to_pivot(depth: int, column: int, pivot: Pivot) -> Ratio {
        Ratio { rise: 2 * column + pivot.dy(), run: 2 * depth + pivot.dx() }
    }

    /// The column at which a line of this slope crosses the scan line at
    /// `depth`, before any limit is applied: `depth` itself for a vertical
    /// slope, else `depth * slope` rounded to the nearest integer and never
    /// below zero.
    pub open spec fn crossing(&self, depth: int) -> int {
        if self.run == 0 {
            depth
        } else if self.run > 0 {
            rounded_product(depth, self.rise, self.run)
        } else {
            rounded_product(depth, -self.rise, -self.run)
        }
    }

    /// The column at which a line of this slope crosses the scan line at
    /// `depth`, at most `limit`.
    pub open spec fn column_at(&self, depth: int, limit: int) -> int {
        if self.crossing(depth) < limit {
            self.crossing(depth)
        } else {
            limit
        }
    }
}

impl Slope {
    /// The slope of the line from the origin to `point`.
    pub fn to_point(point: &GridCoords<i64>) -> (s: Slope)
        ensures
            s.rise == point.y,
            s.run == point.x,
    {
        Slope { rise: point.y, run: point.x }
    }

    /// The slope from the observer to a pivot of the tile at
    /// `(depth, column)` of an octant.
    pub fn to_pivot(depth: i32, column: i32, pivot: Pivot) -> (s: Slope)
        ensures
            s@ == Ratio::to_pivot(depth as int, column as int, pivot),
    {
        let point = pivot.coords(&GridCoords { x: depth, y: column });
        Slope::to_point(&point)
    }

    /// The column of the scan line at `depth` that a line of this slope
    /// crosses, at most `limit`.
    pub fn column(&self, depth: i32, limit: i32) -> (col: i32)
        requires
            !self@.is_nan(),
            1 <= depth <= limit,
        ensures
            col == self@.column_at(depth as int, limit as int),
            0 <= col <= limit,
    {
        if self.run == 0 {
            return depth;
        }
        let rise: i128 = if self.run > 0 { self.rise as i128 } else { -(self.rise as i128) };
        let run: i128 = if self.run > 0 { self.run as i128 } else { -(self.run as i128) };
        if rise <= 0 {
            return 0;
        }
        assert(0 < 2 * depth * rise <= 2 * 0x7fff_ffff * 0x8000_0000_0000_0000)
            by (nonlinear_arith)
            requires
                1 <= depth <= 0x7fff_ffff,
                0 < rise <= 0x8000_0000_0000_0000,
        ;
        let twice: i128 = 2 * (depth as i128) * rise;
        let crossing: i128 = (twice + run) / (2 * run);
        assert(crossing >= 0) by (nonlinear_arith)
            requires
                crossing == (twice + run) / (2 * run),
                twice > 0,
                run > 0,
        ;
        if crossing < limit as i128 {
            crossing as i32
        } else {
            limit
        }
    }
}

} // verus!
