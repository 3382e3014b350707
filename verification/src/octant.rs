//! The eight octants around an observer, and the map between an octant's
//! scan coordinates (depth, column) and the grid.

use vstd::prelude::*;
use crate::grid::GridCoords;

verus! {

/// One of the eight wedges around an observer. Depth runs along one axis,
/// away from the observer; columns run along the other.
#[derive(PartialEq, Eq, Clone, Copy, Debug)]
pub struct Octant {
    /// Depth runs along x (else along y).
    pub along_x: bool,
    /// Depth grows with the coordinate (else against it).
    pub depth_forward: bool,
    /// Columns grow with the coordinate (else against it).
    pub column_forward: bool,
}

impl Octant {
    /// The octant with the given index below eight. Index zero has depth
    /// along x and both steps forward.
    pub open spec fn of_index(index: int) -> Octant {
        Octant {
            along_x: index < 4,
            depth_forward: index % 4 < 2,
            column_forward: index % 2 == 0,
        }
    }

    /// The x coordinate of the tile at `(depth, column)` for an observer at x
    /// coordinate `ox`.
    pub open spec fn world_x(&self, ox: int, depth: int, column: int) -> int {
        if self.along_x {
            if self.depth_forward { ox + depth } else { ox - depth }
        } else {
            if self.column_forward { ox + column } else { ox - column }
        }
    }

    /// The y coordinate of the tile at `(depth, column)` for an observer at y
    /// coordinate `oy`.
    pub open spec fn world_y(&self, oy: int, depth: int, column: int) -> int {
        if self.along_x {
            if self.column_forward { oy + column } else { oy - column }
        } else {
            if self.depth_forward { oy + depth } else { oy - depth }
        }
    }

    /// The depth of the tile `(x, y)` as seen from `(ox, oy)`.
    pub open spec fn depth_of(&self, ox: int, oy: int, x: int, y: int) -> int {
        if self.along_x {
            if self.depth_forward { x - ox } else { ox - x }
        } else {
            if self.depth_forward { y - oy } else { oy - y }
        }
    }

    /// The column of the tile `(x, y)` as seen from `(ox, oy)`.
    pub open spec fn column_of(&self, ox: int, oy: int, x: int, y: int) -> int {
        if self.along_x {
            if self.column_forward { y - oy } else { oy - y }
        } else {
            if self.column_forward { x - ox } else { ox - x }
        }
    }

    /// The octant with the given index.
    pub fn from_index(index: u8) -> (octant: Octant)
        requires
            index < 8,
        ensures
            octant == Self::of_index(index as int),
    {
        Octant { along_x: index < 4, depth_forward: index % 4 < 2, column_forward: index % 2 == 0 }
    }

    /// The tile at `(depth, column)` of this octant, or `None` where its
    /// coordinates leave the range of `i32`.
    pub fn to_world(&self, observer: &GridCoords<i32>, depth: i32, column: i32) -> (tile: Option<
        GridCoords<i32>,
    >)
        ensures
            ({
                let x = self.world_x(observer.x as int, depth as int, column as int);
                let y = self.world_y(observer.y as int, depth as int, column as int);
                match tile {
                    Some(t) => t.x == x && t.y == y,
                    None => !(i32::MIN <= x <= i32::MAX && i32::MIN <= y <= i32::MAX),
                }
            }),
    {
        let along: i64 = if self.depth_forward { depth as i64 } else { -(depth as i64) };
        let across: i64 = if self.column_forward { column as i64 } else { -(column as i64) };
        let x: i64 = observer.x as i64 + (if self.along_x { along } else { across });
        let y: i64 = observer.y as i64 + (if self.along_x { across } else { along });
        if x < i32::MIN as i64 || x > i32::MAX as i64 || y < i32::MIN as i64 || y > i32::MAX as i64 {
            None
        } else {
            Some(GridCoords { x: x as i32, y: y as i32 })
        }
    }

    /// The depth and the column of `tile` in this octant, as seen from
    /// `observer`: the inverse of `to_world`.
    pub fn to_local(&self, observer: &GridCoords<i32>, tile: &GridCoords<i32>) -> (local: (i64, i64))
        ensures
            local.0 == self.depth_of(observer.x as int, observer.y as int, tile.x as int, tile.y as int),
            local.1 == self.column_of(observer.x as int, observer.y as int, tile.x as int, tile.y as int),
            self.world_x(observer.x as int, local.0 as int, local.1 as int) == tile.x,
            self.world_y(observer.y as int, local.0 as int, local.1 as int) == tile.y,
    {
        let dx: i64 = tile.x as i64 - observer.x as i64;
        let dy: i64 = tile.y as i64 - observer.y as i64;
        let along: i64 = if self.along_x { dx } else { dy };
        let across: i64 = if self.along_x { dy } else { dx };
        (
            if self.depth_forward { along } else { -along },
            if self.column_forward { across } else { -across },
        )
    }

    /// Scan coordinates and grid coordinates determine each other: mapping
    /// `(depth, column)` to the grid and back gives `(depth, column)` again.
    pub proof fn lemma_round_trip(&self, ox: int, oy: int, depth: int, column: int)
        ensures
            self.depth_of(ox, oy, self.world_x(ox, depth, column), self.world_y(oy, depth, column))
                == depth,
            self.column_of(ox, oy, self.world_x(ox, depth, column), self.world_y(oy, depth, column))
                == column,
    {
    }
}

} // verus!
