//! What recursive shadowcasting sees: the scan of one octant, row by row,
//! as a set of tiles, and the visible set of a whole query.

use vstd::prelude::*;
use crate::geometry::{Pivot, Ratio};
use crate::grid::{tile_at, GridCoords, World};
use crate::octant::Octant;

verus! {

/// The tile at `(depth, column)` of an octant, as a set: empty where it lies
/// outside the grid.
pub open spec fn tile_seen(
    world: &World,
    ox: int,
    oy: int,
    octant: Octant,
    depth: int,
    column: int,
) -> Set<GridCoords<i32>> {
    let x = octant.world_x(ox, depth, column);
    let y = octant.world_y(oy, depth, column);
    if world.holds(x, y) {
        set![tile_at(x, y)]
    } else {
        Set::empty()
    }
}

/// Whether sight passes through the tile at `(depth, column)` of an octant.
pub open spec fn clear_at(
    world: &World,
    ox: int,
    oy: int,
    octant: Octant,
    depth: int,
    column: int,
) -> bool {
    world.is_clear(octant.world_x(ox, depth, column), octant.world_y(oy, depth, column))
}

/// The tiles seen from `(ox, oy)` in one octant, from the row at `depth` on,
/// between the slopes `lo` and `hi`, no farther than `limit`.
///
/// The row at `depth` runs from the column that `lo` crosses to the column
/// that `hi` crosses. Every tile of it is seen. Deeper rows are seen through
/// its runs of clear tiles: below a blocking tile up to that tile's near
/// lower corner, above one from the upper far corner of the first clear tile
/// behind it.
pub open spec fn scan_rows(
    world: &World,
    ox: int,
    oy: int,
    octant: Octant,
    depth: int,
    lo: Ratio,
    hi: Ratio,
    limit: int,
) -> Set<GridCoords<i32>>
    decreases limit - depth + 1, 1int, 0int,
{
    if depth > limit {
        Set::empty()
    } else {
        scan_columns(
            world,
            ox,
            oy,
            octant,
            depth,
            lo.column_at(depth, limit),
            lo.column_at(depth, limit),
            hi.column_at(depth, limit),
            lo,
            hi,
            limit,
        )
    }
}

/// The part of `scan_rows` that starts at `column` of the row at `depth`:
/// the rest of that row, which began at `first` and ends at `last`, and all
/// that is seen through it. `lo` is the lower slope as narrowed so far.
pub open spec fn scan_columns(
    world: &World,
    ox: int,
    oy: int,
    octant: Octant,
    depth: int,
    first: int,
    column: int,
    last: int,
    lo: Ratio,
    hi: Ratio,
    limit: int,
) -> Set<GridCoords<i32>>
    decreases limit - depth + 1, 0int, last - column + 1,
{
    if depth > limit {
        Set::empty()
    } else if column > last {
        if column > first && clear_at(world, ox, oy, octant, depth, column - 1) {
            scan_rows(world, ox, oy, octant, depth + 1, lo, hi, limit)
        } else {
            Set::empty()
        }
    } else {
        let here = tile_seen(world, ox, oy, octant, depth, column);
        let before = clear_at(world, ox, oy, octant, depth, column - 1);
        let now = clear_at(world, ox, oy, octant, depth, column);
        if column > first && before && !now {
            here.union(
                scan_rows(
                    world,
                    ox,
                    oy,
                    octant,
                    depth + 1,
                    lo,
                    Ratio::to_pivot(depth, column, Pivot::BottomRight),
                    limit,
                ),
            ).union(
                scan_columns(world, ox, oy, octant, depth, first, column + 1, last, lo, hi, limit),
            )
        } else if column > first && !before && now {
            here.union(
                scan_columns(
                    world,
                    ox,
                    oy,
                    octant,
                    depth,
                    first,
                    column + 1,
                    last,
                    Ratio::to_pivot(depth, column, Pivot::TopLeft),
                    hi,
                    limit,
                ),
            )
        } else {
            here.union(
                scan_columns(world, ox, oy, octant, depth, first, column + 1, last, lo, hi, limit),
            )
        }
    }
}

/// The scan of a whole octant: from the first row, between the axis and the
/// diagonal.
pub open spec fn octant_view(world: &World, ox: int, oy: int, index: int, limit: int) -> Set<
    GridCoords<i32>,
> {
    scan_rows(
        world,
        ox,
        oy,
        Octant::of_index(index),
        1,
        Ratio { rise: 0, run: 1 },
        Ratio { rise: 1, run: 1 },
        limit,
    )
}

/// The union of the scans of the octants with an index below `count`.
pub open spec fn octants_below(world: &World, ox: int, oy: int, count: nat, limit: int) -> Set<
    GridCoords<i32>,
>
    decreases count,
{
    if count == 0 {
        Set::empty()
    } else {
        octants_below(world, ox, oy, (count - 1) as nat, limit).union(
            octant_view(world, ox, oy, count - 1, limit),
        )
    }
}

/// The larger of the distances along x and along y between two tiles.
pub open spec fn chebyshev(a: GridCoords<i32>, b: GridCoords<i32>) -> int {
    let dx = if a.x >= b.x { a.x - b.x } else { b.x - a.x };
    let dy = if a.y >= b.y { a.y - b.y } else { b.y - a.y };
    if dx >= dy { dx } else { dy }
}

/// Every tile of the grid within `limit` of the observer, whatever lies in
/// between.
pub open spec fn within_reach(world: &World, observer: GridCoords<i32>, limit: int) -> Set<
    GridCoords<i32>,
> {
    Set::new(
        |t: GridCoords<i32>| world.holds(t.x as int, t.y as int) && chebyshev(observer, t) <= limit,
    )
}

/// What an observer sees: with omniscience every tile within reach;
/// without, its own tile and the scans of the eight octants.
pub open spec fn visible_set(
    world: &World,
    observer: GridCoords<i32>,
    limit: int,
    omniscient: bool,
) -> Set<GridCoords<i32>> {
    if omniscient {
        within_reach(world, observer, limit)
    } else {
        set![observer].union(octants_below(world, observer.x as int, observer.y as int, 8, limit))
    }
}

} // verus!
