//! What holds of every view: where visible tiles lie, and how the visible
//! set answers to the viewing distance and to omniscience.

use vstd::prelude::*;
use crate::geometry::{Pivot, Ratio};
use crate::grid::{tile_at, GridCoords, World};
use crate::octant::Octant;
use crate::scan::{
    chebyshev, octants_below, scan_columns, scan_rows, tile_seen, visible_set, within_reach,
};

verus! {

/// Whether `t` is a tile of the grid that lies, in the given octant, at a
/// depth from `depth` to `limit` and in a column from zero to `limit`.
pub open spec fn in_wedge(
    world: &World,
    ox: int,
    oy: int,
    octant: Octant,
    depth: int,
    limit: int,
    t: GridCoords<i32>,
) -> bool {
    &&& world.holds(t.x as int, t.y as int)
    &&& depth <= octant.depth_of(ox, oy, t.x as int, t.y as int) <= limit
    &&& 0 <= octant.column_of(ox, oy, t.x as int, t.y as int) <= limit
}

/// A scan line is never crossed below column zero.
pub proof fn lemma_crossing_not_negative(slope: Ratio, depth: int)
    requires
        depth >= 0,
    ensures
        slope.crossing(depth) >= 0,
{
    if slope.run > 0 && slope.rise > 0 {
        assert((2 * depth * slope.rise + slope.run) / (2 * slope.run) >= 0) by (nonlinear_arith)
            requires
                depth >= 0,
                slope.rise > 0,
                slope.run > 0,
        ;
    } else if slope.run < 0 && -slope.rise > 0 {
        assert((2 * depth * (-slope.rise) + (-slope.run)) / (2 * (-slope.run)) >= 0)
            by (nonlinear_arith)
            requires
                depth >= 0,
                -slope.rise > 0,
                -slope.run > 0,
        ;
    }
}

/// Every tile that a scan finds is a tile of the grid, lies no nearer than
/// the row at which the scan began, and no farther than the limit.
pub proof fn lemma_scan_rows_in_wedge(
    world: &World,
    ox: int,
    oy: int,
    octant: Octant,
    depth: int,
    lo: Ratio,
    hi: Ratio,
    limit: int,
)
    requires
        depth >= 0,
    ensures
        forall|t: GridCoords<i32>|
            scan_rows(world, ox, oy, octant, depth, lo, hi, limit).contains(t) ==> in_wedge(
                world,
                ox,
                oy,
                octant,
                depth,
                limit,
                t,
            ),
    decreases limit - depth + 1, 1int, 0int,
{
    if depth <= limit {
        lemma_crossing_not_negative(lo, depth);
        lemma_crossing_not_negative(hi, depth);
        lemma_scan_columns_in_wedge(
            world,
            ox,
            oy,
            octant,
            depth,
            lo.column_at(depth, limit),
            lo.column_at(depth, limit),
            hi.column_at(depth, limit),
            lo,
            hi,
            limit,
        );
    }
}

/// Every tile found from some column of a row on lies in the octant's wedge
/// from that row's depth.
pub proof fn lemma_scan_columns_in_wedge(
    world: &World,
    ox: int,
    oy: int,
    octant: Octant,
    depth: int,
    first: int,
    column: int,
    last: int,
    lo: Ratio,
    hi: Ratio,
    limit: int,
)
    requires
        depth >= 0,
        0 <= first <= column,
        last <= limit,
    ensures
        forall|t: GridCoords<i32>|
            scan_columns(world, ox, oy, octant, depth, first, column, last, lo, hi, limit).contains(
                t,
            ) ==> in_wedge(world, ox, oy, octant, depth, limit, t),
    decreases limit - depth + 1, 0int, last - column + 1,
{
    if depth > limit {
    } else if column > last {
        lemma_scan_rows_in_wedge(world, ox, oy, octant, depth + 1, lo, hi, limit);
        assert forall|t: GridCoords<i32>|
            scan_columns(world, ox, oy, octant, depth, first, column, last, lo, hi, limit).contains(
                t,
            ) implies in_wedge(world, ox, oy, octant, depth, limit, t) by {
            assert(scan_rows(world, ox, oy, octant, depth + 1, lo, hi, limit).contains(t));
            assert(in_wedge(world, ox, oy, octant, depth + 1, limit, t));
        }
    } else {
        octant.lemma_round_trip(ox, oy, depth, column);
        assert forall|t: GridCoords<i32>|
            tile_seen(world, ox, oy, octant, depth, column).contains(t) implies in_wedge(
            world,
            ox,
            oy,
            octant,
            depth,
            limit,
            t,
        ) by {
            assert(t == tile_at(
                octant.world_x(ox, depth, column),
                octant.world_y(oy, depth, column),
            ));
        }
        lemma_scan_rows_in_wedge(
            world,
            ox,
            oy,
            octant,
            depth + 1,
            lo,
            Ratio::to_pivot(depth, column, Pivot::BottomRight),
            limit,
        );
        lemma_scan_columns_in_wedge(
            world,
            ox,
            oy,
            octant,
            depth,
            first,
            column + 1,
            last,
            lo,
            hi,
            limit,
        );
        lemma_scan_columns_in_wedge(
            world,
            ox,
            oy,
            octant,
            depth,
            first,
            column + 1,
            last,
            Ratio::to_pivot(depth, column, Pivot::TopLeft),
            hi,
            limit,
        );
        assert forall|t: GridCoords<i32>|
            scan_columns(world, ox, oy, octant, depth, first, column, last, lo, hi, limit).contains(
                t,
            ) implies in_wedge(world, ox, oy, octant, depth, limit, t) by {
            let below = scan_rows(
                world,
                ox,
                oy,
                octant,
                depth + 1,
                lo,
                Ratio::to_pivot(depth, column, Pivot::BottomRight),
                limit,
            );
            if below.contains(t) {
                assert(in_wedge(world, ox, oy, octant, depth + 1, limit, t));
            }
        }
    }
}

/// A tile in an octant's wedge is within `limit` of the observer.
pub proof fn lemma_wedge_within_reach(
    world: &World,
    observer: GridCoords<i32>,
    octant: Octant,
    limit: int,
    t: GridCoords<i32>,
)
    requires
        in_wedge(world, observer.x as int, observer.y as int, octant, 1, limit, t),
    ensures
        world.holds(t.x as int, t.y as int),
        chebyshev(observer, t) <= limit,
        t != observer,
{
}

/// Every tile found in the octants below `count` lies in the grid, within
/// `limit` of the observer.
pub proof fn lemma_octants_within_reach(
    world: &World,
    observer: GridCoords<i32>,
    count: nat,
    limit: int,
)
    ensures
        octants_below(world, observer.x as int, observer.y as int, count, limit).subset_of(
            within_reach(world, observer, limit),
        ),
    decreases count,
{
    if count > 0 {
        let octant = Octant::of_index(count - 1);
        lemma_octants_within_reach(world, observer, (count - 1) as nat, limit);
        lemma_scan_rows_in_wedge(
            world,
            observer.x as int,
            observer.y as int,
            octant,
            1,
            Ratio { rise: 0, run: 1 },
            Ratio { rise: 1, run: 1 },
            limit,
        );
        assert forall|t: GridCoords<i32>|
            in_wedge(
                world,
                observer.x as int,
                observer.y as int,
                octant,
                1,
                limit,
                t,
            ) implies within_reach(world, observer, limit).contains(t) by {
            lemma_wedge_within_reach(world, observer, octant, limit, t);
        }
    }
}

/// Opaque tiles never add to what is seen: whatever is visible is a tile of
/// the grid within the viewing distance of the observer.
pub proof fn lemma_visible_within_reach(
    world: &World,
    observer: GridCoords<i32>,
    limit: int,
    omniscient: bool,
)
    requires
        limit >= 0,
        world.holds(observer.x as int, observer.y as int),
    ensures
        visible_set(world, observer, limit, omniscient).subset_of(
            within_reach(world, observer, limit),
        ),
{
    lemma_octants_within_reach(world, observer, 8, limit);
}

/// An observer always sees its own tile.
pub proof fn lemma_observer_is_visible(
    world: &World,
    observer: GridCoords<i32>,
    limit: int,
    omniscient: bool,
)
    requires
        limit >= 0,
        world.holds(observer.x as int, observer.y as int),
    ensures
        visible_set(world, observer, limit, omniscient).contains(observer),
{
}

/// Under omniscience the visible set is every tile of the grid within the
/// viewing distance, and so the same for two grids of one shape, whatever
/// their tiles are.
pub proof fn lemma_omniscience_ignores_opacity(
    world: &World,
    other: &World,
    observer: GridCoords<i32>,
    limit: int,
)
    requires
        world.width == other.width,
        world.height == other.height,
    ensures
        visible_set(world, observer, limit, true) == within_reach(world, observer, limit),
        visible_set(world, observer, limit, true) == visible_set(other, observer, limit, true),
{
    assert(within_reach(world, observer, limit) =~= within_reach(other, observer, limit));
}

} // verus!
