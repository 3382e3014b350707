//! How the visible set answers to a greater viewing distance.

use vstd::prelude::*;
use crate::geometry::{Pivot, Ratio};
use crate::grid::{tile_at, GridCoords, World};
use crate::reach::lemma_octants_within_reach;
use crate::octant::Octant;
use crate::scan::{
    clear_at, octant_view, octants_below, scan_columns, scan_rows, tile_seen, visible_set, within_reach,
};

verus! {

/// A slope of at most one: a line that stays on or below the diagonal.
pub open spec fn below_diagonal(slope: Ratio) -> bool {
    slope.run > 0 && slope.rise <= slope.run
}

/// Whether `t` lies exactly `limit` tiles from the observer along both
/// axes: on a corner of the square that a viewing distance of `limit`
/// spans.
pub open spec fn on_corner(observer: GridCoords<i32>, t: GridCoords<i32>, limit: int) -> bool {
    &&& (t.x - observer.x == limit || observer.x - t.x == limit)
    &&& (t.y - observer.y == limit || observer.y - t.y == limit)
}

/// A line on or below the diagonal crosses the scan line at `depth` no
/// higher than column `depth`.
pub proof fn lemma_crossing_below_diagonal(slope: Ratio, depth: int)
    requires
        depth >= 0,
        below_diagonal(slope),
    ensures
        slope.crossing(depth) <= depth,
{
    if slope.rise > 0 {
        let rise = slope.rise;
        let run = slope.run;
        assert(2 * depth * rise + run < 2 * run * (depth + 1)) by (nonlinear_arith)
            requires
                depth >= 0,
                0 < rise <= run,
        ;
        assert((2 * depth * rise + run) / (2 * run) <= depth) by (nonlinear_arith)
            requires
                2 * depth * rise + run < 2 * run * (depth + 1),
                run > 0,
        ;
    }
}

/// Whether `t` lies, in the given octant, at depth `limit` and in column
/// `limit`.
pub open spec fn at_far_corner(
    octant: Octant,
    ox: int,
    oy: int,
    t: GridCoords<i32>,
    limit: int,
) -> bool {
    &&& octant.depth_of(ox, oy, t.x as int, t.y as int) == limit
    &&& octant.column_of(ox, oy, t.x as int, t.y as int) == limit
}

/// With one more tile of viewing distance, a scan below the diagonal keeps
/// every tile it found, but for the tile at depth and column `limit`.
pub proof fn lemma_scan_rows_kept(
    world: &World,
    ox: int,
    oy: int,
    octant: Octant,
    depth: int,
    lo: Ratio,
    hi: Ratio,
    limit: int,
    t: GridCoords<i32>,
)
    requires
        depth >= 1,
        below_diagonal(hi),
        scan_rows(world, ox, oy, octant, depth, lo, hi, limit).contains(t),
        !at_far_corner(octant, ox, oy, t, limit),
    ensures
        scan_rows(world, ox, oy, octant, depth, lo, hi, limit + 1).contains(t),
    decreases limit - depth + 1, 1int, 0int,
{
    if depth <= limit {
        lemma_crossing_below_diagonal(hi, depth);
        let last = hi.crossing(depth);
        let crossing = lo.crossing(depth);
        assert(hi.column_at(depth, limit) == last);
        assert(hi.column_at(depth, limit + 1) == last);
        if crossing <= limit {
            assert(lo.column_at(depth, limit) == crossing);
            assert(lo.column_at(depth, limit + 1) == crossing);
            crate::reach::lemma_crossing_not_negative(lo, depth);
            lemma_scan_columns_kept(
                world,
                ox,
                oy,
                octant,
                depth,
                crossing,
                crossing,
                last,
                lo,
                hi,
                limit,
                t,
            );
        } else {
            let row = scan_columns(world, ox, oy, octant, depth, limit, limit, last, lo, hi, limit);
            assert(scan_rows(world, ox, oy, octant, depth, lo, hi, limit) == row);
            if limit <= last {
                let rest = scan_columns(
                    world,
                    ox,
                    oy,
                    octant,
                    depth,
                    limit,
                    limit + 1,
                    last,
                    lo,
                    hi,
                    limit,
                );
                assert(scan_rows(world, ox, oy, octant, depth + 1, lo, hi, limit)
                    =~= Set::empty());
                assert(rest =~= Set::empty());
                assert(row =~= tile_seen(world, ox, oy, octant, depth, limit));
                octant.lemma_round_trip(ox, oy, limit, limit);
                assert(t == tile_at(
                    octant.world_x(ox, limit, limit),
                    octant.world_y(oy, limit, limit),
                ));
                assert(false);
            } else {
                assert(row =~= Set::empty());
            }
        }
    }
}

/// The same for the rest of a row that both viewing distances scan alike.
pub proof fn lemma_scan_columns_kept(
    world: &World,
    ox: int,
    oy: int,
    octant: Octant,
    depth: int,
    first: int,
    column: int,
    last: int,
    lo: Ratio,
    hi: Ratio,
    limit: int,
    t: GridCoords<i32>,
)
    requires
        1 <= depth <= limit,
        0 <= first <= column,
        last <= depth,
        below_diagonal(hi),
        scan_columns(world, ox, oy, octant, depth, first, column, last, lo, hi, limit).contains(t),
        !at_far_corner(octant, ox, oy, t, limit),
    ensures
        scan_columns(world, ox, oy, octant, depth, first, column, last, lo, hi, limit + 1).contains(
            t,
        ),
    decreases limit - depth + 1, 0int, last - column + 1,
{
    if column > last {
        lemma_scan_rows_kept(world, ox, oy, octant, depth + 1, lo, hi, limit, t);
    } else {
        let narrowed = Ratio::to_pivot(depth, column, Pivot::BottomRight);
        let raised = Ratio::to_pivot(depth, column, Pivot::TopLeft);
        let here = tile_seen(world, ox, oy, octant, depth, column);
        let before = clear_at(world, ox, oy, octant, depth, column - 1);
        let now = clear_at(world, ox, oy, octant, depth, column);
        if here.contains(t) {
        } else if column > first && before && !now {
            let below = scan_rows(world, ox, oy, octant, depth + 1, lo, narrowed, limit);
            if below.contains(t) {
                lemma_scan_rows_kept(world, ox, oy, octant, depth + 1, lo, narrowed, limit, t);
            } else {
                lemma_scan_columns_kept(
                    world,
                    ox,
                    oy,
                    octant,
                    depth,
                    first,
                    column + 1,
                    last,
                    lo,
                    hi,
                    limit,
                    t,
                );
            }
        } else if column > first && !before && now {
            lemma_scan_columns_kept(
                world,
                ox,
                oy,
                octant,
                depth,
                first,
                column + 1,
                last,
                raised,
                hi,
                limit,
                t,
            );
        } else {
            lemma_scan_columns_kept(
                world,
                ox,
                oy,
                octant,
                depth,
                first,
                column + 1,
                last,
                lo,
                hi,
                limit,
                t,
            );
        }
    }
}

/// The same for the union of the octants below `count`, where the tiles
/// left out are the corners of the square that `limit` spans.
pub proof fn lemma_octants_kept(world: &World, observer: GridCoords<i32>, count: nat, limit: int)
    requires
        count <= 8,
        limit >= 1,
    ensures
        forall|t: GridCoords<i32>|
            octants_below(world, observer.x as int, observer.y as int, count, limit).contains(t)
                && !on_corner(observer, t, limit) ==> octants_below(
                world,
                observer.x as int,
                observer.y as int,
                count,
                limit + 1,
            ).contains(t),
    decreases count,
{
    if count > 0 {
        let ox = observer.x as int;
        let oy = observer.y as int;
        let octant = Octant::of_index(count - 1);
        let lo = Ratio { rise: 0, run: 1 };
        let hi = Ratio { rise: 1, run: 1 };
        lemma_octants_kept(world, observer, (count - 1) as nat, limit);
        assert forall|t: GridCoords<i32>|
            octants_below(world, ox, oy, count, limit).contains(t) && !on_corner(
                observer,
                t,
                limit,
            ) implies octants_below(world, ox, oy, count, limit + 1).contains(t) by {
            if octant_view(world, ox, oy, count - 1, limit).contains(t) {
                lemma_scan_rows_kept(world, ox, oy, octant, 1, lo, hi, limit, t);
                assert(octant_view(world, ox, oy, count - 1, limit + 1).contains(t));
            }
        }
    }
}

/// Seeing farther never hides a tile: what is visible within `near` stays
/// visible within any `far` beyond it.
///
/// Without omniscience this is stated for every tile but the four corners
/// of the square that `near` spans. A scan cuts each row off at the viewing
/// distance, and a corner can be reached only through that cut.
pub proof fn lemma_farther_sight_keeps_tiles(
    world: &World,
    observer: GridCoords<i32>,
    near: int,
    far: int,
    omniscient: bool,
    t: GridCoords<i32>,
)
    requires
        1 <= near <= far,
        visible_set(world, observer, near, omniscient).contains(t),
        omniscient || !on_corner(observer, t, near),
    ensures
        visible_set(world, observer, far, omniscient).contains(t),
    decreases far - near,
{
    if !omniscient && near < far && t != observer {
        lemma_octants_kept(world, observer, 8, near);
        lemma_octants_within_reach(world, observer, 8, near);
        assert(within_reach(world, observer, near).contains(t));
        lemma_farther_sight_keeps_tiles(world, observer, near + 1, far, omniscient, t);
    }
}

} // verus!
