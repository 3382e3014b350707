//! Sight along a row or a column of the grid: a tile straight ahead is seen
//! exactly when nothing stands in between.

use vstd::prelude::*;
use crate::geometry::{Pivot, Ratio};
use crate::grid::{tile_at, GridCoords, World};
use crate::reach::{in_wedge, lemma_scan_rows_in_wedge};
use crate::octant::Octant;
use crate::scan::{
    chebyshev, clear_at, octant_view, octants_below, scan_columns, scan_rows, tile_seen, visible_set,
};

verus! {

/// A slope of zero: the axis of an octant.
pub open spec fn on_axis(slope: Ratio) -> bool {
    slope.rise == 0 && slope.run != 0
}

/// A slope that crosses the scan line at `depth`, and every deeper one, at
/// column one or above.
pub open spec fn off_axis(slope: Ratio, depth: int) -> bool {
    slope.run > 0 && 2 * depth * slope.rise >= slope.run
}

/// Whether sight passes through every tile of an octant's axis at the
/// depths from `from` up to, but not including, `to`.
pub open spec fn open_corridor(
    world: &World,
    ox: int,
    oy: int,
    octant: Octant,
    from: int,
    to: int,
) -> bool {
    forall|k: int| from <= k < to ==> #[trigger] clear_at(world, ox, oy, octant, k, 0)
}

/// Whether `t` lies on the axis of the octant, at depth one or beyond.
pub open spec fn on_axis_of(octant: Octant, ox: int, oy: int, t: GridCoords<i32>) -> bool {
    &&& octant.depth_of(ox, oy, t.x as int, t.y as int) >= 1
    &&& octant.column_of(ox, oy, t.x as int, t.y as int) == 0
}

proof fn lemma_off_axis_crossing(slope: Ratio, depth: int, limit: int)
    requires
        1 <= depth <= limit,
        off_axis(slope, depth),
    ensures
        slope.column_at(depth, limit) >= 1,
        off_axis(slope, depth + 1),
{
    let rise = slope.rise;
    let run = slope.run;
    assert(rise > 0) by (nonlinear_arith)
        requires
            depth >= 1,
            run > 0,
            2 * depth * rise >= run,
    ;
    assert((2 * depth * rise + run) / (2 * run) >= 1) by (nonlinear_arith)
        requires
            run > 0,
            2 * depth * rise >= run,
    ;
    assert(2 * (depth + 1) * rise >= run) by (nonlinear_arith)
        requires
            rise > 0,
            2 * depth * rise >= run,
    ;
}

proof fn lemma_raised_is_off_axis(depth: int, column: int)
    requires
        depth >= 1,
        column >= 0,
    ensures
        off_axis(Ratio::to_pivot(depth, column, Pivot::TopLeft), depth + 1),
{
    assert(2 * (depth + 1) * (2 * column + 1) >= 2 * depth - 1) by (nonlinear_arith)
        requires
            depth >= 1,
            column >= 0,
    ;
}

/// A scan whose lower slope is off the axis finds no tile of the axis.
pub proof fn lemma_scan_rows_miss_axis(
    world: &World,
    ox: int,
    oy: int,
    octant: Octant,
    depth: int,
    lo: Ratio,
    hi: Ratio,
    limit: int,
    t: GridCoords<i32>,
)
    requires
        depth >= 1,
        off_axis(lo, depth),
        octant.column_of(ox, oy, t.x as int, t.y as int) == 0,
    ensures
        !scan_rows(world, ox, oy, octant, depth, lo, hi, limit).contains(t),
    decreases limit - depth + 1, 1int, 0int,
{
    if depth <= limit {
        lemma_off_axis_crossing(lo, depth, limit);
        let first = lo.column_at(depth, limit);
        lemma_scan_columns_miss_axis(
            world,
            ox,
            oy,
            octant,
            depth,
            first,
            first,
            hi.column_at(depth, limit),
            lo,
            hi,
            limit,
            t,
        );
    }
}

/// The same for the rest of a row that began at column one or above.
pub proof fn lemma_scan_columns_miss_axis(
    world: &World,
    ox: int,
    oy: int,
    octant: Octant,
    depth: int,
    first: int,
    column: int,
    last: int,
    lo: Ratio,
    hi: Ratio,
    limit: int,
    t: GridCoords<i32>,
)
    requires
        1 <= depth <= limit,
        1 <= column,
        off_axis(lo, depth + 1),
        octant.column_of(ox, oy, t.x as int, t.y as int) == 0,
    ensures
        !scan_columns(world, ox, oy, octant, depth, first, column, last, lo, hi, limit).contains(t),
    decreases limit - depth + 1, 0int, last - column + 1,
{
    if column > last {
        lemma_scan_rows_miss_axis(world, ox, oy, octant, depth + 1, lo, hi, limit, t);
    } else {
        let narrowed = Ratio::to_pivot(depth, column, Pivot::BottomRight);
        let raised = Ratio::to_pivot(depth, column, Pivot::TopLeft);
        octant.lemma_round_trip(ox, oy, depth, column);
        lemma_raised_is_off_axis(depth, column);
        lemma_scan_rows_miss_axis(world, ox, oy, octant, depth + 1, lo, narrowed, limit, t);
        lemma_scan_columns_miss_axis(
            world,
            ox,
            oy,
            octant,
            depth,
            first,
            column + 1,
            last,
            lo,
            hi,
            limit,
            t,
        );
        lemma_scan_columns_miss_axis(
            world,
            ox,
            oy,
            octant,
            depth,
            first,
            column + 1,
            last,
            raised,
            hi,
            limit,
            t,
        );
    }
}

/// Past a blocking tile, with no clear tile met since, the rest of a row
/// finds no tile of the axis.
pub proof fn lemma_blocked_run_misses_axis(
    world: &World,
    ox: int,
    oy: int,
    octant: Octant,
    depth: int,
    first: int,
    column: int,
    last: int,
    lo: Ratio,
    hi: Ratio,
    limit: int,
    t: GridCoords<i32>,
)
    requires
        1 <= depth <= limit,
        first < column,
        1 <= column,
        !clear_at(world, ox, oy, octant, depth, column - 1),
        octant.column_of(ox, oy, t.x as int, t.y as int) == 0,
    ensures
        !scan_columns(world, ox, oy, octant, depth, first, column, last, lo, hi, limit).contains(t),
    decreases last - column + 1,
{
    if column <= last {
        let raised = Ratio::to_pivot(depth, column, Pivot::TopLeft);
        octant.lemma_round_trip(ox, oy, depth, column);
        if clear_at(world, ox, oy, octant, depth, column) {
            lemma_raised_is_off_axis(depth, column);
            lemma_scan_columns_miss_axis(
                world,
                ox,
                oy,
                octant,
                depth,
                first,
                column + 1,
                last,
                raised,
                hi,
                limit,
                t,
            );
        } else {
            lemma_blocked_run_misses_axis(
                world,
                ox,
                oy,
                octant,
                depth,
                first,
                column + 1,
                last,
                lo,
                hi,
                limit,
                t,
            );
        }
    }
}

/// A scan that starts on the axis finds the axis tile `t` exactly when
/// sight passes through every axis tile from the scan's first row up to
/// `t`.
pub proof fn lemma_scan_rows_along_axis(
    world: &World,
    ox: int,
    oy: int,
    octant: Octant,
    depth: int,
    lo: Ratio,
    hi: Ratio,
    limit: int,
    t: GridCoords<i32>,
)
    requires
        depth >= 1,
        on_axis(lo),
        world.holds(t.x as int, t.y as int),
        octant.column_of(ox, oy, t.x as int, t.y as int) == 0,
        depth <= octant.depth_of(ox, oy, t.x as int, t.y as int) <= limit,
    ensures
        scan_rows(world, ox, oy, octant, depth, lo, hi, limit).contains(t) <==> open_corridor(
            world,
            ox,
            oy,
            octant,
            depth,
            octant.depth_of(ox, oy, t.x as int, t.y as int),
        ),
    decreases limit - depth + 1, 1int, 0int,
{
    let target = octant.depth_of(ox, oy, t.x as int, t.y as int);
    let last = hi.column_at(depth, limit);
    crate::reach::lemma_crossing_not_negative(hi, depth);
    assert(lo.column_at(depth, limit) == 0);
    assert(last >= 0);
    let row = scan_columns(world, ox, oy, octant, depth, 0, 0, last, lo, hi, limit);
    let rest = scan_columns(world, ox, oy, octant, depth, 0, 1, last, lo, hi, limit);
    let here = tile_seen(world, ox, oy, octant, depth, 0);
    assert(row == here.union(rest));
    octant.lemma_round_trip(ox, oy, depth, 0);
    if target == depth {
        assert(t == tile_at(octant.world_x(ox, depth, 0), octant.world_y(oy, depth, 0)));
        assert(here.contains(t));
    } else {
        assert(!here.contains(t));
        if clear_at(world, ox, oy, octant, depth, 0) {
            lemma_clear_run_along_axis(world, ox, oy, octant, depth, 1, last, lo, hi, limit, t);
            assert(open_corridor(world, ox, oy, octant, depth, target) <==> open_corridor(
                world,
                ox,
                oy,
                octant,
                depth + 1,
                target,
            ));
        } else {
            lemma_blocked_run_misses_axis(world, ox, oy, octant, depth, 0, 1, last, lo, hi, limit, t);
        }
    }
}

/// The rest of a row that began on the axis and has met clear tiles only:
/// it finds the deeper axis tile `t` exactly when sight passes through
/// every axis tile between this row and `t`.
pub proof fn lemma_clear_run_along_axis(
    world: &World,
    ox: int,
    oy: int,
    octant: Octant,
    depth: int,
    column: int,
    last: int,
    lo: Ratio,
    hi: Ratio,
    limit: int,
    t: GridCoords<i32>,
)
    requires
        depth >= 1,
        column >= 1,
        on_axis(lo),
        clear_at(world, ox, oy, octant, depth, column - 1),
        world.holds(t.x as int, t.y as int),
        octant.column_of(ox, oy, t.x as int, t.y as int) == 0,
        depth < octant.depth_of(ox, oy, t.x as int, t.y as int) <= limit,
    ensures
        scan_columns(world, ox, oy, octant, depth, 0, column, last, lo, hi, limit).contains(t)
            <==> open_corridor(
            world,
            ox,
            oy,
            octant,
            depth + 1,
            octant.depth_of(ox, oy, t.x as int, t.y as int),
        ),
    decreases limit - depth + 1, 0int, last - column + 1,
{
    if column > last {
        lemma_scan_rows_along_axis(world, ox, oy, octant, depth + 1, lo, hi, limit, t);
    } else {
        let narrowed = Ratio::to_pivot(depth, column, Pivot::BottomRight);
        octant.lemma_round_trip(ox, oy, depth, column);
        assert(!tile_seen(world, ox, oy, octant, depth, column).contains(t));
        if clear_at(world, ox, oy, octant, depth, column) {
            lemma_clear_run_along_axis(
                world,
                ox,
                oy,
                octant,
                depth,
                column + 1,
                last,
                lo,
                hi,
                limit,
                t,
            );
        } else {
            lemma_scan_rows_along_axis(world, ox, oy, octant, depth + 1, lo, narrowed, limit, t);
            lemma_blocked_run_misses_axis(
                world,
                ox,
                oy,
                octant,
                depth,
                0,
                column + 1,
                last,
                lo,
                hi,
                limit,
                t,
            );
        }
    }
}

/// Whether two tiles share a row or a column of the grid.
pub open spec fn aligned(a: GridCoords<i32>, b: GridCoords<i32>) -> bool {
    a.x == b.x || a.y == b.y
}

/// Whether `(x, y)` lies on the straight line of tiles from `a` to `b`,
/// apart from both ends.
pub open spec fn strictly_between(a: GridCoords<i32>, b: GridCoords<i32>, x: int, y: int) -> bool {
    ||| (y == a.y && y == b.y && (a.x < x < b.x || b.x < x < a.x))
    ||| (x == a.x && x == b.x && (a.y < y < b.y || b.y < y < a.y))
}

/// Whether sight passes through every tile strictly between two aligned
/// tiles.
pub open spec fn clear_between(world: &World, a: GridCoords<i32>, b: GridCoords<i32>) -> bool {
    forall|x: int, y: int| strictly_between(a, b, x, y) ==> #[trigger] world.is_clear(x, y)
}

/// The corridor from the observer to an axis tile, counted in depths, is
/// the line of tiles strictly between the two.
pub proof fn lemma_corridor_in_grid(
    world: &World,
    observer: GridCoords<i32>,
    octant: Octant,
    t: GridCoords<i32>,
)
    requires
        on_axis_of(octant, observer.x as int, observer.y as int, t),
    ensures
        open_corridor(
            world,
            observer.x as int,
            observer.y as int,
            octant,
            1,
            octant.depth_of(observer.x as int, observer.y as int, t.x as int, t.y as int),
        ) <==> clear_between(world, observer, t),
{
    let ox = observer.x as int;
    let oy = observer.y as int;
    let target = octant.depth_of(ox, oy, t.x as int, t.y as int);
    if clear_between(world, observer, t) {
        assert forall|k: int| 1 <= k < target implies #[trigger] clear_at(
            world,
            ox,
            oy,
            octant,
            k,
            0,
        ) by {
            let x = octant.world_x(ox, k, 0);
            let y = octant.world_y(oy, k, 0);
            assert(strictly_between(observer, t, x, y));
            assert(world.is_clear(x, y));
        }
    }
    if open_corridor(world, ox, oy, octant, 1, target) {
        assert forall|x: int, y: int| strictly_between(observer, t, x, y) implies #[trigger] world.is_clear(
            x,
            y,
        ) by {
            let k = octant.depth_of(ox, oy, x, y);
            assert(1 <= k < target);
            assert(octant.world_x(ox, k, 0) == x);
            assert(octant.world_y(oy, k, 0) == y);
            assert(clear_at(world, ox, oy, octant, k, 0));
        }
    }
}

/// One octant sees an aligned tile exactly when the tile is on the
/// octant's axis, within the viewing distance, and nothing blocks the line
/// to it.
pub proof fn lemma_octant_sees_straight(
    world: &World,
    observer: GridCoords<i32>,
    index: int,
    limit: int,
    t: GridCoords<i32>,
)
    requires
        0 <= index < 8,
        aligned(observer, t),
        t != observer,
        world.holds(t.x as int, t.y as int),
    ensures
        octant_view(world, observer.x as int, observer.y as int, index, limit).contains(t) <==> {
            &&& on_axis_of(Octant::of_index(index), observer.x as int, observer.y as int, t)
            &&& chebyshev(observer, t) <= limit
            &&& clear_between(world, observer, t)
        },
{
    let ox = observer.x as int;
    let oy = observer.y as int;
    let octant = Octant::of_index(index);
    let lo = Ratio { rise: 0, run: 1 };
    let hi = Ratio { rise: 1, run: 1 };
    let target = octant.depth_of(ox, oy, t.x as int, t.y as int);
    lemma_scan_rows_in_wedge(world, ox, oy, octant, 1, lo, hi, limit);
    if octant_view(world, ox, oy, index, limit).contains(t) {
        assert(in_wedge(world, ox, oy, octant, 1, limit, t));
    }
    if on_axis_of(octant, ox, oy, t) {
        assert(chebyshev(observer, t) == target);
        if target <= limit {
            lemma_scan_rows_along_axis(world, ox, oy, octant, 1, lo, hi, limit, t);
            lemma_corridor_in_grid(world, observer, octant, t);
        }
    }
}

/// Two octants that share an axis agree on every tile of it.
pub proof fn lemma_octants_agree_on_shared_axis(
    world: &World,
    observer: GridCoords<i32>,
    one: int,
    other: int,
    limit: int,
    t: GridCoords<i32>,
)
    requires
        0 <= one < 8,
        0 <= other < 8,
        on_axis_of(Octant::of_index(one), observer.x as int, observer.y as int, t),
        on_axis_of(Octant::of_index(other), observer.x as int, observer.y as int, t),
    ensures
        octant_view(world, observer.x as int, observer.y as int, one, limit).contains(t)
            == octant_view(world, observer.x as int, observer.y as int, other, limit).contains(t),
{
    let ox = observer.x as int;
    let oy = observer.y as int;
    let lo = Ratio { rise: 0, run: 1 };
    let hi = Ratio { rise: 1, run: 1 };
    if world.holds(t.x as int, t.y as int) {
        lemma_octant_sees_straight(world, observer, one, limit, t);
        lemma_octant_sees_straight(world, observer, other, limit, t);
    } else {
        lemma_scan_rows_in_wedge(world, ox, oy, Octant::of_index(one), 1, lo, hi, limit);
        lemma_scan_rows_in_wedge(world, ox, oy, Octant::of_index(other), 1, lo, hi, limit);
        if octant_view(world, ox, oy, one, limit).contains(t) {
            assert(in_wedge(world, ox, oy, Octant::of_index(one), 1, limit, t));
        }
        if octant_view(world, ox, oy, other, limit).contains(t) {
            assert(in_wedge(world, ox, oy, Octant::of_index(other), 1, limit, t));
        }
    }
}

/// A tile is found in the octants below `count` exactly when one of them
/// finds it.
pub proof fn lemma_found_in_some_octant(
    world: &World,
    ox: int,
    oy: int,
    count: nat,
    limit: int,
    t: GridCoords<i32>,
)
    ensures
        octants_below(world, ox, oy, count, limit).contains(t) <==> exists|i: int|
            0 <= i < count && #[trigger] octant_view(world, ox, oy, i, limit).contains(t),
    decreases count,
{
    if count > 0 {
        lemma_found_in_some_octant(world, ox, oy, (count - 1) as nat, limit, t);
        if octants_below(world, ox, oy, (count - 1) as nat, limit).contains(t) {
            let i = choose|i: int|
                0 <= i < count - 1 && #[trigger] octant_view(world, ox, oy, i, limit).contains(t);
            assert(0 <= i < count && octant_view(world, ox, oy, i, limit).contains(t));
        }
        if octant_view(world, ox, oy, count - 1, limit).contains(t) {
            assert(0 <= count - 1 < count && octant_view(world, ox, oy, count - 1, limit).contains(
                t,
            ));
        }
    }
}

/// Along a row or a column of the grid, a tile is visible exactly when it
/// is within the viewing distance and sight passes through every tile
/// strictly between it and the observer.
pub proof fn lemma_straight_sight(
    world: &World,
    observer: GridCoords<i32>,
    limit: int,
    t: GridCoords<i32>,
)
    requires
        limit >= 1,
        aligned(observer, t),
        world.holds(t.x as int, t.y as int),
    ensures
        visible_set(world, observer, limit, false).contains(t) <==> {
            &&& chebyshev(observer, t) <= limit
            &&& clear_between(world, observer, t)
        },
{
    let ox = observer.x as int;
    let oy = observer.y as int;
    if t != observer {
        lemma_found_in_some_octant(world, ox, oy, 8, limit, t);
        assert forall|i: int| 0 <= i < 8 implies (#[trigger] octant_view(
            world,
            ox,
            oy,
            i,
            limit,
        ).contains(t) <==> {
            &&& on_axis_of(Octant::of_index(i), ox, oy, t)
            &&& chebyshev(observer, t) <= limit
            &&& clear_between(world, observer, t)
        }) by {
            lemma_octant_sees_straight(world, observer, i, limit, t);
        }
        let facing: int = if t.y == observer.y {
            if t.x > observer.x { 0 } else { 2 }
        } else {
            if t.y > observer.y { 4 } else { 6 }
        };
        assert(on_axis_of(Octant::of_index(facing), ox, oy, t));
        if chebyshev(observer, t) <= limit && clear_between(world, observer, t) {
            assert(octant_view(world, ox, oy, facing, limit).contains(t));
        }
    }
}

/// Along a row or a column of the grid sight is mutual: each of two tiles
/// sees the other, or neither does.
pub proof fn lemma_straight_sight_is_mutual(
    world: &World,
    a: GridCoords<i32>,
    b: GridCoords<i32>,
    limit: int,
    omniscient: bool,
)
    requires
        limit >= 1,
        aligned(a, b),
        world.holds(a.x as int, a.y as int),
        world.holds(b.x as int, b.y as int),
    ensures
        visible_set(world, a, limit, omniscient).contains(b) == visible_set(
            world,
            b,
            limit,
            omniscient,
        ).contains(a),
{
    if !omniscient {
        lemma_straight_sight(world, a, limit, b);
        lemma_straight_sight(world, b, limit, a);
        if clear_between(world, a, b) {
            assert forall|x: int, y: int| strictly_between(b, a, x, y) implies #[trigger] world.is_clear(
                x,
                y,
            ) by {
                assert(strictly_between(a, b, x, y));
            }
        }
        if clear_between(world, b, a) {
            assert forall|x: int, y: int| strictly_between(a, b, x, y) implies #[trigger] world.is_clear(
                x,
                y,
            ) by {
                assert(strictly_between(b, a, x, y));
            }
        }
    }
}

} // verus!
