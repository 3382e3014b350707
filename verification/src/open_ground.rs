//! Sight over a grid without opaque tiles: everything within the viewing
//! distance is seen.

use vstd::prelude::*;
use crate::corridor::{lemma_found_in_some_octant, on_axis};
use crate::geometry::{Pivot, Ratio};
use crate::grid::{tile_at, GridCoords, World};
use crate::reach::lemma_visible_within_reach;
use crate::octant::Octant;
use crate::scan::{
    clear_at, octant_view, scan_columns, scan_rows, tile_seen, visible_set, within_reach,
};

verus! {

/// Whether sight passes through every tile of the grid.
pub open spec fn all_clear(world: &World) -> bool {
    forall|x: int, y: int| world.holds(x, y) ==> #[trigger] world.is_clear(x, y)
}

/// The number of tiles of the grid that lie straight ahead of `(ox, oy)`
/// along the octant's depth.
pub open spec fn room_ahead(world: &World, ox: int, oy: int, octant: Octant) -> int {
    if octant.along_x {
        if octant.depth_forward { world.width - 1 - ox } else { ox }
    } else {
        if octant.depth_forward { world.height - 1 - oy } else { oy }
    }
}

/// The number of tiles of the grid that lie beside `(ox, oy)` along the
/// octant's columns.
pub open spec fn room_aside(world: &World, ox: int, oy: int, octant: Octant) -> int {
    if octant.along_x {
        if octant.column_forward { world.height - 1 - oy } else { oy }
    } else {
        if octant.column_forward { world.width - 1 - ox } else { ox }
    }
}

/// An upper slope that leaves every column of the grid in sight at `depth`
/// and beyond: the diagonal or above, or no lower than the near corner of
/// the first tile past the grid's edge in the row before.
pub open spec fn wide(hi: Ratio, depth: int, aside: int) -> bool {
    hi.run > 0 && (hi.rise >= hi.run || hi.rise * (2 * depth - 1) >= (2 * aside + 1) * hi.run)
}

proof fn lemma_wide_crossing(hi: Ratio, depth: int, aside: int)
    requires
        depth >= 1,
        aside >= 0,
        wide(hi, depth, aside),
    ensures
        hi.crossing(depth) >= depth || hi.crossing(depth) >= aside + 1,
        wide(hi, depth + 1, aside),
{
    let rise = hi.rise;
    let run = hi.run;
    if rise >= run {
        assert((2 * depth * rise + run) / (2 * run) >= depth) by (nonlinear_arith)
            requires
                depth >= 1,
                rise >= run,
                run > 0,
        ;
    } else {
        assert(rise > 0) by (nonlinear_arith)
            requires
                depth >= 1,
                aside >= 0,
                run > 0,
                rise * (2 * depth - 1) >= (2 * aside + 1) * run,
        ;
        assert(2 * depth * rise >= (2 * aside + 1) * run) by (nonlinear_arith)
            requires
                rise > 0,
                rise * (2 * depth - 1) >= (2 * aside + 1) * run,
        ;
        assert((2 * depth * rise + run) / (2 * run) >= aside + 1) by (nonlinear_arith)
            requires
                run > 0,
                2 * depth * rise >= (2 * aside + 1) * run,
        ;
        assert(rise * (2 * (depth + 1) - 1) >= (2 * aside + 1) * run) by (nonlinear_arith)
            requires
                rise > 0,
                rise * (2 * depth - 1) >= (2 * aside + 1) * run,
        ;
    }
}

/// Every column from `column` to `last` of a row is seen, whatever the
/// tiles are.
pub proof fn lemma_row_is_seen(
    world: &World,
    ox: int,
    oy: int,
    octant: Octant,
    depth: int,
    first: int,
    column: int,
    last: int,
    lo: Ratio,
    hi: Ratio,
    limit: int,
    target: int,
)
    requires
        depth <= limit,
        column <= target <= last,
    ensures
        tile_seen(world, ox, oy, octant, depth, target).subset_of(
            scan_columns(world, ox, oy, octant, depth, first, column, last, lo, hi, limit),
        ),
    decreases target - column,
{
    if column < target {
        lemma_row_is_seen(
            world,
            ox,
            oy,
            octant,
            depth,
            first,
            column + 1,
            last,
            lo,
            hi,
            limit,
            target,
        );
        lemma_row_is_seen(
            world,
            ox,
            oy,
            octant,
            depth,
            first,
            column + 1,
            last,
            Ratio::to_pivot(depth, column, Pivot::TopLeft),
            hi,
            limit,
            target,
        );
    }
}

/// On a grid without opaque tiles, a scan from the axis up to a wide upper
/// slope finds every tile of the grid that lies in the octant, at the
/// scan's first row or deeper, on or below the diagonal.
pub proof fn lemma_open_rows(
    world: &World,
    ox: int,
    oy: int,
    octant: Octant,
    depth: int,
    lo: Ratio,
    hi: Ratio,
    limit: int,
    t: GridCoords<i32>,
)
    requires
        all_clear(world),
        world.holds(ox, oy),
        world.holds(t.x as int, t.y as int),
        depth >= 1,
        on_axis(lo),
        wide(hi, depth, room_aside(world, ox, oy, octant)),
        depth <= octant.depth_of(ox, oy, t.x as int, t.y as int) <= limit,
        0 <= octant.column_of(ox, oy, t.x as int, t.y as int) <= octant.depth_of(
            ox,
            oy,
            t.x as int,
            t.y as int,
        ),
    ensures
        scan_rows(world, ox, oy, octant, depth, lo, hi, limit).contains(t),
    decreases limit - depth + 1, 1int, 0int,
{
    let aside = room_aside(world, ox, oy, octant);
    let target = octant.depth_of(ox, oy, t.x as int, t.y as int);
    let column = octant.column_of(ox, oy, t.x as int, t.y as int);
    let last = hi.column_at(depth, limit);
    lemma_wide_crossing(hi, depth, aside);
    assert(lo.column_at(depth, limit) == 0);
    assert(column <= aside);
    if target == depth {
        lemma_row_is_seen(world, ox, oy, octant, depth, 0, 0, last, lo, hi, limit, column);
        assert(t == tile_at(octant.world_x(ox, depth, column), octant.world_y(oy, depth, column)));
        assert(tile_seen(world, ox, oy, octant, depth, column).contains(t));
    } else {
        lemma_open_columns(world, ox, oy, octant, depth, 0, last, lo, hi, limit, t);
    }
}

/// The same for the rest of a row whose tiles so far were all clear.
pub proof fn lemma_open_columns(
    world: &World,
    ox: int,
    oy: int,
    octant: Octant,
    depth: int,
    column: int,
    last: int,
    lo: Ratio,
    hi: Ratio,
    limit: int,
    t: GridCoords<i32>,
)
    requires
        all_clear(world),
        world.holds(ox, oy),
        world.holds(t.x as int, t.y as int),
        depth >= 1,
        on_axis(lo),
        wide(hi, depth + 1, room_aside(world, ox, oy, octant)),
        depth < octant.depth_of(ox, oy, t.x as int, t.y as int) <= limit,
        0 <= octant.column_of(ox, oy, t.x as int, t.y as int) <= octant.depth_of(
            ox,
            oy,
            t.x as int,
            t.y as int,
        ),
        0 <= column <= room_aside(world, ox, oy, octant) + 1,
        0 <= last,
        column >= 1 ==> clear_at(world, ox, oy, octant, depth, column - 1),
    ensures
        scan_columns(world, ox, oy, octant, depth, 0, column, last, lo, hi, limit).contains(t),
    decreases limit - depth + 1, 0int, last - column + 1,
{
    let aside = room_aside(world, ox, oy, octant);
    if column > last {
        lemma_open_rows(world, ox, oy, octant, depth + 1, lo, hi, limit, t);
    } else if column == aside + 1 {
        let narrowed = Ratio::to_pivot(depth, column, Pivot::BottomRight);
        assert(!world.holds(octant.world_x(ox, depth, column), octant.world_y(oy, depth, column)));
        assert(narrowed.rise * (2 * (depth + 1) - 1) == (2 * aside + 1) * narrowed.run)
            by (nonlinear_arith)
            requires
                narrowed.rise == 2 * aside + 1,
                narrowed.run == 2 * depth + 1,
        ;
        lemma_open_rows(world, ox, oy, octant, depth + 1, lo, narrowed, limit, t);
    } else {
        assert(world.holds(octant.world_x(ox, depth, column), octant.world_y(oy, depth, column)));
        assert(clear_at(world, ox, oy, octant, depth, column));
        lemma_open_columns(world, ox, oy, octant, depth, column + 1, last, lo, hi, limit, t);
    }
}

/// On a grid without opaque tiles the observer sees every tile within the
/// viewing distance, and nothing else.
pub proof fn lemma_open_ground(world: &World, observer: GridCoords<i32>, limit: int)
    requires
        all_clear(world),
        world.holds(observer.x as int, observer.y as int),
        limit >= 1,
    ensures
        visible_set(world, observer, limit, false) == within_reach(world, observer, limit),
{
    let ox = observer.x as int;
    let oy = observer.y as int;
    lemma_visible_within_reach(world, observer, limit, false);
    assert forall|t: GridCoords<i32>| within_reach(world, observer, limit).contains(
        t,
    ) implies visible_set(world, observer, limit, false).contains(t) by {
        if t != observer {
            let dx = t.x - ox;
            let dy = t.y - oy;
            let span_x = if dx >= 0 { dx } else { -dx };
            let span_y = if dy >= 0 { dy } else { -dy };
            let index: int = if span_x >= span_y {
                (if dx > 0 { 0int } else { 2 }) + (if dy >= 0 { 0int } else { 1 })
            } else {
                4 + (if dy > 0 { 0int } else { 2 }) + (if dx >= 0 { 0int } else { 1 })
            };
            let octant = Octant::of_index(index);
            lemma_open_rows(
                world,
                ox,
                oy,
                octant,
                1,
                Ratio { rise: 0, run: 1 },
                Ratio { rise: 1, run: 1 },
                limit,
                t,
            );
            assert(octant_view(world, ox, oy, index, limit).contains(t));
            lemma_found_in_some_octant(world, ox, oy, 8, limit, t);
        }
    }
    assert(visible_set(world, observer, limit, false) =~= within_reach(world, observer, limit));
}

/// On a grid without opaque tiles sight is mutual: each of two tiles sees
/// the other, or neither does.
pub proof fn lemma_open_ground_sight_is_mutual(
    world: &World,
    a: GridCoords<i32>,
    b: GridCoords<i32>,
    limit: int,
    omniscient: bool,
)
    requires
        all_clear(world),
        world.holds(a.x as int, a.y as int),
        world.holds(b.x as int, b.y as int),
        limit >= 1,
    ensures
        visible_set(world, a, limit, omniscient).contains(b) == visible_set(
            world,
            b,
            limit,
            omniscient,
        ).contains(a),
{
    if !omniscient {
        lemma_open_ground(world, a, limit);
        lemma_open_ground(world, b, limit);
    }
}

} // verus!
