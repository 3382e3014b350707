//! The visibility query: validation, the omniscient view, and the
//! shadowcasting scan over the eight octants.

use vstd::prelude::*;
use crate::geometry::{Pivot, Ratio, Slope};
use crate::grid::{tile_at, GridCoords, TileType, VisibilityError, World};
use crate::octant::Octant;
use crate::scan::{
    chebyshev, clear_at, octants_below, scan_columns, scan_rows, tile_seen, visible_set, within_reach,
};
use crate::visible::VisibleTiles;

verus! {

/// A view onto a grid: how far sight reaches, and whether it passes through
/// everything.
pub struct Visibility<'w> {
    world: &'w World,
    is_omniscient: bool,
    max_visible_distance: i32,
}

impl<'w> Visibility<'w> {
    /// The grid that is looked at.
    pub closed spec fn world(&self) -> &World {
        self.world
    }

    /// Whether opaque tiles are ignored.
    pub closed spec fn omniscient(&self) -> bool {
        self.is_omniscient
    }

    /// The greatest distance, in tiles, at which anything is seen.
    pub closed spec fn reach(&self) -> int {
        self.max_visible_distance as int
    }

    /// Whether a query can run: the grid is valid and sight reaches at least
    /// one tile far.
    pub open spec fn ready(&self) -> bool {
        self.world().is_valid() && self.reach() >= 1
    }

    /// The error that a query from `observer` about `target` meets, if any:
    /// the grid's shape is checked first, then the distance, then the two
    /// coordinates.
    pub open spec fn rejection(
        &self,
        observer: GridCoords<i32>,
        target: GridCoords<i32>,
    ) -> Option<VisibilityError> {
        if !self.world().is_valid() {
            Some(VisibilityError::InvalidGrid)
        } else if self.reach() < 1 {
            Some(VisibilityError::InvalidDistance)
        } else if !self.world().holds(observer.x as int, observer.y as int) || !self.world().holds(
            target.x as int,
            target.y as int,
        ) {
            Some(VisibilityError::OutOfBounds)
        } else {
            None
        }
    }

    /// A view onto `world`. Nothing is checked here: each query checks the
    /// grid and the distance itself.
    pub fn new(world: &'w World, is_omniscient: bool, max_visible_distance: i32) -> (v: Self)
        ensures
            v.world() == world,
            v.omniscient() == is_omniscient,
            v.reach() == max_visible_distance,
    {
        Self { world, is_omniscient, max_visible_distance }
    }

    /// Whether `tile_coords` names a cell of the grid.
    pub fn is_in_bounds(&self, tile_coords: &GridCoords<i32>) -> (inside: bool)
        ensures
            inside == self.world().holds(tile_coords.x as int, tile_coords.y as int),
    {
        let x = tile_coords.x;
        let y = tile_coords.y;

        x >= 0 && y >= 0 && x < self.world.width && y < self.world.height
    }

    /// The position in the grid's `tiles` of a cell of the grid.
    pub fn grid_coord_to_idx(&self, tile_coords: &GridCoords<i32>) -> (idx: usize)
        requires
            self.world().is_valid(),
            self.world().holds(tile_coords.x as int, tile_coords.y as int),
        ensures
            idx == self.world().index_of(tile_coords.x as int, tile_coords.y as int),
            idx < self.world().tiles@.len(),
    {
        let x: usize = tile_coords.x as usize;
        let h: usize = self.world.height as usize;
        proof {
            self.world.lemma_index_in_range(tile_coords.x as int, tile_coords.y as int);
            assert(x * h == tile_coords.x * self.world.height) by (nonlinear_arith)
                requires
                    x == tile_coords.x,
                    h == self.world.height,
            ;
            assert(x * h + tile_coords.y < self.world.tiles.len());
        }
        x * h + (tile_coords.y as usize)
    }

    /// The opacity of a cell, or `OutOfBounds` for coordinates outside the
    /// grid.
    pub fn get_tile_type(&self, tile_coords: &GridCoords<i32>) -> (res: Result<
        TileType,
        VisibilityError,
    >)
        requires
            self.world().is_valid(),
        ensures
            self.world().holds(tile_coords.x as int, tile_coords.y as int) ==> res == Ok::<
                TileType,
                VisibilityError,
            >(
                self.world().tiles@[self.world().index_of(
                    tile_coords.x as int,
                    tile_coords.y as int,
                )],
            ),
            !self.world().holds(tile_coords.x as int, tile_coords.y as int) ==> res == Err::<
                TileType,
                VisibilityError,
            >(VisibilityError::OutOfBounds),
    {
        if !self.is_in_bounds(tile_coords) {
            return Err(VisibilityError::OutOfBounds);
        }
        let idx = self.grid_coord_to_idx(tile_coords);
        Ok(self.world.tiles[idx])
    }

    /// The slope of the line from the centre of `observer` to a pivot of
    /// `tile`: the rise along y over the run along x.
    pub fn slope(&self, observer: &GridCoords<i32>, tile: &GridCoords<i32>, pivot: Pivot) -> (s:
        Slope)
        ensures
            s@.rise == 2 * (tile.y - observer.y) + pivot.dy(),
            s@.run == 2 * (tile.x - observer.x) + pivot.dx(),
    {
        let target = pivot.coords(tile);
        let origin = Pivot::Center.coords(observer);
        Slope { rise: target.y - origin.y, run: target.x - origin.x }
    }

    fn is_clear(&self, tile: &GridCoords<i32>) -> (clear: bool)
        requires
            self.world().is_valid(),
        ensures
            clear == self.world().is_clear(tile.x as int, tile.y as int),
    {
        match self.get_tile_type(tile) {
            Ok(TileType::Transparent) => true,
            _ => false,
        }
    }

    /// Adds to `visible` what is seen from `observer` in one octant from the
    /// row at `current_depth` on, between the two slopes.
    pub fn compute_visible_tiles_in_octant(
        &self,
        observer: &GridCoords<i32>,
        octant: Octant,
        current_depth: i32,
        min_slope: Slope,
        max_slope: Slope,
        visible: &mut VisibleTiles,
    )
        requires
            self.world().is_valid(),
            old(visible).wf(),
            old(visible).spec_width() == self.world().width,
            old(visible).spec_height() == self.world().height,
            current_depth >= 1,
            !min_slope@.is_nan(),
            !max_slope@.is_nan(),
        ensures
            final(visible).wf(),
            final(visible).spec_width() == self.world().width,
            final(visible).spec_height() == self.world().height,
            final(visible)@ == old(visible)@.union(
                scan_rows(
                    self.world(),
                    observer.x as int,
                    observer.y as int,
                    octant,
                    current_depth as int,
                    min_slope@,
                    max_slope@,
                    self.reach(),
                ),
            ),
        decreases self.reach() - current_depth,
    {
        let limit: i32 = self.max_visible_distance;
        if current_depth > limit {
            assert(visible@ =~= visible@.union(Set::empty()));
            return ;
        }
        let first: i32 = min_slope.column(current_depth, limit);
        let last: i32 = max_slope.column(current_depth, limit);
        let ghost ox = observer.x as int;
        let ghost oy = observer.y as int;
        let ghost depth = current_depth as int;
        let ghost goal = visible@.union(
            scan_rows(self.world(), ox, oy, octant, depth, min_slope@, max_slope@, limit as int),
        );

        let mut lo: Slope = min_slope;
        let mut previous_clear: bool = false;
        let mut column: i64 = first as i64;
        while column <= last as i64
            invariant
                self.world().is_valid(),
                visible.wf(),
                visible.spec_width() == self.world().width,
                visible.spec_height() == self.world().height,
                limit == self.reach(),
                1 <= current_depth <= limit,
                depth == current_depth,
                ox == observer.x,
                oy == observer.y,
                0 <= first <= column,
                column <= last + 1 || column == first,
                last <= limit,
                !lo@.is_nan(),
                !max_slope@.is_nan(),
                column > first ==> previous_clear == clear_at(
                    self.world(),
                    ox,
                    oy,
                    octant,
                    depth,
                    column - 1,
                ),
                visible@.union(
                    scan_columns(
                        self.world(),
                        ox,
                        oy,
                        octant,
                        depth,
                        first as int,
                        column as int,
                        last as int,
                        lo@,
                        max_slope@,
                        limit as int,
                    ),
                ) == goal,
            decreases last - column + 1,
        {
            let ghost seen_before = visible@;
            let ghost lo_before = lo@;
            let ghost here = tile_seen(self.world(), ox, oy, octant, depth, column as int);
            let ghost rest = scan_columns(
                self.world(),
                ox,
                oy,
                octant,
                depth,
                first as int,
                column as int,
                last as int,
                lo_before,
                max_slope@,
                limit as int,
            );
            let ghost rest_after = |slope: Ratio|
                scan_columns(
                    self.world(),
                    ox,
                    oy,
                    octant,
                    depth,
                    first as int,
                    column + 1,
                    last as int,
                    slope,
                    max_slope@,
                    limit as int,
                );
            let col: i32 = column as i32;
            let clear = match octant.to_world(observer, current_depth, col) {
                Some(tile) => {
                    visible.insert(tile);
                    assert(tile == tile_at(tile.x as int, tile.y as int));
                    self.is_clear(&tile)
                },
                None => false,
            };
            assert(visible@ =~= seen_before.union(here));
            if column > first as i64 && previous_clear && !clear {
                let ghost below = scan_rows(
                    self.world(),
                    ox,
                    oy,
                    octant,
                    depth + 1,
                    lo_before,
                    Ratio::to_pivot(depth, column as int, Pivot::BottomRight),
                    limit as int,
                );
                assert(rest == here.union(below).union(rest_after(lo_before)));
                if current_depth < limit {
                    let narrowed = Slope::to_pivot(current_depth, col, Pivot::BottomRight);
                    self.compute_visible_tiles_in_octant(
                        observer,
                        octant,
                        current_depth + 1,
                        lo,
                        narrowed,
                        visible,
                    );
                }
                assert(visible@ =~= seen_before.union(here).union(below));
            } else if column > first as i64 && !previous_clear && clear {
                lo = Slope::to_pivot(current_depth, col, Pivot::TopLeft);
                assert(rest == here.union(rest_after(lo@)));
            } else {
                assert(rest == here.union(rest_after(lo@)));
            }
            previous_clear = clear;
            column = column + 1;
            assert(visible@.union(rest_after(lo@)) =~= goal);
        }
        let ghost seen_in_row = visible@;
        let ghost below = scan_rows(
            self.world(),
            ox,
            oy,
            octant,
            depth + 1,
            lo@,
            max_slope@,
            limit as int,
        );
        assert(goal == seen_in_row.union(
            if column > first && previous_clear {
                below
            } else {
                Set::empty()
            },
        ));
        if column > first as i64 && previous_clear && current_depth < limit {
            self.compute_visible_tiles_in_octant(
                observer,
                octant,
                current_depth + 1,
                lo,
                max_slope,
                visible,
            );
        }
        assert(visible@ =~= goal);
    }

    fn nothing_seen(&self) -> (set: VisibleTiles)
        requires
            self.world().is_valid(),
        ensures
            set.wf(),
            set@ == Set::<GridCoords<i32>>::empty(),
            set.spec_width() == self.world().width,
            set.spec_height() == self.world().height,
    {
        assert(self.world.tiles@.len() == self.world.tiles.len());
        VisibleTiles::new(self.world.width, self.world.height)
    }

    /// What is seen from `observer` in one octant between two slopes, from
    /// the first row on.
    pub fn scan_octant(
        &self,
        observer: &GridCoords<i32>,
        octant: Octant,
        min_slope: Slope,
        max_slope: Slope,
    ) -> (seen: VisibleTiles)
        requires
            self.world().is_valid(),
            !min_slope@.is_nan(),
            !max_slope@.is_nan(),
        ensures
            seen.wf(),
            seen.spec_width() == self.world().width,
            seen.spec_height() == self.world().height,
            seen@ == scan_rows(
                self.world(),
                observer.x as int,
                observer.y as int,
                octant,
                1,
                min_slope@,
                max_slope@,
                self.reach(),
            ),
    {
        let mut seen = self.nothing_seen();
        self.compute_visible_tiles_in_octant(observer, octant, 1, min_slope, max_slope, &mut seen);
        assert(seen@ =~= scan_rows(
            self.world(),
            observer.x as int,
            observer.y as int,
            octant,
            1,
            min_slope@,
            max_slope@,
            self.reach(),
        ));
        seen
    }

    fn distance(a: &GridCoords<i32>, b: &GridCoords<i32>) -> (d: i64)
        ensures
            d == chebyshev(*a, *b),
    {
        let dx: i64 = if a.x >= b.x { a.x as i64 - b.x as i64 } else { b.x as i64 - a.x as i64 };
        let dy: i64 = if a.y >= b.y { a.y as i64 - b.y as i64 } else { b.y as i64 - a.y as i64 };
        if dx >= dy {
            dx
        } else {
            dy
        }
    }

    fn everything_within_reach(&self, observer: &GridCoords<i32>) -> (all: VisibleTiles)
        requires
            self.ready(),
            self.world().holds(observer.x as int, observer.y as int),
        ensures
            all.wf(),
            all@ == within_reach(self.world(), *observer, self.reach()),
    {
        let mut all = self.nothing_seen();
        let reach: i64 = self.max_visible_distance as i64;
        let ox: i64 = observer.x as i64;
        let oy: i64 = observer.y as i64;
        let x_end: i64 = if ox + reach < self.world.width as i64 {
            ox + reach + 1
        } else {
            self.world.width as i64
        };
        let y_start: i64 = if oy - reach > 0 { oy - reach } else { 0 };
        let y_end: i64 = if oy + reach < self.world.height as i64 {
            oy + reach + 1
        } else {
            self.world.height as i64
        };
        let ghost target = within_reach(self.world(), *observer, self.reach());
        let mut x: i64 = if ox - reach > 0 { ox - reach } else { 0 };
        assert(all@ =~= target.filter(|t: GridCoords<i32>| t.x < x));
        while x < x_end
            invariant
                self.ready(),
                all.wf(),
                all.spec_width() == self.world().width,
                all.spec_height() == self.world().height,
                reach == self.reach(),
                ox == observer.x,
                oy == observer.y,
                target == within_reach(self.world(), *observer, self.reach()),
                0 <= x <= x_end <= self.world().width,
                ox - reach <= x,
                x_end == ox + reach + 1 || x_end == self.world().width,
                x_end <= ox + reach + 1,
                0 <= y_start <= oy < y_end <= self.world().height,
                y_start == oy - reach || y_start == 0,
                oy - reach <= y_start,
                y_end == oy + reach + 1 || y_end == self.world().height,
                y_end <= oy + reach + 1,
                all@ == target.filter(|t: GridCoords<i32>| t.x < x),
            decreases x_end - x,
        {
            let mut y: i64 = y_start;
            assert(all@ =~= target.filter(
                |t: GridCoords<i32>| t.x < x || (t.x == x && t.y < y),
            ));
            while y < y_end
                invariant
                    self.ready(),
                    all.wf(),
                    all.spec_width() == self.world().width,
                    all.spec_height() == self.world().height,
                    reach == self.reach(),
                    ox == observer.x,
                    oy == observer.y,
                    target == within_reach(self.world(), *observer, self.reach()),
                    0 <= x < x_end <= self.world().width,
                    ox - reach <= x,
                    x_end <= ox + reach + 1,
                    0 <= y_start <= y <= y_end <= self.world().height,
                    y_start == oy - reach || y_start == 0,
                    oy - reach <= y_start,
                    y_end == oy + reach + 1 || y_end == self.world().height,
                    y_end <= oy + reach + 1,
                    all@ == target.filter(
                        |t: GridCoords<i32>| t.x < x || (t.x == x && t.y < y),
                    ),
                decreases y_end - y,
            {
                all.insert(GridCoords { x: x as i32, y: y as i32 });
                y = y + 1;
                assert(all@ =~= target.filter(
                    |t: GridCoords<i32>| t.x < x || (t.x == x && t.y < y),
                ));
            }
            x = x + 1;
            assert(all@ =~= target.filter(|t: GridCoords<i32>| t.x < x));
        }
        assert(all@ =~= target);
        all
    }

    /// The tiles visible from `observer`.
    ///
    /// With omniscience these are all tiles of the grid within the viewing
    /// distance. Without, they are the observer's own tile and what the scan
    /// of each of the eight octants finds.
    pub fn compute_visible_tiles(&self, observer: &GridCoords<i32>) -> (res: Result<
        VisibleTiles,
        VisibilityError,
    >)
        ensures
            match res {
                Ok(visible) => {
                    &&& self.rejection(*observer, *observer) is None
                    &&& visible.wf()
                    &&& visible@ == visible_set(
                        self.world(),
                        *observer,
                        self.reach(),
                        self.omniscient(),
                    )
                    &&& visible@.contains(*observer)
                    &&& self.omniscient() ==> visible@ == within_reach(
                        self.world(),
                        *observer,
                        self.reach(),
                    )
                },
                Err(e) => self.rejection(*observer, *observer) == Some(e),
            },
    {
        match self.world.validate() {
            Err(e) => {
                return Err(e);
            },
            Ok(_) => {},
        }
        if self.max_visible_distance < 1 {
            return Err(VisibilityError::InvalidDistance);
        }
        if !self.is_in_bounds(observer) {
            return Err(VisibilityError::OutOfBounds);
        }
        if self.is_omniscient {
            return Ok(self.everything_within_reach(observer));
        }
        let mut visible = self.nothing_seen();
        visible.insert(*observer);
        let mut index: u8 = 0;
        assert(visible@ =~= set![*observer].union(
            octants_below(self.world(), observer.x as int, observer.y as int, 0, self.reach()),
        ));
        while index < 8
            invariant
                self.world().is_valid(),
                visible.wf(),
                visible.spec_width() == self.world().width,
                visible.spec_height() == self.world().height,
                index <= 8,
                visible@ == set![*observer].union(
                    octants_below(
                        self.world(),
                        observer.x as int,
                        observer.y as int,
                        index as nat,
                        self.reach(),
                    ),
                ),
            decreases 8 - index,
        {
            let octant = Octant::from_index(index);
            self.compute_visible_tiles_in_octant(
                observer,
                octant,
                1,
                Slope { rise: 0, run: 1 },
                Slope { rise: 1, run: 1 },
                &mut visible,
            );
            index = index + 1;
            assert(visible@ =~= set![*observer].union(
                octants_below(
                    self.world(),
                    observer.x as int,
                    observer.y as int,
                    index as nat,
                    self.reach(),
                ),
            ));
        }
        Ok(visible)
    }

    /// Whether `tile_coords` is among the tiles visible from
    /// `observer_coords`.
    ///
    /// A tile sees itself, and under omniscience it sees whatever is within
    /// the viewing distance; neither needs a scan.
    pub fn is_tile_visible(
        &self,
        observer_coords: &GridCoords<i32>,
        tile_coords: &GridCoords<i32>,
    ) -> (res: Result<bool, VisibilityError>)
        ensures
            match res {
                Ok(seen) => {
                    &&& self.rejection(*observer_coords, *tile_coords) is None
                    &&& seen == visible_set(
                        self.world(),
                        *observer_coords,
                        self.reach(),
                        self.omniscient(),
                    ).contains(*tile_coords)
                },
                Err(e) => self.rejection(*observer_coords, *tile_coords) == Some(e),
            },
            res is Ok && *observer_coords == *tile_coords ==> res == Ok::<bool, VisibilityError>(
                true,
            ),
            res is Ok && self.world().tiles@.len() == 1 ==> res == Ok::<bool, VisibilityError>(
                true,
            ),
    {
        match self.world.validate() {
            Err(e) => {
                return Err(e);
            },
            Ok(_) => {},
        }
        if self.max_visible_distance < 1 {
            return Err(VisibilityError::InvalidDistance);
        }
        if !self.is_in_bounds(observer_coords) || !self.is_in_bounds(tile_coords) {
            return Err(VisibilityError::OutOfBounds);
        }
        proof {
            if self.world().tiles@.len() == 1 {
                assert(self.world().width == 1 && self.world().height == 1) by (nonlinear_arith)
                    requires
                        self.world().width >= 1,
                        self.world().height >= 1,
                        self.world().width * self.world().height == 1,
                ;
            }
        }
        if observer_coords.x == tile_coords.x && observer_coords.y == tile_coords.y {
            assert(*observer_coords == *tile_coords);
            return Ok(true);
        }
        if self.is_omniscient {
            return Ok(Self::distance(observer_coords, tile_coords) <= self.max_visible_distance as i64);
        }
        match self.compute_visible_tiles(observer_coords) {
            Ok(visible) => Ok(visible.contains(tile_coords)),
            Err(e) => Err(e),
        }
    }
}

} // verus!
