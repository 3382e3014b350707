//! The set of tiles that a query found visible.

use vstd::prelude::*;
use crate::grid::GridCoords;

verus! {

/// A set of tiles of one grid. Each tile is held once; membership is looked
/// up in constant time.
pub struct VisibleTiles {
    width: i32,
    height: i32,
    marks: Vec<bool>,
    members: Vec<GridCoords<i32>>,
}

impl View for VisibleTiles {
    type V = Set<GridCoords<i32>>;

    closed spec fn view(&self) -> Set<GridCoords<i32>> {
        self.members@.to_set()
    }
}

impl VisibleTiles {
    /// The width of the grid whose tiles the set can hold.
    pub closed spec fn spec_width(&self) -> int {
        self.width as int
    }

    /// The height of the grid whose tiles the set can hold.
    pub closed spec fn spec_height(&self) -> int {
        self.height as int
    }

    /// Whether the set can hold `tile`.
    pub open spec fn covers(&self, tile: GridCoords<i32>) -> bool {
        0 <= tile.x < self.spec_width() && 0 <= tile.y < self.spec_height()
    }

    /// The set's internal consistency: the marks and the list of members
    /// describe the same tiles, each listed once.
    pub closed spec fn wf(&self) -> bool {
        &&& self.width > 0
        &&& self.height > 0
        &&& self.marks@.len() == self.width * self.height
        &&& self.members@.no_duplicates()
        &&& forall|i: int|
            0 <= i < self.members@.len() ==> {
                &&& 0 <= (#[trigger] self.members@[i]).x < self.width
                &&& 0 <= self.members@[i].y < self.height
                &&& self.marks@[self.members@[i].x * self.height + self.members@[i].y]
            }
        &&& forall|x: int, y: int|
            0 <= x < self.width && 0 <= y < self.height && #[trigger] self.marks@[x * self.height
                + y] ==> self.members@.contains(GridCoords { x: x as i32, y: y as i32 })
    }

    /// A well-formed set is finite and holds only tiles of its grid.
    pub proof fn lemma_within_grid(&self)
        requires
            self.wf(),
        ensures
            self@.finite(),
            forall|t: GridCoords<i32>| self@.contains(t) ==> self.covers(t),
    {
        broadcast use vstd::seq_lib::group_seq_properties;

        assert forall|t: GridCoords<i32>| self@.contains(t) implies self.covers(t) by {
            let i = choose|i: int| 0 <= i < self.members@.len() && self.members@[i] == t;
            assert(self.members@[i] == t);
        }
    }

    /// The empty set over a grid of `width` by `height` tiles.
    pub fn new(width: i32, height: i32) -> (set: VisibleTiles)
        requires
            width > 0,
            height > 0,
            width * height <= usize::MAX,
        ensures
            set.wf(),
            set@ == Set::<GridCoords<i32>>::empty(),
            set.spec_width() == width,
            set.spec_height() == height,
    {
        assert(0 < width * height <= 0x7fff_ffff * 0x7fff_ffff) by (nonlinear_arith)
            requires
                0 < width <= 0x7fff_ffff,
                0 < height <= 0x7fff_ffff,
        ;
        let cells: usize = ((width as i64) * (height as i64)) as usize;
        let mut marks: Vec<bool> = Vec::new();
        while marks.len() < cells
            invariant
                marks@.len() <= cells,
                forall|i: int| 0 <= i < marks@.len() ==> !marks@[i],
            decreases cells - marks@.len(),
        {
            marks.push(false);
        }
        let set = VisibleTiles { width, height, marks, members: Vec::new() };
        proof {
            assert forall|x: int, y: int|
                0 <= x < set.width && 0 <= y < set.height implies !#[trigger] set.marks@[x
                * set.height + y] by {
                set.lemma_slot_in_range(x, y);
            }
            assert(set@ =~= Set::<GridCoords<i32>>::empty());
        }
        set
    }

    proof fn lemma_slot_in_range(&self, x: int, y: int)
        requires
            self.height > 0,
            0 <= x < self.width,
            0 <= y < self.height,
        ensures
            0 <= x * self.height + y < self.width * self.height,
    {
        assert(0 <= x * self.height <= (self.width - 1) * self.height) by (nonlinear_arith)
            requires
                0 <= x <= self.width - 1,
                self.height > 0,
        ;
        assert((self.width - 1) * self.height == self.width * self.height - self.height)
            by (nonlinear_arith);
    }

    fn slot(&self, tile: &GridCoords<i32>) -> (idx: usize)
        requires
            self.wf(),
            self.covers(*tile),
        ensures
            idx == tile.x * self.height + tile.y,
            idx < self.marks@.len(),
    {
        let x: usize = tile.x as usize;
        let h: usize = self.height as usize;
        proof {
            self.lemma_slot_in_range(tile.x as int, tile.y as int);
            assert(x * h == tile.x * self.height) by (nonlinear_arith)
                requires
                    x == tile.x,
                    h == self.height,
            ;
            assert(x * h + tile.y < self.marks.len());
        }
        x * h + (tile.y as usize)
    }

    proof fn lemma_slot_injective(&self, a: GridCoords<i32>, b: GridCoords<i32>)
        requires
            self.height > 0,
            0 <= a.y < self.height,
            0 <= b.y < self.height,
            a.x * self.height + a.y == b.x * self.height + b.y,
        ensures
            a == b,
    {
        if a.x < b.x {
            assert((a.x + 1) * self.height <= b.x * self.height) by (nonlinear_arith)
                requires
                    a.x + 1 <= b.x,
                    self.height > 0,
            ;
            assert((a.x + 1) * self.height == a.x * self.height + self.height)
                by (nonlinear_arith);
        } else if b.x < a.x {
            assert((b.x + 1) * self.height <= a.x * self.height) by (nonlinear_arith)
                requires
                    b.x + 1 <= a.x,
                    self.height > 0,
            ;
            assert((b.x + 1) * self.height == b.x * self.height + self.height)
                by (nonlinear_arith);
        }
    }

    /// Whether `tile` is in the set.
    pub fn contains(&self, tile: &GridCoords<i32>) -> (found: bool)
        requires
            self.wf(),
        ensures
            found == self@.contains(*tile),
    {
        if tile.x < 0 || tile.y < 0 || tile.x >= self.width || tile.y >= self.height {
            proof {
                self.lemma_within_grid();
            }
            return false;
        }
        let idx = self.slot(tile);
        let found = self.marks[idx];
        proof {
            if found {
                assert(self.marks@[tile.x as int * self.height + tile.y as int]);
                assert(GridCoords { x: tile.x as int as i32, y: tile.y as int as i32 } == *tile);
            } else if self@.contains(*tile) {
                let i = choose|i: int| 0 <= i < self.members@.len() && self.members@[i] == *tile;
                assert(self.members@[i] == *tile);
            }
        }
        found
    }

    /// Adds `tile` to the set. A tile outside the set's grid is left out.
    pub fn insert(&mut self, tile: GridCoords<i32>)
        requires
            old(self).wf(),
        ensures
            final(self).wf(),
            final(self).spec_width() == old(self).spec_width(),
            final(self).spec_height() == old(self).spec_height(),
            final(self)@ == (if old(self).covers(tile) {
                old(self)@.insert(tile)
            } else {
                old(self)@
            }),
    {
        if tile.x < 0 || tile.y < 0 || tile.x >= self.width || tile.y >= self.height {
            return ;
        }
        let idx = self.slot(&tile);
        if self.marks[idx] {
            proof {
                assert(self.marks@[tile.x as int * self.height + tile.y as int]);
                assert(GridCoords { x: tile.x as int as i32, y: tile.y as int as i32 } == tile);
                assert(self@ =~= self@.insert(tile));
            }
            return ;
        }
        let ghost before = *self;
        proof {
            if before.members@.contains(tile) {
                let i = choose|i: int| 0 <= i < before.members@.len() && before.members@[i] == tile;
                assert(before.members@[i] == tile);
            }
        }
        self.marks.set(idx, true);
        self.members.push(tile);
        proof {
            let last = before.members@.len() as int;
            assert(self.members@ == before.members@.push(tile));
            assert forall|i: int| 0 <= i < self.members@.len() implies {
                &&& 0 <= (#[trigger] self.members@[i]).x < self.width
                &&& 0 <= self.members@[i].y < self.height
                &&& self.marks@[self.members@[i].x * self.height + self.members@[i].y]
            } by {
                if i < last {
                    assert(self.members@[i] == before.members@[i]);
                    before.lemma_slot_in_range(
                        before.members@[i].x as int,
                        before.members@[i].y as int,
                    );
                }
            }
            assert forall|x: int, y: int|
                0 <= x < self.width && 0 <= y < self.height && #[trigger] self.marks@[x
                    * self.height + y] implies self.members@.contains(
                GridCoords { x: x as i32, y: y as i32 },
            ) by {
                let t = GridCoords { x: x as i32, y: y as i32 };
                before.lemma_slot_in_range(x, y);
                if x * self.height + y == idx {
                    self.lemma_slot_injective(t, tile);
                    assert(self.members@[last] == tile);
                } else {
                    assert(before.marks@[x * self.height + y]);
                    let i = choose|i: int| 0 <= i < before.members@.len() && before.members@[i] == t;
                    assert(self.members@[i] == t);
                }
            }
            assert(self@ =~= before@.insert(tile)) by {
                assert forall|t: GridCoords<i32>| self@.contains(t) == before@.insert(tile).contains(
                    t,
                ) by {
                    if self.members@.contains(t) {
                        let i = choose|i: int| 0 <= i < self.members@.len() && self.members@[i] == t;
                        if i < last {
                            assert(before.members@[i] == t);
                        }
                    }
                    if before.members@.contains(t) {
                        let i = choose|i: int|
                            0 <= i < before.members@.len() && before.members@[i] == t;
                        assert(self.members@[i] == t);
                    }
                    if t == tile {
                        assert(self.members@[last] == t);
                    }
                }
            }
        }
    }

    /// The number of tiles in the set.
    pub fn len(&self) -> (n: usize)
        requires
            self.wf(),
        ensures
            self@.finite(),
            n == self@.len(),
    {
        proof {
            self.lemma_within_grid();
            self.members@.unique_seq_to_set();
        }
        self.members.len()
    }

    /// The tiles of the set, each once.
    pub fn to_vec(&self) -> (tiles: Vec<GridCoords<i32>>)
        requires
            self.wf(),
        ensures
            tiles@.no_duplicates(),
            tiles@.to_set() == self@,
    {
        let mut tiles: Vec<GridCoords<i32>> = Vec::new();
        let mut i: usize = 0;
        while i < self.members.len()
            invariant
                i <= self.members@.len(),
                tiles@ == self.members@.subrange(0, i as int),
            decreases self.members@.len() - i,
        {
            tiles.push(self.members[i]);
            i += 1;
            assert(tiles@ =~= self.members@.subrange(0, i as int));
        }
        assert(tiles@ =~= self.members@);
        tiles
    }
}

} // verus!
