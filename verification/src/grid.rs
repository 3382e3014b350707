//! The grid snapshot: tile opacities over a rectangle, with bounds and
//! opacity queries.

use vstd::prelude::*;

verus! {

/// A pair of coordinates. With `i32` fields it names a tile of the grid; with
/// `i64` fields it is a position in half-tile units (a tile's centre lies at
/// twice its tile coordinates, its corners one unit off).
#[derive(PartialEq, Eq, Hash, Clone, Copy, Debug)]
pub struct GridCoords<T> {
    pub x: T,
    pub y: T,
}

/// Whether a tile lets sight through.
#[derive(PartialEq, Eq, Clone, Copy, Debug)]
pub enum TileType {
    Transparent,
    Opaque,
}

/// Why a query was rejected.
#[derive(PartialEq, Eq, Clone, Copy, Debug)]
pub enum VisibilityError {
    /// The grid has no cells, or its cell count is not `width * height`.
    InvalidGrid,
    /// The viewing distance is below one.
    InvalidDistance,
    /// A coordinate lies outside the grid.
    OutOfBounds,
}

/// A rectangular snapshot of tile opacities. The tile `(x, y)` is stored at
/// index `x * height + y`.
pub struct World {
    pub tiles: Vec<TileType>,
    pub width: i32,
    pub height: i32,
}

/// The tile with the given coordinates.
pub open spec fn tile_at(x: int, y: int) -> GridCoords<i32> {
    GridCoords { x: x as i32, y: y as i32 }
}

impl TileType {
    /// Reads a tile from its map character: `'o'` is opaque, `'_'` is
    /// transparent. No other character stands for a tile.
    pub fn from(value: &char) -> (tile: TileType)
        requires
            *value == 'o' || *value == '_',
        ensures
            tile == (if *value == 'o' { TileType::Opaque } else { TileType::Transparent }),
    {
        if *value == 'o' {
            TileType::Opaque
        } else {
            TileType::Transparent
        }
    }
}

impl World {
    /// A grid is valid when both sides are positive and it holds exactly
    /// `width * height` cells.
    pub open spec fn is_valid(&self) -> bool {
        &&& self.width > 0
        &&& self.height > 0
        &&& self.tiles@.len() == self.width * self.height
    }

    /// Whether `(x, y)` names a cell of the grid.
    pub open spec fn holds(&self, x: int, y: int) -> bool {
        0 <= x < self.width && 0 <= y < self.height
    }

    /// The position of cell `(x, y)` in `tiles`.
    pub open spec fn index_of(&self, x: int, y: int) -> int {
        x * self.height + y
    }

    /// Whether sight passes through `(x, y)`. Everything outside the grid
    /// blocks sight.
    pub open spec fn is_clear(&self, x: int, y: int) -> bool {
        self.holds(x, y) && self.tiles@[self.index_of(x, y)] == TileType::Transparent
    }

    /// The index of a cell of a valid grid lies within `tiles`.
    pub proof fn lemma_index_in_range(&self, x: int, y: int)
        requires
            self.is_valid(),
            self.holds(x, y),
        ensures
            0 <= self.index_of(x, y) < self.tiles@.len(),
    {
        assert(x * self.height <= (self.width - 1) * self.height) by (nonlinear_arith)
            requires
                x <= self.width - 1,
                self.height > 0,
        ;
        assert((self.width - 1) * self.height == self.width * self.height - self.height)
            by (nonlinear_arith);
        assert(0 <= x * self.height) by (nonlinear_arith)
            requires
                0 <= x,
                self.height > 0,
        ;
    }

    /// Checks the grid's shape.
    pub fn validate(&self) -> (res: Result<(), VisibilityError>)
        ensures
            self.is_valid() ==> res == Ok::<(), VisibilityError>(()),
            !self.is_valid() ==> res == Err::<(), VisibilityError>(VisibilityError::InvalidGrid),
    {
        if self.width <= 0 || self.height <= 0 {
            return Err(VisibilityError::InvalidGrid);
        }
        assert(0 < self.width * self.height <= 0x7fff_ffff * 0x7fff_ffff) by (nonlinear_arith)
            requires
                0 < self.width <= 0x7fff_ffff,
                0 < self.height <= 0x7fff_ffff,
        ;
        let cells: i64 = (self.width as i64) * (self.height as i64);
        if self.tiles.len() as u128 == cells as u128 {
            Ok(())
        } else {
            Err(VisibilityError::InvalidGrid)
        }
    }
}

} // verus!
