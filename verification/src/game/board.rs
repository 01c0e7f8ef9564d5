//! The board's storage: a square two-dimensional `ndarray` array of tiles.
//!
//! Verus sees nothing inside the array. What it holds is named by
//! [`board_cells`], and the three functions below say, without proof, what
//! the array's constructor and its two indexing methods do to that name.

use vstd::prelude::*;
use ndarray::Array2;
use crate::game::state::Piece;
use crate::game::state::Tile;

verus! {

/// The grid of tiles, stored in an `ndarray::Array2<Tile>`.
#[verifier::external_body]
#[derive(Debug)]
pub struct Board {
    cells: Array2<Tile>,
}

/// What a board holds: for each square `(row, column)` of the grid, the
/// stack of pieces on it, bottom first. The map's domain is the set of
/// squares that the grid has.
pub uninterp spec fn board_cells(b: Board) -> Map<(int, int), Seq<Piece>>;

/// The contents of an `n` by `n` board with nothing on it.
pub open spec fn blank_cells(n: nat) -> Map<(int, int), Seq<Piece>> {
    Map::new(
        |sq: (int, int)| 0 <= sq.0 < n && 0 <= sq.1 < n,
        |sq: (int, int)| Seq::<Piece>::empty(),
    )
}

impl Board {
    /// Calls `Array2::default` with the shape `(n, n)`: an `n` by `n` array
    /// in which every tile is `Tile::default()`, the empty stack.
    #[verifier::external_body]
    pub(crate) fn blank(n: u8) -> (b: Board)
        ensures
            board_cells(b) == blank_cells(n as nat),
    {
        Board { cells: Array2::default((n as usize, n as usize)) }
    }

    /// Calls `ArrayBase::get` with the index `(r, c)`: the tile on that
    /// square, or `None` where the square is off the grid.
    #[verifier::external_body]
    pub(crate) fn get(&self, r: usize, c: usize) -> (res: Option<&Tile>)
        ensures
            res is Some <==> board_cells(*self).dom().contains((r as int, c as int)),
            res is Some ==> res.unwrap()@ == board_cells(*self)[(r as int, c as int)],
    {
        self.cells.get((r, c))
    }

    /// Calls `ArrayBase::get_mut` with the index `(r, c)`: a mutable
    /// reference to the tile on that square, or `None` where the square is
    /// off the grid. Whatever the caller leaves in the tile is what the
    /// board then holds on that square; every other square keeps its stack.
    #[verifier::external_body]
    pub(crate) fn get_mut(&mut self, r: usize, c: usize) -> (res: Option<&mut Tile>)
        ensures
            res is Some <==> board_cells(*old(self)).dom().contains((r as int, c as int)),
            res is Some ==> res.unwrap()@ == board_cells(*old(self))[(r as int, c as int)],
            res is Some ==> board_cells(*final(self)) == board_cells(*old(self)).insert(
                (r as int, c as int),
                final(res.unwrap())@,
            ),
            res is None ==> board_cells(*final(self)) == board_cells(*old(self)),
    {
        self.cells.get_mut((r, c))
    }
}

} // verus!
