//! The board model: pieces, tiles, players and the game state.

use vstd::prelude::*;
use crate::game::board::Board;
use crate::game::board::board_cells;
use crate::game::board::blank_cells;

verus! {

/// The two sides.
#[derive(Clone, Copy, PartialEq, Eq, Structural, Debug)]
pub enum Color {
    White,
    Black,
}

/// What a piece is: a flat stone, a standing stone (wall) or a capstone.
#[derive(Clone, Copy, PartialEq, Eq, Structural, Debug)]
pub enum PieceKind {
    Flat,
    Wall,
    Cap,
}

/// A move: a placement of one piece, or a throw of a stack.
///
/// `Place(kind, (row, column), notation)` puts a new piece on a square.
/// `Throw((count, row, column), direction, drops, notation)` carries pieces
/// off the top of the stack on a square and drops `drops[i]` of them on the
/// square `i + 1` steps away in `direction`, the bottom of what is carried
/// first. The direction is one of `+` (rows up), `-` (rows down), `>`
/// (columns up) and `<` (columns down).
#[derive(Debug)]
pub enum Move {
    Place(PieceKind, (u8, u8), String),
    Throw((u8, u8, u8), char, Vec<u8>, String),
}

/// A move as a mathematical value: its notation as a sequence of
/// characters and its drops as a sequence of numbers.
pub enum MoveView {
    Place(PieceKind, (u8, u8), Seq<char>),
    Throw((u8, u8, u8), char, Seq<u8>, Seq<char>),
}

impl View for Move {
    type V = MoveView;

    open spec fn view(&self) -> MoveView {
        match *self {
            Move::Place(kind, sq, ptn) => MoveView::Place(kind, sq, ptn@),
            Move::Throw(source, dir, drops, ptn) => MoveView::Throw(source, dir, drops@, ptn@),
        }
    }
}

/// How a game stands after a ply.
#[derive(Clone, Copy, PartialEq, Eq, Structural, Debug)]
pub enum Victory {
    Neither,
    WhiteFlat(u32),
    WhiteRoad,
    BlackFlat(u32),
    BlackRoad,
    Draw,
}

impl Victory {
    /// The standing as a game record writes it: the winner's side of the
    /// dash holds `R` for a road and `F` for a flat count.
    pub open spec fn spec_result(self) -> Seq<char> {
        match self {
            Victory::Neither => "0-0"@,
            Victory::WhiteFlat(_) => "F-0"@,
            Victory::WhiteRoad => "R-0"@,
            Victory::BlackFlat(_) => "0-F"@,
            Victory::BlackRoad => "0-R"@,
            Victory::Draw => "1/2-1/2"@,
        }
    }

    /// The standing as a game record writes it.
    pub fn result(&self) -> (s: &'static str)
        ensures
            s@ == self.spec_result(),
    {
        match self {
            Victory::Neither => "0-0",
            Victory::WhiteFlat(_) => "F-0",
            Victory::WhiteRoad => "R-0",
            Victory::BlackFlat(_) => "0-F",
            Victory::BlackRoad => "0-R",
            Victory::Draw => "1/2-1/2",
        }
    }
}

/// A piece on the board.
#[derive(Clone, Copy, PartialEq, Eq, Structural, Debug)]
pub struct Piece {
    pub color: Color,
    pub kind: PieceKind,
}

impl Piece {
    pub fn new(color: Color, kind: PieceKind) -> (p: Piece)
        ensures
            p == (Piece { color, kind }),
    {
        Piece { color, kind }
    }

    /// The letter that stands for this piece in a printed board: `W`, `S`
    /// and `C` for a white flat, wall and capstone, `B`, `T` and `D` for the
    /// black ones.
    pub open spec fn spec_symbol(self) -> char {
        match (self.color, self.kind) {
            (Color::White, PieceKind::Cap) => 'C',
            (Color::White, PieceKind::Wall) => 'S',
            (Color::White, PieceKind::Flat) => 'W',
            (Color::Black, PieceKind::Cap) => 'D',
            (Color::Black, PieceKind::Wall) => 'T',
            (Color::Black, PieceKind::Flat) => 'B',
        }
    }

    pub fn symbol(&self) -> (ch: char)
        ensures
            ch == self.spec_symbol(),
    {
        match self.color {
            Color::White => match self.kind {
                PieceKind::Cap => 'C',
                PieceKind::Wall => 'S',
                PieceKind::Flat => 'W',
            },
            Color::Black => match self.kind {
                PieceKind::Cap => 'D',
                PieceKind::Wall => 'T',
                PieceKind::Flat => 'B',
            },
        }
    }
}

/// The piece on top of a stack, if the stack has one.
pub open spec fn top_of(stack: Seq<Piece>) -> Option<Piece> {
    if stack.len() == 0 {
        None
    } else {
        Some(stack.last())
    }
}

/// A stack of pieces on one square, bottom first.
#[derive(Debug)]
pub struct Tile {
    pub stack: Vec<Piece>,
}

impl View for Tile {
    type V = Seq<Piece>;

    open spec fn view(&self) -> Seq<Piece> {
        self.stack@
    }
}

impl Default for Tile {
    fn default() -> (t: Tile)
        ensures
            t@ == Seq::<Piece>::empty(),
    {
        Tile { stack: Vec::new() }
    }
}

impl Tile {
    pub fn top(&self) -> (p: Option<&Piece>)
        ensures
            p is Some <==> self@.len() > 0,
            p is Some ==> *p.unwrap() == self@.last(),
    {
        if self.stack.len() == 0 {
            None
        } else {
            Some(&self.stack[self.stack.len() - 1])
        }
    }

    pub fn top_unchecked(&self) -> (p: &Piece)
        requires
            self@.len() > 0,
        ensures
            *p == self@.last(),
    {
        &self.stack[self.stack.len() - 1]
    }

    pub fn add_piece(&mut self, piece: Piece)
        ensures
            final(self)@ == old(self)@.push(piece),
    {
        self.stack.push(piece);
    }

    pub fn add_pieces(&mut self, pieces: Vec<Piece>)
        ensures
            final(self)@ == old(self)@ + pieces@,
    {
        let mut pieces = pieces;
        self.stack.append(&mut pieces);
    }

    pub fn is_empty(&self) -> (b: bool)
        ensures
            b == (self@.len() == 0),
    {
        self.stack.len() == 0
    }
}

/// One side's supply: the pieces and the capstones that it can still place.
#[derive(Debug)]
pub struct Player {
    pub color: Color,
    pub pieces: i32,
    pub caps: i32,
}

impl Player {
    /// A supply is valid when neither counter is negative.
    pub open spec fn wf(&self) -> bool {
        self.pieces >= 0 && self.caps >= 0
    }

    pub fn new(color: Color, pieces: i32, caps: i32) -> (p: Player)
        ensures
            p.color == color,
            p.pieces == pieces,
            p.caps == caps,
    {
        Player { color, pieces, caps }
    }

    pub fn has_capstone(&self) -> (b: bool)
        ensures
            b == (self.caps > 0),
    {
        self.caps > 0
    }
}

/// The pieces and capstones that each side starts with on a board of the
/// given size. A size that the game does not know gets the supply of size 5.
pub open spec fn starting_supply(size: u8) -> (i32, i32) {
    if size == 3 {
        (10i32, 0i32)
    } else if size == 4 {
        (15i32, 0i32)
    } else if size == 6 {
        (30i32, 1i32)
    } else if size == 8 {
        (50i32, 2i32)
    } else {
        (21i32, 1i32)
    }
}

/// The squares of a board of the given size.
pub open spec fn squares(size: nat) -> Set<(int, int)> {
    Set::new(|sq: (int, int)| 0 <= sq.0 < size && 0 <= sq.1 < size)
}

/// The board, the two supplies and the log of the moves made so far.
/// Rows and columns count from 0: column 0 is file `a`, row 0 is rank 1.
/// `player1` is White and `player2` is Black.
pub struct State {
    pub board: Board,
    pub size: u8,
    pub player1: Player,
    pub player2: Player,
    pub notation: Vec<String>,
}

impl State {
    /// What the board holds: the stack on each of its squares.
    pub open spec fn cells(&self) -> Map<(int, int), Seq<Piece>> {
        board_cells(self.board)
    }

    /// Whether `(row, col)` is a square of the board.
    pub open spec fn on_board(&self, row: int, col: int) -> bool {
        0 <= row < self.size && 0 <= col < self.size
    }

    /// The stack on a square, bottom first.
    pub open spec fn stack(&self, row: int, col: int) -> Seq<Piece> {
        self.cells()[(row, col)]
    }

    /// The piece on top of a square, if any.
    pub open spec fn top_at(&self, row: int, col: int) -> Option<Piece> {
        top_of(self.stack(row, col))
    }

    /// The number of plies made so far: the length of the log.
    pub open spec fn ply(&self) -> nat {
        self.notation@.len()
    }

    /// The supply of one side.
    pub open spec fn supply(&self, color: Color) -> Player {
        match color {
            Color::White => self.player1,
            Color::Black => self.player2,
        }
    }

    /// Whether the board is `size` by `size`.
    pub open spec fn board_ok(&self) -> bool {
        self.cells().dom() =~= squares(self.size as nat)
    }

    /// A state is valid when its board is `size` by `size` and no counter
    /// is negative.
    pub open spec fn wf(&self) -> bool {
        &&& self.board_ok()
        &&& self.player1.wf()
        &&& self.player2.wf()
    }

    /// An empty board of the given size with the standard supplies.
    pub fn new(size: u8) -> (s: State)
        ensures
            s.wf(),
            s.size == size,
            s.cells() == blank_cells(size as nat),
            s.ply() == 0,
            s.player1.color == Color::White,
            s.player2.color == Color::Black,
            (s.player1.pieces, s.player1.caps) == starting_supply(size),
            (s.player2.pieces, s.player2.caps) == starting_supply(size),
    {
        let (pieces, caps): (i32, i32) = if size == 3 {
            (10, 0)
        } else if size == 4 {
            (15, 0)
        } else if size == 6 {
            (30, 1)
        } else if size == 8 {
            (50, 2)
        } else {
            (21, 1)
        };
        State {
            board: Board::blank(size),
            size,
            player1: Player::new(Color::White, pieces, caps),
            player2: Player::new(Color::Black, pieces, caps),
            notation: Vec::new(),
        }
    }

    /// An empty board of the given size with the given supplies.
    pub fn new_with_players(size: u8, player1: Player, player2: Player) -> (s: State)
        requires
            player1.wf(),
            player2.wf(),
        ensures
            s.wf(),
            s.size == size,
            s.cells() == blank_cells(size as nat),
            s.ply() == 0,
            s.player1 == player1,
            s.player2 == player2,
    {
        State { board: Board::blank(size), size, player1, player2, notation: Vec::new() }
    }

    /// True if the square is off the board.
    pub fn out_of_bounds(&self, row: u8, col: u8) -> (b: bool)
        ensures
            b == !self.on_board(row as int, col as int),
    {
        row >= self.size || col >= self.size
    }

    /// True if the square has no piece on it, and also if it is off the
    /// board.
    pub fn is_empty(&self, row: u8, col: u8) -> (b: bool)
        requires
            self.board_ok(),
        ensures
            b == (self.on_board(row as int, col as int) ==> self.stack(row as int, col as int).len()
                == 0),
    {
        match self.board.get(row as usize, col as usize) {
            Some(tile) => tile.is_empty(),
            None => true,
        }
    }

    /// True if the position lies in the first or the last row or column.
    pub fn is_edge(&self, pos: (usize, usize)) -> (b: bool)
        ensures
            b == (pos.0 == 0 || pos.0 + 1 == self.size || pos.1 == 0 || pos.1 + 1 == self.size),
    {
        let n: usize = self.size as usize;
        pos.0 == 0 || pos.1 == 0 || (n > 0 && (pos.0 == n - 1 || pos.1 == n - 1))
    }

    pub fn has_capstone(&self, color: Color) -> (b: bool)
        ensures
            b == (self.supply(color).caps > 0),
    {
        self.get_player(color).caps > 0
    }

    /// The tile on a square of the board.
    pub fn get_tile(&self, row: u8, col: u8) -> (t: &Tile)
        requires
            self.board_ok(),
            self.on_board(row as int, col as int),
        ensures
            t@ == self.stack(row as int, col as int),
    {
        self.board.get(row as usize, col as usize).unwrap()
    }

    /// The tile on a square of the board, to be changed in place. The rest
    /// of the state stays as it is.
    pub fn get_mut_tile(&mut self, row: u8, col: u8) -> (t: &mut Tile)
        requires
            old(self).board_ok(),
            old(self).on_board(row as int, col as int),
        ensures
            t@ == old(self).stack(row as int, col as int),
            final(self).cells() == old(self).cells().insert((row as int, col as int), final(t)@),
            final(self).size == old(self).size,
            final(self).player1 == old(self).player1,
            final(self).player2 == old(self).player2,
            final(self).notation == old(self).notation,
    {
        self.board.get_mut(row as usize, col as usize).unwrap()
    }

    pub fn get_player(&self, color: Color) -> (p: &Player)
        ensures
            *p == self.supply(color),
    {
        match color {
            Color::White => &self.player1,
            Color::Black => &self.player2,
        }
    }

    /// The supply of one side, to be changed in place. The rest of the
    /// state stays as it is.
    pub fn get_mut_player(&mut self, color: Color) -> (p: &mut Player)
        ensures
            *p == old(self).supply(color),
            final(self).supply(color) == *final(p),
            color == Color::White ==> final(self).player2 == old(self).player2,
            color == Color::Black ==> final(self).player1 == old(self).player1,
            final(self).board == old(self).board,
            final(self).size == old(self).size,
            final(self).notation == old(self).notation,
    {
        match color {
            Color::White => &mut self.player1,
            Color::Black => &mut self.player2,
        }
    }

    /// Appends a move's notation to the log.
    pub fn add_notation(&mut self, ptn: String)
        ensures
            final(self).notation@ == old(self).notation@.push(ptn),
            final(self).board == old(self).board,
            final(self).size == old(self).size,
            final(self).player1 == old(self).player1,
            final(self).player2 == old(self).player2,
    {
        self.notation.push(ptn);
    }
}

} // verus!
