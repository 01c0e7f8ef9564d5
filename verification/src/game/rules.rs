//! The move engine: which moves are legal on a state, and what a legal move
//! does to it.

use vstd::prelude::*;
use crate::game::state::Color;
use crate::game::state::Move;
use crate::game::state::Piece;
use crate::game::state::Player;
use crate::game::state::PieceKind;
use crate::game::state::State;
use crate::game::state::Tile;
use crate::game::state::top_of;

verus! {

/// Why a move was refused.
#[derive(Clone, Copy, PartialEq, Eq, Structural, Debug)]
pub enum MoveError {
    /// A placement on a square that the board does not have.
    OutOfBounds,
    /// A placement on a square that holds a piece.
    OccupiedSquare,
    /// A capstone placement by a side that has no capstone left.
    NoCapstonesLeft,
    /// A throw whose count exceeds the board's size, whose source is off the
    /// board, which drops nothing, or which carries more pieces than the
    /// source holds.
    InvalidSignature,
    /// A throw from a square with no piece on it.
    EmptySource,
    /// A throw of a stack whose top piece is not the mover's.
    NotController,
    /// A throw whose last square is off the board.
    TargetOffBoard,
    /// A capstone that lands on a wall together with other pieces.
    MustCrushAlone,
    /// A throw that ends on a wall and has no capstone on top.
    CannotCrushWithoutCapstone,
    /// A throw that ends on a capstone.
    CannotLandOnCapstone,
    /// A throw that passes over a wall or a capstone.
    BlockedByNonFlat,
    /// A throw, or a placement of a wall or a capstone, in the first two
    /// plies.
    IllegalDuringOpening,
    /// A throw in a direction other than `+`, `-`, `<` and `>`.
    UnknownDirection,
}

impl MoveError {
    /// The reason in words.
    pub open spec fn spec_message(self) -> Seq<char> {
        match self {
            MoveError::OutOfBounds => "Invalid square selected"@,
            MoveError::OccupiedSquare => "Invalid square selected"@,
            MoveError::NoCapstonesLeft => "Player has no capstones left"@,
            MoveError::InvalidSignature => "Invalid move signature for this board"@,
            MoveError::EmptySource => "Moving from an empty tile"@,
            MoveError::NotController => "Cannot move a stack you don't control"@,
            MoveError::TargetOffBoard => "Target tile(s) off the board"@,
            MoveError::MustCrushAlone => "The capstone must step alone to crush walls"@,
            MoveError::CannotCrushWithoutCapstone => "Cannot crush a wall without a capstone"@,
            MoveError::CannotLandOnCapstone => "Cannot end throw on a capstone"@,
            MoveError::BlockedByNonFlat => "Cannot move through a wall or capstone"@,
            MoveError::IllegalDuringOpening => "Only a flat can be placed in the opening"@,
            MoveError::UnknownDirection => "Unknown movement direction"@,
        }
    }

    /// The reason in words.
    pub fn message(&self) -> (s: &'static str)
        ensures
            s@ == self.spec_message(),
    {
        match self {
            MoveError::OutOfBounds => "Invalid square selected",
            MoveError::OccupiedSquare => "Invalid square selected",
            MoveError::NoCapstonesLeft => "Player has no capstones left",
            MoveError::InvalidSignature => "Invalid move signature for this board",
            MoveError::EmptySource => "Moving from an empty tile",
            MoveError::NotController => "Cannot move a stack you don't control",
            MoveError::TargetOffBoard => "Target tile(s) off the board",
            MoveError::MustCrushAlone => "The capstone must step alone to crush walls",
            MoveError::CannotCrushWithoutCapstone => "Cannot crush a wall without a capstone",
            MoveError::CannotLandOnCapstone => "Cannot end throw on a capstone",
            MoveError::BlockedByNonFlat => "Cannot move through a wall or capstone",
            MoveError::IllegalDuringOpening => "Only a flat can be placed in the opening",
            MoveError::UnknownDirection => "Unknown movement direction",
        }
    }
}

/// Whether a ply belongs to the opening: the first two plies do.
pub open spec fn opening_at(ply: nat) -> bool {
    ply < 2
}

/// The color of the pieces that a ply plays. From the third ply on White
/// plays the even plies and Black the odd ones; in the opening each side
/// places a piece of the other's color.
pub open spec fn color_at(ply: nat) -> Color {
    if opening_at(ply) {
        if ply % 2 == 0 {
            Color::Black
        } else {
            Color::White
        }
    } else {
        if ply % 2 == 0 {
            Color::White
        } else {
            Color::Black
        }
    }
}

/// Whether a character names one of the four directions.
pub open spec fn known_direction(dir: char) -> bool {
    dir == '+' || dir == '-' || dir == '<' || dir == '>'
}

/// The square `k` steps from `(row, col)` in a direction: `+` and `-` raise
/// and lower the row, `>` and `<` the column.
pub open spec fn hop(dir: char, row: int, col: int, k: int) -> (int, int) {
    if dir == '+' {
        (row + k, col)
    } else if dir == '-' {
        (row - k, col)
    } else if dir == '<' {
        (row, col - k)
    } else {
        (row, col + k)
    }
}

/// The number of steps from `(row, col)` to `sq` in a direction, for a
/// square that lies on that line; 0 for any other square.
pub open spec fn hops_to(dir: char, row: int, col: int, sq: (int, int)) -> int {
    if dir == '+' {
        if sq.1 == col {
            sq.0 - row
        } else {
            0
        }
    } else if dir == '-' {
        if sq.1 == col {
            row - sq.0
        } else {
            0
        }
    } else if dir == '<' {
        if sq.0 == row {
            col - sq.1
        } else {
            0
        }
    } else {
        if sq.0 == row {
            sq.1 - col
        } else {
            0
        }
    }
}

/// The number of pieces that a list of drops puts down.
pub open spec fn drops_total(drops: Seq<u8>) -> int
    decreases drops.len(),
{
    if drops.len() == 0 {
        0
    } else {
        drops_total(drops.drop_last()) + drops.last()
    }
}

/// The number of pieces that the first `k` drops put down.
pub open spec fn drops_before(drops: Seq<u8>, k: int) -> int {
    drops_total(drops.take(k))
}

/// The notation that a move carries.
pub open spec fn notation_of(m: Move) -> String {
    match m {
        Move::Place(_, _, ptn) => ptn,
        Move::Throw(_, _, _, ptn) => ptn,
    }
}

/// Whether a piece stops a stack from passing over it.
pub open spec fn blocks(top: Option<Piece>) -> bool {
    top matches Some(p) && p.kind != PieceKind::Flat
}

impl State {
    /// Whether the state is in the opening.
    pub open spec fn opening(&self) -> bool {
        opening_at(self.ply())
    }

    /// The color of the pieces that the next ply plays.
    pub open spec fn mover(&self) -> Color {
        color_at(self.ply())
    }

    /// The verdict on placing `piece` on `(row, col)`, whatever the ply:
    /// the first rule that the placement breaks, or `Ok`. The square has to
    /// be on the board and empty, and a capstone has to be left in the
    /// supply of the piece's color.
    pub open spec fn place_check(&self, piece: Piece, row: int, col: int) -> Result<
        (),
        MoveError,
    > {
        if !self.on_board(row, col) {
            Err(MoveError::OutOfBounds)
        } else if self.stack(row, col).len() > 0 {
            Err(MoveError::OccupiedSquare)
        } else if piece.kind == PieceKind::Cap && self.supply(piece.color).caps <= 0 {
            Err(MoveError::NoCapstonesLeft)
        } else {
            Ok(())
        }
    }

    /// The supply of `color` after it has placed a piece of the given kind:
    /// a capstone takes one from the capstones, any other piece one from
    /// the pieces. A counter that is at 0 stays there.
    pub open spec fn supply_after(&self, color: Color, kind: PieceKind) -> Player {
        let p = self.supply(color);
        if kind == PieceKind::Cap {
            Player { color: p.color, pieces: p.pieces, caps: if p.caps > 0 { (p.caps - 1) as i32 } else { 0i32 } }
        } else {
            Player { color: p.color, pieces: if p.pieces > 0 { (p.pieces - 1) as i32 } else { 0i32 }, caps: p.caps }
        }
    }

    /// Whether some square strictly between the source and the last square
    /// of a throw over `len` squares holds a wall or a capstone on top.
    pub open spec fn blocked(&self, row: int, col: int, dir: char, len: int) -> bool {
        exists|k: int|
            1 <= k < len && blocks(#[trigger] self.top_at(hop(dir, row, col, k).0, hop(dir, row, col, k).1))
    }

    /// The verdict on a throw: the first rule that it breaks, or `Ok` with
    /// the number of pieces carried and the last square.
    pub open spec fn throw_check(&self, source: (u8, u8, u8), dir: char, drops: Seq<u8>) -> Result<
        (usize, u8, u8),
        MoveError,
    > {
        let row = source.1 as int;
        let col = source.2 as int;
        let len = drops.len() as int;
        let src = self.stack(row, col);
        let end = hop(dir, row, col, len);
        let landing = self.top_at(end.0, end.1);
        if source.0 > self.size || !self.on_board(row, col) || len == 0 {
            Err(MoveError::InvalidSignature)
        } else if src.len() == 0 {
            Err(MoveError::EmptySource)
        } else if src.last().color != self.mover() {
            Err(MoveError::NotController)
        } else if self.opening() {
            Err(MoveError::IllegalDuringOpening)
        } else if !known_direction(dir) {
            Err(MoveError::UnknownDirection)
        } else if !self.on_board(end.0, end.1) {
            Err(MoveError::TargetOffBoard)
        } else if landing matches Some(p) && p.kind == PieceKind::Wall && src.last().kind
            != PieceKind::Cap {
            Err(MoveError::CannotCrushWithoutCapstone)
        } else if landing matches Some(p) && p.kind == PieceKind::Wall && drops.last() != 1 {
            Err(MoveError::MustCrushAlone)
        } else if landing matches Some(p) && p.kind == PieceKind::Cap {
            Err(MoveError::CannotLandOnCapstone)
        } else if self.blocked(row, col, dir, len) {
            Err(MoveError::BlockedByNonFlat)
        } else if drops_total(drops) > src.len() {
            Err(MoveError::InvalidSignature)
        } else {
            Ok((drops_total(drops) as usize, end.0 as u8, end.1 as u8))
        }
    }

    /// The verdict on a move: `Ok`, or the first rule that it breaks. A
    /// placement puts down a piece of the mover's color; in the opening it
    /// has to be a flat, which is asked before anything else.
    pub open spec fn move_check(&self, m: Move) -> Result<(), MoveError> {
        match m {
            Move::Place(kind, sq, _) => if self.opening() && kind != PieceKind::Flat {
                Err(MoveError::IllegalDuringOpening)
            } else {
                self.place_check(Piece { color: self.mover(), kind }, sq.0 as int, sq.1 as int)
            },
            Move::Throw(source, dir, drops, _) => match self.throw_check(source, dir, drops@) {
                Ok(_) => Ok(()),
                Err(e) => Err(e),
            },
        }
    }

    /// The board after a move.
    pub open spec fn move_cells(&self, m: Move) -> Map<(int, int), Seq<Piece>> {
        match m {
            Move::Place(kind, sq, _) => self.place_cells(
                Piece { color: self.mover(), kind },
                sq.0 as int,
                sq.1 as int,
            ),
            Move::Throw(source, dir, drops, _) => self.throw_cells(
                source.1 as int,
                source.2 as int,
                dir,
                drops@,
            ),
        }
    }

    /// The supply of `color` after a move: a placement takes the piece from
    /// the supply of the mover's color, and nothing else changes a supply.
    pub open spec fn move_supply(&self, m: Move, color: Color) -> Player {
        match m {
            Move::Place(kind, _, _) => if color == self.mover() {
                self.supply_after(color, kind)
            } else {
                self.supply(color)
            },
            Move::Throw(_, _, _, _) => self.supply(color),
        }
    }

    /// Whether `self` is what the move `m` makes of the state `before`: the
    /// move's effect on the board and the supplies, and its notation at the
    /// end of the log.
    pub open spec fn follows(&self, before: &State, m: Move) -> bool {
        &&& self.wf()
        &&& self.size == before.size
        &&& self.cells() == before.move_cells(m)
        &&& self.player1 == before.move_supply(m, Color::White)
        &&& self.player2 == before.move_supply(m, Color::Black)
        &&& self.notation@ == before.notation@.push(notation_of(m))
    }

    /// Whether two states agree on all but the board: on the size, the
    /// supplies and the log.
    pub open spec fn same_off_board(&self, other: &State) -> bool {
        &&& self.size == other.size
        &&& self.player1 == other.player1
        &&& self.player2 == other.player2
        &&& self.notation == other.notation
    }

    /// The board after `piece` has been put on `(row, col)`.
    pub open spec fn place_cells(&self, piece: Piece, row: int, col: int) -> Map<
        (int, int),
        Seq<Piece>,
    > {
        self.cells().insert((row, col), self.stack(row, col).push(piece))
    }

    /// The board after a throw from `(row, col)`. The source loses the
    /// pieces carried, which are its top `drops_total(drops)` pieces. The
    /// square `k` steps away gains the pieces that the drop `k - 1` puts
    /// down, in the order that they had in the source: the lowest pieces
    /// carried go to the nearest square. Every other square keeps its
    /// stack.
    pub open spec fn throw_cells(&self, row: int, col: int, dir: char, drops: Seq<u8>) -> Map<
        (int, int),
        Seq<Piece>,
    > {
        let src = self.stack(row, col);
        let kept = src.len() - drops_total(drops);
        let carried = src.skip(kept);
        Map::new(
            |sq: (int, int)| self.cells().dom().contains(sq),
            |sq: (int, int)|
                {
                    let k = hops_to(dir, row, col, sq);
                    if sq == (row, col) {
                        src.take(kept)
                    } else if 1 <= k <= drops.len() {
                        self.cells()[sq] + carried.subrange(
                            drops_before(drops, k - 1),
                            drops_before(drops, k),
                        )
                    } else {
                        self.cells()[sq]
                    }
                },
        )
    }
}

/// The first `k + 1` drops put down what the first `k` do and the drop `k`.
pub proof fn lemma_drops_before_next(drops: Seq<u8>, k: int)
    requires
        0 <= k < drops.len(),
    ensures
        drops_before(drops, k + 1) == drops_before(drops, k) + drops[k],
        drops_before(drops, 0) == 0,
        drops_before(drops, drops.len() as int) == drops_total(drops),
{
    assert(drops.take(k + 1).drop_last() =~= drops.take(k));
    assert(drops.take(drops.len() as int) =~= drops);
}

/// The drops put down more the further they go, and never more than 255
/// pieces a square.
pub proof fn lemma_drops_before_grows(drops: Seq<u8>, j: int, k: int)
    requires
        0 <= j <= k <= drops.len(),
    ensures
        0 <= drops_before(drops, j) <= drops_before(drops, k) <= 255 * k,
    decreases k - j, j,
{
    if j < k {
        lemma_drops_before_grows(drops, j, k - 1);
        lemma_drops_before_next(drops, k - 1);
    } else if j > 0 {
        lemma_drops_before_grows(drops, j - 1, j - 1);
        lemma_drops_before_next(drops, j - 1);
    }
}

/// The square `k` steps from `(row, col)` in a direction.
fn hop_from(dir: char, row: usize, col: usize, k: usize) -> (sq: (usize, usize))
    requires
        known_direction(dir),
        0 <= hop(dir, row as int, col as int, k as int).0 <= usize::MAX,
        0 <= hop(dir, row as int, col as int, k as int).1 <= usize::MAX,
    ensures
        (sq.0 as int, sq.1 as int) == hop(dir, row as int, col as int, k as int),
{
    if dir == '+' {
        (row + k, col)
    } else if dir == '-' {
        (row - k, col)
    } else if dir == '<' {
        (row, col - k)
    } else {
        (row, col + k)
    }
}

impl State {
    /// The opening admits flats only. A move that is legal in one of the
    /// first two plies places a flat: a black one in the first ply and a
    /// white one in the second. Every throw is refused there, and so is
    /// every placement of a wall or a capstone.
    pub proof fn lemma_opening_places_flats(&self, m: Move)
        requires
            self.wf(),
            self.opening(),
        ensures
            self.move_check(m) is Ok ==> (m matches Move::Place(kind, sq, _) && kind
                == PieceKind::Flat && self.move_cells(m) == self.cells().insert(
                (sq.0 as int, sq.1 as int),
                self.stack(sq.0 as int, sq.1 as int).push(
                    Piece {
                        color: if self.ply() == 0 {
                            Color::Black
                        } else {
                            Color::White
                        },
                        kind: PieceKind::Flat,
                    },
                ),
            )),
            m is Throw ==> self.move_check(m) is Err,
            m matches Move::Place(kind, _, _) && kind != PieceKind::Flat ==> self.move_check(m) is Err,
    {
    }

    /// A wall is crushed by a capstone that lands on it alone, and by
    /// nothing else. Of a throw that ends on a square with a wall on top:
    /// if it is legal, the source has a capstone on top, the last drop is
    /// one piece, and that capstone is on top of the last square
    /// afterwards; with a capstone on top and a last drop of one piece it
    /// is legal exactly if it keeps the rules that do not look at the last
    /// square; with a last drop of any other number, or without a capstone
    /// on top of the source, it is refused.
    pub proof fn lemma_capstone_crushes_alone(&self, source: (u8, u8, u8), dir: char, drops: Seq<u8>)
        requires
            self.wf(),
            self.wall_square(hop(dir, source.1 as int, source.2 as int, drops.len() as int)),
        ensures
            ({
                let row = source.1 as int;
                let col = source.2 as int;
                let len = drops.len() as int;
                let src = self.stack(row, col);
                let end = hop(dir, row, col, len);
                let verdict = self.throw_check(source, dir, drops);
                let capped = src.len() > 0 && src.last().kind == PieceKind::Cap;
                &&& verdict is Ok ==> capped && drops.last() == 1 && top_of(
                    self.throw_cells(row, col, dir, drops)[end],
                ) == Some(src.last())
                &&& capped && len > 0 && drops.last() == 1 ==> (verdict is Ok <==> {
                    &&& source.0 <= self.size
                    &&& self.on_board(row, col)
                    &&& src.last().color == self.mover()
                    &&& !self.opening()
                    &&& known_direction(dir)
                    &&& !self.blocked(row, col, dir, len)
                    &&& drops_total(drops) <= src.len()
                })
                &&& len > 0 && drops.last() != 1 ==> verdict is Err
                &&& !capped ==> verdict is Err
            }),
    {
        let row = source.1 as int;
        let col = source.2 as int;
        let len = drops.len() as int;
        let src = self.stack(row, col);
        let end = hop(dir, row, col, len);
        if self.throw_check(source, dir, drops) is Ok {
            let total = drops_total(drops);
            let carried = src.skip(src.len() - total);
            lemma_drops_before_next(drops, len - 1);
            lemma_drops_before_grows(drops, 0, len - 1);
            assert(hops_to(dir, row, col, end) == len);
            assert(self.cells().dom().contains(end));
            let landed = carried.subrange(drops_before(drops, len - 1), drops_before(drops, len));
            assert(landed.len() == 1);
            assert(landed.last() == src.last());
            assert(self.throw_cells(row, col, dir, drops)[end] == self.cells()[end] + landed);
            assert((self.cells()[end] + landed).last() == landed.last());
        }
    }

    /// No stack moves onto a capstone or over one: a throw with a capstone
    /// on top of any square that it comes to is refused.
    pub proof fn lemma_capstone_stops_throw(
        &self,
        source: (u8, u8, u8),
        dir: char,
        drops: Seq<u8>,
        k: int,
    )
        requires
            self.wf(),
            1 <= k <= drops.len(),
            self.top_at(
                hop(dir, source.1 as int, source.2 as int, k).0,
                hop(dir, source.1 as int, source.2 as int, k).1,
            ) matches Some(p) && p.kind == PieceKind::Cap,
        ensures
            self.throw_check(source, dir, drops) is Err,
    {
        let row = source.1 as int;
        let col = source.2 as int;
        if k < drops.len() {
            assert(blocks(self.top_at(hop(dir, row, col, k).0, hop(dir, row, col, k).1)));
        }
    }
}

/// The board in the middle of a throw, when the source has lost the pieces
/// carried and the squares more than `done` steps away have got theirs.
spec fn throw_cells_mid(
    before: State,
    row: int,
    col: int,
    dir: char,
    drops: Seq<u8>,
    done: int,
) -> Map<(int, int), Seq<Piece>> {
    let src = before.stack(row, col);
    let kept = src.len() - drops_total(drops);
    let carried = src.skip(kept);
    Map::new(
        |sq: (int, int)| before.cells().dom().contains(sq),
        |sq: (int, int)|
            {
                let k = hops_to(dir, row, col, sq);
                if sq == (row, col) {
                    src.take(kept)
                } else if done < k <= drops.len() {
                    before.cells()[sq] + carried.subrange(
                        drops_before(drops, k - 1),
                        drops_before(drops, k),
                    )
                } else {
                    before.cells()[sq]
                }
            },
    )
}

/// The rules of the game on one state: the move engine and the win
/// detector. `komi` is the number of flats that Black is given in a flat
/// count.
pub struct StandardRules {
    pub state: State,
    pub komi: u32,
}

impl StandardRules {
    pub fn new(state: State, komi: u32) -> (r: StandardRules)
        ensures
            r.state == state,
            r.komi == komi,
    {
        StandardRules { state, komi }
    }

    pub fn get_state(&self) -> (s: &State)
        ensures
            *s == self.state,
    {
        &self.state
    }

    /// The state, to be changed in place. The komi stays as it is.
    pub fn get_mut_state(&mut self) -> (s: &mut State)
        ensures
            *s == old(self).state,
            final(self).state == *final(s),
            final(self).komi == old(self).komi,
    {
        &mut self.state
    }

    pub fn get_size(&self) -> (n: u8)
        ensures
            n == self.state.size,
    {
        self.state.size
    }

    /// The number of plies made so far, counting from 0.
    pub fn current_ply(&self) -> (ply: u32)
        requires
            self.state.ply() <= u32::MAX,
        ensures
            ply == self.state.ply(),
    {
        self.state.notation.len() as u32
    }

    /// Whether the game is in the opening: its first two plies.
    pub fn is_opening(&self) -> (b: bool)
        ensures
            b == self.state.opening(),
    {
        self.state.notation.len() < 2
    }

    /// The color of the piece that the next ply plays.
    pub fn current_color(&self) -> (c: Color)
        ensures
            c == self.state.mover(),
    {
        let even = self.state.notation.len() % 2 == 0;
        if self.is_opening() {
            if even {
                Color::Black
            } else {
                Color::White
            }
        } else {
            if even {
                Color::White
            } else {
                Color::Black
            }
        }
    }

    pub fn get_tile(&self, index: (u8, u8)) -> (t: &Tile)
        requires
            self.state.wf(),
            self.state.on_board(index.0 as int, index.1 as int),
        ensures
            t@ == self.state.stack(index.0 as int, index.1 as int),
    {
        self.state.get_tile(index.0, index.1)
    }

    /// The tile on a square of the board, to be changed in place. The rest
    /// of the state and the komi stay as they are.
    pub fn get_mut_tile(&mut self, index: (u8, u8)) -> (t: &mut Tile)
        requires
            old(self).state.wf(),
            old(self).state.on_board(index.0 as int, index.1 as int),
        ensures
            t@ == old(self).state.stack(index.0 as int, index.1 as int),
            final(self).state.cells() == old(self).state.cells().insert(
                (index.0 as int, index.1 as int),
                final(t)@,
            ),
            final(self).state.same_off_board(&old(self).state),
            final(self).komi == old(self).komi,
    {
        self.state.get_mut_tile(index.0, index.1)
    }

    pub fn has_capstone(&self, player: &Player) -> (b: bool)
        ensures
            b == (player.caps > 0),
    {
        player.caps > 0
    }

    pub fn current_player(&self, color: Color) -> (p: &Player)
        ensures
            *p == self.state.supply(color),
    {
        self.state.get_player(color)
    }

    /// Appends a move's notation to the log, which makes the next ply the
    /// current one.
    pub fn add_notation(&mut self, string: String)
        ensures
            final(self).state.notation@ == old(self).state.notation@.push(string),
            final(self).state.board == old(self).state.board,
            final(self).state.size == old(self).state.size,
            final(self).state.player1 == old(self).state.player1,
            final(self).state.player2 == old(self).state.player2,
            final(self).komi == old(self).komi,
    {
        self.state.add_notation(string);
    }

    /// Checks a placement against the rules, in this order: the square is
    /// on the board; it is empty; a capstone is still in the supply of the
    /// piece's color. The opening is not looked at here: `legal_move` and
    /// `make_move` ask for a flat there.
    pub fn legal_place_move(&self, piece: Piece, row: u8, col: u8) -> (res: Result<(), MoveError>)
        requires
            self.state.wf(),
        ensures
            res == self.state.place_check(piece, row as int, col as int),
    {
        let state = &self.state;
        if state.out_of_bounds(row, col) {
            return Err(MoveError::OutOfBounds);
        }
        if !state.is_empty(row, col) {
            return Err(MoveError::OccupiedSquare);
        }
        match piece.kind {
            PieceKind::Cap => {
                if !state.has_capstone(piece.color) {
                    Err(MoveError::NoCapstonesLeft)
                } else {
                    Ok(())
                }
            },
            _ => Ok(()),
        }
    }

    /// Puts `piece` on a square of the board and takes it from the supply
    /// of its color, without asking whether the placement is legal.
    pub fn unchecked_place_move(&mut self, piece: Piece, row: u8, col: u8)
        requires
            old(self).state.wf(),
            old(self).state.on_board(row as int, col as int),
        ensures
            final(self).state.wf(),
            final(self).state.cells() == old(self).state.place_cells(piece, row as int, col as int),
            final(self).state.supply(piece.color) == old(self).state.supply_after(
                piece.color,
                piece.kind,
            ),
            piece.color == Color::White ==> final(self).state.player2 == old(self).state.player2,
            piece.color == Color::Black ==> final(self).state.player1 == old(self).state.player1,
            final(self).state.size == old(self).state.size,
            final(self).state.notation == old(self).state.notation,
            final(self).komi == old(self).komi,
    {
        let color = piece.color;
        let player = self.state.get_mut_player(color);
        match piece.kind {
            PieceKind::Cap => {
                if player.caps > 0 {
                    player.caps -= 1;
                }
            },
            _ => {
                if player.pieces > 0 {
                    player.pieces -= 1;
                }
            },
        }
        self.state.get_mut_tile(row, col).add_piece(piece);
    }

    /// Checks a throw against the rules, in this order: the count fits the
    /// board, the source is on it and something is dropped; the source
    /// holds a piece; its top piece is the mover's; the opening is over;
    /// the direction is known; the last square is on the board; a wall on
    /// the last square is met by a capstone, and by it alone; no capstone is
    /// on the last square; no wall or capstone lies on the way; the source
    /// holds as many pieces as are dropped. Returns the number of pieces
    /// carried and the last square.
    #[verifier::loop_isolation(false)]
    pub fn legal_stack_move(&self, source: (u8, u8, u8), dir: char, vec: &[u8]) -> (res: Result<
        (usize, u8, u8),
        MoveError,
    >)
        requires
            self.state.wf(),
        ensures
            res == self.state.throw_check(source, dir, vec@),
            res matches Ok(found) ==> found.0 == drops_total(vec@) && (
                found.1 as int,
                found.2 as int,
            ) == hop(dir, source.1 as int, source.2 as int, vec@.len() as int),
    {
        let state = &self.state;
        if source.0 > state.size || state.out_of_bounds(source.1, source.2) || vec.len() < 1 {
            return Err(MoveError::InvalidSignature);
        }
        let source_tile = state.get_tile(source.1, source.2);
        if source_tile.is_empty() {
            return Err(MoveError::EmptySource);
        }
        let top = *source_tile.top_unchecked();
        if self.current_color() != top.color {
            return Err(MoveError::NotController);
        }
        if self.is_opening() {
            return Err(MoveError::IllegalDuringOpening);
        }
        let size: usize = state.size as usize;
        let len: usize = vec.len();
        let row: usize = source.1 as usize;
        let col: usize = source.2 as usize;
        let on_board = if dir == '+' {
            len < size - row
        } else if dir == '-' {
            len <= row
        } else if dir == '<' {
            len <= col
        } else if dir == '>' {
            len < size - col
        } else {
            return Err(MoveError::UnknownDirection);
        };
        if !on_board {
            return Err(MoveError::TargetOffBoard);
        }
        let end = hop_from(dir, row, col, len);
        let x: u8 = end.0 as u8;
        let y: u8 = end.1 as u8;
        match state.get_tile(x, y).top() {
            Some(p) => match p.kind {
                PieceKind::Wall => {
                    if top.kind != PieceKind::Cap {
                        return Err(MoveError::CannotCrushWithoutCapstone);
                    }
                    if vec[len - 1] != 1 {
                        return Err(MoveError::MustCrushAlone);
                    }
                },
                PieceKind::Cap => {
                    return Err(MoveError::CannotLandOnCapstone);
                },
                PieceKind::Flat => {},
            },
            None => {},
        }
        let mut sum: usize = 0;
        let mut i: usize = 0;
        while i < len
            invariant
                0 <= i <= len,
                sum == drops_before(vec@, i as int),
                sum <= 255 * i,
                forall|k: int|
                    1 <= k <= i && k < len ==> !blocks(
                        #[trigger] state.top_at(
                            hop(dir, row as int, col as int, k).0,
                            hop(dir, row as int, col as int, k).1,
                        ),
                    ),
            decreases len - i,
        {
            if i + 1 < len {
                let sq = hop_from(dir, row, col, i + 1);
                match state.get_tile(sq.0 as u8, sq.1 as u8).top() {
                    Some(p) => {
                        if p.kind != PieceKind::Flat {
                            assert(blocks(
                                state.top_at(
                                    hop(dir, row as int, col as int, i + 1).0,
                                    hop(dir, row as int, col as int, i + 1).1,
                                ),
                            ));
                            return Err(MoveError::BlockedByNonFlat);
                        }
                    },
                    None => {},
                }
            }
            proof {
                lemma_drops_before_next(vec@, i as int);
            }
            sum += vec[i] as usize;
            i += 1;
        }
        proof {
            lemma_drops_before_next(vec@, 0);
        }
        if sum > source_tile.stack.len() {
            return Err(MoveError::InvalidSignature);
        }
        Ok((sum, x, y))
    }

    /// Makes a throw without asking whether it is legal: takes the top
    /// `res.0` pieces off the source and puts them down along the way,
    /// starting from the last square `(res.1, res.2)` with the topmost
    /// pieces. `res` is what `legal_stack_move` returns for the throw.
    pub fn unchecked_stack_move(
        &mut self,
        source: (u8, u8, u8),
        dir: char,
        vec: Vec<u8>,
        res: (usize, u8, u8),
    )
        requires
            old(self).state.wf(),
            old(self).state.on_board(source.1 as int, source.2 as int),
            known_direction(dir),
            old(self).state.on_board(res.1 as int, res.2 as int),
            (res.1 as int, res.2 as int) == hop(
                dir,
                source.1 as int,
                source.2 as int,
                vec@.len() as int,
            ),
            res.0 == drops_total(vec@),
            res.0 <= old(self).state.stack(source.1 as int, source.2 as int).len(),
        ensures
            final(self).state.wf(),
            final(self).state.cells() == old(self).state.throw_cells(
                source.1 as int,
                source.2 as int,
                dir,
                vec@,
            ),
            final(self).state.same_off_board(&old(self).state),
            final(self).komi == old(self).komi,
    {
        let ghost before = self.state;
        let ghost row = source.1 as int;
        let ghost col = source.2 as int;
        let ghost src = before.stack(row, col);
        let ghost carried = src.skip(src.len() - res.0);
        let sum = res.0;
        let mut x: u8 = res.1;
        let mut y: u8 = res.2;
        let tile = self.state.get_mut_tile(source.1, source.2);
        let source_len = tile.stack.len();
        let mut source_vec = tile.stack.split_off(source_len - sum);
        let mut i: usize = vec.len();
        proof {
            lemma_drops_before_grows(vec@, 0, vec@.len() as int);
            if vec@.len() > 0 {
                lemma_drops_before_next(vec@, 0);
            } else {
                assert(vec@.take(0) =~= vec@);
            }
            assert(source_vec@ =~= carried.take(drops_before(vec@, i as int)));
            assert(self.state.cells() =~= throw_cells_mid(before, row, col, dir, vec@, i as int));
        }
        while i > 0
            invariant
                before.wf(),
                before.on_board(row, col),
                row == source.1,
                col == source.2,
                known_direction(dir),
                src == before.stack(row, col),
                drops_total(vec@) <= src.len(),
                carried == src.skip(src.len() - drops_total(vec@)),
                0 <= i <= vec@.len(),
                before.on_board(
                    hop(dir, row, col, vec@.len() as int).0,
                    hop(dir, row, col, vec@.len() as int).1,
                ),
                (x as int, y as int) == hop(dir, row, col, i as int),
                source_vec@ == carried.take(drops_before(vec@, i as int)),
                self.state.cells() == throw_cells_mid(before, row, col, dir, vec@, i as int),
                self.state.same_off_board(&before),
                self.komi == old(self).komi,
            decreases i,
        {
            i -= 1;
            let val: usize = vec[i] as usize;
            let length = source_vec.len();
            proof {
                lemma_drops_before_next(vec@, i as int);
                lemma_drops_before_grows(vec@, 0, i as int);
                lemma_drops_before_grows(vec@, i + 1, vec@.len() as int);
                lemma_drops_before_next(vec@, 0);
            }
            let seg = source_vec.split_off(length - val);
            self.state.get_mut_tile(x, y).add_pieces(seg);
            proof {
                assert(seg@ =~= carried.subrange(
                    drops_before(vec@, i as int),
                    drops_before(vec@, i + 1),
                ));
                assert(source_vec@ =~= carried.take(drops_before(vec@, i as int)));
                assert(hops_to(dir, row, col, (x as int, y as int)) == i + 1);
                assert(self.state.cells() =~= throw_cells_mid(before, row, col, dir, vec@, i as int));
            }
            if dir == '+' {
                x -= 1;
            } else if dir == '-' {
                x += 1;
            } else if dir == '<' {
                y += 1;
            } else {
                y -= 1;
            }
        }
        proof {
            assert(self.state.cells() =~= before.throw_cells(row, col, dir, vec@));
        }
    }

    /// Whether a move is legal on the current state: in the opening only a
    /// placement of a flat can be. Changes nothing.
    pub fn legal_move(&self, m: Move) -> (b: bool)
        requires
            self.state.wf(),
        ensures
            b == (self.state.move_check(m) is Ok),
    {
        match m {
            Move::Place(kind, sq, _ptn) => {
                if self.is_opening() && kind != PieceKind::Flat {
                    return false;
                }
                let piece = Piece::new(self.current_color(), kind);
                self.legal_place_move(piece, sq.0, sq.1).is_ok()
            },
            Move::Throw(source, dir, vec, _ptn) => {
                self.legal_stack_move(source, dir, vec.as_slice()).is_ok()
            },
        }
    }

    /// Makes a move if it is legal: changes the board and the supplies and
    /// appends the move's notation to the log. In the opening only a flat
    /// can be placed. A move that is refused changes nothing.
    pub fn make_move(&mut self, m: Move) -> (res: Result<(), MoveError>)
        requires
            old(self).state.wf(),
        ensures
            res == old(self).state.move_check(m),
            res is Err ==> *final(self) == *old(self),
            res is Ok ==> final(self).state.follows(&old(self).state, m),
            final(self).komi == old(self).komi,
    {
        match m {
            Move::Place(kind, sq, ptn) => {
                if self.is_opening() && kind != PieceKind::Flat {
                    return Err(MoveError::IllegalDuringOpening);
                }
                let piece = Piece::new(self.current_color(), kind);
                match self.legal_place_move(piece, sq.0, sq.1) {
                    Ok(()) => {},
                    Err(e) => {
                        return Err(e);
                    },
                }
                self.unchecked_place_move(piece, sq.0, sq.1);
                self.state.add_notation(ptn);
            },
            Move::Throw(source, dir, vec, ptn) => {
                let found = match self.legal_stack_move(source, dir, vec.as_slice()) {
                    Ok(found) => found,
                    Err(e) => {
                        return Err(e);
                    },
                };
                self.unchecked_stack_move(source, dir, vec, found);
                self.state.add_notation(ptn);
            },
        }
        Ok(())
    }
}

} // verus!
