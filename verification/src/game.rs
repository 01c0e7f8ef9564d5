//! The game: board model, move engine, win detector and ply sequencing.

pub mod board;
pub mod database;
pub mod display;
pub mod notation;
pub mod road;
pub mod rules;
pub mod search;
pub mod state;
pub mod text;
pub mod win;

pub use crate::game::board::Board;
pub use crate::game::notation::col_match;
pub use crate::game::notation::ptn_move;
pub use crate::game::road::Reached;
pub use crate::game::rules::MoveError;
pub use crate::game::rules::StandardRules;
pub use crate::game::state::Color;
pub use crate::game::state::Move;
pub use crate::game::state::Piece;
pub use crate::game::state::PieceKind;
pub use crate::game::state::Player;
pub use crate::game::state::State;
pub use crate::game::state::Tile;
pub use crate::game::state::Victory;

use vstd::prelude::*;

verus! {

/// A game in progress: the rules on their state, played ply by ply.
pub struct Game {
    pub rules: StandardRules,
}

impl Game {
    /// A game is valid when its rules are.
    pub open spec fn wf(&self) -> bool {
        self.rules.wf()
    }

    /// How the game stands once a ply has led from the state `before` to
    /// this one: an opening ply decides nothing, and any later ply is
    /// judged for the side that made it.
    pub open spec fn standing(&self, before: &State) -> Victory {
        if before.opening() {
            Victory::Neither
        } else {
            self.rules.verdict(before.mover())
        }
    }

    /// A new game on the given rules.
    pub fn new(rules: StandardRules) -> (g: Game)
        ensures
            g.rules == rules,
    {
        Game { rules }
    }

    /// Makes one ply. A legal move is executed and the standing of the game
    /// after it is returned; the plies of the opening always return
    /// `Neither`. An illegal move is refused with its reason and changes
    /// nothing.
    pub fn do_ply(&mut self, m: Move) -> (res: Result<Victory, MoveError>)
        requires
            old(self).wf(),
        ensures
            final(self).wf(),
            final(self).rules.komi == old(self).rules.komi,
            match old(self).rules.state.move_check(m) {
                Err(e) => res == Err::<Victory, MoveError>(e) && *final(self) == *old(self),
                Ok(_) => final(self).rules.state.follows(&old(self).rules.state, m) && res == Ok::<
                    Victory,
                    MoveError,
                >(final(self).standing(&old(self).rules.state)),
            },
    {
        let opening = self.rules.is_opening();
        let mover = self.rules.current_color();
        match self.rules.make_move(m) {
            Err(e) => Err(e),
            Ok(()) => {
                if opening {
                    Ok(Victory::Neither)
                } else {
                    Ok(self.rules.check_win(mover))
                }
            },
        }
    }

    /// Makes one ply, as `do_ply` does. Returns whether the move was made,
    /// and the standing of the game: `Neither` where it was not.
    pub fn read_move(&mut self, m: Move) -> (res: (bool, Victory))
        requires
            old(self).wf(),
        ensures
            final(self).wf(),
            final(self).rules.komi == old(self).rules.komi,
            match old(self).rules.state.move_check(m) {
                Err(e) => res == (false, Victory::Neither) && *final(self) == *old(self),
                Ok(_) => final(self).rules.state.follows(&old(self).rules.state, m) && res == (
                    true,
                    final(self).standing(&old(self).rules.state),
                ),
            },
    {
        match self.do_ply(m) {
            Ok(v) => (true, v),
            Err(_) => (false, Victory::Neither),
        }
    }

    /// Makes one ply, as `do_ply` does, and says whether the move was made.
    pub fn execute_move(&mut self, m: Move) -> (made: bool)
        requires
            old(self).wf(),
        ensures
            final(self).wf(),
            final(self).rules.komi == old(self).rules.komi,
            made == (old(self).rules.state.move_check(m) is Ok),
            made ==> final(self).rules.state.follows(&old(self).rules.state, m),
            !made ==> *final(self) == *old(self),
    {
        self.rules.make_move(m).is_ok()
    }

    /// Whether the game is in the opening: its first two plies.
    pub fn is_opening(&self) -> (b: bool)
        ensures
            b == self.rules.state.opening(),
    {
        self.rules.is_opening()
    }

    /// The number of plies made so far, counting from 0.
    pub fn current_ply(&self) -> (ply: u32)
        requires
            self.rules.state.ply() <= u32::MAX,
        ensures
            ply == self.rules.state.ply(),
    {
        self.rules.current_ply()
    }

    /// How the game stands after a ply of `last_to_move`.
    pub fn check_win(&self, last_to_move: Color) -> (v: Victory)
        requires
            self.wf(),
        ensures
            v == self.rules.verdict(last_to_move),
    {
        self.rules.check_win(last_to_move)
    }

    /// Whether a move is legal as the next ply. Changes nothing.
    pub fn legal_move(&self, m: Move) -> (b: bool)
        requires
            self.wf(),
        ensures
            b == (self.rules.state.move_check(m) is Ok),
    {
        self.rules.legal_move(m)
    }

    /// The color of the piece that the next ply plays. In the opening this
    /// is the color of the side that does not move.
    pub fn current_player_color(&self) -> (c: Color)
        ensures
            c == self.rules.state.mover(),
    {
        self.rules.current_color()
    }

    /// The color of the piece that the next ply plays.
    pub fn next_piece_color(&self) -> (c: Color)
        ensures
            c == self.rules.state.mover(),
    {
        self.rules.current_color()
    }

    /// The color of the piece that the next ply plays.
    pub fn current_color(&self) -> (c: Color)
        ensures
            c == self.rules.state.mover(),
    {
        self.rules.current_color()
    }

    pub fn get_state(&self) -> (s: &State)
        ensures
            *s == self.rules.state,
    {
        self.rules.get_state()
    }

    /// The state, to be changed in place. The komi stays as it is.
    pub fn get_mut_state(&mut self) -> (s: &mut State)
        ensures
            *s == old(self).rules.state,
            final(self).rules.state == *final(s),
            final(self).rules.komi == old(self).rules.komi,
    {
        self.rules.get_mut_state()
    }

    pub fn get_board(&self) -> (b: &Board)
        ensures
            *b == self.rules.state.board,
    {
        &self.rules.state.board
    }

    pub fn get_size(&self) -> (n: usize)
        ensures
            n == self.rules.state.size,
    {
        self.rules.state.size as usize
    }
}

/// A game with the standard supplies on an empty board of the given size,
/// with the given komi.
pub fn make_standard_game(size: u8, komi: u32) -> (g: Game)
    ensures
        g.rules.state.wf(),
        g.rules.komi == komi,
        g.rules.state.size == size,
        g.rules.state.ply() == 0,
        g.rules.state.cells() == crate::game::board::blank_cells(size as nat),
        (g.rules.state.player1.pieces, g.rules.state.player1.caps)
            == crate::game::state::starting_supply(size),
        (g.rules.state.player2.pieces, g.rules.state.player2.caps)
            == crate::game::state::starting_supply(size),
{
    let r = StandardRules::new(State::new(size), komi);
    Game::new(r)
}

} // verus!
