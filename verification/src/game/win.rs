//! The win detector: roads first, then the count of flats.

use vstd::prelude::*;
use std::collections::HashSet;
use crate::game::road::Reached;
use crate::game::road::adjacent;
use crate::game::road::marked;
use crate::game::road::seen_ok;
use crate::game::rules::StandardRules;
use crate::game::search::color_of;
use crate::game::search::key;
use crate::game::state::Color;
use crate::game::state::Piece;
use crate::game::state::PieceKind;
use crate::game::state::State;
use crate::game::state::Victory;

verus! {

/// The largest komi that a flat count can add to 255 * 255 flats.
pub const MAX_KOMI: u32 = 4294902270;

/// Whether a square comes before `(row, col)` when the board is read row by
/// row.
pub open spec fn before(sq: (int, int), row: int, col: int) -> bool {
    sq.0 < row || (sq.0 == row && sq.1 < col)
}

/// The outcome of a flat count. Black's flats and the komi stand against
/// White's flats: the larger side wins, White with its flats less the komi
/// and Black with its flats and the komi, and equal sides draw.
pub open spec fn flat_verdict(white: nat, black: nat, komi: nat) -> Victory {
    if white > black + komi {
        Victory::WhiteFlat((white - komi) as u32)
    } else if black + komi > white {
        Victory::BlackFlat((black + komi) as u32)
    } else {
        Victory::Draw
    }
}

impl State {
    /// Whether a square lies in the first or the last row or column.
    pub open spec fn edge(&self, sq: (int, int)) -> bool {
        sq.0 == 0 || sq.0 == self.size - 1 || sq.1 == 0 || sq.1 == self.size - 1
    }

    /// The squares on which a flat of `color` lies on top.
    pub open spec fn flats(&self, color: Color) -> Set<(int, int)> {
        Set::new(
            |sq: (int, int)|
                self.on_board(sq.0, sq.1) && self.top_at(sq.0, sq.1) == Some(
                    Piece { color, kind: PieceKind::Flat },
                ),
        )
    }

    /// The flats of `color` on the squares before `(row, col)`.
    pub open spec fn flats_before(&self, color: Color, row: int, col: int) -> Set<(int, int)> {
        Set::new(|sq: (int, int)| self.flats(color).contains(sq) && before(sq, row, col))
    }

    /// The number of squares on which a flat of `color` lies on top.
    pub open spec fn flat_count(&self, color: Color) -> nat {
        self.flats(color).len()
    }

    /// Whether every square of the board holds a piece.
    pub open spec fn full(&self) -> bool {
        forall|row: int, col: int|
            self.on_board(row, col) ==> (#[trigger] self.stack(row, col)).len() > 0
    }
}

impl StandardRules {
    /// The rules are valid when the state is and the komi is at most
    /// `MAX_KOMI`.
    pub open spec fn wf(&self) -> bool {
        self.state.wf() && self.komi <= MAX_KOMI
    }

    /// The outcome of a flat count on the state.
    pub open spec fn flat_result(&self) -> Victory {
        flat_verdict(
            self.state.flat_count(Color::White),
            self.state.flat_count(Color::Black),
            self.komi as nat,
        )
    }

    /// How the game stands after a ply of `last`. A road wins; where both
    /// sides have one, the side that moved last wins. Without a road the
    /// flats are counted once a side has no piece left to place or the
    /// board is full. Otherwise the game goes on.
    pub open spec fn verdict(&self, last: Color) -> Victory {
        let white = self.state.has_road(Color::White);
        let black = self.state.has_road(Color::Black);
        if white && black {
            match last {
                Color::White => Victory::WhiteRoad,
                Color::Black => Victory::BlackRoad,
            }
        } else if white {
            Victory::WhiteRoad
        } else if black {
            Victory::BlackRoad
        } else if self.state.player1.pieces == 0 || self.state.player2.pieces == 0
            || self.state.full() {
            self.flat_result()
        } else {
            Victory::Neither
        }
    }
}

impl StandardRules {
    /// A road decides the game. White wins by road exactly if it has a
    /// road and either Black has none or White moved last, and likewise
    /// Black. A wall is no road square of either color.
    pub proof fn lemma_road_decides(&self, last: Color)
        ensures
            self.verdict(last) == Victory::WhiteRoad <==> self.state.has_road(Color::White) && (
            !self.state.has_road(Color::Black) || last == Color::White),
            self.verdict(last) == Victory::BlackRoad <==> self.state.has_road(Color::Black) && (
            !self.state.has_road(Color::White) || last == Color::Black),
            forall|color: Color, sq: (int, int)|
                self.state.wall_square(sq) ==> !#[trigger] self.state.road_square(color, sq),
    {
    }
}

/// What a scan for roads knows of one color when it has come to
/// `(row, col)` and has found no road of that color: the visited squares
/// are closed for the color, none of them is linked to two opposite edges,
/// and every road square of the color on an edge before `(row, col)` is
/// among them.
spec fn scan_part(st: State, color: Color, seen: Set<usize>, row: int, col: int) -> bool {
    &&& st.closed(color, seen)
    &&& forall|x: (int, int)|
        #![trigger marked(seen, x)]
        marked(seen, x) && st.road_square(color, x) ==> !st.crosses(color, x)
    &&& forall|x: (int, int)|
        #![trigger st.road_square(color, x)]
        st.road_square(color, x) && st.edge(x) && before(x, row, col) ==> marked(seen, x)
}

/// What a scan for roads knows when it has come to `(row, col)`.
#[verifier::opaque]
spec fn scan_inv(
    st: State,
    seen: Set<usize>,
    white_road: bool,
    black_road: bool,
    row: int,
    col: int,
) -> bool {
    &&& seen_ok(seen)
    &&& white_road ==> st.has_road(Color::White)
    &&& black_road ==> st.has_road(Color::Black)
    &&& !white_road ==> scan_part(st, Color::White, seen, row, col)
    &&& !black_road ==> scan_part(st, Color::Black, seen, row, col)
}

/// The road that a scan has found for a color.
spec fn road_flag(color: Color, white_road: bool, black_road: bool) -> bool {
    match color {
        Color::White => white_road,
        Color::Black => black_road,
    }
}

/// A scan begins with nothing visited.
proof fn lemma_scan_begins(st: State)
    ensures
        scan_inv(st, Set::<usize>::empty(), false, false, 0, 0),
{
    reveal(scan_inv);
    assert(seen_ok(Set::<usize>::empty()));
}

/// A scan goes past a square that no search has to start from: one that is
/// not on an edge, is visited, is empty, or has a piece on top whose color
/// has a road already.
proof fn lemma_scan_passes(
    st: State,
    seen: Set<usize>,
    white_road: bool,
    black_road: bool,
    row: int,
    col: int,
)
    requires
        st.on_board(row, col),
        scan_inv(st, seen, white_road, black_road, row, col),
        ({
            ||| !st.edge((row, col))
            ||| marked(seen, (row, col))
            ||| st.top_at(row, col) is None
            ||| road_flag(st.top_at(row, col)->0.color, white_road, black_road)
        }),
    ensures
        scan_inv(st, seen, white_road, black_road, row, col + 1),
{
    reveal(scan_inv);
}

/// A scan goes from the end of a row to the start of the next.
proof fn lemma_scan_turns(st: State, seen: Set<usize>, white_road: bool, black_road: bool, row: int)
    requires
        scan_inv(st, seen, white_road, black_road, row, st.size as int),
    ensures
        scan_inv(st, seen, white_road, black_road, row + 1, 0),
{
    reveal(scan_inv);
}

/// One color's part of a scan after a search for `color` from the square
/// `(row, col)`.
proof fn lemma_scan_part_searched(
    st: State,
    part: Color,
    color: Color,
    seen0: Set<usize>,
    seen: Set<usize>,
    found: bool,
    row: int,
    col: int,
)
    requires
        st.on_board(row, col),
        st.top_at(row, col) matches Some(p) && p.color == color,
        scan_part(st, part, seen0, row, col),
        part == color ==> !found && st.closed(color, seen),
        seen0.subset_of(seen),
        found == (st.fresh(color, seen0, (row, col)) && st.crosses(color, (row, col))),
        forall|sq: (int, int)|
            #![trigger marked(seen, sq)]
            marked(seen, sq) && !marked(seen0, sq) ==> st.wall_square(sq) || (st.fresh(
                color,
                seen0,
                (row, col),
            ) && st.linked(color, (row, col), sq)),
        !found && st.fresh(color, seen0, (row, col)) ==> forall|sq: (int, int)|
            st.linked(color, (row, col), sq) ==> marked(seen, sq),
    ensures
        scan_part(st, part, seen, row, col + 1),
{
    let here = (row, col);
    assert forall|x: (int, int)|
        #![trigger marked(seen, x)]
        marked(seen, x) && st.road_square(part, x) implies marked(seen0, x) || (part == color
            && st.linked(color, here, x)) by {
        if !marked(seen0, x) {
            assert(!st.wall_square(x));
            st.lemma_linked_squares(color, here, x);
        }
    }
    assert forall|x: (int, int)|
        #![trigger marked(seen, x)]
        marked(seen, x) && st.road_square(part, x) implies !st.crosses(part, x) by {
        if !marked(seen0, x) {
            if st.crosses(color, x) {
                st.lemma_linked_crosses(color, here, x);
            }
        }
    }
    assert forall|x: (int, int)|
        #![trigger st.road_square(part, x)]
        st.road_square(part, x) && st.edge(x) && before(x, row, col + 1) implies marked(
        seen,
        x,
    ) by {
        if x == here {
            if !marked(seen0, x) {
                st.lemma_linked_self(color, here);
            }
        } else {
            assert(before(x, row, col));
            assert(marked(seen0, x));
        }
    }
    if part != color {
        assert forall|x: (int, int), y: (int, int)|
            #![trigger marked(seen, x), adjacent(x, y)]
            marked(seen, x) && st.road_square(part, x) && adjacent(x, y) && st.road_square(
                part,
                y,
            ) implies marked(seen, y) by {
            assert(marked(seen0, x));
            assert(marked(seen0, y));
        }
    }
}

/// A scan after a search for `color` from the square `(row, col)`, with the
/// road noted if the search found one.
proof fn lemma_scan_searched(
    st: State,
    color: Color,
    seen0: Set<usize>,
    seen: Set<usize>,
    white_road: bool,
    black_road: bool,
    found: bool,
    row: int,
    col: int,
)
    requires
        st.on_board(row, col),
        st.top_at(row, col) matches Some(p) && p.color == color,
        !road_flag(color, white_road, black_road),
        scan_inv(st, seen0, white_road, black_road, row, col),
        seen_ok(seen),
        seen0.subset_of(seen),
        found == (st.fresh(color, seen0, (row, col)) && st.crosses(color, (row, col))),
        forall|sq: (int, int)|
            #![trigger marked(seen, sq)]
            marked(seen, sq) && !marked(seen0, sq) ==> st.wall_square(sq) || (st.fresh(
                color,
                seen0,
                (row, col),
            ) && st.linked(color, (row, col), sq)),
        !found ==> st.closed(color, seen),
        !found && st.fresh(color, seen0, (row, col)) ==> forall|sq: (int, int)|
            st.linked(color, (row, col), sq) ==> marked(seen, sq),
    ensures
        scan_inv(
            st,
            seen,
            white_road || (found && color == Color::White),
            black_road || (found && color == Color::Black),
            row,
            col + 1,
        ),
{
    reveal(scan_inv);
    if found {
        st.lemma_crosses_road(color, (row, col));
    }
    if !white_road && !(found && color == Color::White) {
        lemma_scan_part_searched(st, Color::White, color, seen0, seen, found, row, col);
    }
    if !black_road && !(found && color == Color::Black) {
        lemma_scan_part_searched(st, Color::Black, color, seen0, seen, found, row, col);
    }
}

/// A scan that has read the whole board has found the roads that there
/// are.
proof fn lemma_scan_ends(st: State, seen: Set<usize>, white_road: bool, black_road: bool)
    requires
        scan_inv(st, seen, white_road, black_road, st.size as int, 0),
    ensures
        white_road == st.has_road(Color::White),
        black_road == st.has_road(Color::Black),
{
    reveal(scan_inv);
    if !white_road {
        lemma_scan_part_ends(st, Color::White, seen);
    }
    if !black_road {
        lemma_scan_part_ends(st, Color::Black, seen);
    }
}

proof fn lemma_scan_part_ends(st: State, color: Color, seen: Set<usize>)
    requires
        scan_part(st, color, seen, st.size as int, 0),
    ensures
        !st.has_road(color),
{
    st.lemma_road_crosses(color);
    if st.has_road(color) {
        let a = choose|a: (int, int)|
            #![trigger st.crosses(color, a)]
            st.road_square(color, a) && (a.0 == 0 || a.1 == 0) && st.crosses(color, a);
        assert(st.edge(a) && before(a, st.size as int, 0));
        assert(marked(seen, a));
    }
}

impl StandardRules {
    /// Counts the flats that lie on top, and names the outcome.
    pub fn flat_game(&self) -> (v: Victory)
        requires
            self.wf(),
        ensures
            v == self.flat_result(),
    {
        let n: u8 = self.state.size;
        let mut white: u32 = 0;
        let mut black: u32 = 0;
        let mut row: u8 = 0;
        proof {
            assert(self.state.flats_before(Color::White, 0, 0) =~= Set::empty());
            assert(self.state.flats_before(Color::Black, 0, 0) =~= Set::empty());
        }
        while row < n
            invariant
                self.wf(),
                n == self.state.size,
                0 <= row <= n,
                white <= row * 255,
                black <= row * 255,
                self.state.flats_before(Color::White, row as int, 0).finite(),
                self.state.flats_before(Color::Black, row as int, 0).finite(),
                white == self.state.flats_before(Color::White, row as int, 0).len(),
                black == self.state.flats_before(Color::Black, row as int, 0).len(),
            decreases n - row,
        {
            let mut col: u8 = 0;
            while col < n
                invariant
                    self.wf(),
                    n == self.state.size,
                    0 <= row < n,
                    0 <= col <= n,
                    white <= row * 255 + col,
                    black <= row * 255 + col,
                    self.state.flats_before(Color::White, row as int, col as int).finite(),
                    self.state.flats_before(Color::Black, row as int, col as int).finite(),
                    white == self.state.flats_before(Color::White, row as int, col as int).len(),
                    black == self.state.flats_before(Color::Black, row as int, col as int).len(),
                decreases n - col,
            {
                let ghost here = (row as int, col as int);
                let ghost whites = self.state.flats_before(Color::White, row as int, col as int);
                let ghost blacks = self.state.flats_before(Color::Black, row as int, col as int);
                let mut white_flat = false;
                let mut black_flat = false;
                match self.state.get_tile(row, col).top() {
                    Some(p) => {
                        if p.kind == PieceKind::Flat {
                            if p.color == Color::White {
                                white_flat = true;
                            } else {
                                black_flat = true;
                            }
                        }
                    },
                    None => {},
                }
                proof {
                    assert(white_flat == self.state.flats(Color::White).contains(here));
                    assert(black_flat == self.state.flats(Color::Black).contains(here));
                    assert(self.state.flats_before(Color::White, row as int, col + 1) =~= if white_flat {
                        whites.insert(here)
                    } else {
                        whites
                    });
                    assert(self.state.flats_before(Color::Black, row as int, col + 1) =~= if black_flat {
                        blacks.insert(here)
                    } else {
                        blacks
                    });
                }
                if white_flat {
                    white += 1;
                }
                if black_flat {
                    black += 1;
                }
                col += 1;
            }
            proof {
                assert(self.state.flats_before(Color::White, row as int, n as int)
                    =~= self.state.flats_before(Color::White, row + 1, 0));
                assert(self.state.flats_before(Color::Black, row as int, n as int)
                    =~= self.state.flats_before(Color::Black, row + 1, 0));
            }
            row += 1;
        }
        proof {
            assert(self.state.flats_before(Color::White, n as int, 0) =~= self.state.flats(
                Color::White,
            ));
            assert(self.state.flats_before(Color::Black, n as int, 0) =~= self.state.flats(
                Color::Black,
            ));
        }
        let black_side: u64 = black as u64 + self.komi as u64;
        if white as u64 > black_side {
            Victory::WhiteFlat(white - self.komi)
        } else if black_side > white as u64 {
            Victory::BlackFlat(black + self.komi)
        } else {
            Victory::Draw
        }
    }

    /// Whether every square of the board holds a piece.
    fn board_full(&self) -> (b: bool)
        requires
            self.state.wf(),
        ensures
            b == self.state.full(),
    {
        let n: u8 = self.state.size;
        let mut row: u8 = 0;
        while row < n
            invariant
                self.state.wf(),
                n == self.state.size,
                0 <= row <= n,
                forall|r: int, c: int|
                    self.state.on_board(r, c) && r < row ==> (#[trigger] self.state.stack(r, c)).len()
                        > 0,
            decreases n - row,
        {
            let mut col: u8 = 0;
            while col < n
                invariant
                    self.state.wf(),
                    n == self.state.size,
                    0 <= row < n,
                    0 <= col <= n,
                    forall|r: int, c: int|
                        self.state.on_board(r, c) && before((r, c), row as int, col as int) ==> (
                        #[trigger] self.state.stack(r, c)).len() > 0,
                decreases n - col,
            {
                if self.state.get_tile(row, col).is_empty() {
                    return false;
                }
                col += 1;
            }
            row += 1;
        }
        true
    }

    /// How the game stands after a ply of `last_to_move`. Starts a search
    /// from every square on an edge that no earlier search has visited and
    /// whose color has no road yet; without a road, counts the flats once a
    /// side has no piece left or the board is full.
    pub fn check_win(&self, last_to_move: Color) -> (v: Victory)
        requires
            self.wf(),
        ensures
            v == self.verdict(last_to_move),
    {
        broadcast use vstd::std_specs::hash::group_hash_axioms;

        let n: usize = self.state.size as usize;
        let mut visited: HashSet<usize> = HashSet::new();
        let mut white_road = false;
        let mut black_road = false;
        let mut row: usize = 0;
        proof {
            lemma_scan_begins(self.state);
        }
        while row < n && !(white_road && black_road)
            invariant
                self.wf(),
                n == self.state.size,
                0 <= row <= n,
                white_road && black_road ==> self.state.has_road(Color::White)
                    && self.state.has_road(Color::Black),
                !(white_road && black_road) ==> scan_inv(
                    self.state,
                    visited@,
                    white_road,
                    black_road,
                    row as int,
                    0,
                ),
            decreases n - row,
        {
            let mut col: usize = 0;
            while col < n && !(white_road && black_road)
                invariant
                    self.wf(),
                    n == self.state.size,
                    0 <= row < n,
                    0 <= col <= n,
                    white_road && black_road ==> self.state.has_road(Color::White)
                        && self.state.has_road(Color::Black),
                    !(white_road && black_road) ==> scan_inv(
                        self.state,
                        visited@,
                        white_road,
                        black_road,
                        row as int,
                        col as int,
                    ),
                decreases n - col,
            {
                let ghost seen0 = visited@;
                let mut start: Option<bool> = None;
                if self.state.is_edge((row, col)) && !visited.contains(&key((row, col))) {
                    match self.state.get_tile(row as u8, col as u8).top() {
                        Some(p) => {
                            let white_piece = p.color == Color::White;
                            if !(white_piece && white_road) && !(!white_piece && black_road) {
                                start = Some(white_piece);
                            }
                        },
                        None => {},
                    }
                }
                match start {
                    Some(white_piece) => {
                        let mut reached = Reached {
                            north: false,
                            south: false,
                            east: false,
                            west: false,
                        };
                        proof {
                            reveal(scan_inv);
                        }
                        let road = self.search(white_piece, &mut reached, &mut visited, (row, col));
                        proof {
                            lemma_scan_searched(
                                self.state,
                                color_of(white_piece),
                                seen0,
                                visited@,
                                white_road,
                                black_road,
                                road,
                                row as int,
                                col as int,
                            );
                            reveal(scan_inv);
                        }
                        if road {
                            if white_piece {
                                white_road = true;
                            } else {
                                black_road = true;
                            }
                        }
                    },
                    None => {
                        proof {
                            lemma_scan_passes(
                                self.state,
                                visited@,
                                white_road,
                                black_road,
                                row as int,
                                col as int,
                            );
                        }
                    },
                }
                col += 1;
            }
            proof {
                if !(white_road && black_road) {
                    lemma_scan_turns(self.state, visited@, white_road, black_road, row as int);
                }
            }
            row += 1;
        }
        proof {
            if !(white_road && black_road) {
                lemma_scan_ends(self.state, visited@, white_road, black_road);
            }
        }
        if white_road && black_road {
            return match last_to_move {
                Color::White => Victory::WhiteRoad,
                Color::Black => Victory::BlackRoad,
            };
        }
        if white_road {
            return Victory::WhiteRoad;
        }
        if black_road {
            return Victory::BlackRoad;
        }
        if self.state.player1.pieces == 0 || self.state.player2.pieces == 0 {
            return self.flat_game();
        }
        if self.board_full() {
            self.flat_game()
        } else {
            Victory::Neither
        }
    }
}

} // verus!
