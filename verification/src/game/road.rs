//! Roads: what it means for a side to connect two opposite edges of the
//! board, and the facts about connected squares that the search rests on.

use vstd::prelude::*;
use crate::game::state::Color;
use crate::game::state::PieceKind;
use crate::game::state::State;

verus! {

/// Whether two squares share a side.
pub open spec fn adjacent(a: (int, int), b: (int, int)) -> bool {
    ||| b == (a.0 + 1, a.1)
    ||| b == (a.0 - 1, a.1)
    ||| b == (a.0, a.1 + 1)
    ||| b == (a.0, a.1 - 1)
}

impl State {
    /// Whether a square counts for a road of `color`: it is on the board
    /// and its top piece is a flat or a capstone of that color. A wall
    /// counts for no road, and neither does an empty square.
    pub open spec fn road_square(&self, color: Color, sq: (int, int)) -> bool {
        &&& self.on_board(sq.0, sq.1)
        &&& self.top_at(sq.0, sq.1) matches Some(p) && p.color == color && p.kind
            != PieceKind::Wall
    }

    /// Whether a square is on the board with a wall on top.
    pub open spec fn wall_square(&self, sq: (int, int)) -> bool {
        &&& self.on_board(sq.0, sq.1)
        &&& self.top_at(sq.0, sq.1) matches Some(p) && p.kind == PieceKind::Wall
    }

    /// Whether `path` is a walk over road squares of `color`, each sharing
    /// a side with the next.
    pub open spec fn is_path(&self, color: Color, path: Seq<(int, int)>) -> bool {
        &&& path.len() > 0
        &&& forall|i: int| 0 <= i < path.len() ==> self.road_square(color, #[trigger] path[i])
        &&& forall|i: int| 0 <= i < path.len() - 1 ==> adjacent(#[trigger] path[i], path[i + 1])
    }

    /// Whether a walk over road squares of `color` leads from `a` to `b`.
    pub open spec fn linked(&self, color: Color, a: (int, int), b: (int, int)) -> bool {
        exists|path: Seq<(int, int)>|
            #![trigger self.is_path(color, path)]
            self.is_path(color, path) && path.first() == a && path.last() == b
    }

    /// Whether `a` and `b` lie on opposite edges: `a` in the first row and
    /// `b` in the last, or `a` in the first column and `b` in the last.
    pub open spec fn spans(&self, a: (int, int), b: (int, int)) -> bool {
        ||| a.0 == 0 && b.0 == self.size - 1
        ||| a.1 == 0 && b.1 == self.size - 1
    }

    /// Whether `color` has a road: a walk over its road squares from one
    /// edge of the board to the opposite edge.
    pub open spec fn has_road(&self, color: Color) -> bool {
        exists|a: (int, int), b: (int, int)|
            #![trigger self.linked(color, a, b)]
            self.linked(color, a, b) && self.spans(a, b)
    }

    /// A road square is linked to itself.
    pub proof fn lemma_linked_self(&self, color: Color, a: (int, int))
        requires
            self.road_square(color, a),
        ensures
            self.linked(color, a, a),
    {
        let path = seq![a];
        assert(self.is_path(color, path));
        assert(path.first() == a && path.last() == a);
    }

    /// The squares that a square is linked to are road squares, and so is
    /// the square itself.
    pub proof fn lemma_linked_squares(&self, color: Color, a: (int, int), b: (int, int))
        requires
            self.linked(color, a, b),
        ensures
            self.road_square(color, a),
            self.road_square(color, b),
    {
        let path = choose|path: Seq<(int, int)>|
            #![trigger self.is_path(color, path)]
            self.is_path(color, path) && path.first() == a && path.last() == b;
        assert(self.road_square(color, path[0]));
        assert(self.road_square(color, path[path.len() - 1]));
    }

    /// A walk goes on to a road square beside its end.
    pub proof fn lemma_linked_step(&self, color: Color, a: (int, int), b: (int, int), c: (int, int))
        requires
            self.linked(color, a, b),
            adjacent(b, c),
            self.road_square(color, c),
        ensures
            self.linked(color, a, c),
    {
        let path = choose|path: Seq<(int, int)>|
            #![trigger self.is_path(color, path)]
            self.is_path(color, path) && path.first() == a && path.last() == b;
        let longer = path.push(c);
        assert forall|i: int| 0 <= i < longer.len() implies self.road_square(
            color,
            #[trigger] longer[i],
        ) by {
            if i < path.len() {
                assert(longer[i] == path[i]);
            }
        }
        assert forall|i: int| 0 <= i < longer.len() - 1 implies adjacent(
            #[trigger] longer[i],
            longer[i + 1],
        ) by {
            if i < path.len() - 1 {
                assert(longer[i] == path[i]);
                assert(longer[i + 1] == path[i + 1]);
            }
        }
        assert(self.is_path(color, longer));
        assert(longer.first() == a && longer.last() == c);
    }

    /// A walk can be taken backwards.
    pub proof fn lemma_linked_back(&self, color: Color, a: (int, int), b: (int, int))
        requires
            self.linked(color, a, b),
        ensures
            self.linked(color, b, a),
    {
        let path = choose|path: Seq<(int, int)>|
            #![trigger self.is_path(color, path)]
            self.is_path(color, path) && path.first() == a && path.last() == b;
        let n = path.len() as int;
        let back = Seq::new(path.len(), |i: int| path[n - 1 - i]);
        assert forall|i: int| 0 <= i < back.len() implies self.road_square(
            color,
            #[trigger] back[i],
        ) by {
            assert(self.road_square(color, path[n - 1 - i]));
        }
        assert forall|i: int| 0 <= i < back.len() - 1 implies adjacent(
            #[trigger] back[i],
            back[i + 1],
        ) by {
            assert(adjacent(path[n - 2 - i], path[n - 2 - i + 1]));
        }
        assert(self.is_path(color, back));
        assert(back.first() == b && back.last() == a);
    }

    /// Two walks that meet make one.
    pub proof fn lemma_linked_on(&self, color: Color, a: (int, int), b: (int, int), c: (int, int))
        requires
            self.linked(color, a, b),
            self.linked(color, b, c),
        ensures
            self.linked(color, a, c),
    {
        let p = choose|path: Seq<(int, int)>|
            #![trigger self.is_path(color, path)]
            self.is_path(color, path) && path.first() == a && path.last() == b;
        let q = choose|path: Seq<(int, int)>|
            #![trigger self.is_path(color, path)]
            self.is_path(color, path) && path.first() == b && path.last() == c;
        let whole = p + q.subrange(1, q.len() as int);
        assert forall|i: int| 0 <= i < whole.len() implies self.road_square(
            color,
            #[trigger] whole[i],
        ) by {
            if i < p.len() {
                assert(whole[i] == p[i]);
            } else {
                assert(whole[i] == q[i - p.len() + 1]);
            }
        }
        assert forall|i: int| 0 <= i < whole.len() - 1 implies adjacent(
            #[trigger] whole[i],
            whole[i + 1],
        ) by {
            if i < p.len() - 1 {
                assert(whole[i] == p[i]);
                assert(whole[i + 1] == p[i + 1]);
            } else if i == p.len() - 1 {
                assert(whole[i] == p[i]);
                assert(whole[i + 1] == q[1]);
                assert(adjacent(q[0], q[0int + 1]));
            } else {
                assert(whole[i] == q[i - p.len() + 1]);
                assert(whole[i + 1] == q[i - p.len() + 1 + 1]);
            }
        }
        assert(self.is_path(color, whole));
        assert(whole.first() == a);
        assert(whole.last() == c) by {
            if q.len() == 1 {
                assert(whole =~= p);
            } else {
                assert(whole[whole.len() - 1] == q[q.len() - 1]);
            }
        }
    }
}

/// The edges of the board that a search has touched.
pub struct Reached {
    pub north: bool,
    pub south: bool,
    pub east: bool,
    pub west: bool,
}

impl Reached {
    /// Whether two opposite edges have been touched.
    pub open spec fn crossed(&self) -> bool {
        (self.north && self.south) || (self.east && self.west)
    }

    /// Whether every edge touched in `self` is touched in `later`.
    pub open spec fn within(&self, later: &Reached) -> bool {
        &&& self.north ==> later.north
        &&& self.south ==> later.south
        &&& self.east ==> later.east
        &&& self.west ==> later.west
    }
}

/// The number under which a set of visited squares keeps a square.
pub open spec fn key_of(sq: (int, int)) -> int {
    sq.0 * 256 + sq.1
}

/// Whether a set of visited squares holds a square.
pub open spec fn marked(seen: Set<usize>, sq: (int, int)) -> bool {
    &&& 0 <= sq.0 < 256
    &&& 0 <= sq.1 < 256
    &&& seen.contains(key_of(sq) as usize)
}

/// The numbers below `n`.
pub open spec fn below(n: nat) -> Set<usize> {
    Set::new(|k: usize| k < n)
}

/// A set of visited squares is valid when it is finite and holds only
/// numbers that stand for squares.
pub open spec fn seen_ok(seen: Set<usize>) -> bool {
    seen.finite() && seen.subset_of(below(65536))
}

/// There are `n` numbers below `n`.
pub proof fn lemma_below_len(n: nat)
    requires
        n <= usize::MAX,
    ensures
        below(n).finite(),
        below(n).len() == n,
    decreases n,
{
    if n == 0 {
        assert(below(0) =~= Set::<usize>::empty());
    } else {
        lemma_below_len((n - 1) as nat);
        assert(below(n) =~= below((n - 1) as nat).insert((n - 1) as usize));
    }
}

/// A valid set of visited squares holds at most 65536 squares.
pub proof fn lemma_seen_len(seen: Set<usize>)
    requires
        seen_ok(seen),
    ensures
        seen.len() <= 65536,
{
    lemma_below_len(65536);
    vstd::set_lib::lemma_len_subset(seen, below(65536));
}

impl State {
    /// Whether a set of visited squares is closed for `color`: beside a
    /// road square of that color in the set, every road square of that
    /// color is in the set too.
    pub open spec fn closed(&self, color: Color, seen: Set<usize>) -> bool {
        forall|x: (int, int), y: (int, int)|
            #![trigger marked(seen, x), adjacent(x, y)]
            marked(seen, x) && self.road_square(color, x) && adjacent(x, y) && self.road_square(
                color,
                y,
            ) ==> marked(seen, y)
    }

    /// Whether a walk over road squares of `color` leads from `a` to a
    /// square in the given row.
    pub open spec fn reaches_row(&self, color: Color, a: (int, int), row: int) -> bool {
        exists|b: (int, int)|
            #![trigger self.linked(color, a, b)]
            self.linked(color, a, b) && b.0 == row
    }

    /// Whether a walk over road squares of `color` leads from `a` to a
    /// square in the given column.
    pub open spec fn reaches_col(&self, color: Color, a: (int, int), col: int) -> bool {
        exists|b: (int, int)|
            #![trigger self.linked(color, a, b)]
            self.linked(color, a, b) && b.1 == col
    }

    /// The edges touched once all that is linked to `a` has been added to
    /// the edges touched before. North is row 0 and west is column 0.
    pub open spec fn touched(&self, color: Color, a: (int, int), before: Reached) -> Reached {
        Reached {
            north: before.north || self.reaches_row(color, a, 0),
            south: before.south || self.reaches_row(color, a, self.size - 1),
            east: before.east || self.reaches_col(color, a, self.size - 1),
            west: before.west || self.reaches_col(color, a, 0),
        }
    }

    /// Whether the squares linked to `a` touch two opposite edges.
    pub open spec fn crosses(&self, color: Color, a: (int, int)) -> bool {
        self.touched(
            color,
            a,
            Reached { north: false, south: false, east: false, west: false },
        ).crossed()
    }

    /// Whether a search of `color` has a new road square in `sq`: a road
    /// square of that color that is not among the visited ones.
    pub open spec fn fresh(&self, color: Color, seen: Set<usize>, sq: (int, int)) -> bool {
        self.road_square(color, sq) && !marked(seen, sq)
    }

    /// A closed set that holds a square holds all that is linked to it.
    pub proof fn lemma_closed_keeps(
        &self,
        color: Color,
        seen: Set<usize>,
        a: (int, int),
        b: (int, int),
    )
        requires
            self.closed(color, seen),
            marked(seen, a),
            self.linked(color, a, b),
        ensures
            marked(seen, b),
    {
        let path = choose|path: Seq<(int, int)>|
            #![trigger self.is_path(color, path)]
            self.is_path(color, path) && path.first() == a && path.last() == b;
        self.lemma_closed_keeps_path(color, seen, path, path.len() - 1);
    }

    proof fn lemma_closed_keeps_path(
        &self,
        color: Color,
        seen: Set<usize>,
        path: Seq<(int, int)>,
        i: int,
    )
        requires
            self.closed(color, seen),
            self.is_path(color, path),
            marked(seen, path.first()),
            0 <= i < path.len(),
        ensures
            marked(seen, path[i]),
        decreases i,
    {
        if i > 0 {
            self.lemma_closed_keeps_path(color, seen, path, i - 1);
            assert(adjacent(path[i - 1], path[i - 1 + 1]));
            assert(self.road_square(color, path[i - 1]));
            assert(self.road_square(color, path[i]));
        }
    }

    /// Squares that are linked touch the same edges.
    pub proof fn lemma_linked_crosses(&self, color: Color, a: (int, int), b: (int, int))
        requires
            self.linked(color, a, b),
            self.crosses(color, b),
        ensures
            self.crosses(color, a),
    {
        if self.reaches_row(color, b, 0) && self.reaches_row(color, b, self.size - 1) {
            let n = choose|c: (int, int)| #![trigger self.linked(color, b, c)] self.linked(color, b, c) && c.0 == 0;
            let s = choose|c: (int, int)| #![trigger self.linked(color, b, c)] self.linked(color, b, c) && c.0 == self.size - 1;
            self.lemma_linked_on(color, a, b, n);
            self.lemma_linked_on(color, a, b, s);
        } else {
            let w = choose|c: (int, int)| #![trigger self.linked(color, b, c)] self.linked(color, b, c) && c.1 == 0;
            let e = choose|c: (int, int)| #![trigger self.linked(color, b, c)] self.linked(color, b, c) && c.1 == self.size - 1;
            self.lemma_linked_on(color, a, b, w);
            self.lemma_linked_on(color, a, b, e);
        }
    }

    /// A side has a road exactly if the squares linked to one of its road
    /// squares in the first row or the first column touch two opposite
    /// edges.
    pub proof fn lemma_road_crosses(&self, color: Color)
        ensures
            self.has_road(color) <==> exists|a: (int, int)|
                #![trigger self.crosses(color, a)]
                self.road_square(color, a) && (a.0 == 0 || a.1 == 0) && self.crosses(color, a),
    {
        if self.has_road(color) {
            let (a, b) = choose|a: (int, int), b: (int, int)|
                #![trigger self.linked(color, a, b)]
                self.linked(color, a, b) && self.spans(a, b);
            self.lemma_linked_squares(color, a, b);
            self.lemma_linked_self(color, a);
            assert(self.crosses(color, a));
        }
        if exists|a: (int, int)|
            #![trigger self.crosses(color, a)]
            self.road_square(color, a) && (a.0 == 0 || a.1 == 0) && self.crosses(color, a) {
            let a = choose|a: (int, int)|
                #![trigger self.crosses(color, a)]
                self.road_square(color, a) && (a.0 == 0 || a.1 == 0) && self.crosses(color, a);
            self.lemma_crosses_road(color, a);
        }
    }

    /// Squares that touch two opposite edges hold a road.
    pub proof fn lemma_crosses_road(&self, color: Color, a: (int, int))
        requires
            self.crosses(color, a),
        ensures
            self.has_road(color),
    {
        if self.reaches_row(color, a, 0) && self.reaches_row(color, a, self.size - 1) {
            let n = choose|c: (int, int)| #![trigger self.linked(color, a, c)] self.linked(color, a, c) && c.0 == 0;
            let s = choose|c: (int, int)| #![trigger self.linked(color, a, c)] self.linked(color, a, c) && c.0 == self.size - 1;
            self.lemma_linked_back(color, a, n);
            self.lemma_linked_on(color, n, a, s);
            assert(self.spans(n, s));
        } else {
            let w = choose|c: (int, int)| #![trigger self.linked(color, a, c)] self.linked(color, a, c) && c.1 == 0;
            let e = choose|c: (int, int)| #![trigger self.linked(color, a, c)] self.linked(color, a, c) && c.1 == self.size - 1;
            self.lemma_linked_back(color, a, w);
            self.lemma_linked_on(color, w, a, e);
            assert(self.spans(w, e));
        }
    }
}

} // verus!
