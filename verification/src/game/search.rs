//! The search for a road: a walk over the road squares of one color from
//! a square outwards, which marks what it visits and notes the edges that
//! it touches.

use vstd::prelude::*;
use std::collections::HashSet;
use crate::game::road::Reached;
use crate::game::road::adjacent;
use crate::game::road::key_of;
use crate::game::road::lemma_seen_len;
use crate::game::road::marked;
use crate::game::road::seen_ok;
use crate::game::rules::StandardRules;
use crate::game::state::Color;
use crate::game::state::PieceKind;
use crate::game::state::State;

verus! {

/// The color that a search looks for.
pub open spec fn color_of(white: bool) -> Color {
    if white {
        Color::White
    } else {
        Color::Black
    }
}

/// A square given by two machine integers, as a square of the board.
pub open spec fn at(node: (usize, usize)) -> (int, int) {
    (node.0 as int, node.1 as int)
}

/// The edges touched once a square has been added to them.
pub open spec fn with_edges(flags: Reached, size: u8, x: (int, int)) -> Reached {
    Reached {
        north: flags.north || x.0 == 0,
        south: flags.south || x.0 == size - 1,
        east: flags.east || x.1 == size - 1,
        west: flags.west || x.1 == 0,
    }
}

/// Whether a square is among those that wait to be expanded.
spec fn waiting(stack: Seq<(usize, usize)>, sq: (int, int)) -> bool {
    exists|i: int| 0 <= i < stack.len() && at(#[trigger] stack[i]) == sq
}

/// Whether a search is through with a square: every road square beside it
/// has been marked, and the edges that it lies on have been noted.
spec fn settled(st: State, color: Color, seen: Set<usize>, flags: Reached, x: (int, int)) -> bool {
    &&& forall|y: (int, int)|
        #![trigger adjacent(x, y)]
        adjacent(x, y) && st.road_square(color, y) ==> marked(seen, y)
    &&& x.0 == 0 ==> flags.north
    &&& x.0 == st.size - 1 ==> flags.south
    &&& x.1 == 0 ==> flags.west
    &&& x.1 == st.size - 1 ==> flags.east
}

/// What holds in the middle of a search from `node` that began with the
/// visited squares `seen0` and the edges `flags0`, while it expands `cur`.
#[verifier::opaque]
spec fn search_inv(
    st: State,
    color: Color,
    node: (int, int),
    seen0: Set<usize>,
    flags0: Reached,
    seen: Set<usize>,
    stack: Seq<(usize, usize)>,
    flags: Reached,
    cur: Option<(int, int)>,
) -> bool {
    &&& seen_ok(seen)
    &&& seen0.subset_of(seen)
    &&& flags0.within(&flags)
    &&& forall|sq: (int, int)|
        #![trigger marked(seen, sq)]
        marked(seen, sq) && !marked(seen0, sq) ==> st.linked(color, node, sq) || st.wall_square(sq)
    &&& forall|i: int|
        0 <= i < stack.len() ==> marked(seen, at(#[trigger] stack[i])) && !marked(
            seen0,
            at(stack[i]),
        ) && st.linked(color, node, at(stack[i]))
    &&& forall|sq: (int, int)|
        #![trigger marked(seen, sq)]
        marked(seen, sq) && !marked(seen0, sq) && st.road_square(color, sq) && !waiting(stack, sq)
            && cur != Some(sq) ==> settled(st, color, seen, flags, sq)
    &&& flags.north ==> flags0.north || st.reaches_row(color, node, 0)
    &&& flags.south ==> flags0.south || st.reaches_row(color, node, st.size - 1)
    &&& flags.west ==> flags0.west || st.reaches_col(color, node, 0)
    &&& flags.east ==> flags0.east || st.reaches_col(color, node, st.size - 1)
}

/// A search begins: the start has been marked and waits.
proof fn lemma_search_begins(
    st: State,
    color: Color,
    node: (usize, usize),
    seen0: Set<usize>,
    flags0: Reached,
)
    requires
        seen_ok(seen0),
        st.fresh(color, seen0, at(node)),
    ensures
        search_inv(
            st,
            color,
            at(node),
            seen0,
            flags0,
            seen0.insert(key_of(at(node)) as usize),
            seq![node],
            flags0,
            None,
        ),
{
    reveal(search_inv);
    let seen = seen0.insert(key_of(at(node)) as usize);
    let stack = seq![node];
    st.lemma_linked_self(color, at(node));
    assert forall|sq: (int, int)| #![trigger marked(seen, sq)] marked(seen, sq) implies marked(
        seen0,
        sq,
    ) || sq == at(node) by {}
    assert(at(stack[0]) == at(node));
    assert(waiting(stack, at(node)));
}

/// A search takes the square that waited last and notes its edges.
proof fn lemma_search_takes(
    st: State,
    color: Color,
    node: (int, int),
    seen0: Set<usize>,
    flags0: Reached,
    seen: Set<usize>,
    waited: Seq<(usize, usize)>,
    flags: Reached,
)
    requires
        waited.len() > 0,
        search_inv(st, color, node, seen0, flags0, seen, waited, flags, None),
    ensures
        st.linked(color, node, at(waited.last())),
        st.road_square(color, at(waited.last())),
        search_inv(
            st,
            color,
            node,
            seen0,
            flags0,
            seen,
            waited.drop_last(),
            with_edges(flags, st.size, at(waited.last())),
            Some(at(waited.last())),
        ),
{
    reveal(search_inv);
    let here = at(waited.last());
    let stack = waited.drop_last();
    let noted = with_edges(flags, st.size, here);
    assert(st.linked(color, node, at(waited[waited.len() - 1])));
    st.lemma_linked_squares(color, node, here);
    assert forall|sq: (int, int)|
        #![trigger marked(seen, sq)]
        marked(seen, sq) && !marked(seen0, sq) && st.road_square(color, sq) && !waiting(stack, sq)
            && Some(here) != Some(sq) implies settled(st, color, seen, noted, sq) by {
        if waiting(waited, sq) {
            let i = choose|i: int| 0 <= i < waited.len() && at(#[trigger] waited[i]) == sq;
            assert(stack[i] == waited[i]);
            assert(waiting(stack, sq));
        }
        assert(settled(st, color, seen, flags, sq));
    }
    assert forall|i: int| 0 <= i < stack.len() implies marked(seen, at(#[trigger] stack[i]))
        && !marked(seen0, at(stack[i])) && st.linked(color, node, at(stack[i])) by {
        assert(stack[i] == waited[i]);
    }
}

/// A search is through with the square that it expanded.
proof fn lemma_search_settles(
    st: State,
    color: Color,
    node: (int, int),
    seen0: Set<usize>,
    flags0: Reached,
    seen: Set<usize>,
    stack: Seq<(usize, usize)>,
    flags: Reached,
    here: (int, int),
)
    requires
        search_inv(st, color, node, seen0, flags0, seen, stack, flags, Some(here)),
        settled(st, color, seen, flags, here),
    ensures
        search_inv(st, color, node, seen0, flags0, seen, stack, flags, None),
{
    reveal(search_inv);
}

/// What a search has marked and noted at any time.
proof fn lemma_search_sound(
    st: State,
    color: Color,
    node: (int, int),
    seen0: Set<usize>,
    flags0: Reached,
    seen: Set<usize>,
    stack: Seq<(usize, usize)>,
    flags: Reached,
    cur: Option<(int, int)>,
)
    requires
        search_inv(st, color, node, seen0, flags0, seen, stack, flags, cur),
    ensures
        seen_ok(seen),
        seen0.subset_of(seen),
        forall|sq: (int, int)|
            #![trigger marked(seen, sq)]
            marked(seen, sq) && !marked(seen0, sq) ==> st.wall_square(sq) || st.linked(
                color,
                node,
                sq,
            ),
        flags0.within(&flags),
        flags.within(&st.touched(color, node, flags0)),
{
    reveal(search_inv);
}

/// A search that has nothing left to expand has marked all that is linked
/// to its start, and has noted exactly the edges that those squares lie on.
proof fn lemma_search_ends(
    st: State,
    color: Color,
    node: (int, int),
    seen0: Set<usize>,
    flags0: Reached,
    seen: Set<usize>,
    flags: Reached,
)
    requires
        st.fresh(color, seen0, node),
        st.closed(color, seen0),
        search_inv(st, color, node, seen0, flags0, seen, Seq::<(usize, usize)>::empty(), flags, None),
        marked(seen, node),
    ensures
        st.closed(color, seen),
        flags == st.touched(color, node, flags0),
        forall|sq: (int, int)| st.linked(color, node, sq) ==> marked(seen, sq),
{
    reveal(search_inv);
    let stack = Seq::<(usize, usize)>::empty();
    assert forall|x: (int, int), y: (int, int)|
        #![trigger marked(seen, x), adjacent(x, y)]
        marked(seen, x) && st.road_square(color, x) && adjacent(x, y) && st.road_square(
            color,
            y,
        ) implies marked(seen, y) by {
        if marked(seen0, x) {
            assert(marked(seen0, y));
        } else {
            assert(!waiting(stack, x));
            assert(settled(st, color, seen, flags, x));
        }
    }
    assert forall|sq: (int, int)| st.linked(color, node, sq) implies marked(seen, sq) && !marked(
        seen0,
        sq,
    ) by {
        st.lemma_closed_keeps(color, seen, node, sq);
        if marked(seen0, sq) {
            st.lemma_linked_back(color, node, sq);
            st.lemma_closed_keeps(color, seen0, sq, node);
        }
    }
    if st.reaches_row(color, node, 0) {
        let b = choose|b: (int, int)|
            #![trigger st.linked(color, node, b)]
            st.linked(color, node, b) && b.0 == 0;
        st.lemma_linked_squares(color, node, b);
        assert(marked(seen, b) && !waiting(stack, b));
        assert(settled(st, color, seen, flags, b));
    }
    if st.reaches_row(color, node, st.size - 1) {
        let b = choose|b: (int, int)|
            #![trigger st.linked(color, node, b)]
            st.linked(color, node, b) && b.0 == st.size - 1;
        st.lemma_linked_squares(color, node, b);
        assert(marked(seen, b) && !waiting(stack, b));
        assert(settled(st, color, seen, flags, b));
    }
    if st.reaches_col(color, node, 0) {
        let b = choose|b: (int, int)|
            #![trigger st.linked(color, node, b)]
            st.linked(color, node, b) && b.1 == 0;
        st.lemma_linked_squares(color, node, b);
        assert(marked(seen, b) && !waiting(stack, b));
        assert(settled(st, color, seen, flags, b));
    }
    if st.reaches_col(color, node, st.size - 1) {
        let b = choose|b: (int, int)|
            #![trigger st.linked(color, node, b)]
            st.linked(color, node, b) && b.1 == st.size - 1;
        st.lemma_linked_squares(color, node, b);
        assert(marked(seen, b) && !waiting(stack, b));
        assert(settled(st, color, seen, flags, b));
    }
}

/// Marking a wall marks no other square, and leaves a visited set closed
/// that was closed.
proof fn lemma_wall_marked(st: State, color: Color, seen0: Set<usize>, sq: (int, int))
    requires
        st.wall_square(sq),
    ensures
        marked(seen0.insert(key_of(sq) as usize), sq),
        forall|other: (int, int)|
            #![trigger marked(seen0.insert(key_of(sq) as usize), other)]
            marked(seen0.insert(key_of(sq) as usize), other) ==> marked(seen0, other) || other == sq,
        st.closed(color, seen0) ==> st.closed(color, seen0.insert(key_of(sq) as usize)),
{
    let seen = seen0.insert(key_of(sq) as usize);
    assert forall|other: (int, int)| #![trigger marked(seen, other)] marked(seen, other) implies marked(
        seen0,
        other,
    ) || other == sq by {}
    if st.closed(color, seen0) {
        assert forall|x: (int, int), y: (int, int)|
            #![trigger marked(seen, x), adjacent(x, y)]
            marked(seen, x) && st.road_square(color, x) && adjacent(x, y) && st.road_square(
                color,
                y,
            ) implies marked(seen, y) by {
            assert(marked(seen0, x));
            assert(marked(seen0, y));
        }
    }
}

/// The number under which a visited set keeps a square.
pub(crate) fn key(node: (usize, usize)) -> (k: usize)
    requires
        node.0 < 256,
        node.1 < 256,
    ensures
        k == key_of(at(node)),
        k < 65536,
{
    node.0 * 256 + node.1
}

impl StandardRules {
    /// Looks at a square beside the square `cur` that a search is
    /// expanding: marks it if it is a wall or an unvisited road square of
    /// the color, and lets such a road square wait to be expanded.
    fn probe(
        &self,
        color: Color,
        visited: &mut HashSet<usize>,
        stack: &mut Vec<(usize, usize)>,
        nb: (usize, usize),
        Ghost(node): Ghost<(int, int)>,
        Ghost(seen0): Ghost<Set<usize>>,
        Ghost(flags0): Ghost<Reached>,
        Ghost(flags): Ghost<Reached>,
        Ghost(cur): Ghost<(int, int)>,
    )
        requires
            self.state.wf(),
            self.state.on_board(nb.0 as int, nb.1 as int),
            adjacent(cur, at(nb)),
            self.state.linked(color, node, cur),
            search_inv(
                self.state,
                color,
                node,
                seen0,
                flags0,
                old(visited)@,
                old(stack)@,
                flags,
                Some(cur),
            ),
        ensures
            search_inv(
                self.state,
                color,
                node,
                seen0,
                flags0,
                final(visited)@,
                final(stack)@,
                flags,
                Some(cur),
            ),
            old(visited)@.subset_of(final(visited)@),
            self.state.road_square(color, at(nb)) ==> marked(final(visited)@, at(nb)),
            final(visited)@.len() >= old(visited)@.len(),
            final(stack)@.len() >= old(stack)@.len(),
            final(stack)@.len() <= old(stack)@.len() + 1,
            final(stack)@.len() > old(stack)@.len() ==> final(visited)@.len() > old(visited)@.len(),
    {
        broadcast use vstd::std_specs::hash::group_hash_axioms;

        reveal(search_inv);
        let k = key(nb);
        if visited.contains(&k) {
            return ;
        }
        let ghost seen = visited@;
        let ghost waited = stack@;
        match self.state.get_tile(nb.0 as u8, nb.1 as u8).top() {
            None => {},
            Some(p) => {
                if p.kind == PieceKind::Wall {
                    visited.insert(k);
                    proof {
                        assert(self.state.wall_square(at(nb)));
                        assert forall|sq: (int, int)| #![trigger marked(visited@, sq)] marked(visited@, sq) implies marked(seen, sq) || sq == at(nb) by {}
                        assert forall|sq: (int, int)|
                            #![trigger marked(visited@, sq)]
                            marked(visited@, sq) && !marked(seen0, sq) && self.state.road_square(
                                color,
                                sq,
                            ) && !waiting(stack@, sq) && Some(cur) != Some(sq) implies settled(
                            self.state,
                            color,
                            visited@,
                            flags,
                            sq,
                        ) by {
                            assert(marked(seen, sq));
                            assert(settled(self.state, color, seen, flags, sq));
                        }
                    }
                } else if p.color == color {
                    visited.insert(k);
                    stack.push(nb);
                    proof {
                        self.state.lemma_linked_step(color, node, cur, at(nb));
                        assert forall|sq: (int, int)| #![trigger marked(visited@, sq)] marked(visited@, sq) implies marked(seen, sq) || sq == at(nb) by {}
                        assert(at(stack@[waited.len() as int]) == at(nb));
                        assert(waiting(stack@, at(nb)));
                        assert forall|sq: (int, int)|
                            #![trigger marked(visited@, sq)]
                            marked(visited@, sq) && !marked(seen0, sq) && self.state.road_square(
                                color,
                                sq,
                            ) && !waiting(stack@, sq) && Some(cur) != Some(sq) implies settled(
                            self.state,
                            color,
                            visited@,
                            flags,
                            sq,
                        ) by {
                            assert(marked(seen, sq));
                            if waiting(waited, sq) {
                                let i = choose|i: int| 0 <= i < waited.len() && at(#[trigger] waited[i]) == sq;
                                assert(stack@[i] == waited[i]);
                                assert(waiting(stack@, sq));
                            }
                            assert(settled(self.state, color, seen, flags, sq));
                        }
                        assert forall|i: int| 0 <= i < stack@.len() implies marked(
                            visited@,
                            at(#[trigger] stack@[i]),
                        ) && !marked(seen0, at(stack@[i])) && self.state.linked(
                            color,
                            node,
                            at(stack@[i]),
                        ) by {
                            if i < waited.len() {
                                assert(stack@[i] == waited[i]);
                            }
                        }
                    }
                }
            },
        }
    }

    /// Searches the road squares of one color that are linked to `node`,
    /// from `node` outwards, for a road. `reached` holds the edges touched
    /// so far and `visited` the squares that earlier searches have seen.
    ///
    /// The search does nothing where `node` is off the board, visited, empty
    /// or of the other color, and only marks it where it is a wall. From a
    /// fresh road square it marks that square and what it expands, and the
    /// walls beside, and notes the edges. It stops with `true` as soon as
    /// two opposite edges are touched: the squares linked to `node`, with
    /// the edges touched before, then touch them.
    ///
    /// Where `visited` is closed for the color, the search misses nothing.
    /// It returns `true` exactly if those squares and edges touch two
    /// opposite edges. With `false` it leaves `visited` closed and has
    /// marked all that is linked to `node`, and `reached` holds exactly the
    /// edges that were touched before or that those squares lie on.
    pub fn search(
        &self,
        white_start: bool,
        reached: &mut Reached,
        visited: &mut HashSet<usize>,
        node: (usize, usize),
    ) -> (found: bool)
        requires
            self.state.wf(),
            seen_ok(old(visited)@),
        ensures
            found ==> self.state.fresh(color_of(white_start), old(visited)@, at(node))
                && self.state.touched(color_of(white_start), at(node), *old(reached)).crossed(),
            found ==> final(reached).crossed(),
            seen_ok(final(visited)@),
            old(visited)@.subset_of(final(visited)@),
            self.state.fresh(color_of(white_start), old(visited)@, at(node)) ==> marked(
                final(visited)@,
                at(node),
            ),
            self.state.wall_square(at(node)) ==> marked(final(visited)@, at(node)),
            forall|sq: (int, int)|
                #![trigger marked(final(visited)@, sq)]
                marked(final(visited)@, sq) && !marked(old(visited)@, sq) ==> self.state.wall_square(
                    sq,
                ) || (self.state.fresh(color_of(white_start), old(visited)@, at(node))
                    && self.state.linked(color_of(white_start), at(node), sq)),
            old(reached).within(final(reached)),
            final(reached).within(
                &self.state.touched(color_of(white_start), at(node), *old(reached)),
            ),
            !self.state.fresh(color_of(white_start), old(visited)@, at(node)) ==> *final(reached)
                == *old(reached),
            self.state.closed(color_of(white_start), old(visited)@) ==> {
                &&& found == (self.state.fresh(color_of(white_start), old(visited)@, at(node))
                    && self.state.touched(
                    color_of(white_start),
                    at(node),
                    *old(reached),
                ).crossed())
                &&& !found ==> self.state.closed(color_of(white_start), final(visited)@)
                &&& !found && self.state.fresh(color_of(white_start), old(visited)@, at(node)) ==> {
                    &&& *final(reached) == self.state.touched(
                        color_of(white_start),
                        at(node),
                        *old(reached),
                    )
                    &&& forall|sq: (int, int)|
                        self.state.linked(color_of(white_start), at(node), sq) ==> marked(
                            final(visited)@,
                            sq,
                        )
                }
            },
    {
        broadcast use vstd::std_specs::hash::group_hash_axioms;

        let color = if white_start {
            Color::White
        } else {
            Color::Black
        };
        let n: usize = self.state.size as usize;
        let ghost seen0 = visited@;
        let ghost flags0 = *reached;
        let ghost start = at(node);
        if node.0 >= n || node.1 >= n {
            return false;
        }
        let k = key(node);
        if visited.contains(&k) {
            return false;
        }
        match self.state.get_tile(node.0 as u8, node.1 as u8).top() {
            None => {
                return false;
            },
            Some(p) => {
                if p.kind == PieceKind::Wall {
                    visited.insert(k);
                    proof {
                        lemma_wall_marked(self.state, color, seen0, start);
                    }
                    return false;
                }
                if p.color != color {
                    return false;
                }
            },
        }
        visited.insert(k);
        let mut stack: Vec<(usize, usize)> = Vec::new();
        stack.push(node);
        proof {
            lemma_search_begins(self.state, color, node, seen0, flags0);
            assert(stack@ =~= seq![node]);
        }
        while stack.len() > 0
            invariant
                self.state.wf(),
                n == self.state.size,
                color == color_of(white_start),
                start == at(node),
                seen0 == old(visited)@,
                flags0 == *old(reached),
                self.state.fresh(color, seen0, start),
                marked(visited@, start),
                search_inv(self.state, color, start, seen0, flags0, visited@, stack@, *reached, None),
                stack@.len() == 0 ==> !reached.crossed(),
            decreases 65536 - visited@.len(), stack@.len(),
        {
            let ghost waited = stack@;
            let ghost flags1 = *reached;
            let cur = stack.pop().unwrap();
            let ghost here = at(cur);
            proof {
                lemma_search_takes(self.state, color, start, seen0, flags0, visited@, waited, flags1);
                lemma_search_sound(self.state, color, start, seen0, flags0, visited@, waited, flags1, None);
                lemma_seen_len(visited@);
                assert(stack@ =~= waited.drop_last());
            }
            if cur.0 == 0 {
                reached.north = true;
            }
            if cur.0 == n - 1 {
                reached.south = true;
            }
            if cur.1 == 0 {
                reached.west = true;
            }
            if cur.1 == n - 1 {
                reached.east = true;
            }
            assert(*reached == with_edges(flags1, self.state.size, here));
            if (reached.north && reached.south) || (reached.east && reached.west) {
                proof {
                    lemma_search_sound(self.state, color, start, seen0, flags0, visited@, stack@, *reached, Some(here));
                }
                return true;
            }
            let ghost seen1 = visited@;
            if cur.0 + 1 < n {
                self.probe(color, visited, &mut stack, (cur.0 + 1, cur.1), Ghost(start), Ghost(seen0), Ghost(flags0), Ghost(*reached), Ghost(here));
            }
            let ghost seen2 = visited@;
            if cur.1 + 1 < n {
                self.probe(color, visited, &mut stack, (cur.0, cur.1 + 1), Ghost(start), Ghost(seen0), Ghost(flags0), Ghost(*reached), Ghost(here));
            }
            let ghost seen3 = visited@;
            if cur.1 > 0 {
                self.probe(color, visited, &mut stack, (cur.0, cur.1 - 1), Ghost(start), Ghost(seen0), Ghost(flags0), Ghost(*reached), Ghost(here));
            }
            let ghost seen4 = visited@;
            if cur.0 > 0 {
                self.probe(color, visited, &mut stack, (cur.0 - 1, cur.1), Ghost(start), Ghost(seen0), Ghost(flags0), Ghost(*reached), Ghost(here));
            }
            proof {
                assert forall|y: (int, int)|
                    #![trigger adjacent(here, y)]
                    adjacent(here, y) && self.state.road_square(color, y) implies marked(
                    visited@,
                    y,
                ) by {
                    if y == (here.0 + 1, here.1) {
                        assert(marked(seen2, y));
                    } else if y == (here.0, here.1 + 1) {
                        assert(marked(seen3, y));
                    } else if y == (here.0, here.1 - 1) {
                        assert(marked(seen4, y));
                    } else {
                        assert(marked(visited@, y));
                    }
                }
                assert(settled(self.state, color, visited@, *reached, here));
                lemma_search_settles(self.state, color, start, seen0, flags0, visited@, stack@, *reached, here);
                lemma_search_sound(self.state, color, start, seen0, flags0, visited@, stack@, *reached, None);
                lemma_seen_len(visited@);
            }
        }
        proof {
            assert(stack@ =~= Seq::<(usize, usize)>::empty());
            lemma_search_sound(self.state, color, start, seen0, flags0, visited@, stack@, *reached, None);
            if self.state.closed(color, seen0) {
                lemma_search_ends(self.state, color, start, seen0, flags0, visited@, *reached);
            }
        }
        false
    }
}

} // verus!
