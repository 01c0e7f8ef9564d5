//! The state as text, for a reader.

use vstd::prelude::*;
use vstd::string::StrSliceExecFns;
use crate::game::state::Piece;
use crate::game::state::State;
use crate::game::state::Tile;
use crate::game::text::digits_of;
use crate::game::text::push_number;
use crate::game::text::text_of;

verus! {

/// The letters of the pieces of a stack, bottom first, with a comma and a
/// space between them.
pub open spec fn pieces_text(stack: Seq<Piece>) -> Seq<char>
    decreases stack.len(),
{
    if stack.len() == 0 {
        Seq::<char>::empty()
    } else if stack.len() == 1 {
        seq![stack[0].spec_symbol()]
    } else {
        pieces_text(stack.drop_last()) + seq![',', ' ', stack.last().spec_symbol()]
    }
}

/// A stack as text: the letters of its pieces in square brackets.
pub open spec fn stack_text(stack: Seq<Piece>) -> Seq<char> {
    seq!['['] + pieces_text(stack) + seq![']']
}

/// The first `upto` squares of a row as text, one stack after the other.
pub open spec fn row_text(st: State, row: int, upto: int) -> Seq<char>
    decreases upto,
{
    if upto <= 0 {
        Seq::<char>::empty()
    } else {
        row_text(st, row, upto - 1) + stack_text(st.stack(row, upto - 1))
    }
}

/// The top `done` rows of the board as text, the highest row first, each
/// followed by a line feed.
pub open spec fn rows_text(st: State, done: int) -> Seq<char>
    decreases done,
{
    if done <= 0 {
        Seq::<char>::empty()
    } else {
        rows_text(st, done - 1) + row_text(st, st.size - done, st.size as int) + seq!['\n']
    }
}

/// The state as text: the side whose ply is even or odd, the rows of the
/// board from the highest down, and the supplies of both sides.
pub open spec fn state_text(st: State) -> Seq<char> {
    (if st.ply() % 2 == 0 {
        "White to move: \n"@
    } else {
        "Black to move: \n"@
    }) + rows_text(st, st.size as int) + "\nWhite: ("@ + counter_text(st.player1.pieces) + ", "@
        + counter_text(st.player1.caps) + ") Black: ("@ + counter_text(st.player2.pieces) + ", "@
        + counter_text(st.player2.caps) + ")"@
}

/// A counter as text: its decimal digits, after a minus sign where it is
/// negative.
pub open spec fn counter_text(n: i32) -> Seq<char> {
    if n < 0 {
        seq!['-'] + digits_of((-n) as nat)
    } else {
        digits_of(n as nat)
    }
}

/// Appends a counter as text.
fn push_counter(out: &mut Vec<char>, n: i32)
    ensures
        final(out)@ == old(out)@ + counter_text(n),
{
    if n < 0 {
        out.push('-');
        let size: u32 = (-(n as i64)) as u32;
        push_number(out, size);
        proof {
            assert(out@ =~= old(out)@ + counter_text(n));
        }
    } else {
        push_number(out, n as u32);
    }
}

/// Appends a text.
fn push_text(out: &mut Vec<char>, s: &str)
    ensures
        final(out)@ == old(out)@ + s@,
{
    let n = s.unicode_len();
    let mut i: usize = 0;
    proof {
        assert(out@ =~= old(out)@ + s@.take(0));
    }
    while i < n
        invariant
            n == s@.len(),
            0 <= i <= n,
            out@ == old(out)@ + s@.take(i as int),
        decreases n - i,
    {
        out.push(s.get_char(i));
        proof {
            assert(out@ =~= old(out)@ + s@.take(i + 1));
        }
        i += 1;
    }
    proof {
        assert(s@.take(n as int) =~= s@);
    }
}

/// Appends a stack as text.
fn push_stack(out: &mut Vec<char>, tile: &Tile)
    ensures
        final(out)@ == old(out)@ + stack_text(tile@),
{
    out.push('[');
    let ghost open = out@;
    let mut i: usize = 0;
    proof {
        assert(tile@.take(0) =~= Seq::<Piece>::empty());
        assert(out@ =~= open + pieces_text(tile@.take(0)));
    }
    while i < tile.stack.len()
        invariant
            0 <= i <= tile@.len(),
            out@ == open + pieces_text(tile@.take(i as int)),
        decreases tile@.len() - i,
    {
        proof {
            assert(tile@.take(i + 1).drop_last() =~= tile@.take(i as int));
            assert(tile@.take(i + 1).last() == tile@[i as int]);
        }
        if i > 0 {
            out.push(',');
            out.push(' ');
        }
        out.push(tile.stack[i].symbol());
        proof {
            if i == 0 {
                assert(tile@.take(1)[0] == tile@[0]);
                assert(out@ =~= open + pieces_text(tile@.take(1)));
            } else {
                assert(out@ =~= open + pieces_text(tile@.take(i + 1)));
            }
        }
        i += 1;
    }
    proof {
        assert(tile@.take(tile@.len() as int) =~= tile@);
    }
    out.push(']');
    proof {
        assert(out@ =~= old(out)@ + stack_text(tile@));
    }
}

impl Tile {
    /// The stack as text: the letters of its pieces, bottom first, in
    /// square brackets.
    pub fn render(&self) -> (s: String)
        ensures
            s@ == stack_text(self@),
    {
        let mut out: Vec<char> = Vec::new();
        push_stack(&mut out, self);
        proof {
            assert(out@ =~= stack_text(self@));
        }
        text_of(out.as_slice())
    }
}

impl State {
    /// The state as text.
    pub fn render(&self) -> (s: String)
        requires
            self.board_ok(),
        ensures
            s@ == state_text(*self),
    {
        let mut out: Vec<char> = Vec::new();
        if self.notation.len() % 2 == 0 {
            push_text(&mut out, "White to move: \n");
        } else {
            push_text(&mut out, "Black to move: \n");
        }
        let ghost head = out@;
        let n: u8 = self.size;
        let mut done: u8 = 0;
        proof {
            assert(out@ =~= head + rows_text(*self, 0));
        }
        while done < n
            invariant
                self.board_ok(),
                n == self.size,
                0 <= done <= n,
                out@ == head + rows_text(*self, done as int),
            decreases n - done,
        {
            let row: u8 = n - done - 1;
            let ghost above = out@;
            let mut col: u8 = 0;
            proof {
                assert(out@ =~= above + row_text(*self, row as int, 0));
            }
            while col < n
                invariant
                    self.board_ok(),
                    n == self.size,
                    0 <= row < n,
                    0 <= col <= n,
                    out@ == above + row_text(*self, row as int, col as int),
                decreases n - col,
            {
                push_stack(&mut out, self.get_tile(row, col));
                proof {
                    assert(out@ =~= above + row_text(*self, row as int, col + 1));
                }
                col += 1;
            }
            out.push('\n');
            proof {
                assert(out@ =~= head + rows_text(*self, done + 1));
            }
            done += 1;
        }
        push_text(&mut out, "\nWhite: (");
        push_counter(&mut out, self.player1.pieces);
        push_text(&mut out, ", ");
        push_counter(&mut out, self.player1.caps);
        push_text(&mut out, ") Black: (");
        push_counter(&mut out, self.player2.pieces);
        push_text(&mut out, ", ");
        push_counter(&mut out, self.player2.caps);
        push_text(&mut out, ")");
        proof {
            assert(out@ =~= state_text(*self));
        }
        text_of(out.as_slice())
    }
}

} // verus!
