//! Games as a game server writes them down: from its notation to moves.

use vstd::prelude::*;
use vstd::string::StringExecFns;
use crate::game::Game;
use crate::game::board::blank_cells;
use crate::game::make_standard_game;
use crate::game::notation::ptn_move;
use crate::game::notation::ptn_parsed;
use crate::game::state::Move;
use crate::game::state::MoveView;
use crate::game::state::starting_supply;
use crate::game::text::begins_with;
use crate::game::text::lines;
use crate::game::text::lines_of;
use crate::game::text::starts_with;
use crate::game::text::chars_of;
use crate::game::text::digits_of;
use crate::game::text::is_digit;
use crate::game::text::lowercase;
use crate::game::text::lowercase_of;
use crate::game::text::number;
use crate::game::text::parse_number;
use crate::game::text::push_number;
use crate::game::text::split;
use crate::game::text::split_chars;
use crate::game::text::text_of;
use crate::game::text::texts_of;
use crate::game::text::words;
use crate::game::text::words_of;

verus! {

/// The number that the server gives a file: `A` is 1 and `F` is 6. Any
/// other character is 0.
pub open spec fn column_number(ch: char) -> i32 {
    if ch == 'A' {
        1
    } else if ch == 'B' {
        2
    } else if ch == 'C' {
        3
    } else if ch == 'D' {
        4
    } else if ch == 'E' {
        5
    } else if ch == 'F' {
        6
    } else {
        0
    }
}

/// The number that the server gives a file.
pub fn decode_column(ch: char) -> (n: i32)
    ensures
        n == column_number(ch),
{
    if ch == 'A' {
        1
    } else if ch == 'B' {
        2
    } else if ch == 'C' {
        3
    } else if ch == 'D' {
        4
    } else if ch == 'E' {
        5
    } else if ch == 'F' {
        6
    } else {
        0
    }
}

/// The number of pieces that a list of drops picks up: the sum of the
/// numbers that they spell, if each spells one and the sum stays within 32
/// bits.
pub open spec fn picked_up(drops: Seq<Seq<char>>) -> Option<nat>
    decreases drops.len(),
{
    if drops.len() == 0 {
        Some(0)
    } else {
        match (picked_up(drops.drop_last()), number(drops.last(), u32::MAX as nat)) {
            (Some(sum), Some(n)) => if sum + n <= u32::MAX {
                Some(sum + n)
            } else {
                None
            },
            _ => None,
        }
    }
}

/// The texts of a list, one after the other.
pub open spec fn joined(parts: Seq<Seq<char>>) -> Seq<char>
    decreases parts.len(),
{
    if parts.len() == 0 {
        Seq::<char>::empty()
    } else {
        joined(parts.drop_last()) + parts.last()
    }
}

/// Whether the server's squares `source` and `dest` tell the direction of a
/// move: they do if their files differ, and else if each has a decimal
/// digit for its rank.
pub open spec fn tells_direction(source: Seq<char>, dest: Seq<char>) -> bool {
    source.len() > 0 && dest.len() > 0 && (column_number(source[0]) != column_number(dest[0]) || (
    source.len() > 1 && dest.len() > 1 && is_digit(source[1]) && is_digit(dest[1])))
}

/// The direction from `source` to `dest`: `>` to a higher file and `<` to a
/// lower one; in the same file `-` to a lower rank, and else `+`.
pub open spec fn direction(source: Seq<char>, dest: Seq<char>) -> char {
    if column_number(source[0]) < column_number(dest[0]) {
        '>'
    } else if column_number(source[0]) > column_number(dest[0]) {
        '<'
    } else if source[1] > dest[1] {
        '-'
    } else {
        '+'
    }
}

/// The notation of a placement on a square, given in lower case: the
/// square alone for a flat; with a mark, the square after `C` where the
/// mark is `C`, and after `S` where it is anything else.
pub open spec fn placed(square: Seq<char>, mark: Option<Seq<char>>) -> Seq<char> {
    match mark {
        None => square,
        Some(m) => seq![if m == seq!['C'] {
            'C'
        } else {
            'S'
        }] + square,
    }
}

/// The notation of a move that the server writes as `text`, and `None`
/// where the text is cut short or a number in it is none.
///
/// The server writes `P`, a square and for a capstone `C`, for a wall
/// anything else: the notation is that of a placement on the square in
/// lower case. It writes `M`, two squares and the drops: the notation is
/// the number of pieces picked up, the first square, the direction and the
/// drops. A text that begins with another word has the empty notation.
pub open spec fn transformed(text: Seq<char>) -> Option<Seq<char>> {
    let w = words(text);
    if w.len() == 0 {
        None
    } else if w[0] == seq!['P'] {
        if w.len() < 2 {
            None
        } else {
            Some(
                placed(
                    lowercase_of(w[1]),
                    if w.len() == 2 {
                        None
                    } else {
                        Some(w[2])
                    },
                ),
            )
        }
    } else if w[0] == seq!['M'] {
        if w.len() < 3 || !tells_direction(w[1], w[2]) {
            None
        } else {
            match picked_up(w.skip(3)) {
                None => None,
                Some(total) => Some(
                    digits_of(total) + w[1] + seq![direction(w[1], w[2])] + joined(w.skip(3)),
                ),
            }
        }
    } else {
        Some(Seq::<char>::empty())
    }
}

/// Whether a word is the one character `c`.
fn is_letter(word: &Vec<char>, c: char) -> (b: bool)
    ensures
        b == (word@ == seq![c]),
{
    let b = word.len() == 1 && word[0] == c;
    proof {
        if b {
            assert(word@ =~= seq![c]);
        } else if word@.len() == 1 {
            assert(seq![c][0] == c);
        }
    }
    b
}

/// The notation of a placement on a square, given in lower case.
pub fn placement_notation(square: String, mark: Option<&Vec<char>>) -> (ptn: String)
    ensures
        ptn@ == placed(
            square@,
            match mark {
                Some(m) => Some(m@),
                None => None,
            },
        ),
{
    match mark {
        None => square,
        Some(m) => {
            let mut ptn = String::new();
            if is_letter(m, 'C') {
                ptn.push('C');
            } else {
                ptn.push('S');
            }
            proof {
                assert(ptn@ =~= seq![if m@ == seq!['C'] {
                    'C'
                } else {
                    'S'
                }]);
            }
            ptn.append(square.as_str());
            ptn
        },
    }
}

/// The notation of a move that the server writes as `text`. The square of
/// a placement is put in lower case by the standard library.
#[verifier::loop_isolation(false)]
pub fn transform_notation(text: &str) -> (res: Option<String>)
    ensures
        match res {
            Some(s) => transformed(text@) == Some(s@),
            None => transformed(text@) is None,
        },
{
    let chars = chars_of(text);
    let w = words_of(chars.as_slice());
    let ghost ws = words(text@);
    proof {
        assert(texts_of(w@) == ws);
        assert(forall|i: int| 0 <= i < w@.len() ==> (#[trigger] w@[i])@ == ws[i]);
    }
    if w.len() == 0 {
        return None;
    }
    if is_letter(&w[0], 'P') {
        if w.len() < 2 {
            return None;
        }
        let given = text_of(w[1].as_slice());
        let square = lowercase(given.as_str());
        if w.len() == 2 {
            return Some(placement_notation(square, None));
        }
        return Some(placement_notation(square, Some(&w[2])));
    }
    if !is_letter(&w[0], 'M') {
        return Some(String::new());
    }
    if w.len() < 3 {
        return None;
    }
    let source = &w[1];
    let dest = &w[2];
    if source.len() == 0 || dest.len() == 0 {
        return None;
    }
    let col_dif = decode_column(source[0]) - decode_column(dest[0]);
    let dir = if col_dif < 0 {
        '>'
    } else if col_dif > 0 {
        '<'
    } else {
        if source.len() < 2 || dest.len() < 2 {
            return None;
        }
        let from = source[1];
        let to = dest[1];
        if !('0' <= from && from <= '9' && '0' <= to && to <= '9') {
            return None;
        }
        if from > to {
            '-'
        } else {
            '+'
        }
    };
    let mut rest: Vec<char> = Vec::new();
    let mut total: u32 = 0;
    let mut i: usize = 3;
    proof {
        assert(ws.skip(3).take(0) =~= Seq::<Seq<char>>::empty());
    }
    while i < w.len()
        invariant
            3 <= i <= w@.len(),
            texts_of(w@) == ws,
            picked_up(ws.skip(3).take(i - 3)) == Some(total as nat),
            rest@ == joined(ws.skip(3).take(i - 3)),
        decreases w@.len() - i,
    {
        let ghost drops = ws.skip(3);
        proof {
            assert(drops.take(i - 3 + 1).drop_last() =~= drops.take(i - 3));
            assert(drops.take(i - 3 + 1).last() == w@[i as int]@);
        }
        let n = match parse_number(w[i].as_slice(), u32::MAX) {
            Some(n) => n,
            None => {
                proof {
                    lemma_picked_up_stays(drops, i - 3 + 1);
                }
                return None;
            },
        };
        if n > u32::MAX - total {
            proof {
                lemma_picked_up_stays(drops, i - 3 + 1);
            }
            return None;
        }
        total += n;
        let mut j: usize = 0;
        let ghost before = rest@;
        while j < w[i].len()
            invariant
                i < w@.len(),
                0 <= j <= w@[i as int]@.len(),
                rest@ == before + w@[i as int]@.take(j as int),
            decreases w@[i as int]@.len() - j,
        {
            rest.push(w[i][j]);
            proof {
                assert(rest@ =~= before + w@[i as int]@.take(j + 1));
            }
            j += 1;
        }
        proof {
            assert(w@[i as int]@.take(w@[i as int]@.len() as int) =~= w@[i as int]@);
        }
        i += 1;
    }
    proof {
        assert(ws.skip(3).take(ws.skip(3).len() as int) =~= ws.skip(3));
    }
    let mut out: Vec<char> = Vec::new();
    push_number(&mut out, total);
    let mut j: usize = 0;
    let ghost before = out@;
    while j < source.len()
        invariant
            0 <= j <= source@.len(),
            out@ == before + source@.take(j as int),
        decreases source@.len() - j,
    {
        out.push(source[j]);
        proof {
            assert(out@ =~= before + source@.take(j + 1));
        }
        j += 1;
    }
    proof {
        assert(source@.take(source@.len() as int) =~= source@);
    }
    out.push(dir);
    out.append(&mut rest);
    proof {
        assert(out@ =~= digits_of(total as nat) + ws[1] + seq![direction(ws[1], ws[2])] + joined(
            ws.skip(3),
        ));
    }
    Some(text_of(out.as_slice()))
}

/// Drops that no longer add up do not add up later on.
proof fn lemma_picked_up_stays(drops: Seq<Seq<char>>, k: int)
    requires
        0 <= k <= drops.len(),
        picked_up(drops.take(k)) is None,
    ensures
        picked_up(drops) is None,
    decreases drops.len() - k,
{
    if k < drops.len() {
        assert(drops.take(k + 1).drop_last() =~= drops.take(k));
        lemma_picked_up_stays(drops, k + 1);
    } else {
        assert(drops.take(k) =~= drops);
    }
}

/// The moves of a list as mathematical values.
pub open spec fn views_of(moves: Seq<Move>) -> Seq<MoveView> {
    moves.map_values(|m: Move| m@)
}

/// The move that the server writes as `text`: what its notation stands
/// for.
pub open spec fn playtak_move(text: Seq<char>) -> Option<MoveView> {
    match transformed(text) {
        Some(ptn) => ptn_parsed(ptn),
        None => None,
    }
}

/// The moves that the server writes as the texts of a list, if each of
/// them is a move.
pub open spec fn playtak_moves(texts: Seq<Seq<char>>) -> Option<Seq<MoveView>>
    decreases texts.len(),
{
    if texts.len() == 0 {
        Some(Seq::<MoveView>::empty())
    } else {
        match (playtak_moves(texts.drop_last()), playtak_move(texts.last())) {
            (Some(moves), Some(m)) => Some(moves.push(m)),
            _ => None,
        }
    }
}

/// Moves that fail to decode fail later on too.
proof fn lemma_playtak_moves_stay(texts: Seq<Seq<char>>, k: int)
    requires
        0 <= k <= texts.len(),
        playtak_moves(texts.take(k)) is None,
    ensures
        playtak_moves(texts) is None,
    decreases texts.len() - k,
{
    if k < texts.len() {
        assert(texts.take(k + 1).drop_last() =~= texts.take(k));
        lemma_playtak_moves_stay(texts, k + 1);
    } else {
        assert(texts.take(k) =~= texts);
    }
}

/// Reads a game as the server writes it down: its moves, with commas
/// between them. `None` where one of them is no move.
pub fn decode_playtak_notation(text: &str) -> (res: Option<Vec<Move>>)
    ensures
        match res {
            Some(moves) => playtak_moves(split(text@, ',')) == Some(views_of(moves@)),
            None => playtak_moves(split(text@, ',')) is None,
        },
{
    let chars = chars_of(text);
    let pieces = split_chars(chars.as_slice(), ',');
    let ghost texts = split(text@, ',');
    let mut moves: Vec<Move> = Vec::new();
    let mut i: usize = 0;
    proof {
        assert(texts.take(0) =~= Seq::<Seq<char>>::empty());
        assert(views_of(moves@) =~= Seq::<MoveView>::empty());
    }
    while i < pieces.len()
        invariant
            0 <= i <= pieces@.len(),
            texts == split(text@, ','),
            texts_of(pieces@) == texts,
            playtak_moves(texts.take(i as int)) == Some(views_of(moves@)),
        decreases pieces@.len() - i,
    {
        let ghost done = views_of(moves@);
        proof {
            assert(texts.take(i + 1).drop_last() =~= texts.take(i as int));
            assert(texts.take(i + 1).last() == pieces@[i as int]@);
        }
        let piece = text_of(pieces[i].as_slice());
        let ptn = match transform_notation(piece.as_str()) {
            Some(ptn) => ptn,
            None => {
                proof {
                    lemma_playtak_moves_stay(texts, i + 1);
                }
                return None;
            },
        };
        let m = match ptn_move(ptn.as_str()) {
            Some(m) => m,
            None => {
                proof {
                    lemma_playtak_moves_stay(texts, i + 1);
                }
                return None;
            },
        };
        moves.push(m);
        proof {
            assert(views_of(moves@) =~= done.push(m@));
        }
        i += 1;
    }
    proof {
        assert(texts.take(texts.len() as int) =~= texts);
    }
    Some(moves)
}

/// What a line of a game file says: the board's size where it is the
/// header of the size, and the moves where it is a line of moves. `None`
/// where the line is cut short, the size is no number up to 255, or a
/// move is none.
///
/// A header begins with `[`. The header of the size begins with `[Size `
/// and has the size between its first two quotation marks. An empty line
/// says nothing. On any other line the first word is the number of the
/// turn, and the next one or two words are moves.
pub open spec fn file_line(line: Seq<char>) -> Option<(Option<u8>, Seq<MoveView>)> {
    if begins_with(line, seq!['[']) {
        if begins_with(line, seq!['[', 'S', 'i', 'z', 'e', ' ']) {
            let parts = split(line, '"');
            if parts.len() < 2 {
                None
            } else {
                match number(parts[1], 255) {
                    Some(n) => Some((Some(n as u8), Seq::<MoveView>::empty())),
                    None => None,
                }
            }
        } else {
            Some((None, Seq::<MoveView>::empty()))
        }
    } else if line.len() == 0 {
        Some((None, Seq::<MoveView>::empty()))
    } else {
        let w = words(line);
        if w.len() < 2 {
            None
        } else {
            match ptn_parsed(w[1]) {
                None => None,
                Some(first) => if w.len() == 2 {
                    Some((None, seq![first]))
                } else {
                    match ptn_parsed(w[2]) {
                        None => None,
                        Some(second) => Some((None, seq![first, second])),
                    }
                },
            }
        }
    }
}

/// What the lines of a game file say: the size of the last header of the
/// size, and the moves of all lines in order.
pub open spec fn file_lines(lines: Seq<Seq<char>>) -> Option<(Option<u8>, Seq<MoveView>)>
    decreases lines.len(),
{
    if lines.len() == 0 {
        Some((None, Seq::<MoveView>::empty()))
    } else {
        match (file_lines(lines.drop_last()), file_line(lines.last())) {
            (Some(before), Some(here)) => Some(
                (
                    if here.0 is Some {
                        here.0
                    } else {
                        before.0
                    },
                    before.1 + here.1,
                ),
            ),
            _ => None,
        }
    }
}

/// Lines that fail to read fail later on too.
proof fn lemma_file_lines_stay(all: Seq<Seq<char>>, k: int)
    requires
        0 <= k <= all.len(),
        file_lines(all.take(k)) is None,
    ensures
        file_lines(all) is None,
    decreases all.len() - k,
{
    if k < all.len() {
        assert(all.take(k + 1).drop_last() =~= all.take(k));
        lemma_file_lines_stay(all, k + 1);
    } else {
        assert(all.take(k) =~= all);
    }
}

/// What one line of a game file says.
fn read_line(line: &Vec<char>) -> (res: Option<(Option<u8>, Vec<Move>)>)
    ensures
        match res {
            Some(said) => file_line(line@) == Some((said.0, views_of(said.1@))),
            None => file_line(line@) is None,
        },
{
    let mut moves: Vec<Move> = Vec::new();
    proof {
        reveal_strlit("[");
        reveal_strlit("[Size ");
        assert("["@ =~= seq!['[']);
        assert("[Size "@ =~= seq!['[', 'S', 'i', 'z', 'e', ' ']);
        assert(views_of(moves@) =~= Seq::<MoveView>::empty());
    }
    if starts_with(line.as_slice(), "[") {
        if starts_with(line.as_slice(), "[Size ") {
            let parts = split_chars(line.as_slice(), '"');
            proof {
                assert(texts_of(parts@) == split(line@, '"'));
                assert(forall|i: int| 0 <= i < parts@.len() ==> (#[trigger] parts@[i])@ == split(
                    line@,
                    '"',
                )[i]);
            }
            if parts.len() < 2 {
                return None;
            }
            return match parse_number(parts[1].as_slice(), 255) {
                Some(n) => Some((Some(n as u8), moves)),
                None => None,
            };
        }
        return Some((None, moves));
    }
    if line.len() == 0 {
        return Some((None, moves));
    }
    let w = words_of(line.as_slice());
    proof {
        assert(texts_of(w@) == words(line@));
        assert(forall|i: int| 0 <= i < w@.len() ==> (#[trigger] w@[i])@ == words(line@)[i]);
    }
    if w.len() < 2 {
        return None;
    }
    let first = text_of(w[1].as_slice());
    match ptn_move(first.as_str()) {
        Some(m) => {
            moves.push(m);
            proof {
                assert(views_of(moves@) =~= seq![m@]);
            }
        },
        None => {
            return None;
        },
    }
    if w.len() > 2 {
        let ghost one = views_of(moves@);
        let second = text_of(w[2].as_slice());
        match ptn_move(second.as_str()) {
            Some(m) => {
                moves.push(m);
                proof {
                    assert(views_of(moves@) =~= seq![one[0], m@]);
                }
            },
            None => {
                return None;
            },
        }
    }
    Some((None, moves))
}

/// Reads a game file: a game on an empty board of the size that the file
/// names, with the standard supplies and no komi, and the moves that the
/// file lists. `None` where the file names no size or a line of it cannot
/// be read.
pub fn read_formatted_ptn(string: String) -> (res: Option<(Game, Vec<Move>)>)
    ensures
        match res {
            Some(read) => file_lines(lines(string@)) == Some((Some(read.0.rules.state.size), views_of(read.1@)))
                && read.0.wf() && read.0.rules.komi == 0 && read.0.rules.state.ply() == 0
                && read.0.rules.state.cells() == blank_cells(read.0.rules.state.size as nat)
                && (read.0.rules.state.player1.pieces, read.0.rules.state.player1.caps)
                == starting_supply(read.0.rules.state.size) && (
                read.0.rules.state.player2.pieces,
                read.0.rules.state.player2.caps,
            ) == starting_supply(read.0.rules.state.size),
            None => match file_lines(lines(string@)) {
                Some(said) => said.0 is None,
                None => true,
            },
        },
{
    let chars = chars_of(string.as_str());
    let found = lines_of(chars.as_slice());
    let ghost all = lines(string@);
    let mut size: Option<u8> = None;
    let mut moves: Vec<Move> = Vec::new();
    let mut i: usize = 0;
    proof {
        assert(all.take(0) =~= Seq::<Seq<char>>::empty());
        assert(views_of(moves@) =~= Seq::<MoveView>::empty());
    }
    while i < found.len()
        invariant
            0 <= i <= found@.len(),
            all == lines(string@),
            texts_of(found@) == all,
            file_lines(all.take(i as int)) == Some((size, views_of(moves@))),
        decreases found@.len() - i,
    {
        let ghost done = views_of(moves@);
        proof {
            assert(all.take(i + 1).drop_last() =~= all.take(i as int));
            assert(all.take(i + 1).last() == found@[i as int]@);
        }
        match read_line(&found[i]) {
            None => {
                proof {
                    lemma_file_lines_stay(all, i + 1);
                }
                return None;
            },
            Some(said) => {
                if said.0.is_some() {
                    size = said.0;
                }
                let mut more = said.1;
                let ghost added = views_of(more@);
                moves.append(&mut more);
                proof {
                    assert(views_of(moves@) =~= done + added);
                }
            },
        }
        i += 1;
    }
    proof {
        assert(all.take(all.len() as int) =~= all);
    }
    match size {
        Some(n) => Some((make_standard_game(n, 0), moves)),
        None => None,
    }
}

} // verus!
