//! Moves in notation: from the text of a move to the move.

use vstd::prelude::*;
use vstd::string::StrSliceExecFns;
use regex::Regex;
use crate::game::state::Move;
use crate::game::state::MoveView;
use crate::game::state::PieceKind;
use crate::game::text::number;
use crate::game::text::parse_number;

verus! {

/// The pattern of a move in notation: a count, the letter of a capstone or
/// a wall, a file, a rank, and for a throw a direction, the drops and a
/// mark for a flattened wall. Letters may be of either case.
pub const PTN_PATTERN: &'static str = r"^(\d)?(?i)([CS])?([a-h])([1-8])(([<>+-])([1-8]+)?(\*)?)?$";

/// What the `regex` crate finds when it matches `text` against `pattern`:
/// `None` where it refuses the pattern, `Some(None)` where the text does not
/// match, and else the capture groups, the whole match first, each with
/// the text that it matched or `None` where it took no part.
pub uninterp spec fn regex_groups(pattern: Seq<char>, text: Seq<char>) -> Option<
    Option<Seq<Option<Seq<char>>>>,
>;

/// Capture groups as a mathematical value.
pub open spec fn groups_of(groups: Vec<Option<Vec<char>>>) -> Seq<Option<Seq<char>>> {
    Seq::new(
        groups@.len(),
        |i: int|
            match groups@[i] {
                Some(v) => Some(v@),
                None => None,
            },
    )
}

/// The outcome of a match as a mathematical value.
pub open spec fn captured(res: Option<Option<Vec<Option<Vec<char>>>>>) -> Option<
    Option<Seq<Option<Seq<char>>>>,
> {
    match res {
        None => None,
        Some(None) => Some(None),
        Some(Some(groups)) => Some(Some(groups_of(groups))),
    }
}

/// Compiles the pattern with `Regex::new` and matches the text with
/// `Regex::captures`; the groups are read off with `Captures::iter` and
/// `Match::as_str`. The result is what [`regex_groups`] names: nothing more
/// is claimed of it.
#[verifier::external_body]
fn regex_captures(pattern: &str, text: &str) -> (res: Option<Option<Vec<Option<Vec<char>>>>>)
    ensures
        captured(res) == regex_groups(pattern@, text@),
{
    match Regex::new(pattern) {
        Err(_) => None,
        Ok(re) => Some(
            re.captures(text).map(
                |caps| caps.iter().map(|g| g.map(|m| m.as_str().chars().collect())).collect(),
            ),
        ),
    }
}

/// The capture group `i`, or `None` where there is no such group.
pub open spec fn group(groups: Seq<Option<Seq<char>>>, i: int) -> Option<Seq<char>> {
    if 0 <= i < groups.len() {
        groups[i]
    } else {
        None
    }
}

/// The number of pieces that a character of the drops stands for: the
/// value of a hexadecimal digit, and 8 for any other character.
pub open spec fn drop_of(c: char) -> u8 {
    if '0' <= c <= '9' {
        (c as u32 - '0' as u32) as u8
    } else if 'a' <= c <= 'f' {
        (c as u32 - 'a' as u32 + 10) as u8
    } else if 'A' <= c <= 'F' {
        (c as u32 - 'A' as u32 + 10) as u8
    } else {
        8
    }
}

/// The number that a group stands for: `absent` for a missing group, the
/// number that the group spells if that is at most 255, and else 1.
pub open spec fn number_of(g: Option<Seq<char>>, absent: u8) -> u8 {
    match g {
        None => absent,
        Some(s) => match number(s, 255) {
            Some(n) => n as u8,
            None => 1,
        },
    }
}

/// The row that the rank group stands for: rank 1 is row 0. A missing group
/// and a rank 0 stand for row 0.
pub open spec fn row_of(g: Option<Seq<char>>) -> u8 {
    if number_of(g, 1) == 0 {
        0
    } else {
        (number_of(g, 1) - 1) as u8
    }
}

/// The column that a lower-case file stands for: `a` is column 0 and `h`
/// column 7. Any other text stands for column 0.
pub open spec fn col_of(file: Seq<char>) -> u8 {
    if file.len() == 1 && 'a' <= file[0] <= 'h' {
        (file[0] as u32 - 'a' as u32) as u8
    } else {
        0
    }
}

/// The column that the file group stands for: a file from `a` to `h`, or
/// from `A` to `H`, is a column from 0 to 7. A missing group and any other
/// text stand for column 0.
pub open spec fn file_col(g: Option<Seq<char>>) -> u8 {
    match g {
        None => 0,
        Some(s) => if s.len() == 1 && 'A' <= s[0] <= 'H' {
            (s[0] as u32 - 'A' as u32) as u8
        } else {
            col_of(s)
        },
    }
}

/// The kind of piece that the piece group stands for: `S` a wall, `C` a
/// capstone, in either case; a flat without the group.
pub open spec fn kind_of(g: Option<Seq<char>>) -> PieceKind {
    match g {
        Some(s) => if s.len() == 1 && (s[0] == 'S' || s[0] == 's') {
            PieceKind::Wall
        } else if s.len() == 1 && (s[0] == 'C' || s[0] == 'c') {
            PieceKind::Cap
        } else {
            PieceKind::Flat
        },
        None => PieceKind::Flat,
    }
}

/// The move that the capture groups of a notation stand for. With a
/// direction (group 6) it is a throw: of the count in group 1, or 1; from
/// the rank in group 4 and the file in group 3; in the direction given by
/// the group's last character; with the drops of group 7, or one piece on
/// one square. Without a direction it is a placement of the kind in group 2
/// on that square. `text` is the notation itself.
pub open spec fn ptn_decoded(groups: Seq<Option<Seq<char>>>, text: Seq<char>) -> MoveView {
    let row = row_of(group(groups, 4));
    let col = file_col(group(groups, 3));
    match group(groups, 6) {
        Some(d) => MoveView::Throw(
            (number_of(group(groups, 1), 1), row, col),
            if d.len() > 0 {
                d.last()
            } else {
                '+'
            },
            match group(groups, 7) {
                Some(v) => v.map_values(|c: char| drop_of(c)),
                None => seq![1u8],
            },
            text,
        ),
        None => MoveView::Place(kind_of(group(groups, 2)), (row, col), text),
    }
}

/// The column that a lower-case file stands for.
pub fn col_match(string: String) -> (col: u8)
    ensures
        col == col_of(string@),
{
    let s = string.as_str();
    if s.unicode_len() != 1 {
        return 0;
    }
    let c = s.get_char(0);
    if 'a' <= c && c <= 'h' {
        (c as u32 - 'a' as u32) as u8
    } else {
        0
    }
}

/// The capture group `i`, or `None` where there is no such group.
fn group_at(groups: &Vec<Option<Vec<char>>>, i: usize) -> (g: Option<&Vec<char>>)
    ensures
        match g {
            Some(v) => group(groups_of(*groups), i as int) == Some(v@),
            None => group(groups_of(*groups), i as int) is None,
        },
{
    if i < groups.len() {
        match &groups[i] {
            Some(v) => Some(v),
            None => None,
        }
    } else {
        None
    }
}

/// The number that a group stands for.
fn number_from(g: Option<&Vec<char>>, absent: u8) -> (n: u8)
    ensures
        n == number_of(
            match g {
                Some(v) => Some(v@),
                None => None,
            },
            absent,
        ),
{
    match g {
        None => absent,
        Some(v) => match parse_number(v.as_slice(), 255) {
            Some(n) => n as u8,
            None => 1,
        },
    }
}

/// The column that the file group stands for.
fn column_from(g: Option<&Vec<char>>) -> (col: u8)
    ensures
        col == file_col(
            match g {
                Some(v) => Some(v@),
                None => None,
            },
        ),
{
    match g {
        None => 0,
        Some(v) => {
            if v.len() != 1 {
                return 0;
            }
            let c = v[0];
            if 'a' <= c && c <= 'h' {
                (c as u32 - 'a' as u32) as u8
            } else if 'A' <= c && c <= 'H' {
                (c as u32 - 'A' as u32) as u8
            } else {
                0
            }
        },
    }
}

/// The kind of piece that the piece group stands for.
fn kind_from(g: Option<&Vec<char>>) -> (kind: PieceKind)
    ensures
        kind == kind_of(
            match g {
                Some(v) => Some(v@),
                None => None,
            },
        ),
{
    match g {
        None => PieceKind::Flat,
        Some(v) => {
            if v.len() != 1 {
                PieceKind::Flat
            } else if v[0] == 'S' || v[0] == 's' {
                PieceKind::Wall
            } else if v[0] == 'C' || v[0] == 'c' {
                PieceKind::Cap
            } else {
                PieceKind::Flat
            }
        },
    }
}

/// The number of pieces that a character of the drops stands for.
fn drop_from(c: char) -> (n: u8)
    ensures
        n == drop_of(c),
{
    if '0' <= c && c <= '9' {
        (c as u32 - '0' as u32) as u8
    } else if 'a' <= c && c <= 'f' {
        (c as u32 - 'a' as u32 + 10) as u8
    } else if 'A' <= c && c <= 'F' {
        (c as u32 - 'A' as u32 + 10) as u8
    } else {
        8
    }
}

/// The move that the capture groups of a notation stand for; `string` is
/// the notation itself.
pub fn move_from_groups(groups: &Vec<Option<Vec<char>>>, string: &str) -> (m: Move)
    ensures
        m@ == ptn_decoded(groups_of(*groups), string@),
{
    let rank = number_from(group_at(groups, 4), 1);
    let row: u8 = if rank == 0 {
        0
    } else {
        rank - 1
    };
    let col = column_from(group_at(groups, 3));
    match group_at(groups, 6) {
        Some(d) => {
            let dir = if d.len() > 0 {
                d[d.len() - 1]
            } else {
                '+'
            };
            let count = number_from(group_at(groups, 1), 1);
            let mut drops: Vec<u8> = Vec::new();
            match group_at(groups, 7) {
                Some(v) => {
                    let mut i: usize = 0;
                    while i < v.len()
                        invariant
                            0 <= i <= v@.len(),
                            drops@ == v@.take(i as int).map_values(|c: char| drop_of(c)),
                        decreases v@.len() - i,
                    {
                        drops.push(drop_from(v[i]));
                        proof {
                            assert(drops@ =~= v@.take(i + 1).map_values(|c: char| drop_of(c)));
                        }
                        i += 1;
                    }
                    proof {
                        assert(v@.take(v@.len() as int) =~= v@);
                    }
                },
                None => {
                    drops.push(1);
                    proof {
                        assert(drops@ =~= seq![1u8]);
                    }
                },
            }
            Move::Throw((count, row, col), dir, drops, string.to_owned())
        },
        None => {
            let kind = kind_from(group_at(groups, 2));
            Move::Place(kind, (row, col), string.to_owned())
        },
    }
}

/// The move that a text in notation stands for: what the groups of its
/// match against the pattern stand for, and `None` without a match.
pub open spec fn ptn_parsed(text: Seq<char>) -> Option<MoveView> {
    match regex_groups(PTN_PATTERN@, text) {
        Some(Some(groups)) => Some(ptn_decoded(groups, text)),
        _ => None,
    }
}

/// Reads a move in notation: `None` for a text that is no move. What the
/// text has to look like is the pattern's business, and with it the
/// matcher's; the move is what the groups of the match stand for.
pub fn ptn_move(string: &str) -> (res: Option<Move>)
    ensures
        match res {
            Some(m) => ptn_parsed(string@) == Some(m@),
            None => ptn_parsed(string@) is None,
        },
{
    match regex_captures(PTN_PATTERN, string) {
        Some(Some(groups)) => Some(move_from_groups(&groups, string)),
        _ => None,
    }
}

} // verus!
