use std::collections::HashSet;
use tak::game::make_standard_game;
use tak::game::road::Reached;
use tak::game::rules::StandardRules;
use tak::game::state::Color;
use tak::game::state::Move;
use tak::game::state::Piece;
use tak::game::state::PieceKind;
use tak::game::state::Player;
use tak::game::state::State;
use tak::game::state::Victory;
use tak::game::win::MAX_KOMI;

const WF: Piece = Piece { color: Color::White, kind: PieceKind::Flat };
const WS: Piece = Piece { color: Color::White, kind: PieceKind::Wall };
const WC: Piece = Piece { color: Color::White, kind: PieceKind::Cap };
const BF: Piece = Piece { color: Color::Black, kind: PieceKind::Flat };
const BS: Piece = Piece { color: Color::Black, kind: PieceKind::Wall };
const BC: Piece = Piece { color: Color::Black, kind: PieceKind::Cap };

/// Rules on a board drawn row by row, the highest row first: `.` is an
/// empty square, and a letter is a piece as a printed board shows it.
fn board(rows: &[&str], komi: u32) -> StandardRules {
    let size = rows.len() as u8;
    let mut rules = StandardRules::new(State::new(size), komi);
    for (i, text) in rows.iter().enumerate() {
        let row = size - 1 - i as u8;
        for (col, ch) in text.chars().enumerate() {
            let p = match ch {
                'W' => WF,
                'S' => WS,
                'C' => WC,
                'B' => BF,
                'T' => BS,
                'D' => BC,
                _ => {
                    assert_eq!(ch, '.');
                    continue;
                }
            };
            rules.get_mut_tile((row, col as u8)).add_piece(p);
        }
    }
    rules
}

#[test]
fn no_road_on_an_open_board() {
    let rules = board(&["W...B", ".W.B.", "..W..", ".B.W.", "B...W"], 0);
    assert_eq!(rules.check_win(Color::White), Victory::Neither);
    assert_eq!(rules.check_win(Color::Black), Victory::Neither);
}

#[test]
fn a_straight_road_wins() {
    let rules = board(&[".W...", ".W...", ".W...", ".W...", ".W..."], 0);
    assert_eq!(rules.check_win(Color::Black), Victory::WhiteRoad);
    let rules = board(&[".....", "BBBBB", ".....", ".....", "....."], 0);
    assert_eq!(rules.check_win(Color::White), Victory::BlackRoad);
}

#[test]
fn a_winding_road_wins() {
    let rules = board(
        &["...WWW", "...W.B", ".WWW.B", ".W...B", ".WW..B", "..W..."],
        0,
    );
    assert_eq!(rules.check_win(Color::Black), Victory::WhiteRoad);
    // From west to east, with a turn back on the way.
    let rules = board(&["BB...", ".B.BB", ".B.B.", ".BBB.", "....."], 0);
    assert_eq!(rules.check_win(Color::White), Victory::BlackRoad);
}

#[test]
fn a_capstone_carries_a_road_and_a_wall_does_not() {
    let rules = board(&["W....", "C....", "W....", "C....", "W...."], 0);
    assert_eq!(rules.check_win(Color::White), Victory::WhiteRoad);
    let rules = board(&["W....", "W....", "S....", "W....", "W...."], 0);
    assert_eq!(rules.check_win(Color::White), Victory::Neither);
    let rules = board(&["B....", "B....", "B..T.", "D....", "B...."], 0);
    assert_eq!(rules.check_win(Color::White), Victory::BlackRoad);
}

#[test]
fn a_diagonal_is_no_road() {
    let rules = board(&["W....", ".W...", "..W..", "...W.", "....W"], 0);
    assert_eq!(rules.check_win(Color::White), Victory::Neither);
}

#[test]
fn only_the_top_of_a_stack_counts() {
    let mut rules = board(&["W....", "W....", "W....", "W....", "W...."], 0);
    assert_eq!(rules.check_win(Color::Black), Victory::WhiteRoad);
    rules.get_mut_tile((2, 0)).add_piece(BF);
    assert_eq!(rules.check_win(Color::Black), Victory::Neither);
    rules.get_mut_tile((2, 0)).add_piece(WC);
    assert_eq!(rules.check_win(Color::Black), Victory::WhiteRoad);
}

#[test]
fn a_road_beside_the_other_color_is_found() {
    // The search for White from a1 walks along Black's road.
    let rules = board(&[".....", ".....", "BBBBB", "WWWW.", "....."], 0);
    assert_eq!(rules.check_win(Color::White), Victory::BlackRoad);
    let rules = board(&["WB...", "WB...", "WB...", "WBB..", ".WB.."], 0);
    assert_eq!(rules.check_win(Color::White), Victory::BlackRoad);
}

#[test]
fn with_two_roads_the_last_mover_wins() {
    let rules = board(&["W.B..", "W.B..", "W.B..", "W.B..", "W.B.."], 0);
    assert_eq!(rules.check_win(Color::White), Victory::WhiteRoad);
    assert_eq!(rules.check_win(Color::Black), Victory::BlackRoad);
}

#[test]
fn a_road_on_the_smallest_boards() {
    let rules = board(&["W"], 0);
    assert_eq!(rules.check_win(Color::Black), Victory::WhiteRoad);
    let rules = board(&["B.", "B."], 0);
    assert_eq!(rules.check_win(Color::White), Victory::BlackRoad);
    let rules = board(&["BW", "WB"], 0);
    assert_eq!(rules.check_win(Color::White), Victory::Draw);
}

#[test]
fn flats_are_counted_on_a_full_board() {
    let rules = board(&["WBW", "BSW", "BWT"], 0);
    assert_eq!(rules.check_win(Color::White), Victory::WhiteFlat(4));
    assert_eq!(rules.flat_game(), Victory::WhiteFlat(4));
    let rules = board(&["WBW", "TST", "BWB"], 0);
    assert_eq!(rules.check_win(Color::White), Victory::Draw);
    let rules = board(&["WBW", "BCB", "BWT"], 0);
    assert_eq!(rules.check_win(Color::White), Victory::BlackFlat(4));
    let rules = board(&["WBW", "B.B", "BWS"], 0);
    assert_eq!(rules.check_win(Color::White), Victory::Neither);
}

#[test]
fn flats_are_counted_when_a_supply_runs_out() {
    let state = State::new_with_players(
        5,
        Player::new(Color::White, 3, 1),
        Player::new(Color::Black, 0, 1),
    );
    let mut rules = StandardRules::new(state, 0);
    rules.get_mut_tile((2, 2)).add_piece(BF);
    assert_eq!(rules.check_win(Color::Black), Victory::BlackFlat(1));
    let state = State::new_with_players(
        5,
        Player::new(Color::White, 0, 1),
        Player::new(Color::Black, 4, 1),
    );
    let rules = StandardRules::new(state, 0);
    assert_eq!(rules.check_win(Color::White), Victory::Draw);
    // A supply of capstones alone decides nothing.
    let state = State::new_with_players(
        5,
        Player::new(Color::White, 3, 0),
        Player::new(Color::Black, 4, 0),
    );
    let rules = StandardRules::new(state, 0);
    assert_eq!(rules.check_win(Color::White), Victory::Neither);
}

#[test]
fn komi_counts_for_black() {
    // Five white flats and three black ones.
    let rows = ["WBW", "WSW", "BWB"];
    assert_eq!(board(&rows, 2).flat_game(), Victory::Draw);
    assert_eq!(board(&rows, 1).flat_game(), Victory::WhiteFlat(4));
    assert_eq!(board(&rows, 0).flat_game(), Victory::WhiteFlat(5));
    assert_eq!(board(&rows, 3).flat_game(), Victory::BlackFlat(6));
    assert_eq!(
        board(&rows, MAX_KOMI).flat_game(),
        Victory::BlackFlat(MAX_KOMI + 3)
    );
    assert_eq!(board(&rows, 2).check_win(Color::White), Victory::Draw);
    assert_eq!(board(&rows, 3).check_win(Color::White), Victory::BlackFlat(6));
}

#[test]
fn a_road_goes_before_the_flats() {
    let rules = board(&["WBB", "WSB", "WBT"], 5);
    assert_eq!(rules.check_win(Color::Black), Victory::WhiteRoad);
}

#[test]
fn an_empty_board_of_size_zero_is_full() {
    let rules = StandardRules::new(State::new(0), 0);
    assert_eq!(rules.check_win(Color::White), Victory::Draw);
    let rules = StandardRules::new(State::new(0), 2);
    assert_eq!(rules.check_win(Color::White), Victory::BlackFlat(2));
}

#[test]
fn a_search_marks_what_it_walks() {
    let rules = board(&[".....", "..B..", ".WWS.", ".W...", "....."], 0);
    let mut reached = Reached { north: false, south: false, east: false, west: false };
    let mut visited: HashSet<usize> = HashSet::new();
    assert!(!rules.search(true, &mut reached, &mut visited, (1, 1)));
    let mut marked: Vec<usize> = visited.iter().copied().collect();
    marked.sort();
    // b2, b3, c3 and the wall on d3.
    assert_eq!(marked, vec![257, 513, 514, 515]);
    assert!(!reached.north && !reached.south && !reached.east && !reached.west);
    // Nothing is left to do from a visited square, an empty one, one of
    // the other color, or one off the board.
    for node in [(2, 2), (0, 0), (3, 2), (5, 1)] {
        assert!(!rules.search(true, &mut reached, &mut visited, node));
        assert_eq!(visited.len(), 4);
    }
    assert!(!rules.search(false, &mut reached, &mut visited, (3, 2)));
    assert_eq!(visited.len(), 5);
    assert!(visited.contains(&(3 * 256 + 2)));
}

#[test]
fn a_search_notes_the_edges() {
    let rules = board(&["WW...", ".W...", ".WW..", ".....", "....."], 0);
    let mut reached = Reached { north: false, south: false, east: false, west: false };
    let mut visited: HashSet<usize> = HashSet::new();
    assert!(!rules.search(true, &mut reached, &mut visited, (2, 2)));
    assert!(reached.south && reached.west);
    assert!(!reached.north && !reached.east);
    assert_eq!(visited.len(), 5);
    // With the north edge noted before, the same squares make a road.
    let mut reached = Reached { north: true, south: false, east: false, west: false };
    let mut visited: HashSet<usize> = HashSet::new();
    assert!(rules.search(true, &mut reached, &mut visited, (2, 2)));
    assert!(reached.north && reached.south);
}

#[test]
fn plies_of_the_opening_decide_nothing() {
    let mut game = make_standard_game(1, 0);
    let res = game.do_ply(Move::Place(PieceKind::Flat, (0, 0), String::from("a1")));
    assert_eq!(res, Ok(Victory::Neither));
    assert_eq!(game.check_win(Color::White), Victory::BlackRoad);
}

#[test]
fn a_ply_that_ends_the_game() {
    let mut game = make_standard_game(3, 0);
    for (row, col) in [(2u8, 2u8), (0, 0), (0, 1), (2, 1)] {
        let res = game.do_ply(Move::Place(PieceKind::Flat, (row, col), String::new()));
        assert_eq!(res, Ok(Victory::Neither));
    }
    let res = game.do_ply(Move::Place(PieceKind::Flat, (0, 2), String::from("c1")));
    assert_eq!(res, Ok(Victory::WhiteRoad));
    assert_eq!(game.read_move(Move::Place(PieceKind::Flat, (0, 2), String::new())), (false, Victory::Neither));
    assert_eq!(game.read_move(Move::Place(PieceKind::Flat, (2, 0), String::new())), (true, Victory::BlackRoad));
}

#[test]
fn standings_as_a_record_writes_them() {
    assert_eq!(Victory::Neither.result(), "0-0");
    assert_eq!(Victory::WhiteFlat(7).result(), "F-0");
    assert_eq!(Victory::WhiteRoad.result(), "R-0");
    assert_eq!(Victory::BlackFlat(7).result(), "0-F");
    assert_eq!(Victory::BlackRoad.result(), "0-R");
    assert_eq!(Victory::Draw.result(), "1/2-1/2");
}

#[test]
fn a_search_marks_its_start() {
    // With a road: the search stops early, and has marked where it began.
    let rules = board(&["W....", "W....", "W....", "W....", "W...."], 0);
    let mut reached = Reached { north: false, south: false, east: false, west: false };
    let mut visited: HashSet<usize> = HashSet::new();
    assert!(rules.search(true, &mut reached, &mut visited, (2, 0)));
    assert!(visited.contains(&(2 * 256)));
    assert!(reached.north && reached.south);
    // A wall where the search begins is marked, and nothing else is.
    let rules = board(&[".....", ".....", "..T..", "..B..", "....."], 0);
    for white in [true, false] {
        let mut reached = Reached { north: false, south: false, east: false, west: false };
        let mut visited: HashSet<usize> = HashSet::new();
        assert!(!rules.search(white, &mut reached, &mut visited, (2, 2)));
        let marked: Vec<usize> = visited.iter().copied().collect();
        assert_eq!(marked, vec![2 * 256 + 2]);
    }
}

#[test]
fn a_search_goes_round_what_is_visited() {
    // The middle of White's column is marked beforehand, so the set is not
    // closed: the search from the bottom stops there and finds no road,
    // and still marks where it began.
    let rules = board(&["W....", "W....", "W....", "W....", "W...."], 0);
    let mut reached = Reached { north: false, south: false, east: false, west: false };
    let mut visited: HashSet<usize> = HashSet::new();
    visited.insert(2 * 256);
    assert!(!rules.search(true, &mut reached, &mut visited, (0, 0)));
    let mut marked: Vec<usize> = visited.iter().copied().collect();
    marked.sort();
    assert_eq!(marked, vec![0, 256, 512]);
    assert!(reached.north && reached.west && !reached.south && !reached.east);
}
