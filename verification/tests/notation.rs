use tak::game::database::decode_column;
use tak::game::database::decode_playtak_notation;
use tak::game::database::placement_notation;
use tak::game::database::read_formatted_ptn;
use tak::game::database::transform_notation;
use tak::game::notation::col_match;
use tak::game::notation::move_from_groups;
use tak::game::notation::ptn_move;
use tak::game::state::Color;
use tak::game::state::Move;
use tak::game::state::Piece;
use tak::game::state::PieceKind;
use tak::game::state::State;
use tak::game::state::Tile;
use tak::game::text::chars_of;
use tak::game::text::lines_of;
use tak::game::text::parse_number;
use tak::game::text::push_number;
use tak::game::text::space;
use tak::game::text::split_chars;
use tak::game::text::starts_with;
use tak::game::text::text_of;
use tak::game::text::words_of;

fn shown(m: Option<Move>) -> String {
    match m {
        Some(m) => format!("{:?}", m),
        None => String::from("None"),
    }
}

fn all_shown(moves: Option<Vec<Move>>) -> String {
    match moves {
        Some(moves) => format!("{:?}", moves),
        None => String::from("None"),
    }
}

fn chars(s: &str) -> Vec<char> {
    s.chars().collect()
}

fn texts(found: Vec<Vec<char>>) -> Vec<String> {
    found.iter().map(|w| w.iter().collect()).collect()
}

fn groups(texts: &[Option<&str>]) -> Vec<Option<Vec<char>>> {
    texts.iter().map(|g| g.map(|s| s.chars().collect())).collect()
}

#[test]
fn placements_in_notation() {
    assert_eq!(shown(ptn_move("a1")), "Place(Flat, (0, 0), \"a1\")");
    assert_eq!(shown(ptn_move("Sb5")), "Place(Wall, (4, 1), \"Sb5\")");
    assert_eq!(shown(ptn_move("Cc2")), "Place(Cap, (1, 2), \"Cc2\")");
    assert_eq!(shown(ptn_move("h8")), "Place(Flat, (7, 7), \"h8\")");
    assert_eq!(shown(ptn_move("sD4")), "Place(Wall, (3, 3), \"sD4\")");
    assert_eq!(shown(ptn_move("cE1")), "Place(Cap, (0, 4), \"cE1\")");
    assert_eq!(shown(ptn_move("A1")), "Place(Flat, (0, 0), \"A1\")");
    // A count without a direction is read and dropped.
    assert_eq!(shown(ptn_move("3a1")), "Place(Flat, (0, 0), \"3a1\")");
}

#[test]
fn throws_in_notation() {
    assert_eq!(
        shown(ptn_move("3b2+111")),
        "Throw((3, 1, 1), '+', [1, 1, 1], \"3b2+111\")"
    );
    assert_eq!(shown(ptn_move("b3-")), "Throw((1, 2, 1), '-', [1], \"b3-\")");
    assert_eq!(shown(ptn_move("c2<")), "Throw((1, 1, 2), '<', [1], \"c2<\")");
    assert_eq!(
        shown(ptn_move("3b3>12")),
        "Throw((3, 2, 1), '>', [1, 2], \"3b3>12\")"
    );
    assert_eq!(
        shown(ptn_move("8H8-8*")),
        "Throw((8, 7, 7), '-', [8], \"8H8-8*\")"
    );
    // The letter of a piece before a throw is read and dropped.
    assert_eq!(shown(ptn_move("Ca1+")), "Throw((1, 0, 0), '+', [1], \"Ca1+\")");
    assert_eq!(shown(ptn_move("0a1>")), "Throw((0, 0, 0), '>', [1], \"0a1>\")");
}

#[test]
fn texts_that_are_no_moves() {
    for text in [
        "", " ", "a", "1", "i1", "a9", "a0", "a1a", "a1 ", " a1", "Xa1", "3b2+9", "3b2+0", "b2*",
        "b2+1**", "33b2+", "b2++", "Sb", "a1\n",
    ] {
        assert!(ptn_move(text).is_none(), "{:?}", text);
    }
}

#[test]
fn characters_that_only_the_matcher_knows() {
    // An Arabic digit is a digit to the matcher, and no number: the count
    // is then 1.
    assert_eq!(
        shown(ptn_move("\u{0663}a1+")),
        "Throw((1, 0, 0), '+', [1], \"\u{0663}a1+\")"
    );
    // The long s is an `S` in another case to the matcher, and no letter
    // of a piece: the placement is then a flat.
    assert_eq!(
        shown(ptn_move("\u{017f}a1")),
        "Place(Flat, (0, 0), \"\u{017f}a1\")"
    );
}

#[test]
fn moves_from_capture_groups() {
    let g = groups(&[
        Some("3b2+111"),
        Some("3"),
        None,
        Some("b"),
        Some("2"),
        Some("+111"),
        Some("+"),
        Some("111"),
        None,
    ]);
    assert_eq!(
        shown(Some(move_from_groups(&g, "3b2+111"))),
        "Throw((3, 1, 1), '+', [1, 1, 1], \"3b2+111\")"
    );
    let g = groups(&[Some("Cc2"), None, Some("C"), Some("c"), Some("2"), None, None, None, None]);
    assert_eq!(
        shown(Some(move_from_groups(&g, "Cc2"))),
        "Place(Cap, (1, 2), \"Cc2\")"
    );
    // Groups that no match of the pattern gives.
    assert_eq!(
        shown(Some(move_from_groups(&groups(&[]), "x"))),
        "Place(Flat, (0, 0), \"x\")"
    );
    let g = groups(&[None, Some("12"), Some("Q"), Some("z"), Some("0"), None, Some(""), Some("aF0!")]);
    assert_eq!(
        shown(Some(move_from_groups(&g, "y"))),
        "Throw((12, 0, 0), '+', [10, 15, 0, 8], \"y\")"
    );
    let g = groups(&[None, Some("256"), None, Some("H"), Some("+9"), None, Some("<>"), None]);
    assert_eq!(
        shown(Some(move_from_groups(&g, ""))),
        "Throw((1, 8, 7), '>', [1], \"\")"
    );
    let g = groups(&[None, Some("x"), None, Some("ab"), Some("255"), None, Some("-"), Some("")]);
    assert_eq!(
        shown(Some(move_from_groups(&g, ""))),
        "Throw((1, 254, 0), '-', [], \"\")"
    );
}

#[test]
fn files_to_columns() {
    for (file, col) in [("a", 0u8), ("b", 1), ("c", 2), ("d", 3), ("e", 4), ("f", 5), ("g", 6), ("h", 7)] {
        assert_eq!(col_match(String::from(file)), col);
    }
    for file in ["", "i", "A", "ab", "1", "\u{e9}"] {
        assert_eq!(col_match(String::from(file)), 0);
    }
    for (ch, n) in [('A', 1), ('B', 2), ('C', 3), ('D', 4), ('E', 5), ('F', 6), ('G', 0), ('a', 0), ('1', 0)] {
        assert_eq!(decode_column(ch), n);
    }
}

#[test]
fn server_moves_to_notation() {
    assert_eq!(transform_notation("P A1"), Some(String::from("a1")));
    assert_eq!(transform_notation("P B2 C"), Some(String::from("Cb2")));
    assert_eq!(transform_notation("P C3 W"), Some(String::from("Sc3")));
    assert_eq!(transform_notation("  P\tD4  "), Some(String::from("d4")));
    assert_eq!(transform_notation("M A1 A3 1 1"), Some(String::from("2A1+11")));
    assert_eq!(transform_notation("M A3 A1 2 1"), Some(String::from("3A3-21")));
    assert_eq!(transform_notation("M E1 D1 1"), Some(String::from("1E1<1")));
    assert_eq!(transform_notation("M B2 D2 1 3"), Some(String::from("4B2>13")));
    assert_eq!(transform_notation("M A1 A2"), Some(String::from("0A1+")));
    assert_eq!(transform_notation("M A1 A2 +7 12"), Some(String::from("19A1++712")));
    // The files from G on have no number: the direction is then read off
    // the ranks.
    assert_eq!(transform_notation("M G1 H1 1"), Some(String::from("1G1+1")));
    assert_eq!(transform_notation("M A1 B 1"), Some(String::from("1A1>1")));
    assert_eq!(transform_notation("X A1"), Some(String::new()));
    assert_eq!(transform_notation("m A1 A2 1"), Some(String::new()));
    for text in ["", "   ", "P", "M", "M A1", "M A1 A 1", "M A A1 1", "M Ax A1 1", "M A1 Ax 1", "M A1 A2 x", "M A1 A2 1 -1", "M A1 A2 4294967296", "M A1 A2 4294967295 1"] {
        assert_eq!(transform_notation(text), None, "{:?}", text);
    }
    assert_eq!(
        transform_notation("M A1 A2 4294967295"),
        Some(String::from("4294967295A1+4294967295"))
    );
}

#[test]
fn placements_from_lowered_squares() {
    let c = chars("C");
    let w = chars("W");
    let cc = chars("CC");
    let low = chars("c");
    assert_eq!(placement_notation(String::from("a1"), None), "a1");
    assert_eq!(placement_notation(String::from("a1"), Some(&c)), "Ca1");
    assert_eq!(placement_notation(String::from("a1"), Some(&w)), "Sa1");
    assert_eq!(placement_notation(String::from("a1"), Some(&cc)), "Sa1");
    assert_eq!(placement_notation(String::from("a1"), Some(&low)), "Sa1");
    assert_eq!(placement_notation(String::new(), Some(&c)), "C");
    assert_eq!(placement_notation(String::from("\u{e9}X"), None), "\u{e9}X");
}

#[test]
fn squares_are_lowered_as_unicode_has_it() {
    assert_eq!(transform_notation("P H8"), Some(String::from("h8")));
    assert_eq!(transform_notation("P \u{c9}1"), Some(String::from("\u{e9}1")));
    assert_eq!(transform_notation("P \u{c9}1 C"), Some(String::from("C\u{e9}1")));
    // A capital I with a dot is two characters in lower case.
    assert_eq!(
        transform_notation("P \u{130}"),
        Some(String::from("i\u{307}"))
    );
    assert_eq!(transform_notation("P \u{3a3}1"), Some("\u{3a3}1".to_lowercase()));
}

#[test]
fn server_games_to_moves() {
    assert_eq!(
        all_shown(decode_playtak_notation("P A1,P B2 C,P C3 W,M A1 A3 1 1,M E1 D1 1")),
        "[Place(Flat, (0, 0), \"a1\"), Place(Cap, (1, 1), \"Cb2\"), Place(Wall, (2, 2), \"Sc3\"), \
         Throw((2, 0, 0), '+', [1, 1], \"2A1+11\"), Throw((1, 0, 4), '<', [1], \"1E1<1\")]"
    );
    assert_eq!(
        all_shown(decode_playtak_notation("P A1")),
        "[Place(Flat, (0, 0), \"a1\")]"
    );
    assert_eq!(
        all_shown(decode_playtak_notation("M A1 A2")),
        "[Throw((0, 0, 0), '+', [1], \"0A1+\")]"
    );
    for text in ["", "P A1,", ",P A1", "P A1,X", "P A9", "P A1,M A1", "P A1;P A2"] {
        assert!(decode_playtak_notation(text).is_none(), "{:?}", text);
    }
}

#[test]
fn game_files() {
    let text = "[Site \"PlayTak.com\"]\r\n[Size \"5\"]\r\n\r\n1. a1 e5\r\n2. c3\n3. Cb2 3b2+111";
    let (game, moves) = read_formatted_ptn(String::from(text)).unwrap();
    assert_eq!(game.get_size(), 5);
    assert_eq!(game.rules.komi, 0);
    assert_eq!(game.rules.state.player1.pieces, 21);
    assert!(game.rules.state.notation.is_empty());
    assert_eq!(
        format!("{:?}", moves),
        "[Place(Flat, (0, 0), \"a1\"), Place(Flat, (4, 4), \"e5\"), Place(Flat, (2, 2), \"c3\"), \
         Place(Cap, (1, 1), \"Cb2\"), Throw((3, 1, 1), '+', [1, 1, 1], \"3b2+111\")]"
    );
    // The last size counts, with or without a sign.
    let (game, moves) = read_formatted_ptn(String::from("[Size \"5\"]\n[Size \"+8\" x]\n")).unwrap();
    assert_eq!(game.get_size(), 8);
    assert_eq!(game.rules.state.player1.caps, 2);
    assert!(moves.is_empty());
    // A third move on a line is not read.
    let (_, moves) = read_formatted_ptn(String::from("[Size \"3\"]\n1. a1 b1 ??")).unwrap();
    assert_eq!(moves.len(), 2);
    for text in [
        "",
        "1. a1 b1",
        "[Size 5]",
        "[Size \"256\"]",
        "[Size \"five\"]",
        "[Size \"5\"]\n1.",
        "[Size \"5\"]\n \n",
        "[Size \"5\"]\n1. a1 z9",
        "[Size \"5\"]\n1. a9",
    ] {
        assert!(read_formatted_ptn(String::from(text)).is_none(), "{:?}", text);
    }
    // A carriage return at the end of the text is white space after the
    // last move.
    assert!(read_formatted_ptn(String::from("[Size \"5\"]\n1. a1\r")).is_some());
}

#[test]
fn text_in_pieces() {
    assert_eq!(chars_of("a\u{e9}z"), vec!['a', '\u{e9}', 'z']);
    assert_eq!(text_of(&['T', 'a', 'k']), "Tak");
    assert_eq!(text_of(&[]), "");
    assert_eq!(texts(split_chars(&chars("a,b,,c"), ',')), vec!["a", "b", "", "c"]);
    assert_eq!(texts(split_chars(&chars(""), ',')), vec![""]);
    assert_eq!(texts(split_chars(&chars(","), ',')), vec!["", ""]);
    assert_eq!(texts(words_of(&chars("  one\ttwo \u{a0} three\n"))), vec!["one", "two", "three"]);
    assert!(words_of(&chars(" \r\n")).is_empty());
    assert_eq!(texts(lines_of(&chars("a\r\nb\n\nc\r"))), vec!["a", "b", "", "c\r"]);
    assert_eq!(texts(lines_of(&chars("a\n"))), vec!["a"]);
    assert_eq!(texts(lines_of(&chars("a\r\r\n\r\n"))), vec!["a\r", ""]);
    assert!(lines_of(&chars("")).is_empty());
    assert!(starts_with(&chars("[Size"), "[S"));
    assert!(starts_with(&chars("[Size"), ""));
    assert!(!starts_with(&chars("[S"), "[Size"));
    assert!(!starts_with(&chars("[size"), "[S"));
}

#[test]
fn white_space_as_the_standard_library_has_it() {
    for u in 0..0x11_0000u32 {
        if let Some(c) = char::from_u32(u) {
            assert_eq!(space(c), c.is_whitespace(), "{:x}", u);
        }
    }
}

#[test]
fn numbers_in_text() {
    assert_eq!(parse_number(&chars("0"), 255), Some(0));
    assert_eq!(parse_number(&chars("007"), 255), Some(7));
    assert_eq!(parse_number(&chars("+12"), 255), Some(12));
    assert_eq!(parse_number(&chars("255"), 255), Some(255));
    assert_eq!(parse_number(&chars("256"), 255), None);
    assert_eq!(parse_number(&chars("4294967295"), u32::MAX), Some(u32::MAX));
    assert_eq!(parse_number(&chars("4294967296"), u32::MAX), None);
    assert_eq!(parse_number(&chars("99999999999999999999"), u32::MAX), None);
    for text in ["", "+", "-1", "1 ", " 1", "1_0", "++1", "1+", "\u{0663}"] {
        assert_eq!(parse_number(&chars(text), u32::MAX), None, "{:?}", text);
        assert!(text.parse::<u32>().is_err());
    }
    for n in [0u32, 7, 10, 99, 100, 12345, 4294967295] {
        let mut out = vec!['#'];
        push_number(&mut out, n);
        let wanted: Vec<char> = format!("#{}", n).chars().collect();
        assert_eq!(out, wanted);
    }
}

#[test]
fn a_board_as_text() {
    let white = Piece::new(Color::White, PieceKind::Flat);
    let black = Piece::new(Color::Black, PieceKind::Flat);
    let letters: Vec<char> = [
        Piece::new(Color::White, PieceKind::Flat),
        Piece::new(Color::White, PieceKind::Wall),
        Piece::new(Color::White, PieceKind::Cap),
        Piece::new(Color::Black, PieceKind::Flat),
        Piece::new(Color::Black, PieceKind::Wall),
        Piece::new(Color::Black, PieceKind::Cap),
    ]
    .iter()
    .map(|p| p.symbol())
    .collect();
    assert_eq!(letters, vec!['W', 'S', 'C', 'B', 'T', 'D']);
    let tile = Tile { stack: vec![] };
    assert_eq!(tile.render(), "[]");
    let tile = Tile { stack: vec![white] };
    assert_eq!(tile.render(), "[W]");
    let tile = Tile {
        stack: vec![white, black, Piece::new(Color::Black, PieceKind::Cap)],
    };
    assert_eq!(tile.render(), "[W, B, D]");
    let mut state = State::new(3);
    state.get_mut_tile(0, 0).add_piece(white);
    state.get_mut_tile(2, 1).add_pieces(vec![black, Piece::new(Color::White, PieceKind::Wall)]);
    assert_eq!(
        state.render(),
        "White to move: \n[][B, S][]\n[][][]\n[W][][]\n\nWhite: (10, 0) Black: (10, 0)"
    );
    state.add_notation(String::from("a1"));
    state.get_mut_player(Color::Black).pieces = 9;
    state.get_mut_player(Color::White).caps = 12;
    assert_eq!(
        state.render(),
        "Black to move: \n[][B, S][]\n[][][]\n[W][][]\n\nWhite: (10, 12) Black: (9, 0)"
    );
    assert_eq!(
        State::new(0).render(),
        "White to move: \n\nWhite: (21, 1) Black: (21, 1)"
    );
}

#[test]
fn text_as_the_standard_library_has_it() {
    let samples = [
        "",
        "a",
        "\n",
        "\r",
        "\r\n",
        "a\n",
        "a\r",
        "a\r\n",
        "a\n\nb",
        "a\r\r\n\r\nb\r",
        "\n\na\n\n",
        " one  two\tthree \u{a0}four\u{3000}",
        "P A1,P B2 C,,M A1 A3 1 1,",
        "[Size \"5\"]\r\n1. a1 e5\r\n",
        "+12",
        "007",
        "4294967295",
        "4294967296",
        "+",
        "1+",
        "-0",
        "AbC xYz \u{c9}\u{e9} [\\]^_`{|}@",
    ];
    for text in samples {
        let given = chars(text);
        let lines: Vec<String> = text.lines().map(String::from).collect();
        assert_eq!(texts(lines_of(&given)), lines, "{:?}", text);
        let words: Vec<String> = text.split_whitespace().map(String::from).collect();
        assert_eq!(texts(words_of(&given)), words, "{:?}", text);
        for sep in [',', '"', '\n', ' '] {
            let pieces: Vec<String> = text.split(sep).map(String::from).collect();
            assert_eq!(texts(split_chars(&given, sep)), pieces, "{:?}", text);
        }
        assert_eq!(parse_number(&given, u32::MAX), text.parse::<u32>().ok(), "{:?}", text);
        assert_eq!(
            parse_number(&given, 255),
            text.parse::<u8>().ok().map(u32::from),
            "{:?}",
            text
        );
        assert_eq!(chars_of(text), given);
        assert_eq!(text_of(&given), text);
        assert_eq!(starts_with(&given, "[S"), text.starts_with("[S"));
    }
}
