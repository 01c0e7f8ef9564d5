use std::mem::size_of;
use tak::game::make_standard_game;
use tak::game::ptn_move;
use tak::game::Color;
use tak::game::Game;
use tak::game::Move;
use tak::game::MoveError;
use tak::game::Piece;
use tak::game::PieceKind;
use tak::game::StandardRules;
use tak::game::State;
use tak::game::Victory;

fn execute(game: &mut Game, moves: Vec<&str>) -> Result<(), MoveError> {
    for text in moves {
        let m = ptn_move(text).unwrap();
        game.do_ply(m)?;
    }
    Ok(())
}

fn run(game: &mut Game, moves: Vec<&str>) {
    for text in moves {
        game.execute_move(ptn_move(text).unwrap());
    }
}

fn refused(game: &mut Game, text: &str) {
    assert!(!game.execute_move(ptn_move(text).unwrap()));
}

fn assert_illegal(game: &mut Game, text: &str) {
    assert!(!game.legal_move(ptn_move(text).unwrap()));
}

#[test]
fn search_bench() {
    let size = 5;
    let r = StandardRules::new(State::new(size), 0);
    let mut game = Game::new(r);
    for x in 1..size {
        for row in 0..5u8 {
            game.rules.get_mut_tile((row, x)).add_piece(Piece {
                color: Color::White,
                kind: PieceKind::Flat,
            });
        }
    }
    println!("\n{:?}", &game.rules.get_state().board);
    game.rules.check_win(Color::White);
}

#[test]
fn test_size() {
    println!("{}", size_of::<Piece>());
    println!("{}", size_of::<Move>())
}

#[test]
fn lib_test_illegal_cases() {
    let r = StandardRules::new(State::new(5), 0);
    let mut game = Game::new(r);
    execute(
        &mut game,
        vec!["a5", "a1", "b1", "c1", "b2", "c2", "b3", "c3", "Cb4", "Cb5"],
    )
    .unwrap();
    assert_illegal(&mut game, "b4+");
    execute(&mut game, vec!["a3", "c3<", "b4-", "Sd3"]).unwrap();
    println!("{}", game.get_state().render());
    println!("--------------------\n");
    assert_illegal(&mut game, "3b3>111");
    assert_illegal(&mut game, "3b3>12");
    assert_illegal(&mut game, "a3<");
    assert_illegal(&mut game, "Sd3");
    assert_illegal(&mut game, "Ce1");
}

#[test]
fn main_test_illegal_cases() {
    let r = StandardRules::new(State::new(5), 0);
    let mut game = Game::new(r);
    run(
        &mut game,
        vec!["a5", "a1", "b1", "c1", "b2", "c2", "b3", "c3", "Cb4", "Cb5"],
    );
    refused(&mut game, "b4+");
    run(&mut game, vec!["a3", "c3<", "b4-", "Sd3"]);
    refused(&mut game, "3b3>111");
    refused(&mut game, "3b3>12");
    refused(&mut game, "d3-");
    refused(&mut game, "a3<");
    refused(&mut game, "Sd3");
    refused(&mut game, "Ce1");
}

#[test]
fn test_crush() {
    let ptn_moves = vec![
        "a5", "a1", "b1", "Sb5", "Cc2", "e5", "b3", "b2", "b3-", "d4", "c2<", "c5",
    ];
    let mut game = make_standard_game(5, 0);
    for text in ptn_moves {
        let m = ptn_move(text).expect("Valid ptn");
        let res = game.do_ply(m);
        assert!(res.is_ok());
        assert_eq!(res.unwrap(), Victory::Neither);
    }
    let crush = ptn_move("3b2+111").expect("Valid ptn");
    println!("{:?}", crush);
    let res = game.do_ply(crush);
    assert!(res.is_ok());
    assert_eq!(res.unwrap(), Victory::Neither);
}
