use chess_ai::consts::{Color, PieceType};
use chess_ai::game::Game;
use chess_ai::move_struct::Move;
use chess_ai::openings::OpeningsDatabase;
use chess_ai::piece::Piece;
use chess_ai::utils::string_square_to_square;

fn small_book() -> OpeningsDatabase {
    OpeningsDatabase::new(
        "ECO B00\nNAME King's Pawn\nUCI e2e4\nECO C20\nNAME King's Pawn Game\nUCI e2e4 e7e5\nECO C60\nNAME Ruy Lopez\nUCI e2e4 e7e5 g1f3 b8c6 f1b5\nECO D06\nNAME Queen's Gambit\nUCI d2d4 d7d5 c2c4\n",
    )
}

#[test]
fn start_game_score_0() {
    // The score for white should be 0 in the starting position (because the scores for black and white should be exactly the same)
    let mut game = Game::from_fen(String::from("rnbqkbnr/pppppppp/8/8/8/8/PPPPPPPP/RNBQKBNR w KQkq - 0 1"));
    game.calculate_board_score();
    assert_eq!(game.score_white, 0);
}

#[test]
fn black_more_pieces_white_better_score() {
    let mut game = Game::from_fen(String::from("rnbqkbnr/pppppppp/8/8/8/8/8/RNBQKBNR w KQkq - 0 1"));
    game.calculate_board_score();
    assert!(game.score_white < 0);
}

#[test]
fn score_predict_same_as_calculate() {
    let mut game = Game::from_fen(String::from("rnbqkbnr/pppppppp/8/8/8/8/PPPPPPPP/RNBQKBNR w KQkq - 0 1"));
    let moves = vec![
        Move::simple_new([1, 0], [0, 2]),
        Move::simple_new([1, 7], [0, 5]),
        Move::simple_new([3, 1], [3, 3]),
        Move::simple_new([3, 6], [3, 4]),
        Move::simple_new([2, 0], [4, 2]),
        Move::simple_new([2, 7], [4, 5]),
        Move::simple_new([3, 0], [3, 1]),
        Move::simple_new([3, 7], [3, 6]),
        Move { from: [4, 0], to: [0, 0], piece: Some(Piece { piece_type: PieceType::Queen, color: Color::White}) },
        Move::simple_new([3, 6], [4, 0]),
    ];

    for mve in moves.iter() {
        game.do_move(mve);
        let predicted_score = game.score_white;
        game.calculate_board_score();

        assert_eq!(predicted_score, game.score_white);

    }
}

#[test]
fn dont_check_self() {
    let game = Game::from_fen(String::from("kr6/r7/8/8/8/8/8/2K5 w KQkq - 0 100"));
    let opening_database = small_book();
    let best_move = game.get_best_move(6, &opening_database);

    assert_ne!(best_move.to[0], 1);
}

#[test]
fn max_score_without_black_king() {
    let mut game = Game::from_fen(String::from("rnbq1bnr/pppppppp/8/8/8/8/PPPPPPPP/RNBQKBNR w KQkq - 0 1"));
    game.calculate_board_score();
    assert_eq!(game.score_white, i64::MAX);
}


#[test]
fn piece_from_fen() {
    let new_piece = Piece::from_fen('Q');

    assert_eq!(new_piece.color, Color::White);
    assert_eq!(new_piece.piece_type, PieceType::Queen);
}

#[test]
fn finds_opening_move() {
    let opening_database = small_book();
    let mve = opening_database.find_opening(&vec![Move::simple_new([4, 1], [4, 3])]);
    assert!(mve.is_some());
}

#[test]
fn string_square_to_square_test() {
    assert_eq!(string_square_to_square(String::from("a1")), [0, 0]);
    assert_eq!(string_square_to_square(String::from("e4")), [4, 3]);
    assert_eq!(string_square_to_square(String::from("b5")), [1, 4]);
    assert_eq!(string_square_to_square(String::from("f5")), [5, 4]);
}
