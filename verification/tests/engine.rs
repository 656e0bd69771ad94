use chess_ai::consts::{Color, GamePhase, MoveType, PieceType, CHECK_MATE_SCORE, SEARCH_DEPTH};
use chess_ai::game::best_move::{best_of, count_best, insert_ranked};
use chess_ai::game::Game;
use chess_ai::move_struct::Move;
use chess_ai::openings::{pick_move, OpeningsDatabase};
use chess_ai::piece::{get_all_piece_moves, Piece};
use chess_ai::utils::{parse_square, walk_offsets, with_offsets};

const START: &str = "rnbqkbnr/pppppppp/8/8/8/8/PPPPPPPP/RNBQKBNR w KQkq - 0 1";

fn game(fen: &str) -> Game {
    Game::from_fen(String::from(fen))
}

fn piece(piece_type: PieceType, color: Color) -> Piece {
    Piece { piece_type, color }
}

fn squares(moves: &Vec<Move>) -> Vec<([usize; 2], [usize; 2])> {
    moves.iter().map(|m| (m.from, m.to)).collect()
}

#[test]
fn constants_have_their_values() {
    assert_eq!(CHECK_MATE_SCORE, i64::MAX);
    assert_eq!(SEARCH_DEPTH, 5);
}

#[test]
fn opposite_colors() {
    assert_eq!(Color::White.opposite(), Color::Black);
    assert_eq!(Color::Black.opposite(), Color::White);
}

#[test]
fn piece_letters_both_ways() {
    for letter in ['K', 'Q', 'R', 'B', 'N', 'P', 'k', 'q', 'r', 'b', 'n', 'p'] {
        let p = Piece::from_fen(letter);
        assert_eq!(p.to_fen(), letter.to_string());
        assert_eq!(p.color == Color::White, letter.is_ascii_uppercase());
    }
    assert_eq!(Piece::from_fen('n'), piece(PieceType::Knight, Color::Black));
    assert_eq!(Piece::parse_letter('x'), None);
    assert_eq!(Piece::parse_letter('1'), None);
}

#[test]
fn piece_symbols_and_names() {
    assert_eq!(piece(PieceType::King, Color::White).unicode_piece(), "\u{265A}");
    assert_eq!(piece(PieceType::Pawn, Color::Black).unicode_piece(), "\u{265F}");
    assert_eq!(piece(PieceType::Queen, Color::White).repr(), "<Piece Queen White>");
    assert_eq!(piece(PieceType::Knight, Color::Black).repr(), "<Piece Knight Black>");
}

#[test]
fn piece_scores_exact() {
    let start = GamePhase::StartGame;
    let mid = GamePhase::MidGame;
    let end = GamePhase::EndGame;
    // table entry plus material
    assert_eq!(piece(PieceType::Queen, Color::White).score(3, 0, &start), 895);
    assert_eq!(piece(PieceType::Rook, Color::White).score(0, 0, &mid), 500);
    assert_eq!(piece(PieceType::Rook, Color::White).score(3, 6, &mid), 510);
    assert_eq!(piece(PieceType::Bishop, Color::White).score(2, 0, &mid), 290);
    assert_eq!(piece(PieceType::Knight, Color::White).score(3, 3, &mid), 320);
    // king and pawn: table only
    assert_eq!(piece(PieceType::King, Color::White).score(6, 0, &mid), 30);
    assert_eq!(piece(PieceType::King, Color::White).score(3, 3, &end), 40);
    assert_eq!(piece(PieceType::Pawn, Color::White).score(4, 1, &start), 80);
    assert_eq!(piece(PieceType::Pawn, Color::White).score(4, 6, &mid), 150);
    assert_eq!(piece(PieceType::Pawn, Color::White).score(0, 6, &end), 180);
}

#[test]
fn black_scores_are_mirrored() {
    for phase in [GamePhase::StartGame, GamePhase::MidGame, GamePhase::EndGame] {
        for kind in [PieceType::King, PieceType::Queen, PieceType::Rook, PieceType::Bishop, PieceType::Knight, PieceType::Pawn] {
            for x in 0..8 {
                for y in 0..8 {
                    let white = piece(kind, Color::White).score(x, y, &phase);
                    let black = piece(kind, Color::Black).score(x, 7 - y, &phase);
                    assert_eq!(white, black);
                    assert!(white.abs() <= 1000);
                }
            }
        }
    }
}

#[test]
fn notation_reads_and_writes() {
    let m = Move::from_long_algebraic_notation(String::from("e2e4"));
    assert_eq!(m.from, [4, 1]);
    assert_eq!(m.to, [4, 3]);
    assert!(m.piece.is_none());
    assert_eq!(m.long_algebraic_notation(), "e2e4");
    assert_eq!(m.repr(), "<Move e2e4>");

    let p = Move::from_long_algebraic_notation(String::from("a7a8q"));
    assert_eq!(p.from, [0, 6]);
    assert_eq!(p.to, [0, 7]);
    assert_eq!(p.piece, Some(piece(PieceType::Queen, Color::White)));
    assert_eq!(p.long_algebraic_notation(), "a7a8q");

    // a promotion from the second rank is Black's
    let p = Move::from_long_algebraic_notation(String::from("b2b1n"));
    assert_eq!(p.piece, Some(piece(PieceType::Knight, Color::Black)));
    assert_eq!(p.long_algebraic_notation(), "b2b1n");
}

#[test]
fn notation_round_trip() {
    for text in ["a1h8", "h8a1", "e2e4", "b7b8n", "g2g1r", "c7d8b", "a7a8q", "d4d5"] {
        let m = Move::from_long_algebraic_notation(String::from(text));
        assert_eq!(m.long_algebraic_notation(), text);
    }
}

#[test]
fn promotion_letter_only_from_second_or_seventh_rank() {
    let m = Move { from: [0, 2], to: [0, 3], piece: Some(piece(PieceType::Queen, Color::White)) };
    assert_eq!(m.long_algebraic_notation(), "a3a4");
    let k = Move { from: [0, 1], to: [0, 0], piece: Some(piece(PieceType::King, Color::Black)) };
    assert_eq!(k.long_algebraic_notation(), "a2a1k");
}

#[test]
fn notation_rejects_what_is_no_move() {
    for text in ["", "e2", "e2e", "e2e44x", "i2e4", "e9e4", "e2e0", "e2j4", "E2E4", "a7a8k", "a7a8Q", "a7a8p", "e2 e4"] {
        assert!(Move::parse_long_algebraic_notation(text).is_none(), "{}", text);
    }
    assert!(Move::parse_long_algebraic_notation("h7h8r").is_some());
}

#[test]
fn squares_read_or_rejected() {
    assert_eq!(parse_square("h8"), Some([7, 7]));
    assert_eq!(parse_square("a1"), Some([0, 0]));
    for text in ["", "a", "a9", "a0", "i1", "A1", "a1b", "11"] {
        assert_eq!(parse_square(text), None, "{}", text);
    }
}

#[test]
fn classification_rules() {
    let rights = vec![piece(PieceType::King, Color::White), piece(PieceType::Queen, Color::Black)];
    let queen = Some(piece(PieceType::Queen, Color::White));

    // a named piece from the second or seventh rank is a promotion, whatever else holds
    let m = Move { from: [4, 6], to: [4, 7], piece: queen };
    assert_eq!(m.get_move_type(Some(&rights), Some([4, 7]), Some(PieceType::Pawn)), (MoveType::Promote, queen));
    let m = Move { from: [4, 1], to: [4, 0], piece: queen };
    assert_eq!(m.get_move_type(None, None, None), (MoveType::Promote, queen));

    // castles need the right
    let m = Move::simple_new([4, 0], [7, 0]);
    assert_eq!(m.get_move_type(Some(&rights), None, Some(PieceType::King)), (MoveType::Castle, Some(piece(PieceType::King, Color::White))));
    let m = Move::simple_new([4, 0], [6, 0]);
    assert_eq!(m.get_move_type(Some(&rights), None, Some(PieceType::King)).0, MoveType::Castle);
    let m = Move::simple_new([4, 0], [0, 0]);
    assert_eq!(m.get_move_type(Some(&rights), None, Some(PieceType::King)), (MoveType::Standard, None));
    let m = Move::simple_new([4, 7], [0, 7]);
    assert_eq!(m.get_move_type(Some(&rights), None, Some(PieceType::King)), (MoveType::Castle, Some(piece(PieceType::Queen, Color::Black))));
    let m = Move::simple_new([4, 7], [2, 7]);
    assert_eq!(m.get_move_type(Some(&rights), None, Some(PieceType::King)).0, MoveType::Castle);
    let m = Move::simple_new([4, 7], [7, 7]);
    assert_eq!(m.get_move_type(Some(&rights), None, Some(PieceType::King)), (MoveType::Standard, None));
    let m = Move::simple_new([4, 0], [7, 0]);
    assert_eq!(m.get_move_type(None, None, Some(PieceType::King)), (MoveType::Standard, None));

    // en passant needs a pawn and the target
    let m = Move::simple_new([1, 4], [0, 5]);
    assert_eq!(m.get_move_type(Some(&rights), Some([0, 5]), Some(PieceType::Pawn)), (MoveType::EnPassant, None));
    assert_eq!(m.get_move_type(Some(&rights), Some([0, 5]), Some(PieceType::Bishop)), (MoveType::Standard, None));
    assert_eq!(m.get_move_type(Some(&rights), Some([2, 5]), Some(PieceType::Pawn)), (MoveType::Standard, None));
    assert_eq!(m.get_move_type(Some(&rights), None, Some(PieceType::Pawn)), (MoveType::Standard, None));
    assert_eq!(m.get_move_type(Some(&rights), Some([0, 5]), None), (MoveType::Standard, None));
}

#[test]
fn start_position_is_loaded() {
    let g = game(START);
    assert_eq!(g.on_turn, Color::White);
    assert_eq!(g.castle, vec![
        piece(PieceType::King, Color::White),
        piece(PieceType::Queen, Color::White),
        piece(PieceType::King, Color::Black),
        piece(PieceType::Queen, Color::Black),
    ]);
    assert_eq!(g.en_passant_target_square, None);
    assert_eq!(g.fullmove_counter, 1);
    assert_eq!(g.game_phase, GamePhase::StartGame);
    assert!(g.moves.is_empty());
    assert_eq!(g.score_white, 0);
    // rank 0 is White's back rank
    assert_eq!(g.board[0][0], Some(piece(PieceType::Rook, Color::White)));
    assert_eq!(g.board[0][4], Some(piece(PieceType::King, Color::White)));
    assert_eq!(g.board[1][3], Some(piece(PieceType::Pawn, Color::White)));
    assert_eq!(g.board[7][3], Some(piece(PieceType::Queen, Color::Black)));
    assert_eq!(g.board[6][7], Some(piece(PieceType::Pawn, Color::Black)));
    assert_eq!(g.board[3][3], None);
}

#[test]
fn fen_fields_are_read() {
    let g = game("8/8/8/8/4Pp2/8/8/K1k5 b - e3 7 42 trailing words");
    assert_eq!(g.on_turn, Color::Black);
    assert!(g.castle.is_empty());
    assert_eq!(g.en_passant_target_square, Some([4, 2]));
    assert_eq!(g.fullmove_counter, 42);
    let g = game("  8/8/8/8/8/8/8/K1k5 \t w   qK  -  x  0 ");
    assert_eq!(g.castle, vec![piece(PieceType::Queen, Color::Black), piece(PieceType::King, Color::White)]);
    assert_eq!(g.fullmove_counter, 0);
}

#[test]
fn fen_rejects_what_is_malformed() {
    let bad = [
        "",
        "rnbqkbnr/pppppppp/8/8/8/8/PPPPPPPP/RNBQKBNR w KQkq - 0",
        "rnbqkbnr/pppppppp/8/8/8/8/PPPPPPPP w KQkq - 0 1",
        "rnbqkbnr/pppppppp/8/8/8/8/8/PPPPPPPP/RNBQKBNR w KQkq - 0 1",
        "rnbqkbnr/pppppppp/9/8/8/8/PPPPPPPP/RNBQKBNR w KQkq - 0 1",
        "rnbqkbnr/pppppppp/7/8/8/8/PPPPPPPP/RNBQKBNR w KQkq - 0 1",
        "rnbqkbnr/pppppppp/8p/8/8/8/PPPPPPPP/RNBQKBNR w KQkq - 0 1",
        "rnbqkbnr/pppppppp/08/8/8/8/PPPPPPPP/RNBQKBNR w KQkq - 0 1",
        "rnbqkbnr/pppppppp/8/8/8/8/PPPPPPPP/RNBQKBNX w KQkq - 0 1",
        "rnbqkbnr/pppppppp/8/8/8/8/PPPPPPPP/RNBQKBNR x KQkq - 0 1",
        "rnbqkbnr/pppppppp/8/8/8/8/PPPPPPPP/RNBQKBNR W KQkq - 0 1",
        "rnbqkbnr/pppppppp/8/8/8/8/PPPPPPPP/RNBQKBNR w KK - 0 1",
        "rnbqkbnr/pppppppp/8/8/8/8/PPPPPPPP/RNBQKBNR w KQkqK - 0 1",
        "rnbqkbnr/pppppppp/8/8/8/8/PPPPPPPP/RNBQKBNR w Kp - 0 1",
        "rnbqkbnr/pppppppp/8/8/8/8/PPPPPPPP/RNBQKBNR w KQkq e9 0 1",
        "rnbqkbnr/pppppppp/8/8/8/8/PPPPPPPP/RNBQKBNR w KQkq e 0 1",
        "rnbqkbnr/pppppppp/8/8/8/8/PPPPPPPP/RNBQKBNR w KQkq - 0 one",
        "rnbqkbnr/pppppppp/8/8/8/8/PPPPPPPP/RNBQKBNR w KQkq - 0 -1",
        "rnbqkbnr/pppppppp/8/8/8/8/PPPPPPPP/RNBQKBNR w KQkq - 0 99999999999999999999999999",
    ];
    for fen in bad {
        assert!(Game::parse_fen(fen).is_none(), "{}", fen);
    }
    assert!(Game::parse_fen(START).is_some());
    assert!(Game::parse_fen("44/8/8/8/8/8/8/K1k5 w - - 0 1").is_some());
}

#[test]
fn fen_round_trip() {
    let texts = [
        START,
        "rnbqkbnr/pppppppp/8/8/8/8/PPPPPPPP/R3KBNR w KQkq - 0 1",
        "8/P7/8/8/8/8/8/K1k5 w - - 0 1",
        "kr6/r7/8/8/8/8/8/2K5 b - - 0 1",
        "r2qkbnr/2pNpppp/p1Q5/8/3p2b1/2P5/PP1PPP1P/RNB1KB1R w qK - 0 1",
        "8/8/8/8/8/8/8/8 b k - 0 1",
        "1n1q1b1r/p1p1p1p1/8/PPPPPPPP/8/3k4/8/K7 w - - 0 1",
        "rnbqkbnr/pppppppp/8/8/4P3/8/PPPP1PPP/RNBQKBNR b KQkq e3 0 1",
        "rnbqkbnr/pp1ppppp/8/2p5/4P3/8/PPPP1PPP/RNBQKBNR w KQkq c6 0 1",
        "8/8/pP6/8/8/8/8/K1k5 w - a7 0 1",
        "8/8/8/8/8/8/8/K1k5 b - h1 0 1",
    ];
    for text in texts {
        assert_eq!(game(text).to_fen(), text);
    }
}

#[test]
fn to_fen_writes_the_target_and_zero_one() {
    let g = game("8/8/8/8/4Pp2/8/8/K1k5 b - e3 7 42");
    assert_eq!(g.to_fen(), "8/8/8/8/4Pp2/8/8/K1k5 b - e3 0 1");
    let mut g = game(START);
    g.do_move(&Move::simple_new([4, 1], [4, 3]));
    assert_eq!(g.to_fen(), "rnbqkbnr/pppppppp/8/8/4P3/8/PPPP1PPP/RNBQKBNR b KQkq e3 0 1");
    g.do_move(&Move::simple_new([2, 6], [2, 4]));
    assert_eq!(g.to_fen(), "rnbqkbnr/pp1ppppp/8/2p5/4P3/8/PPPP1PPP/RNBQKBNR w KQkq c6 0 1");
}

#[test]
fn to_fen_writes_a_dash_for_a_target_off_the_board() {
    let mut g = game("8/8/8/8/8/8/8/K1k5 w - - 0 1");
    g.en_passant_target_square = Some([8, 2]);
    assert_eq!(g.to_fen(), "8/8/8/8/8/8/8/K1k5 w - - 0 1");
    g.en_passant_target_square = Some([0, 9]);
    assert_eq!(g.to_fen(), "8/8/8/8/8/8/8/K1k5 w - - 0 1");
    g.en_passant_target_square = Some([7, 7]);
    assert_eq!(g.to_fen(), "8/8/8/8/8/8/8/K1k5 w - h8 0 1");
}

#[test]
fn game_phases() {
    assert_eq!(game(START).game_phase, GamePhase::StartGame);
    // more than eight pieces on the four middle ranks
    assert_eq!(game("rnbqkbnr/8/pppppppp/8/P7/8/1PPPPPPP/RNBQKBNR w KQkq - 0 1").game_phase, GamePhase::MidGame);
    assert_eq!(game("rnbqkbnr/8/pppppppp/8/8/8/PPPPPPPP/RNBQKBNR w KQkq - 0 1").game_phase, GamePhase::StartGame);
    // after move 15
    assert_eq!(game("rnbqkbnr/pppppppp/8/8/8/8/PPPPPPPP/RNBQKBNR w KQkq - 0 16").game_phase, GamePhase::MidGame);
    assert_eq!(game("rnbqkbnr/pppppppp/8/8/8/8/PPPPPPPP/RNBQKBNR w KQkq - 0 15").game_phase, GamePhase::StartGame);
    // fewer than twelve pieces
    assert_eq!(game("7k/7r/5r2/K7/8/8/8/8 b - - 0 1").game_phase, GamePhase::EndGame);
    assert_eq!(game("rnbqkb2/8/8/8/8/8/8/RNBQK3 w - - 0 40").game_phase, GamePhase::EndGame);
    assert_eq!(game("rnbqkbn1/8/8/8/8/8/8/RNBQK3 w - - 0 40").game_phase, GamePhase::MidGame);
}

#[test]
fn calculate_game_phase_keeps_the_phase_it_cannot_improve() {
    let mut g = game(START);
    g.game_phase = GamePhase::EndGame;
    g.calculate_game_phase();
    assert_eq!(g.game_phase, GamePhase::EndGame);
    g.fullmove_counter = 16;
    g.calculate_game_phase();
    assert_eq!(g.game_phase, GamePhase::MidGame);
}

#[test]
fn score_is_counted_in_the_phase_of_the_position() {
    // a lone white pawn on a7 beside the kings: endgame values
    let g = game("8/P7/8/8/8/8/8/K1k5 w - - 0 1");
    assert_eq!(g.game_phase, GamePhase::EndGame);
    let pawn = piece(PieceType::Pawn, Color::White).score(0, 6, &GamePhase::EndGame);
    let white_king = piece(PieceType::King, Color::White).score(0, 0, &GamePhase::EndGame);
    let black_king = piece(PieceType::King, Color::Black).score(2, 0, &GamePhase::EndGame);
    assert_eq!(g.score_white, pawn + white_king - black_king);
    assert_eq!(g.score_white, 180 + (-50) - (-30));
}

#[test]
fn board_score_for_both_sides() {
    let mut g = game("rnbqkbnr/pppppppp/8/8/8/8/8/RNBQKBNR w KQkq - 0 1");
    let white = g.get_board_score(Color::White);
    let black = g.get_board_score(Color::Black);
    assert_eq!(white, g.score_white);
    assert_eq!(black, -g.score_white);
    assert_eq!(white, -810);
}

#[test]
fn missing_kings_give_mate_scores() {
    assert_eq!(game("rnbqkbnr/pppppppp/8/8/8/8/PPPPPPPP/RNBQ1BNR w - - 0 1").score_white, -i64::MAX);
    assert_eq!(game("rnbq1bnr/pppppppp/8/8/8/8/PPPPPPPP/RNBQKBNR w - - 0 1").score_white, i64::MAX);
    assert_eq!(game("8/8/8/8/8/8/8/8 w - - 0 1").score_white, -i64::MAX);
}

#[test]
fn missing_black_king_gives_the_mate_score() {
    let g = game("rnbq1bnr/pppppppp/8/8/8/8/PPPPPPPP/RNBQKBNR w KQkq - 0 1");
    assert_eq!(g.score_white, i64::MAX);
}

#[test]
fn queen_side_castle_moves_king_and_rook() {
    let mut g = game("rnbqkbnr/pppppppp/8/8/8/8/PPPPPPPP/R3KBNR w KQkq - 0 1");
    g.do_move(&Move { from: [4, 0], to: [2, 0], piece: Some(piece(PieceType::Queen, Color::White)) });
    assert_eq!(g.board[0][0], None);
    assert_eq!(g.board[0][4], None);
    assert_eq!(g.board[0][2], Some(piece(PieceType::King, Color::White)));
    assert_eq!(g.board[0][3], Some(piece(PieceType::Rook, Color::White)));
    assert_eq!(g.castle, vec![piece(PieceType::King, Color::Black), piece(PieceType::Queen, Color::Black)]);
    assert_eq!(g.on_turn, Color::Black);
}

#[test]
fn promotion_puts_the_queen_on_the_board() {
    let mut g = game("8/P7/8/8/8/8/8/K1k5 w - - 0 1");
    let before = g.score_white;
    g.do_move(&Move { from: [0, 6], to: [0, 7], piece: Some(piece(PieceType::Queen, Color::White)) });
    assert_eq!(g.board[7][0], Some(piece(PieceType::Queen, Color::White)));
    assert_eq!(g.board[6][0], None);
    let queen = piece(PieceType::Queen, Color::White).score(0, 7, &GamePhase::EndGame);
    assert_eq!(g.score_white, before - 180 + queen);
}

#[test]
fn en_passant_removes_the_captured_pawn() {
    let mut g = game("8/8/pP6/8/8/8/8/K1k5 w - a7 0 1");
    let before = g.score_white;
    g.do_move(&Move { from: [1, 5], to: [0, 6], piece: Some(piece(PieceType::Queen, Color::White)) });
    assert_eq!(g.board[5][0], None);
    assert_eq!(g.board[5][1], None);
    assert_eq!(g.board[6][0], Some(piece(PieceType::Pawn, Color::White)));
    assert_eq!(g.en_passant_target_square, None);
    let phase = GamePhase::EndGame;
    let pawn = piece(PieceType::Pawn, Color::White);
    let taken = piece(PieceType::Pawn, Color::Black).score(0, 5, &phase);
    assert_eq!(g.score_white, before - pawn.score(1, 5, &phase) + pawn.score(0, 6, &phase) + taken);
    let mut fresh = g.clone();
    fresh.calculate_board_score();
    assert_eq!(fresh.score_white, g.score_white);
}

#[test]
fn double_step_sets_the_en_passant_target() {
    let mut g = game(START);
    g.do_move(&Move::simple_new([4, 1], [4, 3]));
    assert_eq!(g.en_passant_target_square, Some([4, 2]));
    assert_eq!(g.fullmove_counter, 1);
    assert_eq!(g.on_turn, Color::Black);
    g.do_move(&Move::simple_new([3, 6], [3, 4]));
    assert_eq!(g.en_passant_target_square, Some([3, 5]));
    assert_eq!(g.fullmove_counter, 2);
    g.do_move(&Move::simple_new([6, 0], [5, 2]));
    assert_eq!(g.en_passant_target_square, None);
    assert_eq!(g.moves.len(), 3);
    assert_eq!(g.moves[1].to, [3, 4]);
}

#[test]
fn castling_rights_only_shrink() {
    let mut g = game("r3k2r/pppppppp/8/8/8/8/PPPPPPPP/R3K2R w KQkq - 0 1");
    let wk = piece(PieceType::King, Color::White);
    let wq = piece(PieceType::Queen, Color::White);
    let bk = piece(PieceType::King, Color::Black);
    let bq = piece(PieceType::Queen, Color::Black);
    // the rook leaves the h-file corner
    g.do_move(&Move::simple_new([7, 0], [6, 0]));
    assert_eq!(g.castle, vec![wq, bk, bq]);
    // the rook leaves the a-file corner
    g.do_move(&Move::simple_new([0, 7], [1, 7]));
    assert_eq!(g.castle, vec![wq, bk]);
    // the king moves
    g.do_move(&Move::simple_new([4, 0], [3, 0]));
    assert_eq!(g.castle, vec![bk]);
    // a pawn moves
    g.do_move(&Move::simple_new([0, 6], [0, 5]));
    assert_eq!(g.castle, vec![bk]);
    // king-side castle of Black
    g.do_move(&Move { from: [4, 7], to: [7, 7], piece: Some(bk) });
    assert!(g.castle.is_empty());
    assert_eq!(g.board[7][6], Some(piece(PieceType::King, Color::Black)));
    assert_eq!(g.board[7][5], Some(piece(PieceType::Rook, Color::Black)));
    assert_eq!(g.board[7][7], None);
    assert_eq!(g.board[7][4], None);
    let _ = wk;
}

#[test]
fn capturing_a_rook_takes_its_right() {
    let mut g = game("r3k2r/8/8/8/8/8/8/R3K2R w KQkq - 0 1");
    g.do_move(&Move::simple_new([7, 0], [7, 7]));
    assert_eq!(g.castle, vec![piece(PieceType::Queen, Color::White), piece(PieceType::Queen, Color::Black)]);
    let mut after = g.clone();
    after.calculate_board_score();
    assert_eq!(after.score_white, g.score_white);
}

#[test]
fn capturing_a_king_decides_the_game() {
    let mut g = game("k7/8/8/8/8/8/8/R3K3 w - - 0 1");
    g.do_move(&Move::simple_new([0, 0], [0, 7]));
    assert_eq!(g.score_white, i64::MAX);
    let mut g = game("k7/8/8/8/8/8/8/r3K3 b - - 0 1");
    g.do_move(&Move::simple_new([0, 0], [4, 0]));
    assert_eq!(g.score_white, -i64::MAX);
    let mut again = g.clone();
    again.calculate_board_score();
    assert_eq!(again.score_white, -i64::MAX);
}

#[test]
fn capturing_a_king_gives_the_mate_score_whatever_the_score_was() {
    for score in [i64::MAX - 5, -i64::MAX + 5, i64::MAX, -i64::MAX, 0, 12345] {
        let mut g = game("k7/8/8/8/8/8/8/R3K3 w - - 0 1");
        g.score_white = score;
        g.do_move(&Move::simple_new([0, 0], [0, 7]));
        assert_eq!(g.score_white, i64::MAX);
        let mut g = game("k7/8/8/8/8/8/8/r3K3 b - - 0 1");
        g.score_white = score;
        g.do_move(&Move::simple_new([0, 0], [4, 0]));
        assert_eq!(g.score_white, -i64::MAX);
    }
}

#[test]
fn the_book_answers_whatever_the_depth_and_the_score() {
    let book = OpeningsDatabase::new("ECO C20\nNAME Open Game\nUCI e2e4 e7e5 g1f3\n");
    let mut g = game(START);
    g.do_move(&Move::simple_new([4, 1], [4, 3]));
    g.score_white = i64::MAX;
    let reply = g.get_best_move(0, &book);
    assert_eq!((reply.from, reply.to), ([4, 6], [4, 4]));
    let reply = g.get_best_move(255, &book);
    assert_eq!((reply.from, reply.to), ([4, 6], [4, 4]));
}

#[test]
fn room_for_moves() {
    let mut g = game(START);
    assert!(g.has_room(1));
    assert!(g.has_room(256));
    assert!(g.has_room(u16::MAX));
    g.score_white = i64::MAX - 4000;
    assert!(g.has_room(1));
    assert!(!g.has_room(2));
    assert!(g.can_move(&Move::simple_new([4, 1], [4, 3])));
    g.score_white = -i64::MAX + 3999;
    assert!(!g.has_room(1));
    assert!(g.has_room(0));
    assert!(!g.can_move(&Move::simple_new([4, 1], [4, 3])));
    g.score_white = 0;
    assert!(!g.can_move(&Move::simple_new([4, 2], [4, 3])));
    assert!(!g.can_move(&Move::simple_new([4, 1], [4, 8])));
    g.fullmove_counter = usize::MAX;
    assert!(!g.has_room(1));
    assert!(g.has_room(0));
}

#[test]
fn apply_moves_plays_them_in_order() {
    let moves = vec![
        Move::simple_new([4, 1], [4, 3]),
        Move::simple_new([4, 6], [4, 4]),
        Move::simple_new([6, 0], [5, 2]),
    ];
    let mut a = game(START);
    a.apply_moves(&moves);
    let mut b = game(START);
    for m in moves.iter() {
        b.do_move(m);
    }
    assert_eq!(a.to_fen(), b.to_fen());
    assert_eq!(a.to_fen(), "rnbqkbnr/pppp1ppp/8/4p3/4P3/5N2/PPPP1PPP/RNBQKB1R b KQkq - 0 1");
    assert_eq!(a.score_white, b.score_white);
    assert_eq!(a.fullmove_counter, 2);
    assert_eq!(a.moves.len(), 3);
}

#[test]
fn running_score_follows_generated_moves() {
    let starts = [
        START,
        "r3k2r/pppq1ppp/2npbn2/2b1p3/2B1P3/2NPBN2/PPPQ1PPP/R3K2R w KQkq - 0 1",
        "4k3/P6p/8/8/8/8/p6P/4K3 w - - 0 1",
        "rnbqkbnr/ppp1pppp/8/8/3pP3/8/PPPP1PPP/RNBQKBNR b KQkq e3 0 1",
    ];
    for start in starts {
        let first = game(start);
        let color = first.on_turn;
        for mve in first.get_all_moves(color) {
            let mut g = first.clone();
            g.do_move(&mve);
            let running = g.score_white;
            g.calculate_board_score();
            assert_eq!(running, g.score_white, "{} {}", start, mve.long_algebraic_notation());
            // and one ply deeper
            let reply_color = g.on_turn;
            if running.abs() != i64::MAX {
                for reply in g.get_all_moves(reply_color) {
                    let mut h = g.clone();
                    h.do_move(&reply);
                    let running = h.score_white;
                    h.calculate_board_score();
                    assert_eq!(running, h.score_white);
                }
            }
        }
    }
}

#[test]
fn walk_offsets_walks() {
    let g = game("8/8/8/3p4/8/8/3R2P1/K1k5 w - - 0 1");
    // the rook on d2: up to the pawn on d5, right to the own pawn, left to the edge, down one
    let moves = walk_offsets(&Color::White, [3, 1], g.board, vec![[0, 1], [1, 0], [-1, 0], [0, -1]], None, true);
    assert_eq!(squares(&moves), vec![
        ([3, 1], [3, 2]), ([3, 1], [3, 3]), ([3, 1], [3, 4]),
        ([3, 1], [4, 1]), ([3, 1], [5, 1]),
        ([3, 1], [2, 1]), ([3, 1], [1, 1]), ([3, 1], [0, 1]),
        ([3, 1], [3, 0]),
    ]);
    // without taking, the pawn only blocks
    let moves = walk_offsets(&Color::White, [3, 1], g.board, vec![[0, 1]], None, false);
    assert_eq!(squares(&moves), vec![([3, 1], [3, 2]), ([3, 1], [3, 3])]);
    // with a limit
    let moves = walk_offsets(&Color::White, [3, 1], g.board, vec![[0, 1], [-1, 0]], Some(2), true);
    assert_eq!(squares(&moves), vec![([3, 1], [3, 2]), ([3, 1], [3, 3]), ([3, 1], [2, 1]), ([3, 1], [1, 1])]);
    assert!(moves.iter().all(|m| m.piece.is_none()));
}

#[test]
fn with_offsets_steps() {
    let g = game("8/8/8/8/3p4/2P5/3N4/K1k5 w - - 0 1");
    let around = vec![[1, 0], [1, 1], [0, 1], [-1, 1], [-1, 0], [-1, -1], [0, -1], [1, -1]];
    // from d3: the black pawn on d4 can be taken, the own pawn and knight block
    let moves = with_offsets(&Color::White, [3, 2], g.board, around.clone(), false);
    assert_eq!(squares(&moves), vec![
        ([3, 2], [4, 2]), ([3, 2], [4, 3]), ([3, 2], [3, 3]), ([3, 2], [2, 3]),
        ([3, 2], [2, 1]), ([3, 2], [4, 1]),
    ]);
    let moves = with_offsets(&Color::White, [3, 2], g.board, around.clone(), true);
    assert_eq!(squares(&moves), vec![([3, 2], [3, 3])]);
    // the edge of the board
    let moves = with_offsets(&Color::White, [7, 7], g.board, around, false);
    assert_eq!(squares(&moves), vec![([7, 7], [6, 7]), ([7, 7], [6, 6]), ([7, 7], [7, 6])]);
}

#[test]
fn start_position_has_twenty_moves_pawns_last() {
    let g = game(START);
    let moves = g.get_all_moves(Color::White);
    assert_eq!(moves.len(), 20);
    // the knights' moves come first, the last found first
    assert_eq!(squares(&moves)[..4], [([6, 0], [7, 2]), ([6, 0], [5, 2]), ([1, 0], [2, 2]), ([1, 0], [0, 2])]);
    // then the pawns in the order of their files
    assert_eq!(squares(&moves)[4..8], [([0, 1], [0, 2]), ([0, 1], [0, 3]), ([1, 1], [1, 2]), ([1, 1], [1, 3])]);
    assert_eq!(g.get_all_moves(Color::Black).len(), 20);
}

#[test]
fn pawn_moves_of_all_kinds() {
    // captures, then the steps ahead
    let g = game("8/8/8/8/8/2p1p3/3P4/K1k5 w - - 0 1");
    let moves = get_all_piece_moves(PieceType::Pawn, Color::White, [3, 1], &g);
    assert_eq!(squares(&moves), vec![([3, 1], [4, 2]), ([3, 1], [2, 2]), ([3, 1], [3, 2]), ([3, 1], [3, 3])]);
    // a blocked pawn
    let g = game("8/8/8/8/8/3p4/3P4/K1k5 w - - 0 1");
    assert!(get_all_piece_moves(PieceType::Pawn, Color::White, [3, 1], &g).is_empty());
    // one step only off the first rank
    let g = game("8/8/8/8/8/3P4/8/K1k5 w - - 0 1");
    assert_eq!(squares(&get_all_piece_moves(PieceType::Pawn, Color::White, [3, 2], &g)), vec![([3, 2], [3, 3])]);
    // black pawns go down
    let g = game("8/3p4/8/8/8/8/8/K1k5 b - - 0 1");
    assert_eq!(squares(&get_all_piece_moves(PieceType::Pawn, Color::Black, [3, 6], &g)), vec![([3, 6], [3, 5]), ([3, 6], [3, 4])]);
    // promotions to queen, knight, rook, bishop
    let g = game("8/P7/8/8/8/8/8/K1k5 w - - 0 1");
    let moves = get_all_piece_moves(PieceType::Pawn, Color::White, [0, 6], &g);
    let kinds: Vec<PieceType> = moves.iter().map(|m| m.piece.unwrap().piece_type).collect();
    assert_eq!(kinds, vec![PieceType::Queen, PieceType::Knight, PieceType::Rook, PieceType::Bishop]);
    assert!(moves.iter().all(|m| m.to == [0, 7] && m.piece.unwrap().color == Color::White));
    // en passant
    let g = game("8/8/8/8/3pP3/8/8/K1k5 b - e3 0 1");
    let moves = get_all_piece_moves(PieceType::Pawn, Color::Black, [3, 3], &g);
    assert_eq!(squares(&moves), vec![([3, 3], [3, 2]), ([3, 3], [4, 2])]);
}

#[test]
fn castling_moves_are_generated() {
    let g = game("r3k2r/8/8/8/8/8/8/R3K2R w KQkq - 0 1");
    let moves = get_all_piece_moves(PieceType::King, Color::White, [4, 0], &g);
    let castles: Vec<&Move> = moves.iter().filter(|m| m.piece.is_some()).collect();
    assert_eq!(castles.len(), 2);
    assert_eq!(castles[0].to, [7, 0]);
    assert_eq!(castles[0].piece, Some(piece(PieceType::King, Color::White)));
    assert_eq!(castles[1].to, [0, 0]);
    assert_eq!(castles[1].piece, Some(piece(PieceType::Queen, Color::White)));
    assert_eq!(moves.len(), 7);
    let black = get_all_piece_moves(PieceType::King, Color::Black, [4, 7], &g);
    assert_eq!(black.iter().filter(|m| m.piece.is_some()).count(), 2);

    // no right, no castle
    let g = game("r3k2r/8/8/8/8/8/8/R3K2R w Qk - 0 1");
    let moves = get_all_piece_moves(PieceType::King, Color::White, [4, 0], &g);
    let castles: Vec<&Move> = moves.iter().filter(|m| m.piece.is_some()).collect();
    assert_eq!(castles.len(), 1);
    assert_eq!(castles[0].to, [0, 0]);

    // a piece in the way
    let g = game("r3k2r/8/8/8/8/8/8/RN2K1NR w KQkq - 0 1");
    let moves = get_all_piece_moves(PieceType::King, Color::White, [4, 0], &g);
    assert!(moves.iter().all(|m| m.piece.is_none()));

    // a king that is not at home
    let g = game("r3k2r/8/8/8/8/8/8/R2K3R w KQkq - 0 1");
    let moves = get_all_piece_moves(PieceType::King, Color::White, [3, 0], &g);
    assert!(moves.iter().all(|m| m.piece.is_none()));
}

#[test]
fn no_castling_out_of_or_through_attack() {
    // the rook on e8 attacks the king
    let g = game("4r1k1/8/8/8/8/8/8/R3K2R w KQ - 0 1");
    assert!(get_all_piece_moves(PieceType::King, Color::White, [4, 0], &g).iter().all(|m| m.piece.is_none()));
    // the rook on f8 attacks f1: queen side only
    let g = game("5rk1/8/8/8/8/8/8/R3K2R w KQ - 0 1");
    let moves = get_all_piece_moves(PieceType::King, Color::White, [4, 0], &g);
    let castles: Vec<&Move> = moves.iter().filter(|m| m.piece.is_some()).collect();
    assert_eq!(castles.len(), 1);
    assert_eq!(castles[0].to, [0, 0]);
    // the rook on d8 attacks d1: king side only
    let g = game("3r2k1/8/8/8/8/8/8/R3K2R w KQ - 0 1");
    let moves = get_all_piece_moves(PieceType::King, Color::White, [4, 0], &g);
    let castles: Vec<&Move> = moves.iter().filter(|m| m.piece.is_some()).collect();
    assert_eq!(castles.len(), 1);
    assert_eq!(castles[0].to, [7, 0]);
    // an attack on b1 does not matter
    let g = game("1r4k1/8/8/8/8/8/8/R3K2R w KQ - 0 1");
    let moves = get_all_piece_moves(PieceType::King, Color::White, [4, 0], &g);
    assert_eq!(moves.iter().filter(|m| m.piece.is_some()).count(), 2);
    // black castles under the same rules
    let g = game("r3k2r/8/8/8/8/8/8/3R2K1 b kq - 0 1");
    let moves = get_all_piece_moves(PieceType::King, Color::Black, [4, 7], &g);
    let castles: Vec<&Move> = moves.iter().filter(|m| m.piece.is_some()).collect();
    assert_eq!(castles.len(), 1);
    assert_eq!(castles[0].to, [7, 7]);
    assert_eq!(castles[0].piece, Some(piece(PieceType::King, Color::Black)));
}

#[test]
fn attacks_are_detected() {
    let g = game(START);
    assert!(g.square_is_attacked([4, 2], Color::White));
    assert!(!g.square_is_attacked([4, 3], Color::White));
    assert!(g.square_is_attacked([4, 5], Color::Black));
    assert!(!g.square_is_attacked([4, 2], Color::Black));
    // knights
    assert!(g.square_is_attacked([0, 2], Color::White));
    assert!(g.square_is_attacked([7, 5], Color::Black));

    let g = game("8/8/8/3q4/8/8/8/K1k5 w - - 0 1");
    assert!(g.square_is_attacked([3, 0], Color::Black));
    assert!(g.square_is_attacked([7, 0], Color::Black));
    assert!(!g.square_is_attacked([7, 1], Color::Black));
    assert!(g.square_is_attacked([0, 7], Color::Black));
    assert!(g.square_is_attacked([7, 4], Color::Black));
    assert!(!g.square_is_attacked([3, 0], Color::White));

    // pawns attack ahead of them only
    let g = game("8/8/8/3p4/8/3P4/8/K1k5 w - - 0 1");
    assert!(g.square_is_attacked([4, 3], Color::White));
    assert!(g.square_is_attacked([2, 3], Color::White));
    assert!(!g.square_is_attacked([3, 3], Color::White));
    assert!(g.square_is_attacked([4, 3], Color::Black));
    assert!(!g.square_is_attacked([4, 5], Color::Black));
    assert!(!g.square_is_attacked([4, 1], Color::White));
}

#[test]
fn kings_attack_the_squares_around_them() {
    let g = game("8/8/8/8/8/8/8/K1k5 w - - 0 1");
    assert!(g.square_is_attacked([1, 0], Color::White));
    assert!(g.square_is_attacked([1, 0], Color::Black));
    assert!(g.square_is_attacked([0, 1], Color::White));
    assert!(!g.square_is_attacked([0, 1], Color::Black));
    assert!(g.square_is_attacked([3, 1], Color::Black));
    assert!(!g.square_is_attacked([3, 1], Color::White));
    assert!(!g.square_is_attacked([5, 5], Color::White));
}

#[test]
fn ranked_lists() {
    let a = Move::simple_new([0, 0], [0, 1]);
    let b = Move::simple_new([1, 0], [1, 1]);
    let c = Move::simple_new([2, 0], [2, 1]);
    let d = Move::simple_new([3, 0], [3, 1]);
    let mut list: Vec<(Move, i64)> = Vec::new();
    insert_ranked(&mut list, a, 5);
    insert_ranked(&mut list, b, 7);
    insert_ranked(&mut list, c, 7);
    insert_ranked(&mut list, d, 1);
    let order: Vec<([usize; 2], i64)> = list.iter().map(|e| (e.0.from, e.1)).collect();
    assert_eq!(order, vec![([1, 0], 7), ([2, 0], 7), ([0, 0], 5), ([3, 0], 1)]);
    assert_eq!(count_best(&list), 2);
    assert_eq!(best_of(&list, 0).unwrap().from, [1, 0]);
    assert_eq!(best_of(&list, 1).unwrap().from, [2, 0]);
    assert!(best_of(&list, 2).is_none());
    let single = vec![(a, -3)];
    assert_eq!(count_best(&single), 1);
}

#[test]
fn search_takes_a_king_at_once() {
    let g = game("k7/8/8/8/8/8/8/R3K3 w - - 0 1");
    let (score, mve) = g.private_get_best_move(3, 3, i64::MAX);
    assert_eq!(score, i64::MAX);
    assert_eq!(mve.from, [0, 0]);
    assert_eq!(mve.to, [0, 7]);
    assert_eq!(g.score_root_move(&mve, 3), i64::MAX);
    let best = g.get_best_move(2, &OpeningsDatabase::new(""));
    assert_eq!((best.from, best.to), ([0, 0], [0, 7]));
}

#[test]
fn search_without_moves_returns_the_idle_move() {
    let g = game("8/8/8/8/8/8/8/8 w - - 0 1");
    let mut g = g;
    g.score_white = 0;
    let (score, mve) = g.private_get_best_move(2, 2, i64::MAX);
    assert_eq!(score, -i64::MAX);
    assert_eq!((mve.from, mve.to), ([0, 0], [0, 1]));
}

#[test]
fn search_scores_by_material() {
    // White to move can take a rook for nothing
    let g = game("k7/8/8/8/8/8/r7/R3K3 w - - 0 1");
    let (score, mve) = g.private_get_best_move(1, 1, i64::MAX);
    assert_eq!((mve.from, mve.to), ([0, 0], [0, 1]));
    let mut after = g.clone();
    after.do_move(&mve);
    assert_eq!(score, after.score_white);
    let ranked = g.rank_moves(1);
    assert_eq!(ranked.len(), g.get_all_moves(Color::White).len());
    for pair in ranked.windows(2) {
        assert!(pair[0].1 >= pair[1].1);
    }
    assert_eq!((ranked[0].0.from, ranked[0].0.to), ([0, 0], [0, 1]));
    assert_eq!(ranked[0].1, g.score_root_move(&ranked[0].0, 1));
}

#[test]
fn quick_mates_score_higher() {
    // whatever Black does, White takes the king with the next move; the
    // score of a king capture found one ply down is one point off the mate
    // score
    let g = game("k7/8/8/8/8/8/1R6/R3K3 b - - 0 1");
    let (score, _) = g.private_get_best_move(2, 2, i64::MAX);
    assert_eq!(score, -i64::MAX + 1);
}

#[test]
fn best_move_comes_from_the_book_first() {
    let book = OpeningsDatabase::new("ECO C20\nNAME Open Game\nUCI e2e4 e7e5 g1f3\n");
    let mut g = game(START);
    g.do_move(&Move::simple_new([4, 1], [4, 3]));
    assert_eq!(g.moves.len(), g.fullmove_counter);
    let reply = g.get_best_move(1, &book);
    assert_eq!((reply.from, reply.to), ([4, 6], [4, 4]));
    g.do_move(&reply);
    let next = g.get_best_move(1, &book);
    assert_eq!((next.from, next.to), ([6, 0], [5, 2]));
}

#[test]
fn avoids_the_rook_file() {
    let g = game("kr6/r7/8/8/8/8/8/2K5 w - - 0 100");
    let best = g.get_best_move(6, &OpeningsDatabase::new(""));
    assert_ne!(best.to[0], 1);
    assert_eq!(best.from, [2, 0]);
}

#[test]
fn book_is_read() {
    let text = "ECO A00\nNAME Polish Opening\nUCI b2b4\nsome other line\nECO C60\nNAME Ruy Lopez\nUCI e2e4 e7e5 g1f3 b8c6 f1b5\n";
    let book = OpeningsDatabase::parse(text).unwrap();
    let none: Vec<Move> = Vec::new();
    let first = book.find_replies(&none);
    assert_eq!(squares(&first), vec![([1, 1], [1, 3]), ([4, 1], [4, 3])]);
    let history = vec![
        Move::simple_new([4, 1], [4, 3]),
        Move::simple_new([4, 6], [4, 4]),
        Move::simple_new([6, 0], [5, 2]),
    ];
    let reply = book.find_opening(&history).unwrap();
    assert_eq!((reply.from, reply.to), ([1, 7], [2, 5]));
}

#[test]
fn book_lines_may_come_in_any_order() {
    let book = OpeningsDatabase::new("UCI d2d4 d7d5\nNAME Closed Game\nECO D00");
    let reply = book.find_opening(&vec![Move::simple_new([3, 1], [3, 3])]).unwrap();
    assert_eq!((reply.from, reply.to), ([3, 6], [3, 4]));
    // without a code there is no opening
    let book = OpeningsDatabase::new("NAME Closed Game\nUCI d2d4 d7d5\n");
    assert!(book.find_opening(&vec![Move::simple_new([3, 1], [3, 3])]).is_none());
}

#[test]
fn book_rejects_what_is_malformed() {
    assert!(OpeningsDatabase::parse("ECO A00\nNAME x\nUCI e2e9\n").is_none());
    assert!(OpeningsDatabase::parse("ECO A00\nNAME x\nUCI e2e4  e7e5\n").is_none());
    assert!(OpeningsDatabase::parse("ECO A00\nNAME x\nUCI e2e4 \n").is_none());
    assert!(OpeningsDatabase::parse("ECO\nNAME x\nUCI e2e4\n").is_none());
    assert!(OpeningsDatabase::parse("ECO A00\r\nNAME x\r\nUCI e2e4\r\n").is_none());
    assert!(OpeningsDatabase::parse("").is_some());
    assert!(OpeningsDatabase::parse("ECO A00\nNAME\nUCI\n").is_some());
}

#[test]
fn book_has_no_reply_beyond_its_openings() {
    let book = OpeningsDatabase::new("ECO C20\nNAME Open Game\nUCI e2e4 e7e5\n");
    let played = vec![Move::simple_new([4, 1], [4, 3]), Move::simple_new([4, 6], [4, 4])];
    assert!(book.find_opening(&played).is_none());
    assert!(book.find_opening(&vec![Move::simple_new([3, 1], [3, 3])]).is_none());
    // the promotion piece of a move does not count
    let with_piece = vec![Move { from: [4, 1], to: [4, 3], piece: Some(piece(PieceType::Queen, Color::White)) }];
    let reply = book.find_opening(&with_piece).unwrap();
    assert_eq!((reply.from, reply.to), ([4, 6], [4, 4]));
}

#[test]
fn book_reply_is_one_of_the_openings_that_continue() {
    let book = OpeningsDatabase::new("ECO B\nNAME a\nUCI e2e4 c7c5\nECO C\nNAME b\nUCI e2e4 e7e5\nECO D\nNAME c\nUCI d2d4 d7d5\n");
    let played = vec![Move::simple_new([4, 1], [4, 3])];
    let mut seen = Vec::new();
    for _ in 0..200 {
        let reply = book.find_opening(&played).unwrap();
        assert!(reply.to == [2, 4] || reply.to == [4, 4]);
        if !seen.contains(&reply.to) {
            seen.push(reply.to);
        }
    }
    assert_eq!(seen.len(), 2);
}

#[test]
fn pick_move_picks_by_number() {
    let found = vec![Move::simple_new([0, 0], [0, 1]), Move::simple_new([1, 0], [1, 1])];
    assert_eq!(pick_move(&found, 1).unwrap().from, [1, 0]);
    assert!(pick_move(&found, 2).is_none());
}

#[test]
fn long_games_keep_the_score_exact() {
    for seed in 1..6u64 {
        let mut g = game(START);
        let mut state = seed;
        for _ in 0..120 {
            if !g.has_room(1) {
                break;
            }
            let moves = g.get_all_moves(g.on_turn);
            if moves.is_empty() {
                break;
            }
            state = state.wrapping_mul(6364136223846793005).wrapping_add(1442695040888963407);
            let mve = moves[(state >> 33) as usize % moves.len()];
            assert!(g.can_move(&mve));
            let rights_before = g.castle.clone();
            g.do_move(&mve);
            assert!(g.castle.iter().all(|r| rights_before.contains(r)));
            let running = g.score_white;
            let mut fresh = g.clone();
            fresh.calculate_board_score();
            assert_eq!(running, fresh.score_white);
            let text = g.to_fen();
            let again = game(&text);
            assert_eq!(again.board, g.board);
            assert_eq!(again.on_turn, g.on_turn);
            assert_eq!(again.castle, g.castle);
            assert_eq!(again.en_passant_target_square, g.en_passant_target_square);
            assert_eq!(again.to_fen(), text);
        }
    }
}

#[test]
fn attacks_agree_with_the_moves_of_the_pieces() {
    // a square that holds a piece is attacked exactly if a move of the other
    // side ends on it
    let texts = [
        START,
        "r3k2r/pppq1ppp/2npbn2/2b1p3/2B1P3/2NPBN2/PPPQ1PPP/R3K2R w - - 0 1",
        "8/2k5/3p4/4P3/2n5/5B2/1Q6/K6R w - - 0 1",
        "4k3/8/8/1b6/8/3r4/2P1P3/4K3 b - - 0 1",
    ];
    for text in texts {
        let g = game(text);
        for attacker in [Color::White, Color::Black] {
            let moves = g.get_all_moves(attacker);
            for y in 0..8 {
                for x in 0..8 {
                    if let Some(p) = g.board[y][x] {
                        if p.color != attacker {
                            let hit = moves.iter().any(|m| m.to == [x, y] && m.piece.is_none());
                            assert_eq!(g.square_is_attacked([x, y], attacker), hit, "{} {} {}", text, x, y);
                        }
                    }
                }
            }
        }
    }
}
