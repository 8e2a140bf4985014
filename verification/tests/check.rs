use chess_engine::check::{attacked_after_move, checking_pieces};
use chess_engine::piece::{Piece, PieceType};
use chess_engine::state::State;

fn piece(piece_type: PieceType, x: i32, y: i32) -> Piece {
    Piece { piece_type, current_coords: (x, y) }
}

fn game(white: Vec<Piece>, black: Vec<Piece>) -> State {
    State::from_pieces(white, black).expect("a valid position")
}

fn smothered_king() -> Vec<Piece> {
    vec![
        piece(PieceType::King, 5, 1),
        piece(PieceType::Pawn, 4, 1),
        piece(PieceType::Pawn, 6, 1),
        piece(PieceType::Pawn, 4, 2),
        piece(PieceType::Pawn, 6, 2),
    ]
}

fn rook_on_the_file() -> Vec<Piece> {
    vec![piece(PieceType::Rook, 5, 8), piece(PieceType::King, 1, 8)]
}

#[test]
fn no_check_in_the_starting_position() {
    let state = State::new();
    assert!(checking_pieces(&state, true).is_empty());
    assert!(checking_pieces(&state, false).is_empty());
    assert!(!state.determine_endgame(true));
    assert!(!state.determine_endgame(false));
}

#[test]
fn out_of_check_legal_moves_are_the_possible_moves() {
    let state = State::new();
    for first_player in [true, false] {
        for p in state.get_pieces(first_player) {
            assert_eq!(
                p.generate_legal_moves(&state, first_player),
                p.generate_possible_moves(&state, first_player)
            );
        }
    }
}

#[test]
fn out_of_check_a_king_may_step_into_attack() {
    let king = piece(PieceType::King, 4, 1);
    let state = game(vec![king], rook_on_the_file());
    assert!(checking_pieces(&state, true).is_empty());
    assert_eq!(
        king.generate_legal_moves(&state, true),
        vec![(3, 1), (3, 2), (4, 2), (5, 1), (5, 2)]
    );
}

#[test]
fn rook_on_open_file_mates_a_smothered_king() {
    let state = game(smothered_king(), rook_on_the_file());
    assert_eq!(checking_pieces(&state, true), vec![0]);
    for p in state.get_pieces(true) {
        assert!(p.generate_legal_moves(&state, true).is_empty());
    }
    assert_eq!(
        piece(PieceType::Pawn, 4, 2).generate_possible_moves(&state, true),
        vec![(4, 3), (4, 4)]
    );
    assert_eq!(
        piece(PieceType::King, 5, 1).generate_possible_moves(&state, true),
        vec![(5, 2)]
    );
    assert!(state.determine_endgame(true));
    assert!(!state.determine_endgame(false));
}

#[test]
fn knight_that_can_block_prevents_mate() {
    let mut white = smothered_king();
    let knight = piece(PieceType::Knight, 4, 3);
    white.push(knight);
    let state = game(white, rook_on_the_file());
    assert_eq!(knight.generate_legal_moves(&state, true), vec![(5, 5)]);
    assert!(!state.determine_endgame(true));
}

#[test]
fn knight_may_block_or_capture_an_undefended_checker() {
    let mut white = smothered_king();
    let knight = piece(PieceType::Knight, 4, 6);
    white.push(knight);
    let state = game(white, rook_on_the_file());
    assert_eq!(
        knight.generate_possible_moves(&state, true),
        vec![(2, 5), (2, 7), (3, 4), (3, 8), (5, 4), (5, 8), (6, 5), (6, 7)]
    );
    assert_eq!(knight.generate_legal_moves(&state, true), vec![(5, 4), (5, 8)]);
    assert!(!attacked_after_move(&state, true, (4, 6), (5, 8)));
    assert!(!state.determine_endgame(true));
}

#[test]
fn defended_checker_is_not_captured() {
    let mut white = smothered_king();
    let knight = piece(PieceType::Knight, 4, 6);
    white.push(knight);
    let state = game(
        white,
        vec![piece(PieceType::Rook, 5, 8), piece(PieceType::King, 4, 8)],
    );
    assert!(attacked_after_move(&state, true, (4, 6), (5, 8)));
    assert_eq!(knight.generate_legal_moves(&state, true), vec![(5, 4)]);
}

#[test]
fn king_in_check_leaves_the_attack_line() {
    let king = piece(PieceType::King, 5, 2);
    let state = game(vec![king], rook_on_the_file());
    assert_eq!(checking_pieces(&state, true), vec![0]);
    assert_eq!(
        king.generate_possible_moves(&state, true),
        vec![(4, 1), (4, 2), (4, 3), (5, 1), (5, 3), (6, 1), (6, 2), (6, 3)]
    );
    assert_eq!(
        king.generate_legal_moves(&state, true),
        vec![(4, 1), (4, 2), (4, 3), (6, 1), (6, 2), (6, 3)]
    );
    assert!(attacked_after_move(&state, true, (5, 2), (5, 1)));
    assert!(attacked_after_move(&state, true, (5, 2), (5, 3)));
    assert!(!attacked_after_move(&state, true, (5, 2), (4, 1)));
    assert!(!state.determine_endgame(true));
}

#[test]
fn king_captures_an_undefended_checker_only() {
    let king = piece(PieceType::King, 5, 1);
    let undefended = game(
        vec![king],
        vec![piece(PieceType::Queen, 5, 2), piece(PieceType::King, 1, 8)],
    );
    assert_eq!(king.generate_legal_moves(&undefended, true), vec![(5, 2)]);
    assert!(!undefended.determine_endgame(true));
    let defended = game(
        vec![king],
        vec![
            piece(PieceType::Queen, 5, 2),
            piece(PieceType::King, 1, 8),
            piece(PieceType::Bishop, 7, 4),
        ],
    );
    assert!(king.generate_legal_moves(&defended, true).is_empty());
    assert!(defended.determine_endgame(true));
}

#[test]
fn under_double_check_only_the_king_moves() {
    let king = piece(PieceType::King, 5, 1);
    let knight = piece(PieceType::Knight, 4, 4);
    let state = game(
        vec![king, knight],
        vec![
            piece(PieceType::King, 1, 8),
            piece(PieceType::Rook, 5, 8),
            piece(PieceType::Bishop, 2, 4),
        ],
    );
    assert_eq!(checking_pieces(&state, true), vec![1, 2]);
    assert!(knight.generate_possible_moves(&state, true).contains(&(5, 6)));
    assert!(knight.generate_legal_moves(&state, true).is_empty());
    assert_eq!(king.generate_legal_moves(&state, true), vec![(4, 1), (6, 1), (6, 2)]);
    assert!(!state.determine_endgame(true));
}

#[test]
fn double_check_with_a_trapped_king_is_mate() {
    let state = game(
        smothered_king(),
        vec![
            piece(PieceType::King, 1, 8),
            piece(PieceType::Rook, 5, 8),
            piece(PieceType::Knight, 4, 3),
        ],
    );
    assert_eq!(checking_pieces(&state, true), vec![1, 2]);
    assert!(state.determine_endgame(true));
}

#[test]
fn blocking_squares_follow_the_diagonal_of_the_check() {
    let king = piece(PieceType::King, 5, 1);
    let near = piece(PieceType::Rook, 4, 8);
    let far = piece(PieceType::Rook, 3, 8);
    let state = game(
        vec![king, near, far],
        vec![piece(PieceType::King, 8, 5), piece(PieceType::Bishop, 2, 4)],
    );
    assert_eq!(checking_pieces(&state, true), vec![1]);
    assert_eq!(near.generate_legal_moves(&state, true), vec![(4, 2)]);
    assert_eq!(far.generate_legal_moves(&state, true), vec![(3, 3)]);
}

#[test]
fn knight_check_cannot_be_blocked() {
    let king = piece(PieceType::King, 5, 1);
    let rook = piece(PieceType::Rook, 1, 2);
    let bishop = piece(PieceType::Bishop, 1, 1);
    let state = game(
        vec![king, rook, bishop],
        vec![piece(PieceType::King, 8, 8), piece(PieceType::Knight, 4, 3)],
    );
    assert_eq!(checking_pieces(&state, true), vec![1]);
    assert!(rook.generate_legal_moves(&state, true).is_empty());
    assert!(bishop.generate_legal_moves(&state, true).is_empty());
    let taker = piece(PieceType::Rook, 4, 7);
    let state = game(
        vec![king, taker],
        vec![piece(PieceType::King, 8, 8), piece(PieceType::Knight, 4, 3)],
    );
    assert_eq!(taker.generate_legal_moves(&state, true), vec![(4, 3)]);
}

#[test]
fn stalemate_is_game_over() {
    let white = vec![
        piece(PieceType::King, 8, 8),
        piece(PieceType::Pawn, 7, 8),
        piece(PieceType::Pawn, 8, 7),
        piece(PieceType::Pawn, 7, 7),
    ];
    let state = game(white.clone(), vec![piece(PieceType::King, 1, 1)]);
    assert!(checking_pieces(&state, true).is_empty());
    for p in state.get_pieces(true) {
        assert!(p.generate_legal_moves(&state, true).is_empty());
    }
    assert!(state.determine_endgame(true));
    assert!(!state.determine_endgame(false));
}

#[test]
fn one_legal_pawn_move_lifts_stalemate() {
    let pawn = piece(PieceType::Pawn, 1, 3);
    let white = vec![
        piece(PieceType::King, 8, 8),
        piece(PieceType::Pawn, 7, 8),
        piece(PieceType::Pawn, 8, 7),
        piece(PieceType::Pawn, 7, 7),
        pawn,
    ];
    let state = game(white, vec![piece(PieceType::King, 1, 1)]);
    assert_eq!(pawn.generate_legal_moves(&state, true), vec![(1, 4)]);
    assert!(!state.determine_endgame(true));
}

#[test]
fn black_is_mated_the_same_way() {
    let black = vec![
        piece(PieceType::King, 5, 8),
        piece(PieceType::Pawn, 4, 8),
        piece(PieceType::Pawn, 6, 8),
        piece(PieceType::Pawn, 4, 7),
        piece(PieceType::Pawn, 6, 7),
    ];
    let white = vec![piece(PieceType::King, 1, 1), piece(PieceType::Rook, 5, 1)];
    let state = game(white, black);
    assert_eq!(checking_pieces(&state, false), vec![1]);
    assert!(state.determine_endgame(false));
    assert!(!state.determine_endgame(true));
}
