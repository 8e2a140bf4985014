use chess_engine::board::{square_index, Space};
use chess_engine::piece::{copy_pieces, is_sliding, MoveOutcome, Piece, PieceType};
use chess_engine::player::Player;
use chess_engine::state::{coords_of_pieces, find_piece, standard_lineup, State};

fn piece(piece_type: PieceType, x: i32, y: i32) -> Piece {
    Piece { piece_type, current_coords: (x, y) }
}

fn game(white: Vec<Piece>, black: Vec<Piece>) -> State {
    State::from_pieces(white, black).expect("a valid position")
}

fn human(first_player: bool) -> Player {
    Player { first_player, ai: false, pieces: Vec::new(), king_coord: (0, 0) }
}

#[test]
fn starting_position_is_the_standard_one() {
    let state = State::new();
    let (white, black) = state.get_coords(true);
    assert_eq!(
        white,
        vec![
            (1, 1), (8, 1), (2, 1), (7, 1), (3, 1), (6, 1), (4, 1), (5, 1),
            (1, 2), (2, 2), (3, 2), (4, 2), (5, 2), (6, 2), (7, 2), (8, 2),
        ]
    );
    assert_eq!(
        black,
        vec![
            (1, 8), (8, 8), (2, 8), (7, 8), (3, 8), (6, 8), (4, 8), (5, 8),
            (1, 7), (2, 7), (3, 7), (4, 7), (5, 7), (6, 7), (7, 7), (8, 7),
        ]
    );
    assert_eq!(state.get_coords(false), (black, white));
    assert_eq!(state.get_potential_check(true).0, (5, 1));
    assert_eq!(state.get_potential_check(false).0, (5, 8));
    assert_eq!(state.get_potential_check(true).1, state.get_pieces(false));
    assert_eq!(state.get_pieces(true), standard_lineup(true));
    assert_eq!(state.get_pieces(false), standard_lineup(false));
    assert_eq!(state.piece_at((4, 1)), Some(piece(PieceType::Queen, 4, 1)));
    assert_eq!(state.piece_at((5, 8)), Some(piece(PieceType::King, 5, 8)));
    assert_eq!(state.piece_at((1, 2)), Some(piece(PieceType::Pawn, 1, 2)));
    assert_eq!(state.piece_at((8, 7)), Some(piece(PieceType::Pawn, 8, 7)));
    for x in 1..=8 {
        for y in 3..=6 {
            assert_eq!(state.piece_at((x, y)), None);
        }
    }
    assert_eq!(state.piece_at((0, 0)), None);
    assert_eq!(state.piece_at((9, 1)), None);
    assert_eq!(state.board.len(), 64);
}

#[test]
fn board_and_piece_lists_agree() {
    let state = State::new();
    for first_player in [true, false] {
        for p in state.get_pieces(first_player) {
            assert_eq!(state.piece_at(p.current_coords), Some(p));
            let space: Space = state.board[square_index(p.current_coords)];
            assert_eq!(space.occupied, Some(p));
        }
    }
    assert_eq!(square_index((1, 1)), 0);
    assert_eq!(square_index((1, 8)), 7);
    assert_eq!(square_index((2, 1)), 8);
    assert_eq!(square_index((8, 8)), 63);
}

#[test]
fn list_helpers() {
    let pieces = vec![piece(PieceType::Rook, 1, 1), piece(PieceType::King, 5, 1)];
    assert_eq!(coords_of_pieces(&pieces), vec![(1, 1), (5, 1)]);
    assert_eq!(copy_pieces(&pieces), pieces);
    assert_eq!(find_piece(&pieces, (5, 1)), Some(1));
    assert_eq!(find_piece(&pieces, (5, 2)), None);
    let twice = vec![piece(PieceType::Rook, 1, 1), piece(PieceType::Pawn, 1, 1)];
    assert_eq!(find_piece(&twice, (1, 1)), Some(0));
    let board = chess_engine::board::empty_board();
    assert_eq!(board.len(), 64);
    assert!(board.iter().all(|s| *s == Space { occupied: None, evaluated_value: 0 }));
    assert!(is_sliding(PieceType::Rook));
    assert!(is_sliding(PieceType::Bishop));
    assert!(is_sliding(PieceType::Queen));
    assert!(!is_sliding(PieceType::King));
    assert!(!is_sliding(PieceType::Knight));
    assert!(!is_sliding(PieceType::Pawn));
}

#[test]
fn pawn_opens_with_a_double_step() {
    let mut state = State::new();
    let pawn = piece(PieceType::Pawn, 5, 2);
    assert!(pawn.generate_legal_moves(&state, true).contains(&(5, 4)));
    assert_eq!(pawn.navigate(&mut state, (5, 4), true), MoveOutcome::Moved);
    assert_eq!(state.piece_at((5, 2)), None);
    assert_eq!(state.piece_at((5, 4)), Some(piece(PieceType::Pawn, 5, 4)));
    let (white, black) = state.get_coords(true);
    assert_eq!(white[12], (5, 4));
    assert_eq!(white.len(), 16);
    assert_eq!(black.len(), 16);
    assert!(!white.contains(&(5, 2)));
    assert_eq!(state.get_pieces(true)[12], piece(PieceType::Pawn, 5, 4));
    let moved = piece(PieceType::Pawn, 5, 4);
    assert_eq!(moved.generate_possible_moves(&state, true), vec![(5, 5)]);
}

#[test]
fn illegal_destination_is_rejected_without_change() {
    let mut state = State::new();
    let before = (state.get_pieces(true), state.get_pieces(false));
    let pawn = piece(PieceType::Pawn, 5, 2);
    assert_eq!(pawn.navigate(&mut state, (5, 5), true), MoveOutcome::Rejected);
    assert_eq!(pawn.navigate(&mut state, (6, 3), true), MoveOutcome::Rejected);
    assert_eq!(pawn.navigate(&mut state, (5, 9), true), MoveOutcome::Rejected);
    let rook = piece(PieceType::Rook, 1, 1);
    assert_eq!(rook.navigate(&mut state, (1, 3), true), MoveOutcome::Rejected);
    assert_eq!((state.get_pieces(true), state.get_pieces(false)), before);
    assert_eq!(state.piece_at((5, 2)), Some(pawn));
    assert_eq!(state.piece_at((5, 5)), None);
}

#[test]
fn piece_that_is_not_the_movers_is_rejected() {
    let mut state = State::new();
    let before = (state.get_pieces(true), state.get_pieces(false));
    let black_pawn = piece(PieceType::Pawn, 5, 7);
    assert_eq!(black_pawn.navigate(&mut state, (5, 8), true), MoveOutcome::Rejected);
    let ghost = piece(PieceType::Queen, 4, 4);
    assert_eq!(ghost.navigate(&mut state, (4, 5), true), MoveOutcome::Rejected);
    let disguised = piece(PieceType::Queen, 5, 2);
    assert_eq!(disguised.navigate(&mut state, (5, 3), true), MoveOutcome::Rejected);
    assert_eq!((state.get_pieces(true), state.get_pieces(false)), before);
}

#[test]
fn capture_removes_exactly_one_opposing_piece() {
    let rook = piece(PieceType::Rook, 1, 1);
    let mut state = game(
        vec![piece(PieceType::King, 5, 1), rook],
        vec![
            piece(PieceType::King, 5, 8),
            piece(PieceType::Pawn, 1, 5),
            piece(PieceType::Knight, 7, 7),
        ],
    );
    assert!(rook.generate_legal_moves(&state, true).contains(&(1, 5)));
    assert_eq!(rook.navigate(&mut state, (1, 5), true), MoveOutcome::Moved);
    let (white, black) = state.get_coords(true);
    assert_eq!(white, vec![(5, 1), (1, 5)]);
    assert_eq!(black, vec![(5, 8), (7, 7)]);
    assert_eq!(
        state.get_pieces(false),
        vec![piece(PieceType::King, 5, 8), piece(PieceType::Knight, 7, 7)]
    );
    assert_eq!(state.piece_at((1, 5)), Some(piece(PieceType::Rook, 1, 5)));
    assert_eq!(state.piece_at((1, 1)), None);
}

#[test]
fn capture_piece_and_update_move_work_on_their_own() {
    let mut state = game(
        vec![piece(PieceType::King, 5, 1), piece(PieceType::Rook, 1, 1)],
        vec![piece(PieceType::King, 5, 8), piece(PieceType::Pawn, 1, 5)],
    );
    state.capture_piece(true, (1, 5));
    assert_eq!(state.get_pieces(false), vec![piece(PieceType::King, 5, 8)]);
    assert_eq!(state.get_pieces(true).len(), 2);
    assert_eq!(state.piece_at((1, 5)), None);
    state.update_move((1, 1), (1, 5), true);
    assert_eq!(state.piece_at((1, 1)), None);
    assert_eq!(state.piece_at((1, 5)), Some(piece(PieceType::Rook, 1, 5)));
    assert_eq!(state.get_coords(true).0, vec![(5, 1), (1, 5)]);
    state.capture_piece(false, (1, 5));
    assert_eq!(state.get_pieces(true), vec![piece(PieceType::King, 5, 1)]);
    state.update_move((5, 8), (4, 8), false);
    assert_eq!(state.get_potential_check(false).0, (4, 8));
    assert_eq!(state.get_potential_check(true).0, (5, 1));
}

#[test]
fn king_move_updates_the_recorded_king_square() {
    let king = piece(PieceType::King, 5, 1);
    let mut state = game(vec![king], vec![piece(PieceType::King, 5, 8)]);
    assert_eq!(king.navigate(&mut state, (5, 2), true), MoveOutcome::Moved);
    assert_eq!(state.get_potential_check(true).0, (5, 2));
    assert_eq!(state.get_potential_check(false).0, (5, 8));
    assert_eq!(state.piece_at((5, 2)), Some(piece(PieceType::King, 5, 2)));
    let black_king = piece(PieceType::King, 5, 8);
    assert_eq!(black_king.navigate(&mut state, (4, 7), false), MoveOutcome::Moved);
    assert_eq!(state.get_potential_check(false).0, (4, 7));
}

#[test]
fn pawn_on_the_farthest_rank_is_flagged_and_stays_a_pawn() {
    let pawn = piece(PieceType::Pawn, 1, 7);
    let black_pawn = piece(PieceType::Pawn, 8, 2);
    let mut state = game(
        vec![piece(PieceType::King, 5, 1), pawn],
        vec![piece(PieceType::King, 5, 8), black_pawn],
    );
    assert_eq!(pawn.navigate(&mut state, (1, 8), true), MoveOutcome::PromotionPending);
    assert_eq!(state.piece_at((1, 8)), Some(piece(PieceType::Pawn, 1, 8)));
    assert_eq!(black_pawn.navigate(&mut state, (8, 1), false), MoveOutcome::PromotionPending);
    assert_eq!(state.piece_at((8, 1)), Some(piece(PieceType::Pawn, 8, 1)));
    assert!(piece(PieceType::Pawn, 1, 8).generate_possible_moves(&state, true).is_empty());
}

#[test]
fn move_in_check_must_answer_the_check() {
    let king = piece(PieceType::King, 5, 1);
    let knight = piece(PieceType::Knight, 4, 3);
    let mut state = game(
        vec![king, knight],
        vec![piece(PieceType::Rook, 5, 8), piece(PieceType::King, 1, 8)],
    );
    assert_eq!(knight.navigate(&mut state, (2, 4), true), MoveOutcome::Rejected);
    assert_eq!(king.navigate(&mut state, (5, 2), true), MoveOutcome::Rejected);
    assert_eq!(knight.navigate(&mut state, (5, 5), true), MoveOutcome::Moved);
    assert_eq!(state.piece_at((5, 5)), Some(piece(PieceType::Knight, 5, 5)));
    assert!(chess_engine::check::checking_pieces(&state, true).is_empty());
}

#[test]
fn a_king_can_be_captured_and_the_game_goes_on_without_it() {
    let rook = piece(PieceType::Rook, 5, 1);
    let mut state = game(
        vec![piece(PieceType::King, 1, 1), rook],
        vec![piece(PieceType::King, 5, 8)],
    );
    assert_eq!(rook.navigate(&mut state, (5, 8), true), MoveOutcome::Moved);
    assert!(state.get_pieces(false).is_empty());
    assert_eq!(state.get_potential_check(false).0, (5, 8));
    assert!(state.determine_endgame(false));
    assert!(!state.determine_endgame(true));
}

#[test]
fn from_pieces_rejects_invalid_positions() {
    let wk = piece(PieceType::King, 5, 1);
    let bk = piece(PieceType::King, 5, 8);
    assert!(State::from_pieces(vec![wk], vec![bk]).is_some());
    assert!(State::from_pieces(vec![], vec![bk]).is_none());
    assert!(State::from_pieces(vec![wk], vec![]).is_none());
    assert!(State::from_pieces(vec![piece(PieceType::Rook, 1, 1)], vec![bk]).is_none());
    assert!(State::from_pieces(vec![wk, piece(PieceType::King, 4, 1)], vec![bk]).is_none());
    assert!(State::from_pieces(vec![wk], vec![bk, piece(PieceType::King, 4, 8)]).is_none());
    assert!(State::from_pieces(vec![wk, piece(PieceType::Rook, 5, 1)], vec![bk]).is_none());
    assert!(State::from_pieces(vec![wk], vec![bk, piece(PieceType::Rook, 5, 1)]).is_none());
    assert!(State::from_pieces(vec![wk, piece(PieceType::Rook, 0, 1)], vec![bk]).is_none());
    assert!(State::from_pieces(vec![wk, piece(PieceType::Rook, 1, 9)], vec![bk]).is_none());
    assert!(State::from_pieces(vec![wk], vec![bk, piece(PieceType::Pawn, 9, 9)]).is_none());
}

#[test]
fn from_pieces_keeps_the_given_order() {
    let white = vec![piece(PieceType::Pawn, 3, 3), piece(PieceType::King, 2, 2)];
    let black = vec![piece(PieceType::Queen, 6, 6), piece(PieceType::King, 7, 7)];
    let state = game(white.clone(), black.clone());
    assert_eq!(state.get_pieces(true), white);
    assert_eq!(state.get_pieces(false), black);
    assert_eq!(state.get_potential_check(true), ((2, 2), black));
    assert_eq!(state.get_potential_check(false), ((7, 7), white));
}

#[test]
fn player_moves_a_piece_by_its_square() {
    let mut state = State::new();
    let white = human(true);
    let black = human(false);
    assert_eq!(white.move_piece(&mut state, Some((5, 2)), Some((5, 4))), MoveOutcome::Moved);
    assert_eq!(black.move_piece(&mut state, Some((5, 7)), Some((5, 5))), MoveOutcome::Moved);
    assert_eq!(state.piece_at((5, 4)), Some(piece(PieceType::Pawn, 5, 4)));
    assert_eq!(state.piece_at((5, 5)), Some(piece(PieceType::Pawn, 5, 5)));
    assert_eq!(white.clone().first_player, true);
}

#[test]
fn player_requests_that_are_rejected() {
    let mut state = State::new();
    let before = (state.get_pieces(true), state.get_pieces(false));
    let white = human(true);
    assert_eq!(white.move_piece(&mut state, None, Some((5, 4))), MoveOutcome::Rejected);
    assert_eq!(white.move_piece(&mut state, Some((5, 2)), None), MoveOutcome::Rejected);
    assert_eq!(white.move_piece(&mut state, Some((0, 2)), Some((5, 4))), MoveOutcome::Rejected);
    assert_eq!(white.move_piece(&mut state, Some((5, 2)), Some((5, 9))), MoveOutcome::Rejected);
    assert_eq!(white.move_piece(&mut state, Some((5, 4)), Some((5, 5))), MoveOutcome::Rejected);
    assert_eq!(white.move_piece(&mut state, Some((5, 7)), Some((5, 6))), MoveOutcome::Rejected);
    assert_eq!(white.move_piece(&mut state, Some((5, 2)), Some((5, 5))), MoveOutcome::Rejected);
    let machine = Player { first_player: true, ai: true, pieces: Vec::new(), king_coord: (5, 1) };
    assert_eq!(machine.move_piece(&mut state, Some((5, 2)), Some((5, 4))), MoveOutcome::Rejected);
    assert_eq!((state.get_pieces(true), state.get_pieces(false)), before);
}
