use checkers::board::{Board, Move, Piece, PieceKind, Player};

fn man(player: Player) -> Option<Piece> {
    Some(Piece::new(PieceKind::PAWN, player))
}

fn king(player: Player) -> Option<Piece> {
    Some(Piece::new(PieceKind::KING, player))
}

fn empty_board(turn: Player) -> Board {
    let mut b = Board::new();
    b.pieces = vec![None; 64];
    b.player_turn = turn;
    b
}

fn put(b: &mut Board, pos: (i32, i32), cell: Option<Piece>) {
    b.pieces[(pos.0 * 8 + pos.1) as usize] = cell;
}

fn mv(from: (i32, i32), to: (i32, i32)) -> Move {
    Move::new(from, to)
}

#[test]
fn start_layout() {
    let b = Board::new();
    assert_eq!(b.get_turn(), Player::BLACK);
    assert_eq!(b.at((0, 1)), man(Player::BLACK));
    assert_eq!(b.at((2, 7)), man(Player::BLACK));
    assert_eq!(b.at((0, 0)), None);
    assert_eq!(b.at((3, 2)), None);
    assert_eq!(b.at((5, 0)), man(Player::RED));
    assert_eq!(b.at((7, 6)), man(Player::RED));
    assert_eq!(b.get_pieces(Player::BLACK).len(), 12);
    assert_eq!(b.get_pieces(Player::RED).len(), 12);
    assert!(!b.is_selected());
    assert!(!b.is_successive());
    assert!(!b.is_game_over());
}

#[test]
fn pieces_listed_in_row_major_order() {
    let b = Board::new();
    let blacks = b.get_pieces(Player::BLACK);
    assert_eq!(blacks[0], (0, 1));
    assert_eq!(blacks[1], (0, 3));
    assert_eq!(blacks[4], (1, 0));
    assert_eq!(blacks[11], (2, 7));
    let reds = b.get_pieces(Player::RED);
    assert_eq!(reds[0], (5, 0));
    assert_eq!(reds[11], (7, 6));
}

#[test]
fn off_board_squares_read_as_empty() {
    let b = Board::new();
    assert_eq!(b.at((-1, 0)), None);
    assert_eq!(b.at((8, 3)), None);
    assert_eq!(b.at((i32::MAX, i32::MIN)), None);
    assert!(b.is_empty((0, 8)));
    assert!(!b.in_bounds((0, 8)));
    assert!(b.in_bounds((7, 7)));
    assert!(!b.in_bounds((-1, -1)));
}

#[test]
fn enemy_detection() {
    let b = Board::new();
    assert!(b.is_enemy_of((5, 0), Player::BLACK));
    assert!(!b.is_enemy_of((5, 0), Player::RED));
    assert!(!b.is_enemy_of((4, 0), Player::RED));
    assert!(!b.is_enemy_of((9, 9), Player::RED));
}

#[test]
fn selection_and_continuation_markers() {
    let mut b = Board::new();
    b.select((2, 1));
    assert!(b.is_selected());
    assert_eq!(b.get_selected(), (2, 1));
    b.deselect();
    assert!(!b.is_selected());
    assert_eq!(b.get_selected(), (-1, -1));
    b.set_successive((4, 3));
    assert!(b.is_successive());
    assert_eq!(b.get_successive(), (4, 3));
    b.unset_successive();
    assert!(!b.is_successive());
    assert_eq!(b.get_successive(), (-1, -1));
}

#[test]
fn swap_turns_alternates_and_deselects() {
    let mut b = Board::new();
    b.select((2, 1));
    b.swap_turns();
    assert_eq!(b.get_turn(), Player::RED);
    assert!(!b.is_selected());
    b.swap_turns();
    assert_eq!(b.get_turn(), Player::BLACK);
}

#[test]
fn make_king_keeps_owner() {
    let mut b = Board::new();
    b.make_king((5, 0));
    assert_eq!(b.at((5, 0)), king(Player::RED));
}

#[test]
fn pawn_legality_by_direction() {
    let b = Board::new();
    assert!(b.is_move_legal_pawn(mv((2, 1), (3, 0)), Player::BLACK));
    assert!(b.is_move_legal_pawn(mv((2, 1), (3, 2)), Player::BLACK));
    // backwards for BLACK
    assert!(!b.is_move_legal_pawn(mv((2, 1), (3, 2)), Player::RED));
    // target occupied
    assert!(!b.is_move_legal_pawn(mv((1, 0), (2, 1)), Player::BLACK));
    // origin empty
    assert!(!b.is_move_legal_pawn(mv((3, 0), (4, 1)), Player::BLACK));
    assert!(b.is_move_legal(mv((5, 0), (4, 1))));
    assert!(!b.is_move_legal(mv((5, 0), (6, 1))));
    assert!(!b.is_move_legal(mv((5, 0), (3, 2))));
}

#[test]
fn king_legality_all_directions() {
    let mut b = empty_board(Player::RED);
    put(&mut b, (4, 4), king(Player::RED));
    put(&mut b, (5, 5), man(Player::BLACK));
    put(&mut b, (3, 3), man(Player::RED));
    assert!(b.is_move_legal_king(mv((4, 4), (5, 3)), Player::RED));
    assert!(b.is_move_legal_king(mv((4, 4), (3, 5)), Player::RED));
    assert!(b.is_move_legal_king(mv((4, 4), (6, 6)), Player::RED));
    // jumping an own piece
    assert!(!b.is_move_legal_king(mv((4, 4), (2, 2)), Player::RED));
    // not diagonal
    assert!(!b.is_move_legal_king(mv((4, 4), (4, 5)), Player::RED));
    assert!(b.is_move_legal(mv((4, 4), (6, 6))));
}

#[test]
fn kill_move_shape() {
    let mut b = empty_board(Player::BLACK);
    put(&mut b, (2, 1), man(Player::BLACK));
    put(&mut b, (3, 2), man(Player::RED));
    assert!(b.is_kill_move(&mv((2, 1), (4, 3)), Player::BLACK));
    assert!(!b.is_kill_move(&mv((2, 1), (4, 3)), Player::RED));
    assert!(!b.is_kill_move(&mv((2, 1), (3, 2)), Player::BLACK));
    assert!(!b.is_kill_move(&mv((6, 7), (8, 9)), Player::BLACK));
}

#[test]
fn kill_availability() {
    let mut b = empty_board(Player::BLACK);
    put(&mut b, (2, 1), man(Player::BLACK));
    put(&mut b, (3, 2), man(Player::RED));
    assert!(b.is_kill_available((2, 1)));
    // a RED man on (1,0) cannot jump backwards over (2,1)
    put(&mut b, (1, 0), man(Player::RED));
    assert!(!b.is_kill_available((1, 0)));
    // an empty square reports true
    assert!(b.is_kill_available((0, 0)));
    put(&mut b, (1, 0), king(Player::RED));
    put(&mut b, (3, 2), None);
    assert!(b.is_kill_available((1, 0)));
}

#[test]
fn forced_capture_scenario() {
    let mut b = Board::new();
    put(&mut b, (3, 2), man(Player::RED));
    let moves = b.get_legal_moves((2, 1));
    assert_eq!(moves, vec![mv((2, 1), (4, 3))]);
}

#[test]
fn steps_when_no_capture() {
    let b = Board::new();
    assert_eq!(b.get_legal_moves((2, 1)), vec![mv((2, 1), (3, 2)), mv((2, 1), (3, 0))]);
    assert_eq!(b.get_legal_moves((5, 2)), vec![mv((5, 2), (4, 3)), mv((5, 2), (4, 1))]);
    assert_eq!(b.get_legal_moves((0, 1)), vec![]);
}

#[test]
fn forced_capture_only_jumps_for_king() {
    let mut b = empty_board(Player::RED);
    put(&mut b, (4, 4), king(Player::RED));
    put(&mut b, (5, 5), man(Player::BLACK));
    put(&mut b, (3, 3), man(Player::BLACK));
    let moves = b.get_legal_moves((4, 4));
    assert_eq!(moves, vec![mv((4, 4), (6, 6)), mv((4, 4), (2, 2))]);
}

#[test]
fn all_legal_moves_in_scan_order() {
    let b = Board::new();
    let moves = b.get_all_legal_moves(Player::BLACK);
    assert_eq!(moves.len(), 7);
    assert_eq!(moves[0], mv((2, 1), (3, 2)));
    assert_eq!(moves[1], mv((2, 1), (3, 0)));
    assert_eq!(moves[6], mv((2, 7), (3, 6)));
    assert_eq!(b.get_all_legal_moves(Player::RED).len(), 7);
}

#[test]
fn step_passes_turn() {
    let mut b = Board::new();
    b.select((2, 1));
    b.move_piece(mv((2, 1), (3, 2)));
    assert_eq!(b.at((2, 1)), None);
    assert_eq!(b.at((3, 2)), man(Player::BLACK));
    assert_eq!(b.get_turn(), Player::RED);
    assert!(!b.is_successive());
    assert!(!b.is_selected());
    assert_eq!(b.get_pieces(Player::BLACK).len(), 12);
    assert_eq!(b.get_pieces(Player::RED).len(), 12);
}

#[test]
fn jump_removes_piece_and_passes_turn() {
    let mut b = Board::new();
    put(&mut b, (3, 2), man(Player::RED));
    b.move_piece(mv((2, 1), (4, 3)));
    assert_eq!(b.at((3, 2)), None);
    assert_eq!(b.at((4, 3)), man(Player::BLACK));
    assert_eq!(b.get_turn(), Player::RED);
    assert!(!b.is_successive());
    assert_eq!(b.get_pieces(Player::RED).len(), 12);
}

#[test]
fn jump_with_follow_up_keeps_turn() {
    let mut b = empty_board(Player::BLACK);
    put(&mut b, (0, 1), man(Player::BLACK));
    put(&mut b, (1, 2), man(Player::RED));
    put(&mut b, (3, 4), man(Player::RED));
    b.select((0, 1));
    b.move_piece(mv((0, 1), (2, 3)));
    assert_eq!(b.get_turn(), Player::BLACK);
    assert!(b.is_successive());
    assert_eq!(b.get_successive(), (2, 3));
    assert!(b.is_selected());
    assert_eq!(b.get_pieces(Player::RED), vec![(3, 4)]);
    b.move_piece(mv((2, 3), (4, 5)));
    assert_eq!(b.get_turn(), Player::RED);
    assert!(!b.is_successive());
    assert!(b.is_game_over());
}

#[test]
fn man_crowned_on_last_row() {
    let mut b = empty_board(Player::BLACK);
    put(&mut b, (6, 1), man(Player::BLACK));
    put(&mut b, (1, 4), man(Player::RED));
    b.move_piece(mv((6, 1), (7, 2)));
    assert_eq!(b.at((7, 2)), king(Player::BLACK));
    assert_eq!(b.get_turn(), Player::RED);
    b.move_piece(mv((1, 4), (0, 5)));
    assert_eq!(b.at((0, 5)), king(Player::RED));
}

#[test]
fn crowning_jump_ends_the_turn() {
    // as a king the piece could jump back over (6,5); as the man that landed it cannot
    let mut b = empty_board(Player::BLACK);
    put(&mut b, (5, 2), man(Player::BLACK));
    put(&mut b, (6, 3), man(Player::RED));
    put(&mut b, (6, 5), man(Player::RED));
    b.move_piece(mv((5, 2), (7, 4)));
    assert_eq!(b.at((7, 4)), king(Player::BLACK));
    assert_eq!(b.get_turn(), Player::RED);
    assert!(!b.is_successive());
}

#[test]
fn game_over_when_a_side_is_empty() {
    let mut b = empty_board(Player::BLACK);
    assert!(b.is_game_over());
    put(&mut b, (0, 1), man(Player::BLACK));
    assert!(b.is_game_over());
    assert!(b.get_pieces(Player::RED).is_empty());
    put(&mut b, (7, 0), king(Player::RED));
    assert!(!b.is_game_over());
}

#[test]
fn reset_twice_gives_the_start() {
    let mut b = Board::new();
    b.move_piece(mv((2, 1), (3, 2)));
    b.select((5, 0));
    b.reset();
    let first: Vec<Option<Piece>> = b.pieces.clone();
    let turn = b.get_turn();
    b.reset();
    assert_eq!(b.pieces, first);
    assert_eq!(b.get_turn(), turn);
    assert_eq!(b.pieces, Board::new().pieces);
    assert_eq!(turn, Player::BLACK);
    assert!(!b.is_selected());
    assert!(!b.is_successive());
}

#[test]
fn piece_counts_never_grow_over_a_game() {
    let mut b = Board::new();
    let mut prev = (12, 12);
    for _ in 0..40 {
        if b.is_game_over() {
            break;
        }
        let moves = checkers::bot::turn_moves(&b);
        if moves.is_empty() {
            break;
        }
        b.move_piece(moves[0]);
        let now = (b.get_pieces(Player::RED).len(), b.get_pieces(Player::BLACK).len());
        assert!(now.0 <= prev.0 && now.1 <= prev.1);
        assert!(now.0 + now.1 <= 24);
        for row in 0..8 {
            for col in 0..8 {
                if let Some(p) = b.at((row, col)) {
                    if p.kind == PieceKind::PAWN {
                        assert!(!(p.player == Player::BLACK && row == 7));
                        assert!(!(p.player == Player::RED && row == 0));
                    }
                }
            }
        }
        prev = now;
    }
}
