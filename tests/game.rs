use checkers::board::{Board, Move, Piece, PieceKind, Player};
use checkers::bot::turn_moves;
use checkers::game::update;

fn man(player: Player) -> Option<Piece> {
    Some(Piece::new(PieceKind::PAWN, player))
}

fn empty_board(turn: Player) -> Board {
    let mut b = Board::new();
    b.pieces = vec![None; 64];
    b.player_turn = turn;
    b
}

fn put(b: &mut Board, pos: (i32, i32), cell: Option<Piece>) {
    b.pieces[(pos.0 * 8 + pos.1) as usize] = cell;
}

#[test]
fn computer_moves_on_its_turn() {
    let mut b = Board::new();
    let before = turn_moves(&b);
    update(&mut b, Some((5, 0)));
    assert_eq!(b.get_turn(), Player::RED);
    assert_eq!(b.get_pieces(Player::BLACK).len(), 12);
    let moved: Vec<(i32, i32)> = before
        .iter()
        .filter(|m| b.at(m.from).is_none() && b.at(m.to).is_some())
        .map(|m| m.from)
        .collect();
    assert_eq!(moved.len(), 1);
}

#[test]
fn click_selects_own_piece_then_moves() {
    let mut b = Board::new();
    b.player_turn = Player::RED;
    update(&mut b, Some((5, 2)));
    assert_eq!(b.get_selected(), (5, 2));
    assert_eq!(b.get_turn(), Player::RED);
    update(&mut b, Some((4, 3)));
    assert_eq!(b.at((4, 3)), man(Player::RED));
    assert_eq!(b.at((5, 2)), None);
    assert_eq!(b.get_turn(), Player::BLACK);
    assert!(!b.is_selected());
}

#[test]
fn illegal_click_changes_nothing() {
    let mut b = Board::new();
    b.player_turn = Player::RED;
    update(&mut b, Some((5, 2)));
    update(&mut b, Some((3, 4)));
    assert_eq!(b.at((5, 2)), man(Player::RED));
    assert_eq!(b.get_selected(), (5, 2));
    assert_eq!(b.get_turn(), Player::RED);
    // an opposing piece cannot be selected
    let mut c = Board::new();
    c.player_turn = Player::RED;
    update(&mut c, Some((2, 1)));
    assert!(!c.is_selected());
    update(&mut c, None);
    assert_eq!(c.get_turn(), Player::RED);
}

#[test]
fn pending_capture_must_be_played() {
    let mut b = empty_board(Player::RED);
    put(&mut b, (5, 4), man(Player::RED));
    put(&mut b, (4, 3), man(Player::BLACK));
    put(&mut b, (7, 0), man(Player::RED));
    put(&mut b, (0, 7), man(Player::BLACK));
    b.set_successive((5, 4));
    update(&mut b, Some((7, 0)));
    update(&mut b, Some((6, 1)));
    assert_eq!(b.at((7, 0)), man(Player::RED));
    update(&mut b, Some((5, 4)));
    update(&mut b, Some((3, 2)));
    assert_eq!(b.at((3, 2)), man(Player::RED));
    assert_eq!(b.at((4, 3)), None);
    assert_eq!(b.get_turn(), Player::BLACK);
}

#[test]
fn finished_game_is_reset() {
    let mut b = empty_board(Player::RED);
    put(&mut b, (5, 4), man(Player::RED));
    update(&mut b, None);
    assert_eq!(b.pieces, Board::new().pieces);
    assert_eq!(b.get_turn(), Player::BLACK);
    // the last capture ends the game and starts a new one
    let mut c = empty_board(Player::RED);
    put(&mut c, (5, 4), man(Player::RED));
    put(&mut c, (4, 3), man(Player::BLACK));
    update(&mut c, Some((5, 4)));
    update(&mut c, Some((3, 2)));
    assert_eq!(c.pieces, Board::new().pieces);
    assert_eq!(c.get_turn(), Player::BLACK);
}

#[test]
fn move_equality_by_fields() {
    assert_eq!(Move::new((1, 2), (3, 4)), Move::new((1, 2), (3, 4)));
    assert_ne!(Move::new((1, 2), (3, 4)), Move::new((1, 2), (3, 0)));
}

#[test]
fn computer_without_move_leaves_the_board() {
    // BLACK's only man is blocked by two RED men and cannot jump them
    let mut b = empty_board(Player::BLACK);
    put(&mut b, (6, 0), man(Player::BLACK));
    put(&mut b, (7, 1), man(Player::RED));
    b.select((7, 1));
    update(&mut b, None);
    assert_eq!(b.at((6, 0)), man(Player::BLACK));
    assert_eq!(b.at((7, 1)), man(Player::RED));
    assert_eq!(b.get_turn(), Player::BLACK);
    assert_eq!(b.get_selected(), (7, 1));
}

#[test]
fn player_without_move_keeps_the_board() {
    let mut b = empty_board(Player::RED);
    put(&mut b, (1, 0), man(Player::RED));
    put(&mut b, (0, 1), man(Player::BLACK));
    assert!(turn_moves(&b).is_empty());
    update(&mut b, Some((1, 0)));
    assert_eq!(b.get_selected(), (1, 0));
    update(&mut b, Some((0, 1)));
    assert_eq!(b.at((1, 0)), man(Player::RED));
    assert_eq!(b.at((0, 1)), man(Player::BLACK));
    assert_eq!(b.get_turn(), Player::RED);
}

#[test]
fn computer_keeps_selection_during_a_capture_chain() {
    let mut b = empty_board(Player::BLACK);
    put(&mut b, (0, 1), man(Player::BLACK));
    put(&mut b, (1, 2), man(Player::RED));
    put(&mut b, (3, 4), man(Player::RED));
    put(&mut b, (7, 0), man(Player::RED));
    b.select((0, 1));
    update(&mut b, None);
    assert_eq!(b.at((2, 3)), man(Player::BLACK));
    assert_eq!(b.get_successive(), (2, 3));
    assert_eq!(b.get_turn(), Player::BLACK);
    assert_eq!(b.get_selected(), (0, 1));
    update(&mut b, None);
    assert_eq!(b.at((4, 5)), man(Player::BLACK));
    assert_eq!(b.get_turn(), Player::RED);
    assert!(!b.is_selected());
}
