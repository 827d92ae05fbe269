use vstd::prelude::*;
use crate::board::{Board, Move, Player};
use crate::bot::{get_bot_move, search, turn_moves, MINIMAX_DEPTH};
use crate::rules::{BoardState, no_square, owned_by};

verus! {

/// The side the computer plays.
pub open spec fn bot_side() -> Player {
    Player::BLACK
}

/// A game that is over is replaced by a fresh one.
pub open spec fn settle(s: BoardState) -> BoardState {
    if s.game_over() {
        BoardState::start()
    } else {
        s
    }
}

/// The move the computer plays in `s`.
pub open spec fn bot_choice(s: BoardState) -> Move {
    search(s, MINIMAX_DEPTH as int, i32::MIN as int, i32::MAX as int).1->Some_0
}

/// A click on `pos` plays the move from the selected square to `pos`: the
/// selected piece belongs to the side to move and the move may be played.
pub open spec fn click_move_ok(s: BoardState, selected: (i32, i32), pos: (i32, i32)) -> bool {
    &&& owned_by(s.at_sq(selected), s.turn)
    &&& s.permits(Move { from: selected, to: pos })
}

/// One frame of play. A game that is over is replaced by a fresh one. When
/// it is the computer's turn it plays its searched move; a computer with no
/// move leaves the board as it is. Otherwise a click on a piece of the side
/// to move selects it, and a click elsewhere plays the move from the selected
/// piece when that move may be played; any other click changes nothing. A
/// move that ends the game starts a fresh one.
pub fn update(board: &mut Board, click: Option<(i32, i32)>)
    requires
        old(board).wf(),
    ensures
        final(board).wf(),
        ({
            let s = old(board)@;
            let sel = old(board).selected_piece;
            if s.game_over() {
                final(board)@ == BoardState::start() && final(board).selected_piece == (
                -1i32,
                -1i32,
            )
            } else if s.turn == bot_side() {
                if s.turn_moves().len() == 0 {
                    final(board)@ == s && final(board).selected_piece == sel
                } else {
                    let m = bot_choice(s);
                    &&& final(board)@ == settle(s.apply(m))
                    &&& final(board).selected_piece == if s.apply(m).game_over() || !s.continues(
                        m,
                    ) {
                        (-1i32, -1i32)
                    } else {
                        sel
                    }
                }
            } else {
                match click {
                    Some(pos) => if owned_by(s.at_sq(pos), s.turn) {
                        final(board)@ == s && final(board).selected_piece == pos
                    } else if click_move_ok(s, sel, pos) {
                        final(board)@ == settle(s.apply(Move { from: sel, to: pos }))
                            && final(board).selected_piece == (-1i32, -1i32)
                    } else {
                        final(board)@ == s && final(board).selected_piece == sel
                    },
                    None => final(board)@ == s && final(board).selected_piece == sel,
                }
            }
        }),
{
    if board.is_game_over() {
        board.reset();
        return ;
    }
    if board.get_turn() == Player::BLACK {
        if turn_moves(board).len() == 0 {
            return ;
        }
        let m = get_bot_move(board);
        proof {
            crate::rules::lemma_turn_moves_legal(board@);
        }
        board.move_piece(m);
    } else {
        match click {
            Some(pos) => {
                let own = match board.at(pos) {
                    Some(piece) => piece.player == board.get_turn(),
                    None => false,
                };
                if own {
                    board.select(pos);
                    return ;
                }
                let selected = board.get_selected();
                let movable = match board.at(selected) {
                    Some(piece) => piece.player == board.get_turn(),
                    None => false,
                };
                if !movable {
                    return ;
                }
                if board.is_successive() && !(board.get_successive().0 == selected.0
                    && board.get_successive().1 == selected.1) {
                    return ;
                }
                let m = Move::new(selected, pos);
                let moves = board.get_legal_moves(selected);
                if !contains_move(&moves, m) {
                    return ;
                }
                board.deselect();
                board.move_piece(m);
            },
            None => {
                return ;
            },
        }
    }
    if board.is_game_over() {
        board.reset();
    }
}

/// Whether `m` occurs in `moves`.
fn contains_move(moves: &Vec<Move>, m: Move) -> (r: bool)
    ensures
        r == moves@.contains(m),
{
    let mut k: usize = 0;
    while k < moves.len()
        invariant
            k <= moves@.len(),
            forall|j: int| 0 <= j < k ==> moves@[j] != m,
        decreases moves@.len() - k,
    {
        if moves[k] == m {
            return true;
        }
        k += 1;
    }
    false
}

} // verus!
