use vstd::prelude::*;
use crate::board::{Board, Move, Piece, PieceKind, Player};
use crate::rules::{BoardState, lemma_legal_moves_legal, lemma_turn_moves_legal};

verus! {

/// The depth of the search behind the computer's moves.
pub const MINIMAX_DEPTH: i32 = 7;

/// The material worth of a cell: +1 for a RED man, +2 for a RED king, and the
/// negatives of these for BLACK. RED maximizes, BLACK minimizes.
pub open spec fn piece_value(cell: Option<Piece>) -> int {
    match cell {
        Some(p) => match (p.player, p.kind) {
            (Player::RED, PieceKind::PAWN) => 1,
            (Player::BLACK, PieceKind::PAWN) => -1,
            (Player::RED, PieceKind::KING) => 2,
            (Player::BLACK, PieceKind::KING) => -2,
        },
        None => 0,
    }
}

/// The sum of the worth of the cells.
pub open spec fn material(cells: Seq<Option<Piece>>) -> int
    decreases cells.len(),
{
    if cells.len() == 0 {
        0
    } else {
        material(cells.drop_last()) + piece_value(cells.last())
    }
}

/// The score and move that minimax with alpha-beta pruning gives for `s`
/// searched `depth` plies deep, each single move (one jump of a chain
/// included) being a ply. A finished game or an exhausted depth scores its
/// material with no move. Otherwise the moves of `s.turn_moves()` are tried
/// in order; a side with no move at all scores as lost (`i32::MAX` when BLACK
/// is to move, `i32::MIN` when RED is).
pub open spec fn search(s: BoardState, depth: int, alpha: int, beta: int) -> (int, Option<Move>)
    decreases depth, 1int, 0int,
{
    if s.game_over() || depth <= 0 {
        (material(s.cells), None)
    } else {
        scan(s, s.turn_moves(), 0, depth, alpha, beta, lost_value(s.turn), None)
    }
}

/// The score of a side that cannot move: `i32::MAX` when BLACK is to move,
/// `i32::MIN` when RED is.
pub open spec fn lost_value(p: Player) -> int {
    match p {
        Player::BLACK => i32::MAX as int,
        Player::RED => i32::MIN as int,
    }
}

/// The plain minimax value of `s` searched `depth` plies deep, with no
/// pruning: material at a finished game or exhausted depth, else the best
/// value over `s.turn_moves()` for the side to move (RED maximizes, BLACK
/// minimizes), and `lost_value` when there is no move.
pub open spec fn minimax_value(s: BoardState, depth: int) -> int
    decreases depth, 1int, 0int,
{
    if s.game_over() || depth <= 0 {
        material(s.cells)
    } else {
        best_value(s, s.turn_moves(), 0, depth)
    }
}

/// The best minimax value for the side to move over the moves from the
/// `i`-th on; `lost_value` when none is left.
pub open spec fn best_value(s: BoardState, moves: Seq<Move>, i: int, depth: int) -> int
    decreases depth, 0int, moves.len() - i,
{
    if i < 0 || i >= moves.len() || depth <= 0 {
        lost_value(s.turn)
    } else {
        let v = minimax_value(s.apply(moves[i]), depth - 1);
        let rest = best_value(s, moves, i + 1, depth);
        if s.turn == Player::BLACK {
            if v < rest {
                v
            } else {
                rest
            }
        } else {
            if v > rest {
                v
            } else {
                rest
            }
        }
    }
}

/// The search loop at a node of `s` from the `i`-th move on, with the bounds,
/// the best score and the best move so far. The first move tried is taken,
/// and after it only a strictly better score replaces the best, so ties keep
/// the earlier move. The loop stops once the bounds cross.
pub open spec fn scan(
    s: BoardState,
    moves: Seq<Move>,
    i: int,
    depth: int,
    alpha: int,
    beta: int,
    best: int,
    best_move: Option<Move>,
) -> (int, Option<Move>)
    decreases depth, 0int, moves.len() - i,
{
    if i < 0 || i >= moves.len() || depth <= 0 {
        (best, best_move)
    } else {
        let m = moves[i];
        let v = search(s.apply(m), depth - 1, alpha, beta).0;
        if s.turn == Player::BLACK {
            let take = best_move is None || v < best;
            let nbest = if take {
                v
            } else {
                best
            };
            let nmove = if take {
                Some(m)
            } else {
                best_move
            };
            let nbeta = if nbest < beta {
                nbest
            } else {
                beta
            };
            if nbeta <= alpha {
                (nbest, nmove)
            } else {
                scan(s, moves, i + 1, depth, alpha, nbeta, nbest, nmove)
            }
        } else {
            let take = best_move is None || v > best;
            let nbest = if take {
                v
            } else {
                best
            };
            let nmove = if take {
                Some(m)
            } else {
                best_move
            };
            let nalpha = if nbest > alpha {
                nbest
            } else {
                alpha
            };
            if nalpha >= beta {
                (nbest, nmove)
            } else {
                scan(s, moves, i + 1, depth, nalpha, beta, nbest, nmove)
            }
        }
    }
}

/// The move the search returns is one of the moves examined, and some move is
/// returned whenever a move remained to be examined.
pub proof fn lemma_scan_move(
    s: BoardState,
    moves: Seq<Move>,
    i: int,
    depth: int,
    alpha: int,
    beta: int,
    best: int,
    best_move: Option<Move>,
)
    requires
        0 <= i,
        best_move matches Some(bm) ==> moves.contains(bm),
    ensures
        ({
            let r = scan(s, moves, i, depth, alpha, beta, best, best_move);
            &&& r.1 matches Some(rm) ==> moves.contains(rm)
            &&& (best_move is Some || (i < moves.len() && depth > 0)) ==> r.1 is Some
        }),
    decreases moves.len() - i,
{
    if i < moves.len() && depth > 0 {
        let m = moves[i];
        assert(moves.contains(m));
        let v = search(s.apply(m), depth - 1, alpha, beta).0;
        if s.turn == Player::BLACK {
            let take = best_move is None || v < best;
            let nbest = if take {
                v
            } else {
                best
            };
            let nbeta = if nbest < beta {
                nbest
            } else {
                beta
            };
            lemma_scan_move(
                s,
                moves,
                i + 1,
                depth,
                alpha,
                nbeta,
                nbest,
                if take {
                    Some(m)
                } else {
                    best_move
                },
            );
        } else {
            let take = best_move is None || v > best;
            let nbest = if take {
                v
            } else {
                best
            };
            let nalpha = if nbest > alpha {
                nbest
            } else {
                alpha
            };
            lemma_scan_move(
                s,
                moves,
                i + 1,
                depth,
                nalpha,
                beta,
                nbest,
                if take {
                    Some(m)
                } else {
                    best_move
                },
            );
        }
    }
}

/// The moves open to the side to move: only those of the piece that must
/// keep capturing while a continuation is pending, else those of all its
/// pieces.
pub fn turn_moves(board: &Board) -> (r: Vec<Move>)
    requires
        board.wf(),
    ensures
        r@ == board@.turn_moves(),
{
    if board.is_successive() {
        let pending = board.get_successive();
        if board.at(pending).is_some() {
            board.get_legal_moves(pending)
        } else {
            proof {
                lemma_legal_moves_legal(board@, pending);
            }
            Vec::new()
        }
    } else {
        board.get_all_legal_moves(board.get_turn())
    }
}

/// The board after `m`, leaving `board` as it was.
fn result(board: &Board, m: Move) -> (r: Board)
    requires
        board.wf(),
        board@.permits(m),
    ensures
        r.wf(),
        r@ == board@.apply(m),
{
    let mut pieces: Vec<Option<Piece>> = Vec::new();
    let mut i: usize = 0;
    while i < 64
        invariant
            board.wf(),
            i <= 64,
            pieces@ == board.pieces@.take(i as int),
        decreases 64 - i,
    {
        pieces.push(board.pieces[i]);
        i += 1;
        assert(pieces@ =~= board.pieces@.take(i as int));
    }
    assert(pieces@ =~= board.pieces@);
    let mut next = Board {
        pieces,
        player_turn: board.player_turn,
        selected_piece: board.selected_piece,
        successive_piece: board.successive_piece,
    };
    next.move_piece(m);
    next
}

/// The material score of the board: RED's men and kings count +1 and +2,
/// BLACK's -1 and -2.
pub fn state_value(board: &Board) -> (r: i32)
    requires
        board.wf(),
    ensures
        r as int == material(board.pieces@),
{
    let mut value: i32 = 0;
    let mut i: usize = 0;
    while i < 64
        invariant
            board.wf(),
            i <= 64,
            value as int == material(board.pieces@.take(i as int)),
            -2 * i <= value <= 2 * i,
        decreases 64 - i,
    {
        proof {
            assert(board.pieces@.take(i as int + 1).drop_last() =~= board.pieces@.take(i as int));
        }
        match board.pieces[i] {
            Some(piece) => match (piece.player, piece.kind) {
                (Player::RED, PieceKind::PAWN) => value += 1,
                (Player::BLACK, PieceKind::PAWN) => value -= 1,
                (Player::RED, PieceKind::KING) => value += 2,
                (Player::BLACK, PieceKind::KING) => value -= 2,
            },
            None => {},
        }
        i += 1;
    }
    assert(board.pieces@.take(64) =~= board.pieces@);
    value
}

/// Minimax with alpha-beta pruning, `depth` plies deep: RED maximizes and
/// BLACK minimizes the material score. While a capture chain is pending the
/// same side moves again, so each jump of a chain is a ply of its own and
/// only the capturing piece is searched. Returns the score and the move that
/// achieves it; no move when the game is over, the depth is exhausted or the
/// side to move has no move.
pub fn minimax(board: &Board, depth: i32, alpha: i32, beta: i32) -> (r: (i32, Option<Move>))
    requires
        board.wf(),
        depth >= 0,
    ensures
        r.0 as int == search(board@, depth as int, alpha as int, beta as int).0,
        r.1 == search(board@, depth as int, alpha as int, beta as int).1,
    decreases depth,
{
    if board.is_game_over() || depth == 0 {
        return (state_value(board), None);
    }
    let ghost s = board@;
    let ghost target = search(s, depth as int, alpha as int, beta as int);
    let moves = turn_moves(board);
    proof {
        lemma_turn_moves_legal(s);
    }
    let minimizing = board.get_turn() == Player::BLACK;
    let mut alpha = alpha;
    let mut beta = beta;
    let mut value: i32 = if minimizing {
        i32::MAX
    } else {
        i32::MIN
    };
    let mut best_move: Option<Move> = None;
    let mut pruned = false;
    let mut i: usize = 0;
    while i < moves.len() && !pruned
        invariant
            board.wf(),
            board@ == s,
            depth > 0,
            !s.game_over(),
            moves@ == s.turn_moves(),
            forall|j: int| 0 <= j < moves@.len() ==> s.permits(#[trigger] moves@[j]),
            minimizing == (s.turn == Player::BLACK),
            i <= moves@.len(),
            pruned ==> (value as int, best_move) == target,
            !pruned ==> scan(
                s,
                moves@,
                i as int,
                depth as int,
                alpha as int,
                beta as int,
                value as int,
                best_move,
            ) == target,
        decreases moves@.len() - i,
    {
        let m = moves[i];
        let child = result(board, m);
        let (v, _) = minimax(&child, depth - 1, alpha, beta);
        if minimizing {
            if best_move.is_none() || v < value {
                value = v;
                best_move = Some(m);
            }
            if value < beta {
                beta = value;
            }
            if beta <= alpha {
                pruned = true;
            }
        } else {
            if best_move.is_none() || v > value {
                value = v;
                best_move = Some(m);
            }
            if value > alpha {
                alpha = value;
            }
            if alpha >= beta {
                pruned = true;
            }
        }
        i += 1;
    }
    (value, best_move)
}

/// The computer's move: the move of a search `MINIMAX_DEPTH` plies deep with
/// unbounded alpha and beta. The side to move must have a move and the game
/// must not be over.
pub fn get_bot_move(board: &Board) -> (r: Move)
    requires
        board.wf(),
        !board@.game_over(),
        board@.turn_moves().len() > 0,
    ensures
        search(board@, MINIMAX_DEPTH as int, i32::MIN as int, i32::MAX as int).1 == Some(r),
        board@.turn_moves().contains(r),
{
    proof {
        let s = board@;
        lemma_scan_move(
            s,
            s.turn_moves(),
            0,
            MINIMAX_DEPTH as int,
            i32::MIN as int,
            i32::MAX as int,
            lost_value(s.turn),
            None,
        );
    }
    let (_, m) = minimax(board, MINIMAX_DEPTH, i32::MIN, i32::MAX);
    m.unwrap()
}

} // verus!
