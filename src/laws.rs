use vstd::prelude::*;
use crate::board::{Move, Piece, PieceKind, Player};
use crate::bot::{best_value, lemma_scan_move, lost_value, material, minimax_value, scan, search};
use crate::rules::{
    BoardState, candidates, count_owned, index_of, is_long, lemma_candidate,
    lemma_legal_moves_legal, lemma_turn_moves_legal, mid_col, mid_row, no_square, on_board, opponent,
    owned_by, promotion_row, sq_on_board, square_at,
};

verus! {

proof fn lemma_count_update(cells: Seq<Option<Piece>>, i: int, v: Option<Piece>, p: Player)
    requires
        0 <= i < cells.len(),
    ensures
        count_owned(cells.update(i, v), p) == count_owned(cells, p) - (if owned_by(cells[i], p) {
            1int
        } else {
            0int
        }) + (if owned_by(v, p) {
            1int
        } else {
            0int
        }),
    decreases cells.len(),
{
    if i == cells.len() - 1 {
        assert(cells.update(i, v).drop_last() =~= cells.drop_last());
    } else {
        lemma_count_update(cells.drop_last(), i, v, p);
        assert(cells.update(i, v).drop_last() =~= cells.drop_last().update(i, v));
    }
}

proof fn lemma_count_take(cells: Seq<Option<Piece>>, n: int, p: Player)
    requires
        0 <= n < cells.len(),
    ensures
        count_owned(cells.take(n + 1), p) == count_owned(cells.take(n), p) + (if owned_by(
            cells[n],
            p,
        ) {
            1int
        } else {
            0int
        }),
{
    assert(cells.take(n + 1).drop_last() =~= cells.take(n));
}

/// A legal move keeps the mover's piece count and takes one piece from the
/// opponent exactly when it jumps.
pub proof fn lemma_apply_counts(s: BoardState, m: Move)
    requires
        s.wf(),
        s.is_legal(m),
    ensures
        ({
            let mover = s.at_sq(m.from)->Some_0.player;
            &&& s.apply(m).count(mover) == s.count(mover)
            &&& s.apply(m).count(opponent(mover)) == s.count(opponent(mover)) - (if is_long(m) {
                1int
            } else {
                0int
            })
        }),
{
    let piece = s.at_sq(m.from)->Some_0;
    let c0 = s.cells;
    let c1 = c0.update(index_of(m.to), Some(piece));
    let c2 = c1.update(index_of(m.from), None);
    let mid = mid_row(m) * 8 + mid_col(m);
    assert(index_of(m.from) != index_of(m.to));
    if is_long(m) {
        assert(mid != index_of(m.from) && mid != index_of(m.to));
    }
    let c3 = s.relocated(m);
    assert(c1[index_of(m.from)] == Some(piece));
    let king = Some(Piece { kind: PieceKind::KING, player: piece.player });
    assert forall|p: Player| true implies {
        &&& count_owned(c3, p) == count_owned(c0, p) - (if is_long(m) && p != piece.player {
            1int
        } else {
            0int
        })
        &&& count_owned(c3.update(index_of(m.to), king), p) == count_owned(c3, p)
    } by {
        lemma_count_update(c0, index_of(m.to), Some(piece), p);
        lemma_count_update(c1, index_of(m.from), None, p);
        if is_long(m) {
            lemma_count_update(c2, mid, None, p);
        }
        lemma_count_update(c3, index_of(m.to), king, p);
    }
    let mover = piece.player;
    let other = opponent(mover);
    assert(other != mover);
    let after = s.apply(m);
    if s.promotes(m) {
        assert(after.cells == c3.update(index_of(m.to), king));
    } else {
        assert(after.cells == c3);
    }
    assert(count_owned(after.cells, mover) == count_owned(c3, mover));
    assert(count_owned(after.cells, other) == count_owned(c3, other));
}

/// Pieces are never added: the count of each side never grows, and a state
/// with at most 24 pieces in all stays so.
pub proof fn lemma_piece_counts_never_grow(s: BoardState, m: Move)
    requires
        s.wf(),
        s.is_legal(m),
    ensures
        s.apply(m).count(Player::RED) <= s.count(Player::RED),
        s.apply(m).count(Player::BLACK) <= s.count(Player::BLACK),
        s.count(Player::RED) + s.count(Player::BLACK) <= 24 ==> s.apply(m).count(Player::RED)
            + s.apply(m).count(Player::BLACK) <= 24,
{
    lemma_apply_counts(s, m);
}

proof fn lemma_start_row(r: int, p: Player)
    requires
        0 <= r < 8,
    ensures
        ({
            let cells = BoardState::start().cells;
            let full = match p {
                Player::BLACK => r < 3,
                Player::RED => r >= 5,
            };
            count_owned(cells.take(8 * r + 8), p) == count_owned(cells.take(8 * r), p) + if full {
                4int
            } else {
                0int
            }
        }),
{
    let cells = BoardState::start().cells;
    lemma_count_take(cells, 8 * r, p);
    lemma_count_take(cells, 8 * r + 1, p);
    lemma_count_take(cells, 8 * r + 2, p);
    lemma_count_take(cells, 8 * r + 3, p);
    lemma_count_take(cells, 8 * r + 4, p);
    lemma_count_take(cells, 8 * r + 5, p);
    lemma_count_take(cells, 8 * r + 6, p);
    lemma_count_take(cells, 8 * r + 7, p);
}

proof fn lemma_start_rows(r: int)
    requires
        0 <= r <= 8,
    ensures
        ({
            let cells = BoardState::start().cells;
            &&& count_owned(cells.take(8 * r), Player::BLACK) == if r <= 3 {
                4 * r
            } else {
                12
            }
            &&& count_owned(cells.take(8 * r), Player::RED) == if r <= 5 {
                0
            } else {
                4 * (r - 5)
            }
        }),
    decreases r,
{
    if r == 0 {
        assert(BoardState::start().cells.take(0) =~= Seq::<Option<Piece>>::empty());
    } else {
        lemma_start_rows(r - 1);
        lemma_start_row(r - 1, Player::BLACK);
        lemma_start_row(r - 1, Player::RED);
    }
}

/// A game starts with twelve pieces a side, 24 in all, and in a sound state.
pub proof fn lemma_start_is_sound()
    ensures
        BoardState::start().count(Player::RED) == 12,
        BoardState::start().count(Player::BLACK) == 12,
        BoardState::start().sound(),
{
    let s = BoardState::start();
    lemma_start_rows(8);
    assert(s.cells.take(64) =~= s.cells);
    assert forall|r: int, c: int| on_board(r, c) implies match #[trigger] s.at(r, c) {
        Some(p) => p.kind == PieceKind::PAWN ==> r != promotion_row(p.player),
        None => true,
    } by {
        assert((r * 8 + c) / 8 == r && (r * 8 + c) % 8 == c);
    }
}

/// A legal move leaves no man on its promotion row: a man that reaches it is
/// crowned, and every other man stays where it was.
pub proof fn lemma_apply_keeps_crowning(s: BoardState, m: Move)
    requires
        s.wf(),
        s.is_legal(m),
        s.crowned_where_due(),
    ensures
        s.apply(m).crowned_where_due(),
{
    let after = s.apply(m);
    let piece = s.at_sq(m.from)->Some_0;
    assert forall|r: int, c: int| on_board(r, c) implies match #[trigger] after.at(r, c) {
        Some(p) => p.kind == PieceKind::PAWN ==> r != promotion_row(p.player),
        None => true,
    } by {
        if r * 8 + c != index_of(m.to) && r * 8 + c != index_of(m.from) && !(is_long(m) && r * 8
            + c == mid_row(m) * 8 + mid_col(m)) {
            assert(after.at(r, c) == s.at(r, c));
        }
        if r * 8 + c == index_of(m.to) {
            assert(r == m.to.0 && c == m.to.1);
        }
    }
}

/// The row on which a player's men start farthest back.
pub open spec fn home_row(p: Player) -> int {
    promotion_row(opponent(p))
}

/// No man stands on its own home row.
pub open spec fn men_off_home_rows(s: BoardState) -> bool {
    forall|r: int, c: int|
        #![trigger s.at(r, c)]
        on_board(r, c) ==> match s.at(r, c) {
            Some(p) => p.kind == PieceKind::PAWN ==> r != home_row(p.player),
            None => true,
        }
}

/// Men only advance: a legal move never puts a man on its own home row, so a
/// state with no man there keeps none there.
pub proof fn lemma_men_never_retreat(s: BoardState, m: Move)
    requires
        s.wf(),
        s.is_legal(m),
        men_off_home_rows(s),
    ensures
        men_off_home_rows(s.apply(m)),
{
    let after = s.apply(m);
    assert forall|r: int, c: int| on_board(r, c) implies match #[trigger] after.at(r, c) {
        Some(p) => p.kind == PieceKind::PAWN ==> r != home_row(p.player),
        None => true,
    } by {
        if r * 8 + c != index_of(m.to) && r * 8 + c != index_of(m.from) && !(is_long(m) && r * 8
            + c == mid_row(m) * 8 + mid_col(m)) {
            assert(after.at(r, c) == s.at(r, c));
        }
        if r * 8 + c == index_of(m.to) {
            assert(r == m.to.0 && c == m.to.1);
        }
    }
}

/// Forced capture: when the piece on `pos` can capture, its move list is
/// non-empty and holds captures only; otherwise it holds steps only.
pub proof fn lemma_forced_capture(s: BoardState, pos: (i32, i32))
    ensures
        s.can_capture(pos) ==> s.legal_moves(pos).len() > 0,
        s.can_capture(pos) ==> forall|j: int|
            0 <= j < s.legal_moves(pos).len() ==> s.is_jump(#[trigger] s.legal_moves(pos)[j]),
        !s.can_capture(pos) ==> forall|j: int|
            0 <= j < s.legal_moves(pos).len() ==> s.is_step(#[trigger] s.legal_moves(pos)[j]),
{
    broadcast use vstd::seq_lib::group_filter_ensures;

    let c = candidates(pos);
    if s.can_capture(pos) {
        let keep = |m: Move| s.is_jump(m);
        assert(s.legal_moves(pos) == c.filter(keep));
        let k = if s.is_jump(c[4]) {
            4int
        } else if s.is_jump(c[5]) {
            5int
        } else if s.is_jump(c[6]) {
            6int
        } else {
            7int
        };
        assert(keep(c[k]));
        assert(c.filter(keep).contains(c[k]));
    } else {
        let keep = |m: Move| s.is_step(m);
        assert(s.legal_moves(pos) == c.filter(keep));
    }
}

proof fn lemma_count_is_squares_len(s: BoardState, n: int, p: Player)
    requires
        s.wf(),
        0 <= n <= 64,
    ensures
        count_owned(s.cells.take(n), p) == s.squares_upto(n, p).len(),
    decreases n,
{
    if n == 0 {
        assert(s.cells.take(0) =~= Seq::<Option<Piece>>::empty());
    } else {
        lemma_count_is_squares_len(s, n - 1, p);
        lemma_count_take(s.cells, n - 1, p);
    }
}

/// The game is over exactly when one side has no square left.
pub proof fn lemma_game_over_iff_no_pieces(s: BoardState)
    requires
        s.wf(),
    ensures
        s.game_over() <==> (s.squares_of(Player::RED).len() == 0 || s.squares_of(
            Player::BLACK,
        ).len() == 0),
{
    lemma_count_is_squares_len(s, 64, Player::RED);
    lemma_count_is_squares_len(s, 64, Player::BLACK);
    assert(s.cells.take(64) =~= s.cells);
}

proof fn lemma_moves_from_origin(s: BoardState, sqs: Seq<(i32, i32)>)
    ensures
        forall|j: int|
            0 <= j < s.moves_from(sqs).len() ==> sqs.contains(#[trigger] s.moves_from(sqs)[j].from),
    decreases sqs.len(),
{
    if sqs.len() > 0 {
        lemma_moves_from_origin(s, sqs.drop_last());
        lemma_legal_moves_legal(s, sqs.last());
        let a = s.moves_from(sqs.drop_last());
        let b = s.legal_moves(sqs.last());
        assert forall|j: int| 0 <= j < s.moves_from(sqs).len() implies sqs.contains(
            #[trigger] s.moves_from(sqs)[j].from,
        ) by {
            if j < a.len() {
                assert(s.moves_from(sqs)[j] == a[j]);
                let k = choose|k: int| 0 <= k < sqs.drop_last().len() && sqs.drop_last()[k] == a[j].from;
                assert(sqs[k] == a[j].from);
            } else {
                assert(s.moves_from(sqs)[j] == b[j - a.len()]);
                assert(sqs[sqs.len() - 1] == sqs.last());
            }
        }
    }
}

/// Every move open to the side to move is legal and moves a piece of that side.
pub proof fn lemma_turn_moves_belong_to_turn(s: BoardState, m: Move)
    requires
        s.sound(),
        s.turn_moves().contains(m),
    ensures
        s.is_legal(m),
        owned_by(s.at_sq(m.from), s.turn),
{
    lemma_turn_moves_legal(s);
    let j = choose|j: int| 0 <= j < s.turn_moves().len() && s.turn_moves()[j] == m;
    if s.successive == no_square() {
        lemma_moves_from_origin(s, s.squares_of(s.turn));
        crate::rules::lemma_squares_owned(s, 64, s.turn);
        let k = choose|k: int|
            0 <= k < s.squares_of(s.turn).len() && s.squares_of(s.turn)[k] == m.from;
        assert(owned_by(s.at_sq(s.squares_upto(64, s.turn)[k]), s.turn));
    } else {
        lemma_legal_moves_legal(s, s.successive);
    }
}

/// Soundness is kept by every move open to the side to move, so every state
/// of a game is sound: each side keeps at most twelve pieces, no man stands
/// on its promotion row, and a pending continuation names a piece of the side
/// to move that can capture.
pub proof fn lemma_apply_keeps_sound(s: BoardState, m: Move)
    requires
        s.sound(),
        s.turn_moves().contains(m),
    ensures
        s.apply(m).sound(),
{
    lemma_turn_moves_belong_to_turn(s, m);
    lemma_piece_counts_never_grow(s, m);
    lemma_apply_keeps_crowning(s, m);
    let after = s.apply(m);
    let moved = BoardState { cells: s.relocated(m), ..s };
    if s.continues(m) {
        let piece = s.at_sq(m.from)->Some_0;
        assert(moved.at_sq(m.to) == Some(piece));
        if s.promotes(m) {
            lemma_candidate(moved, m.to, 4);
            lemma_candidate(moved, m.to, 5);
            lemma_candidate(moved, m.to, 6);
            lemma_candidate(moved, m.to, 7);
            assert(!moved.can_capture(m.to));
        }
        assert(after.cells == moved.cells);
        assert(after.at_sq(m.to) == Some(piece));
        assert(after.can_capture(m.to) == moved.can_capture(m.to));
    }
}

/// A side with a single move open to it is given that move by a search of
/// any positive depth, whatever the move's score, and the search scores the
/// state as it scores the state after that move; at depth one that is the
/// material after the move.
pub proof fn lemma_only_move_is_chosen(s: BoardState, depth: int, alpha: int, beta: int)
    requires
        !s.game_over(),
        depth >= 1,
        s.turn_moves().len() == 1,
    ensures
        search(s, depth, alpha, beta).1 == Some(s.turn_moves()[0]),
        search(s, depth, alpha, beta).0 == search(s.apply(s.turn_moves()[0]), depth - 1, alpha, beta).0,
        depth == 1 ==> search(s, depth, alpha, beta).0 == material(s.apply(s.turn_moves()[0]).cells),
{
    let moves = s.turn_moves();
    let init = lost_value(s.turn);
    lemma_scan_move(s, moves, 0, depth, alpha, beta, init, None);
    let c = search(s.apply(moves[0]), depth - 1, alpha, beta).0;
    if s.turn == Player::BLACK {
        let nbeta = if c < beta {
            c
        } else {
            beta
        };
        assert(scan(s, moves, 1, depth, alpha, nbeta, c, Some(moves[0])) == (c, Some(moves[0])));
    } else {
        let nalpha = if c > alpha {
            c
        } else {
            alpha
        };
        assert(scan(s, moves, 1, depth, nalpha, beta, c, Some(moves[0])) == (c, Some(moves[0])));
    }
}

proof fn lemma_material_bound(cells: Seq<Option<Piece>>)
    ensures
        -2 * cells.len() <= material(cells) <= 2 * cells.len(),
    decreases cells.len(),
{
    if cells.len() > 0 {
        lemma_material_bound(cells.drop_last());
    }
}

/// A legal move keeps the board at 64 cells.
proof fn lemma_apply_wf(s: BoardState, m: Move)
    requires
        s.wf(),
        s.is_legal(m),
    ensures
        s.apply(m).wf(),
{
}

proof fn lemma_value_bounds(s: BoardState, depth: int)
    requires
        s.wf(),
    ensures
        i32::MIN <= minimax_value(s, depth) <= i32::MAX,
    decreases depth, 1int, 0int,
{
    if s.game_over() || depth <= 0 {
        lemma_material_bound(s.cells);
    } else {
        lemma_best_value_bounds(s, s.turn_moves(), 0, depth);
    }
}

proof fn lemma_best_value_bounds(s: BoardState, moves: Seq<Move>, i: int, depth: int)
    requires
        s.wf(),
        moves == s.turn_moves(),
    ensures
        i32::MIN <= best_value(s, moves, i, depth) <= i32::MAX,
    decreases depth, 0int, moves.len() - i,
{
    if 0 <= i < moves.len() && depth > 0 {
        lemma_turn_moves_legal(s);
        lemma_apply_wf(s, moves[i]);
        lemma_value_bounds(s.apply(moves[i]), depth - 1);
        lemma_best_value_bounds(s, moves, i + 1, depth);
    }
}

/// Alpha-beta is fail-soft: for a window `alpha < beta`, a score strictly
/// inside the window is the plain minimax value, a score at or below `alpha`
/// bounds the minimax value from above, and a score at or above `beta`
/// bounds it from below.
pub proof fn lemma_search_fail_soft(s: BoardState, depth: int, alpha: int, beta: int)
    requires
        s.wf(),
        i32::MIN <= alpha < beta <= i32::MAX,
    ensures
        ({
            let r = search(s, depth, alpha, beta).0;
            let v = minimax_value(s, depth);
            &&& alpha < r < beta ==> r == v
            &&& r <= alpha ==> v <= r
            &&& r >= beta ==> v >= r
        }),
    decreases depth, 1int, 0int,
{
    if !(s.game_over() || depth <= 0) {
        let moves = s.turn_moves();
        let init = lost_value(s.turn);
        lemma_best_value_bounds(s, moves, 0, depth);
        // the two sides meet the loop's requirements for different reasons
        if s.turn == Player::BLACK {
            lemma_scan_fail_soft(s, moves, 0, depth, alpha, beta, init, None, alpha, beta, init);
        } else {
            lemma_scan_fail_soft(s, moves, 0, depth, alpha, beta, init, None, alpha, beta, init);
        }
    }
}

/// The search loop from the `i`-th move on keeps alpha-beta's bounds. `pm`
/// is the best minimax value of the moves already examined (`lost_value`
/// when none was); `alpha0` and `beta0` are the node's own window.
proof fn lemma_scan_fail_soft(
    s: BoardState,
    moves: Seq<Move>,
    i: int,
    depth: int,
    alpha: int,
    beta: int,
    best: int,
    best_move: Option<Move>,
    alpha0: int,
    beta0: int,
    pm: int,
)
    requires
        s.wf(),
        moves == s.turn_moves(),
        depth > 0,
        0 <= i <= moves.len(),
        i32::MIN <= alpha0 < beta0 <= i32::MAX,
        i32::MIN <= pm <= i32::MAX,
        best_move is None ==> best == lost_value(s.turn) && pm == lost_value(s.turn),
        s.turn == Player::RED ==> {
            &&& alpha == if best > alpha0 {
                best
            } else {
                alpha0
            }
            &&& beta == beta0
            &&& best < beta0
            &&& pm <= best
            &&& best > alpha0 ==> pm == best
        },
        s.turn == Player::BLACK ==> {
            &&& beta == if best < beta0 {
                best
            } else {
                beta0
            }
            &&& alpha == alpha0
            &&& best > alpha0
            &&& pm >= best
            &&& best < beta0 ==> pm == best
        },
    ensures
        ({
            let r = scan(s, moves, i, depth, alpha, beta, best, best_move).0;
            let rest = best_value(s, moves, i, depth);
            let v = if s.turn == Player::BLACK {
                if pm < rest {
                    pm
                } else {
                    rest
                }
            } else {
                if pm > rest {
                    pm
                } else {
                    rest
                }
            };
            &&& alpha0 < r < beta0 ==> r == v
            &&& r <= alpha0 ==> v <= r
            &&& r >= beta0 ==> v >= r
        }),
    decreases depth, 0int, moves.len() - i,
{
    if i < moves.len() {
        let m = moves[i];
        let child = s.apply(m);
        lemma_turn_moves_legal(s);
        lemma_apply_wf(s, m);
        lemma_search_fail_soft(child, depth - 1, alpha, beta);
        lemma_value_bounds(child, depth - 1);
        lemma_best_value_bounds(s, moves, i + 1, depth);
        let c = search(child, depth - 1, alpha, beta).0;
        let v = minimax_value(child, depth - 1);
        if s.turn == Player::BLACK {
            let take = best_move is None || c < best;
            let nbest = if take {
                c
            } else {
                best
            };
            let nbeta = if nbest < beta {
                nbest
            } else {
                beta
            };
            if nbeta > alpha {
                let npm = if pm < v {
                    pm
                } else {
                    v
                };
                lemma_scan_fail_soft(
                    s,
                    moves,
                    i + 1,
                    depth,
                    alpha,
                    nbeta,
                    nbest,
                    if take {
                        Some(m)
                    } else {
                        best_move
                    },
                    alpha0,
                    beta0,
                    npm,
                );
            }
        } else {
            let take = best_move is None || c > best;
            let nbest = if take {
                c
            } else {
                best
            };
            let nalpha = if nbest > alpha {
                nbest
            } else {
                alpha
            };
            if nalpha < beta {
                let npm = if pm > v {
                    pm
                } else {
                    v
                };
                lemma_scan_fail_soft(
                    s,
                    moves,
                    i + 1,
                    depth,
                    nalpha,
                    beta,
                    nbest,
                    if take {
                        Some(m)
                    } else {
                        best_move
                    },
                    alpha0,
                    beta0,
                    npm,
                );
            }
        }
    }
}

/// With the full window the search scores a state with its plain minimax
/// value: pruning changes which moves are examined, never the score.
pub proof fn lemma_full_window_is_minimax(s: BoardState, depth: int)
    requires
        s.wf(),
    ensures
        search(s, depth, i32::MIN as int, i32::MAX as int).0 == minimax_value(s, depth),
{
    lemma_search_fail_soft(s, depth, i32::MIN as int, i32::MAX as int);
    lemma_value_bounds(s, depth);
}

proof fn lemma_empty_cells(n: nat)
    ensures
        count_owned(Seq::new(n, |i: int| None::<Piece>), Player::BLACK) == 0,
        count_owned(Seq::new(n, |i: int| None::<Piece>), Player::RED) == 0,
        material(Seq::new(n, |i: int| None::<Piece>)) == 0,
    decreases n,
{
    if n > 0 {
        lemma_empty_cells((n - 1) as nat);
        assert(Seq::new(n, |i: int| None::<Piece>).drop_last() =~= Seq::new(
            (n - 1) as nat,
            |i: int| None::<Piece>,
        ));
    }
}

proof fn lemma_material_update(cells: Seq<Option<Piece>>, i: int, v: Option<Piece>)
    requires
        0 <= i < cells.len(),
    ensures
        material(cells.update(i, v)) == material(cells) - crate::bot::piece_value(cells[i])
            + crate::bot::piece_value(v),
    decreases cells.len(),
{
    if i == cells.len() - 1 {
        assert(cells.update(i, v).drop_last() =~= cells.drop_last());
    } else {
        lemma_material_update(cells.drop_last(), i, v);
        assert(cells.update(i, v).drop_last() =~= cells.drop_last().update(i, v));
    }
}

/// The cells of a board that holds only a RED king on `k` and a BLACK man on `p`.
pub open spec fn king_and_man(k: (i32, i32), p: (i32, i32)) -> Seq<Option<Piece>> {
    Seq::new(
        64,
        |i: int|
            if i == index_of(k) {
                Some(Piece { kind: PieceKind::KING, player: Player::RED })
            } else if i == index_of(p) {
                Some(Piece { kind: PieceKind::PAWN, player: Player::BLACK })
            } else {
                None
            },
    )
}

proof fn lemma_king_squares(s: BoardState, k: (i32, i32), p: (i32, i32), n: int)
    requires
        sq_on_board(k),
        sq_on_board(p),
        k != p,
        s.cells == king_and_man(k, p),
        0 <= n <= 64,
    ensures
        s.squares_upto(n, Player::RED) == if n > index_of(k) {
            seq![k]
        } else {
            Seq::<(i32, i32)>::empty()
        },
    decreases n,
{
    if n > 0 {
        lemma_king_squares(s, k, p, n - 1);
        if n - 1 == index_of(k) {
            assert(square_at(n - 1) == k);
            assert(Seq::<(i32, i32)>::empty().push(k) =~= seq![k]);
        }
    }
}

/// A RED king next to the only BLACK man, with the square beyond the man on
/// the board, has the capture as its one move.
proof fn lemma_king_and_man_moves(s: BoardState, k: (i32, i32), dr: int, dc: int)
    requires
        dr == 1 || dr == -1,
        dc == 1 || dc == -1,
        sq_on_board(k),
        on_board(k.0 + 2 * dr, k.1 + 2 * dc),
        s.cells == king_and_man(k, ((k.0 + dr) as i32, (k.1 + dc) as i32)),
    ensures
        s.legal_moves(k) == seq![Move { from: k, to: ((k.0 + 2 * dr) as i32, (k.1 + 2 * dc) as i32) }],
{
    let p = ((k.0 + dr) as i32, (k.1 + dc) as i32);
    let m = Move { from: k, to: ((k.0 + 2 * dr) as i32, (k.1 + 2 * dc) as i32) };
    let c = candidates(k);
    assert(s.at_sq(k) == Some(Piece { kind: PieceKind::KING, player: Player::RED }));
    assert(s.at_sq(p) == Some(Piece { kind: PieceKind::PAWN, player: Player::BLACK }));
    assert(s.at_sq(m.to) is None);
    assert(s.is_jump(m));
    assert forall|q: int| 0 <= q < 8 implies (s.is_jump(#[trigger] c[q]) <==> c[q] == m) by {
        lemma_candidate(s, k, q);
        if q >= 4 && c[q] != m {
            assert(mid_row(c[q]) * 8 + mid_col(c[q]) != index_of(p));
        }
    }
    assert(s.can_capture(k));
    let keep = |x: Move| s.is_jump(x);
    reveal_with_fuel(Seq::<_>::filter, 9);
    assert(c.filter(keep) =~= seq![m]);
}

proof fn lemma_king_and_man_in_play(k: (i32, i32), p: (i32, i32))
    requires
        sq_on_board(k),
        sq_on_board(p),
        k != p,
    ensures
        count_owned(king_and_man(k, p), Player::RED) == 1,
        count_owned(king_and_man(k, p), Player::BLACK) == 1,
{
    let king = Some(Piece { kind: PieceKind::KING, player: Player::RED });
    let man = Some(Piece { kind: PieceKind::PAWN, player: Player::BLACK });
    let empty = Seq::new(64, |i: int| None::<Piece>);
    let one = empty.update(index_of(k), king);
    assert(index_of(k) != index_of(p));
    assert(king_and_man(k, p) =~= one.update(index_of(p), man));
    lemma_empty_cells(64);
    lemma_count_update(empty, index_of(k), king, Player::RED);
    lemma_count_update(empty, index_of(k), king, Player::BLACK);
    lemma_count_update(one, index_of(p), man, Player::RED);
    lemma_count_update(one, index_of(p), man, Player::BLACK);
}

/// After the king takes the man, the board holds the king alone.
proof fn lemma_capture_leaves_king(s: BoardState, k: (i32, i32), dr: int, dc: int)
    requires
        dr == 1 || dr == -1,
        dc == 1 || dc == -1,
        sq_on_board(k),
        on_board(k.0 + 2 * dr, k.1 + 2 * dc),
        s.cells == king_and_man(k, ((k.0 + dr) as i32, (k.1 + dc) as i32)),
    ensures
        ({
            let m = Move { from: k, to: ((k.0 + 2 * dr) as i32, (k.1 + 2 * dc) as i32) };
            &&& s.apply(m).game_over()
            &&& material(s.apply(m).cells) == 2
        }),
{
    let m = Move { from: k, to: ((k.0 + 2 * dr) as i32, (k.1 + 2 * dc) as i32) };
    let king = Some(Piece { kind: PieceKind::KING, player: Player::RED });
    let empty = Seq::new(64, |i: int| None::<Piece>);
    assert(s.at_sq(k) == king);
    assert(!s.promotes(m));
    assert(is_long(m));
    assert(s.apply(m).cells == s.relocated(m));
    assert(mid_row(m) == k.0 + dr && mid_col(m) == k.1 + dc);
    assert(s.relocated(m) =~= empty.update(index_of(m.to), king));
    lemma_empty_cells(64);
    lemma_count_update(empty, index_of(m.to), king, Player::BLACK);
    lemma_material_update(empty, index_of(m.to), king);
}

/// A RED king diagonally next to the only BLACK man, with the square beyond
/// the man on the board and RED to move, takes the man when searched two
/// plies deep: the capture ends the game and scores the king's worth, 2.
pub proof fn lemma_king_takes_last_man(
    s: BoardState,
    k: (i32, i32),
    dr: int,
    dc: int,
    alpha: int,
    beta: int,
)
    requires
        dr == 1 || dr == -1,
        dc == 1 || dc == -1,
        sq_on_board(k),
        on_board(k.0 + 2 * dr, k.1 + 2 * dc),
        s.cells == king_and_man(k, ((k.0 + dr) as i32, (k.1 + dc) as i32)),
        s.turn == Player::RED,
        s.successive == no_square(),
    ensures
        search(s, 2, alpha, beta) == (
        2int,
        Some(Move { from: k, to: ((k.0 + 2 * dr) as i32, (k.1 + 2 * dc) as i32) }),
        ),
{
    let p = ((k.0 + dr) as i32, (k.1 + dc) as i32);
    let m = Move { from: k, to: ((k.0 + 2 * dr) as i32, (k.1 + 2 * dc) as i32) };
    lemma_king_and_man_in_play(k, p);
    assert(!s.game_over());
    lemma_king_squares(s, k, p, 64);
    lemma_king_and_man_moves(s, k, dr, dc);
    assert(seq![k].drop_last() =~= Seq::<(i32, i32)>::empty());
    assert(seq![k].last() == k);
    assert(s.moves_from(Seq::<(i32, i32)>::empty()) == Seq::<Move>::empty());
    assert(s.moves_from(seq![k]) =~= seq![m]);
    assert(s.turn_moves() == seq![m]);
    lemma_capture_leaves_king(s, k, dr, dc);
    let after = s.apply(m);
    assert(search(after, 1, alpha, beta).0 == 2);
    let nalpha = if 2 > alpha {
        2
    } else {
        alpha
    };
    assert(scan(s, seq![m], 1, 2, nalpha, beta, 2, Some(m)) == (2int, Some(m)));
}

} // verus!
