use vstd::prelude::*;
use crate::board::{Move, Piece, PieceKind, Player};

verus! {

/// The abstract state of a game: the 64 cells in row-major order, the side to
/// move, and the square of a piece that must keep capturing (`(-1, -1)` when
/// there is none).
pub ghost struct BoardState {
    pub cells: Seq<Option<Piece>>,
    pub turn: Player,
    pub successive: (i32, i32),
}

pub open spec fn no_square() -> (i32, i32) {
    (-1i32, -1i32)
}

pub open spec fn on_board(r: int, c: int) -> bool {
    0 <= r < 8 && 0 <= c < 8
}

pub open spec fn sq_on_board(sq: (i32, i32)) -> bool {
    on_board(sq.0 as int, sq.1 as int)
}

/// Position of a square in the row-major cell sequence.
pub open spec fn index_of(sq: (i32, i32)) -> int {
    sq.0 * 8 + sq.1
}

/// The square at a position of the row-major cell sequence.
pub open spec fn square_at(i: int) -> (i32, i32) {
    ((i / 8) as i32, (i % 8) as i32)
}

pub open spec fn opponent(p: Player) -> Player {
    match p {
        Player::RED => Player::BLACK,
        Player::BLACK => Player::RED,
    }
}

/// The row direction in which a player's men advance.
pub open spec fn forward(p: Player) -> int {
    match p {
        Player::RED => -1,
        Player::BLACK => 1,
    }
}

/// The row on which a player's men are crowned.
pub open spec fn promotion_row(p: Player) -> int {
    match p {
        Player::RED => 0,
        Player::BLACK => 7,
    }
}

pub open spec fn owned_by(cell: Option<Piece>, p: Player) -> bool {
    match cell {
        Some(q) => q.player == p,
        None => false,
    }
}

pub open spec fn row_delta(m: Move) -> int {
    m.to.0 - m.from.0
}

pub open spec fn col_delta(m: Move) -> int {
    m.to.1 - m.from.1
}

/// A move of two rows, as a capture is.
pub open spec fn is_long(m: Move) -> bool {
    row_delta(m) == 2 || row_delta(m) == -2
}

pub open spec fn mid_row(m: Move) -> int {
    (m.from.0 + m.to.0) / 2
}

pub open spec fn mid_col(m: Move) -> int {
    (m.from.1 + m.to.1) / 2
}

/// The geometry of a one-square diagonal move for a piece of this kind and owner.
pub open spec fn step_shape(kind: PieceKind, player: Player, m: Move) -> bool {
    &&& (col_delta(m) == 1 || col_delta(m) == -1)
    &&& match kind {
        PieceKind::PAWN => row_delta(m) == forward(player),
        PieceKind::KING => row_delta(m) == 1 || row_delta(m) == -1,
    }
}

/// The geometry of a two-square diagonal jump for a piece of this kind and owner.
pub open spec fn jump_shape(kind: PieceKind, player: Player, m: Move) -> bool {
    &&& (col_delta(m) == 2 || col_delta(m) == -2)
    &&& match kind {
        PieceKind::PAWN => row_delta(m) == 2 * forward(player),
        PieceKind::KING => row_delta(m) == 2 || row_delta(m) == -2,
    }
}

/// The eight diagonal destinations examined for a piece on `pos`, in the
/// order in which moves are generated: four steps, then four jumps.
pub open spec fn candidates(pos: (i32, i32)) -> Seq<Move> {
    let (r, c) = pos;
    seq![
        Move { from: pos, to: ((r + 1) as i32, (c + 1) as i32) },
        Move { from: pos, to: ((r + 1) as i32, (c - 1) as i32) },
        Move { from: pos, to: ((r - 1) as i32, (c + 1) as i32) },
        Move { from: pos, to: ((r - 1) as i32, (c - 1) as i32) },
        Move { from: pos, to: ((r + 2) as i32, (c + 2) as i32) },
        Move { from: pos, to: ((r + 2) as i32, (c - 2) as i32) },
        Move { from: pos, to: ((r - 2) as i32, (c + 2) as i32) },
        Move { from: pos, to: ((r - 2) as i32, (c - 2) as i32) },
    ]
}

/// The number of cells that hold a piece of `p`.
pub open spec fn count_owned(cells: Seq<Option<Piece>>, p: Player) -> nat
    decreases cells.len(),
{
    if cells.len() == 0 {
        0
    } else {
        count_owned(cells.drop_last(), p) + if owned_by(cells.last(), p) {
            1nat
        } else {
            0nat
        }
    }
}

/// The cell at position `i` of the standard starting layout: men on the dark
/// squares of rows 0-2 (BLACK) and 5-7 (RED).
pub open spec fn start_cell(i: int) -> Option<Piece> {
    let r = i / 8;
    let c = i % 8;
    if (r + c) % 2 == 1 && r < 3 {
        Some(Piece { kind: PieceKind::PAWN, player: Player::BLACK })
    } else if (r + c) % 2 == 1 && r >= 5 {
        Some(Piece { kind: PieceKind::PAWN, player: Player::RED })
    } else {
        None
    }
}

impl BoardState {
    /// The starting position of a game, BLACK to move.
    pub open spec fn start() -> BoardState {
        BoardState {
            cells: Seq::new(64, |i: int| start_cell(i)),
            turn: Player::BLACK,
            successive: no_square(),
        }
    }

    pub open spec fn wf(self) -> bool {
        self.cells.len() == 64
    }

    /// The piece on row `r`, column `c`; `None` off the board.
    pub open spec fn at(self, r: int, c: int) -> Option<Piece> {
        if on_board(r, c) {
            self.cells[r * 8 + c]
        } else {
            None
        }
    }

    pub open spec fn at_sq(self, sq: (i32, i32)) -> Option<Piece> {
        self.at(sq.0 as int, sq.1 as int)
    }

    /// Row `r`, column `c` holds a piece of the side opposing `player`.
    pub open spec fn is_enemy(self, r: int, c: int, player: Player) -> bool {
        match self.at(r, c) {
            Some(q) => q.player != player,
            None => false,
        }
    }

    /// Both squares are on the board, the origin occupied and the target empty.
    pub open spec fn well_formed_move(self, m: Move) -> bool {
        &&& sq_on_board(m.from)
        &&& sq_on_board(m.to)
        &&& self.at_sq(m.from) is Some
        &&& self.at_sq(m.to) is None
    }

    /// `m` is a legal step or jump for a piece of this kind and owner.
    pub open spec fn legal_for(self, kind: PieceKind, player: Player, m: Move) -> bool {
        &&& self.well_formed_move(m)
        &&& (step_shape(kind, player, m) || (jump_shape(kind, player, m) && self.is_enemy(
            mid_row(m),
            mid_col(m),
            player,
        )))
    }

    /// `m` is a legal move for the piece on its origin, whoever owns it.
    pub open spec fn is_legal(self, m: Move) -> bool {
        match self.at_sq(m.from) {
            Some(p) => self.legal_for(p.kind, p.player, m),
            None => false,
        }
    }

    pub open spec fn is_step(self, m: Move) -> bool {
        match self.at_sq(m.from) {
            Some(p) => self.well_formed_move(m) && step_shape(p.kind, p.player, m),
            None => false,
        }
    }

    /// `m` is a capture: a jump over an opposing piece onto an empty square.
    pub open spec fn is_jump(self, m: Move) -> bool {
        match self.at_sq(m.from) {
            Some(p) => self.well_formed_move(m) && jump_shape(p.kind, p.player, m)
                && self.is_enemy(mid_row(m), mid_col(m), p.player),
            None => false,
        }
    }

    /// `m` lands two squares away diagonally on an empty square and passes
    /// over a piece opposing `player`, in any direction.
    pub open spec fn kill_shape(self, m: Move, player: Player) -> bool {
        &&& sq_on_board(m.to)
        &&& is_long(m)
        &&& (col_delta(m) == 2 || col_delta(m) == -2)
        &&& self.at_sq(m.to) is None
        &&& self.is_enemy(mid_row(m), mid_col(m), player)
    }

    /// The piece on `pos` has a capture.
    pub open spec fn can_capture(self, pos: (i32, i32)) -> bool {
        let c = candidates(pos);
        self.is_jump(c[4]) || self.is_jump(c[5]) || self.is_jump(c[6]) || self.is_jump(c[7])
    }

    /// The legal moves of the piece on `pos` in generation order: its
    /// captures when it has one, else its steps.
    pub open spec fn legal_moves(self, pos: (i32, i32)) -> Seq<Move> {
        if self.can_capture(pos) {
            candidates(pos).filter(|m: Move| self.is_jump(m))
        } else {
            candidates(pos).filter(|m: Move| self.is_step(m))
        }
    }

    /// The squares among the first `n` cells that hold a piece of `p`, in scan order.
    pub open spec fn squares_upto(self, n: int, p: Player) -> Seq<(i32, i32)>
        decreases n,
    {
        if n <= 0 {
            seq![]
        } else {
            let prev = self.squares_upto(n - 1, p);
            if owned_by(self.cells[n - 1], p) {
                prev.push(square_at(n - 1))
            } else {
                prev
            }
        }
    }

    /// The squares that hold a piece of `p`, in row-major order.
    pub open spec fn squares_of(self, p: Player) -> Seq<(i32, i32)> {
        self.squares_upto(64, p)
    }

    /// The legal moves of the pieces on `sqs`, square after square.
    pub open spec fn moves_from(self, sqs: Seq<(i32, i32)>) -> Seq<Move>
        decreases sqs.len(),
    {
        if sqs.len() == 0 {
            seq![]
        } else {
            self.moves_from(sqs.drop_last()) + self.legal_moves(sqs.last())
        }
    }

    /// Every legal move of every piece of `p`, in scan order.
    pub open spec fn all_moves(self, p: Player) -> Seq<Move> {
        self.moves_from(self.squares_of(p))
    }

    /// The moves open to the side to move: those of the piece that must keep
    /// capturing, if there is one, else those of all its pieces.
    pub open spec fn turn_moves(self) -> Seq<Move> {
        if self.successive == no_square() {
            self.all_moves(self.turn)
        } else {
            self.legal_moves(self.successive)
        }
    }

    /// `m` may be played: it is in the move list of the piece it moves, and
    /// while a capture chain is pending it moves the capturing piece.
    pub open spec fn permits(self, m: Move) -> bool {
        &&& self.legal_moves(m.from).contains(m)
        &&& (self.successive == no_square() || m.from == self.successive)
    }

    pub open spec fn count(self, p: Player) -> nat {
        count_owned(self.cells, p)
    }

    /// Every man stands off its promotion row.
    pub open spec fn crowned_where_due(self) -> bool {
        forall|r: int, c: int|
            #![trigger self.at(r, c)]
            on_board(r, c) ==> match self.at(r, c) {
                Some(p) => p.kind == PieceKind::PAWN ==> r != promotion_row(p.player),
                None => true,
            }
    }

    /// The invariant of every state a game reaches: 64 cells, at most twelve
    /// pieces a side, no man on its promotion row, and a pending continuation
    /// only on a piece of the side to move that can capture.
    pub open spec fn sound(self) -> bool {
        &&& self.wf()
        &&& self.count(Player::RED) <= 12
        &&& self.count(Player::BLACK) <= 12
        &&& self.crowned_where_due()
        &&& self.successive != no_square() ==> owned_by(self.at_sq(self.successive), self.turn)
            && self.can_capture(self.successive)
    }

    /// One side has no piece left.
    pub open spec fn game_over(self) -> bool {
        self.count(Player::RED) == 0 || self.count(Player::BLACK) == 0
    }

    /// The cells after `m` relocates its piece and, for a move of two rows,
    /// removes the piece jumped over; before any promotion.
    pub open spec fn relocated(self, m: Move) -> Seq<Option<Piece>> {
        let moved = self.cells.update(index_of(m.to), self.at_sq(m.from)).update(
            index_of(m.from),
            None,
        );
        if is_long(m) {
            moved.update(mid_row(m) * 8 + mid_col(m), None)
        } else {
            moved
        }
    }

    /// After `m`, the piece that moved must capture again: `m` was a jump and
    /// the piece, as it landed, has a further capture.
    pub open spec fn continues(self, m: Move) -> bool {
        is_long(m) && (BoardState { cells: self.relocated(m), ..self }).can_capture(m.to)
    }

    /// `m` brings a man to its promotion row.
    pub open spec fn promotes(self, m: Move) -> bool {
        match self.at_sq(m.from) {
            Some(p) => p.kind == PieceKind::PAWN && m.to.0 == promotion_row(p.player),
            None => false,
        }
    }

    /// The state after `m`: the piece relocated, the jumped piece removed, a
    /// man on its promotion row crowned, and either the same side to move with
    /// the landing square pending or the other side to move with none pending.
    pub open spec fn apply(self, m: Move) -> BoardState {
        let moved = self.relocated(m);
        let cells = if self.promotes(m) {
            moved.update(
                index_of(m.to),
                Some(Piece { kind: PieceKind::KING, player: self.at_sq(m.from)->Some_0.player }),
            )
        } else {
            moved
        };
        if self.continues(m) {
            BoardState { cells, turn: self.turn, successive: m.to }
        } else {
            BoardState { cells, turn: opponent(self.turn), successive: no_square() }
        }
    }
}


/// Each of the eight candidates of an occupied square: the four steps can be
/// neither captures nor kill-shaped, and among the four jumps a legal one is
/// exactly a capture.
pub proof fn lemma_candidate(s: BoardState, pos: (i32, i32), k: int)
    requires
        s.at_sq(pos) is Some,
        0 <= k < 8,
    ensures
        ({
            let m = candidates(pos)[k];
            let p = s.at_sq(pos)->Some_0;
            &&& m.from == pos
            &&& m.to.0 == pos.0 + row_delta(m)
            &&& m.to.1 == pos.1 + col_delta(m)
            &&& k < 4 ==> (col_delta(m) == 1 || col_delta(m) == -1) && (row_delta(m) == 1
                || row_delta(m) == -1)
            &&& k >= 4 ==> (col_delta(m) == 2 || col_delta(m) == -2) && (row_delta(m) == 2
                || row_delta(m) == -2)
            &&& k < 4 ==> !is_long(m) && !s.is_jump(m) && !s.kill_shape(m, p.player) && (
            s.is_legal(m) <==> s.is_step(m))
            &&& k >= 4 ==> !s.is_step(m) && (s.is_legal(m) <==> s.is_jump(m)) && (s.is_jump(m)
                ==> s.kill_shape(m, p.player))
        }),
{
}

/// The squares listed for `p` lie on the board, hold pieces of `p`, and
/// occur in strictly increasing row-major order.
pub proof fn lemma_squares_owned(s: BoardState, n: int, p: Player)
    requires
        s.wf(),
        0 <= n <= 64,
    ensures
        forall|j: int|
            0 <= j < s.squares_upto(n, p).len() ==> {
                let sq = #[trigger] s.squares_upto(n, p)[j];
                &&& sq_on_board(sq)
                &&& 0 <= index_of(sq) < n
                &&& owned_by(s.at_sq(sq), p)
            },
    decreases n,
{
    if n > 0 {
        lemma_squares_owned(s, n - 1, p);
        let sq = square_at(n - 1);
        assert(index_of(sq) == n - 1);
    }
}

/// Every move in the list of the piece on `pos` starts on `pos` and is legal;
/// a square without a piece has no moves.
pub proof fn lemma_legal_moves_legal(s: BoardState, pos: (i32, i32))
    ensures
        forall|j: int|
            0 <= j < s.legal_moves(pos).len() ==> {
                let m = #[trigger] s.legal_moves(pos)[j];
                m.from == pos && s.is_legal(m)
            },
        s.at_sq(pos) is None ==> s.legal_moves(pos).len() == 0,
{
    let c = candidates(pos);
    let keep = if s.can_capture(pos) {
        |m: Move| s.is_jump(m)
    } else {
        |m: Move| s.is_step(m)
    };
    assert(s.legal_moves(pos) == c.filter(keep));
    broadcast use vstd::seq_lib::group_filter_ensures;

    assert forall|j: int| 0 <= j < c.filter(keep).len() implies {
        let m = #[trigger] c.filter(keep)[j];
        m.from == pos && s.is_legal(m)
    } by {
        let m = c.filter(keep)[j];
        assert(c.filter(keep).contains(m));
        c.lemma_filter_contains_rev(keep, m);
        assert(keep(m));
    }
    if s.at_sq(pos) is None && c.filter(keep).len() > 0 {
        let m = c.filter(keep)[0];
        assert(c.filter(keep).contains(m));
        c.lemma_filter_contains_rev(keep, m);
        assert(keep(m));
    }
}

/// Every move gathered from a list of squares is legal and in the move list
/// of the piece it moves.
pub proof fn lemma_moves_from_legal(s: BoardState, sqs: Seq<(i32, i32)>)
    ensures
        forall|j: int|
            0 <= j < s.moves_from(sqs).len() ==> {
                let m = #[trigger] s.moves_from(sqs)[j];
                s.is_legal(m) && s.legal_moves(m.from).contains(m)
            },
    decreases sqs.len(),
{
    if sqs.len() > 0 {
        lemma_moves_from_legal(s, sqs.drop_last());
        lemma_legal_moves_legal(s, sqs.last());
        let a = s.moves_from(sqs.drop_last());
        let b = s.legal_moves(sqs.last());
        assert forall|j: int| 0 <= j < s.moves_from(sqs).len() implies {
            let m = #[trigger] s.moves_from(sqs)[j];
            s.is_legal(m) && s.legal_moves(m.from).contains(m)
        } by {
            if j < a.len() {
                assert(s.moves_from(sqs)[j] == a[j]);
            } else {
                assert(s.moves_from(sqs)[j] == b[j - a.len()]);
                assert(b.contains(b[j - a.len()]));
            }
        }
    }
}

/// Every move open to the side to move is legal and may be played.
pub proof fn lemma_turn_moves_legal(s: BoardState)
    ensures
        forall|j: int|
            0 <= j < s.turn_moves().len() ==> s.is_legal(#[trigger] s.turn_moves()[j])
                && s.permits(s.turn_moves()[j]),
{
    lemma_moves_from_legal(s, s.squares_of(s.turn));
    lemma_legal_moves_legal(s, s.successive);
    assert forall|j: int| 0 <= j < s.turn_moves().len() implies s.is_legal(
        #[trigger] s.turn_moves()[j],
    ) && s.permits(s.turn_moves()[j]) by {
        if s.successive != no_square() {
            assert(s.legal_moves(s.successive).contains(s.turn_moves()[j]));
        }
    }
}

/// A move that may be played is legal.
pub proof fn lemma_permitted_is_legal(s: BoardState, m: Move)
    requires
        s.permits(m),
    ensures
        s.is_legal(m),
{
    lemma_legal_moves_legal(s, m.from);
}

} // verus!
