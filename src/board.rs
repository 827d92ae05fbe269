use vstd::prelude::*;
use crate::rules::{
    BoardState, candidates, count_owned, index_of, lemma_candidate, lemma_permitted_is_legal, lemma_squares_owned, on_board,
    opponent, owned_by, sq_on_board, start_cell,
};

verus! {

/// Whether a piece is an ordinary man or a promoted king.
#[allow(non_camel_case_types)]
#[derive(Clone, Copy, PartialEq, Eq, Debug, Structural)]
pub enum PieceKind {
    PAWN,
    KING,
}

/// The two sides. BLACK starts on rows 0-2, moves toward increasing rows and
/// moves first; RED starts on rows 5-7 and moves toward decreasing rows.
#[allow(non_camel_case_types)]
#[derive(Clone, Copy, PartialEq, Eq, Debug, Structural)]
pub enum Player {
    RED,
    BLACK,
}

#[derive(Clone, Copy, PartialEq, Eq, Debug, Structural)]
pub struct Piece {
    pub kind: PieceKind,
    pub player: Player,
}

/// A move from one square to another; squares are `(row, col)`.
#[derive(Clone, Copy, Eq, Debug)]
pub struct Move {
    pub from: (i32, i32),
    pub to: (i32, i32),
}

/// The game board: 64 cells in row-major order (`row * 8 + col`), the side
/// to move, the square selected by the user interface, and the square of a
/// piece that must continue capturing (`(-1, -1)` when there is none).
pub struct Board {
    pub pieces: Vec<Option<Piece>>,
    pub player_turn: Player,
    pub selected_piece: (i32, i32),
    pub successive_piece: (i32, i32),
}

impl Piece {
    pub fn new(kind: PieceKind, player: Player) -> (r: Self)
        ensures
            r == (Piece { kind, player }),
    {
        Self { kind, player }
    }
}

impl Move {
    pub fn new(from: (i32, i32), to: (i32, i32)) -> (r: Self)
        ensures
            r == (Move { from, to }),
    {
        Self { from, to }
    }
}

impl PartialEq for Move {
    fn eq(&self, other: &Move) -> (r: bool) {
        self.from.0 == other.from.0 && self.from.1 == other.from.1 && self.to.0 == other.to.0
            && self.to.1 == other.to.1
    }
}

impl vstd::std_specs::cmp::PartialEqSpecImpl for Move {
    open spec fn obeys_eq_spec() -> bool {
        true
    }

    open spec fn eq_spec(&self, other: &Move) -> bool {
        *self == *other
    }
}

/// The eight diagonal destinations around `pos`: four steps, then four jumps.
fn candidate_moves(pos: (i32, i32)) -> (r: Vec<Move>)
    requires
        sq_on_board(pos),
    ensures
        r@ == candidates(pos),
{
    let (row, col) = pos;
    let mut r: Vec<Move> = Vec::new();
    r.push(Move::new(pos, (row + 1, col + 1)));
    r.push(Move::new(pos, (row + 1, col - 1)));
    r.push(Move::new(pos, (row - 1, col + 1)));
    r.push(Move::new(pos, (row - 1, col - 1)));
    r.push(Move::new(pos, (row + 2, col + 2)));
    r.push(Move::new(pos, (row + 2, col - 2)));
    r.push(Move::new(pos, (row - 2, col + 2)));
    r.push(Move::new(pos, (row - 2, col - 2)));
    assert(r@ =~= candidates(pos));
    r
}

impl View for Board {
    type V = BoardState;

    open spec fn view(&self) -> BoardState {
        BoardState { cells: self.pieces@, turn: self.player_turn, successive: self.successive_piece }
    }
}

impl Board {
    /// The board holds exactly 64 cells.
    pub open spec fn wf(&self) -> bool {
        self.pieces@.len() == 64
    }

    /// A board in the starting layout, BLACK to move, nothing selected and no
    /// capture pending.
    pub fn new() -> (r: Self)
        ensures
            r.wf(),
            r@ == BoardState::start(),
            r.selected_piece == (-1i32, -1i32),
    {
        let mut pieces: Vec<Option<Piece>> = Vec::new();
        let mut i: usize = 0;
        while i < 64
            invariant
                i <= 64,
                pieces@.len() == i,
                forall|j: int| 0 <= j < i ==> pieces@[j] == start_cell(j),
            decreases 64 - i,
        {
            let row = i / 8;
            let col = i % 8;
            if (row + col) % 2 == 1 && row < 3 {
                pieces.push(Some(Piece::new(PieceKind::PAWN, Player::BLACK)));
            } else if (row + col) % 2 == 1 && row >= 5 {
                pieces.push(Some(Piece::new(PieceKind::PAWN, Player::RED)));
            } else {
                pieces.push(None);
            }
            i += 1;
        }
        assert(pieces@ =~= BoardState::start().cells);
        Self {
            pieces: pieces,
            player_turn: Player::BLACK,
            selected_piece: (-1, -1),
            successive_piece: (-1, -1),
        }
    }

    /// Puts the board back in the starting layout, whatever it held.
    pub fn reset(&mut self)
        ensures
            final(self).wf(),
            final(self)@ == BoardState::start(),
            final(self).selected_piece == (-1i32, -1i32),
    {
        *self = Board::new();
    }

    pub fn in_bounds(&self, pos: (i32, i32)) -> (r: bool)
        ensures
            r == on_board(pos.0 as int, pos.1 as int),
    {
        pos.0 >= 0 && pos.0 <= 7 && pos.1 >= 0 && pos.1 <= 7
    }

    /// The piece on `pos`; `None` for an empty or off-board square.
    pub fn at(&self, pos: (i32, i32)) -> (r: Option<Piece>)
        requires
            self.wf(),
        ensures
            r == self@.at_sq(pos),
    {
        if self.in_bounds(pos) {
            return self.pieces[pos.0 as usize * 8 + pos.1 as usize];
        }
        None
    }

    pub fn select(&mut self, pos: (i32, i32))
        ensures
            final(self).selected_piece == pos,
            final(self)@ == old(self)@,
    {
        self.selected_piece = pos;
    }

    pub fn deselect(&mut self)
        ensures
            final(self).selected_piece == (-1i32, -1i32),
            final(self)@ == old(self)@,
    {
        self.selected_piece = (-1, -1);
    }

    pub fn is_selected(&self) -> (r: bool)
        ensures
            r == (self.selected_piece != (-1i32, -1i32)),
    {
        !(self.selected_piece.0 == -1 && self.selected_piece.1 == -1)
    }

    pub fn get_selected(&self) -> (r: (i32, i32))
        ensures
            r == self.selected_piece,
    {
        self.selected_piece
    }

    pub fn set_successive(&mut self, pos: (i32, i32))
        ensures
            final(self).successive_piece == pos,
            final(self).pieces@ == old(self).pieces@,
            final(self).player_turn == old(self).player_turn,
            final(self).selected_piece == old(self).selected_piece,
    {
        self.successive_piece = pos;
    }

    pub fn unset_successive(&mut self)
        ensures
            final(self).successive_piece == (-1i32, -1i32),
            final(self).pieces@ == old(self).pieces@,
            final(self).player_turn == old(self).player_turn,
            final(self).selected_piece == old(self).selected_piece,
    {
        self.successive_piece = (-1, -1);
    }

    pub fn is_successive(&self) -> (r: bool)
        ensures
            r == (self.successive_piece != (-1i32, -1i32)),
    {
        !(self.successive_piece.0 == -1 && self.successive_piece.1 == -1)
    }

    pub fn get_successive(&self) -> (r: (i32, i32))
        ensures
            r == self.successive_piece,
    {
        self.successive_piece
    }

    pub fn get_turn(&self) -> (r: Player)
        ensures
            r == self.player_turn,
    {
        self.player_turn
    }

    /// Hands the move to the other side and clears the selection.
    pub fn swap_turns(&mut self)
        ensures
            final(self).player_turn == opponent(old(self).player_turn),
            final(self).selected_piece == (-1i32, -1i32),
            final(self).pieces@ == old(self).pieces@,
            final(self).successive_piece == old(self).successive_piece,
    {
        if self.player_turn == Player::BLACK {
            self.player_turn = Player::RED;
        } else {
            self.player_turn = Player::BLACK;
        }
        self.deselect();
    }

    pub fn is_empty(&self, pos: (i32, i32)) -> (r: bool)
        requires
            self.wf(),
        ensures
            r == (self@.at_sq(pos) is None),
    {
        self.at(pos).is_none()
    }

    /// `pos` holds a piece of the side opposing `player`.
    pub fn is_enemy_of(&self, pos: (i32, i32), player: Player) -> (r: bool)
        requires
            self.wf(),
        ensures
            r == self@.is_enemy(pos.0 as int, pos.1 as int, player),
    {
        match self.at(pos) {
            Some(piece) => piece.player != player,
            None => false,
        }
    }

    /// Both squares on the board, the origin occupied and the target empty.
    fn is_well_formed(&self, m: Move) -> (r: bool)
        requires
            self.wf(),
        ensures
            r == self@.well_formed_move(m),
    {
        self.in_bounds(m.from) && self.in_bounds(m.to) && self.at(m.from).is_some() && self.at(
            m.to,
        ).is_none()
    }

    /// `m` is a legal step or capture for a man of `player`.
    pub fn is_move_legal_pawn(&self, m: Move, player: Player) -> (r: bool)
        requires
            self.wf(),
        ensures
            r == self@.legal_for(PieceKind::PAWN, player, m),
    {
        if !self.is_well_formed(m) {
            return false;
        }
        let from = m.from;
        let to = m.to;
        let dir: i32 = match player {
            Player::RED => -1,
            Player::BLACK => 1,
        };
        // one step forward
        if to.0 == from.0 + dir && (to.1 == from.1 - 1 || to.1 == from.1 + 1) {
            return true;
        }
        // a forward jump over an opposing piece
        if to.0 == from.0 + 2 * dir && to.1 == from.1 - 2 && self.is_enemy_of(
            (from.0 + dir, from.1 - 1),
            player,
        ) {
            return true;
        }
        if to.0 == from.0 + 2 * dir && to.1 == from.1 + 2 && self.is_enemy_of(
            (from.0 + dir, from.1 + 1),
            player,
        ) {
            return true;
        }
        false
    }

    /// `m` is a legal step or capture for a king of `player`.
    pub fn is_move_legal_king(&self, m: Move, player: Player) -> (r: bool)
        requires
            self.wf(),
        ensures
            r == self@.legal_for(PieceKind::KING, player, m),
    {
        if !self.is_well_formed(m) {
            return false;
        }
        let from = m.from;
        let to = m.to;
        // one step in any diagonal direction
        if (to.0 == from.0 - 1 || to.0 == from.0 + 1) && (to.1 == from.1 - 1 || to.1 == from.1
            + 1) {
            return true;
        }
        // a jump in any diagonal direction over an opposing piece
        if (to.0 == from.0 - 2 || to.0 == from.0 + 2) && (to.1 == from.1 - 2 || to.1 == from.1
            + 2) {
            let mid = ((from.0 + to.0) / 2, (from.1 + to.1) / 2);
            return self.is_enemy_of(mid, player);
        }
        false
    }

    /// `m` is legal for the piece on its origin.
    pub fn is_move_legal(&self, m: Move) -> (r: bool)
        requires
            self.wf(),
        ensures
            r == self@.is_legal(m),
    {
        match self.at(m.from) {
            Some(piece) => match piece.kind {
                PieceKind::PAWN => self.is_move_legal_pawn(m, piece.player),
                PieceKind::KING => self.is_move_legal_king(m, piece.player),
            },
            None => false,
        }
    }

    /// `m` lands two squares away diagonally on an empty square of the board
    /// and passes over a piece opposing `player`; the direction is not checked.
    pub fn is_kill_move(&self, m: &Move, player: Player) -> (r: bool)
        requires
            self.wf(),
        ensures
            r == self@.kill_shape(*m, player),
    {
        if !self.in_bounds(m.to) {
            return false;
        }
        let dx = m.to.0 as i64 - m.from.0 as i64;
        let dy = m.to.1 as i64 - m.from.1 as i64;
        if (dx == 2 || dx == -2) && (dy == 2 || dy == -2) && self.is_empty(m.to) {
            let mx: i32 = if dx == 2 {
                m.to.0 - 1
            } else {
                m.to.0 + 1
            };
            let my: i32 = if dy == 2 {
                m.to.1 - 1
            } else {
                m.to.1 + 1
            };
            return self.is_enemy_of((mx, my), player);
        }
        false
    }

    /// Whether the piece on `pos` has a capture; `true` for an empty square.
    pub fn is_kill_available(&self, pos: (i32, i32)) -> (r: bool)
        requires
            self.wf(),
        ensures
            r == (self@.at_sq(pos) is None || self@.can_capture(pos)),
    {
        let piece = match self.at(pos) {
            Some(piece) => piece,
            None => {
                return true;
            },
        };
        let cands = candidate_moves(pos);
        let mut k: usize = 4;
        while k < 8
            invariant
                self.wf(),
                self@.at_sq(pos) == Some(piece),
                cands@ == candidates(pos),
                4 <= k <= 8,
                forall|j: int| 4 <= j < k ==> !self@.is_jump(#[trigger] candidates(pos)[j]),
            decreases 8 - k,
        {
            let m = cands[k];
            proof {
                lemma_candidate(self@, pos, k as int);
            }
            if self.is_move_legal(m) && self.is_kill_move(&m, piece.player) {
                return true;
            }
            k += 1;
        }
        false
    }

    /// The legal moves of the piece on `pos`, in generation order. A piece
    /// that can capture may only capture.
    pub fn get_legal_moves(&self, pos: (i32, i32)) -> (r: Vec<Move>)
        requires
            self.wf(),
            self@.at_sq(pos) is Some,
        ensures
            r@ == self@.legal_moves(pos),
    {
        let piece = self.at(pos).unwrap();
        let forced = self.is_kill_available(pos);
        let cands = candidate_moves(pos);
        let ghost keep = if forced {
            |m: Move| self@.is_jump(m)
        } else {
            |m: Move| self@.is_step(m)
        };
        let mut moves: Vec<Move> = Vec::new();
        let mut k: usize = 0;
        while k < 8
            invariant
                self.wf(),
                self@.at_sq(pos) == Some(piece),
                forced == self@.can_capture(pos),
                cands@ == candidates(pos),
                keep == (if forced {
                    |m: Move| self@.is_jump(m)
                } else {
                    |m: Move| self@.is_step(m)
                }),
                k <= 8,
                moves@ == cands@.take(k as int).filter(keep),
            decreases 8 - k,
        {
            let m = cands[k];
            proof {
                lemma_candidate(self@, pos, k as int);
                assert(cands@.take(k as int + 1).drop_last() =~= cands@.take(k as int));
                reveal(Seq::filter);
            }
            if self.is_move_legal(m) && self.is_kill_move(&m, piece.player) == forced {
                moves.push(m);
            }
            k += 1;
        }
        assert(cands@.take(8) =~= cands@);
        moves
    }

    /// The squares holding a piece of `player`, in row-major order.
    pub fn get_pieces(&self, player: Player) -> (r: Vec<(i32, i32)>)
        requires
            self.wf(),
        ensures
            r@ == self@.squares_of(player),
    {
        let mut squares: Vec<(i32, i32)> = Vec::new();
        let mut i: usize = 0;
        while i < 64
            invariant
                self.wf(),
                i <= 64,
                squares@ == self@.squares_upto(i as int, player),
            decreases 64 - i,
        {
            let owned = match self.pieces[i] {
                Some(piece) => piece.player == player,
                None => false,
            };
            if owned {
                squares.push(((i / 8) as i32, (i % 8) as i32));
            }
            i += 1;
        }
        squares
    }

    /// Every legal move of every piece of `player`, square by square in
    /// row-major order.
    pub fn get_all_legal_moves(&self, player: Player) -> (r: Vec<Move>)
        requires
            self.wf(),
        ensures
            r@ == self@.all_moves(player),
    {
        let squares = self.get_pieces(player);
        proof {
            lemma_squares_owned(self@, 64, player);
        }
        let mut moves: Vec<Move> = Vec::new();
        let mut k: usize = 0;
        while k < squares.len()
            invariant
                self.wf(),
                squares@ == self@.squares_of(player),
                forall|j: int|
                    0 <= j < squares@.len() ==> owned_by(self@.at_sq(#[trigger] squares@[j]), player),
                k <= squares@.len(),
                moves@ == self@.moves_from(squares@.take(k as int)),
            decreases squares@.len() - k,
        {
            let mut from_square = self.get_legal_moves(squares[k]);
            proof {
                assert(squares@.take(k as int + 1).drop_last() =~= squares@.take(k as int));
            }
            moves.append(&mut from_square);
            k += 1;
        }
        assert(squares@.take(squares@.len() as int) =~= squares@);
        moves
    }

    /// One side has no piece left.
    pub fn is_game_over(&self) -> (r: bool)
        requires
            self.wf(),
        ensures
            r == self@.game_over(),
    {
        let mut reds: usize = 0;
        let mut blacks: usize = 0;
        let mut i: usize = 0;
        while i < 64
            invariant
                self.wf(),
                i <= 64,
                reds == count_owned(self.pieces@.take(i as int), Player::RED),
                blacks == count_owned(self.pieces@.take(i as int), Player::BLACK),
                reds + blacks <= i,
            decreases 64 - i,
        {
            proof {
                assert(self.pieces@.take(i as int + 1).drop_last() =~= self.pieces@.take(i as int));
            }
            match self.pieces[i] {
                Some(piece) => match piece.player {
                    Player::RED => reds += 1,
                    Player::BLACK => blacks += 1,
                },
                None => {},
            }
            i += 1;
        }
        assert(self.pieces@.take(64) =~= self.pieces@);
        reds == 0 || blacks == 0
    }

    /// Plays `m`, which must be in the move list of its piece (so a piece
    /// that can capture must capture) and, while a capture chain is pending,
    /// must move the capturing piece. Relocates the piece, removes the piece jumped over, and
    /// crowns a man that reaches its promotion row. After a jump from whose
    /// landing square the piece (as it landed) can capture again, that square
    /// becomes the pending continuation and the turn stays; otherwise the
    /// continuation is cleared and the turn passes.
    pub fn move_piece(&mut self, m: Move)
        requires
            old(self).wf(),
            old(self)@.legal_moves(m.from).contains(m),
            old(self).successive_piece != (-1i32, -1i32) ==> m.from == old(self).successive_piece,
        ensures
            final(self).wf(),
            final(self)@ == old(self)@.apply(m),
            old(self)@.continues(m) ==> final(self).player_turn == old(self).player_turn
                && final(self).successive_piece == m.to && final(self).selected_piece == old(
                self,
            ).selected_piece,
            !old(self)@.continues(m) ==> final(self).player_turn == opponent(old(self).player_turn)
                && final(self).successive_piece == (-1i32, -1i32) && final(self).selected_piece == (
            -1i32, -1i32),
    {
        let ghost s0 = self@;
        proof {
            lemma_permitted_is_legal(s0, m);
        }
        let from = m.from.0 as usize * 8 + m.from.1 as usize;
        let to = m.to.0 as usize * 8 + m.to.1 as usize;
        let moving = self.pieces[from];
        self.pieces.set(to, moving);
        self.pieces.set(from, None);
        // a jump removes the piece passed over
        let dr = m.to.0 - m.from.0;
        if dr == 2 || dr == -2 {
            let mid_row = (m.from.0 + m.to.0) / 2;
            let mid_col = (m.from.1 + m.to.1) / 2;
            self.pieces.set(mid_row as usize * 8 + mid_col as usize, None);
            assert(self.pieces@ == s0.relocated(m));
            if self.is_kill_available(m.to) {
                self.set_successive(m.to);
            } else {
                self.unset_successive();
                self.swap_turns();
            }
        } else {
            assert(self.pieces@ == s0.relocated(m));
            self.unset_successive();
            self.swap_turns();
        }
        let piece = moving.unwrap();
        let crowned = match (piece.kind, piece.player) {
            (PieceKind::PAWN, Player::RED) => m.to.0 == 0,
            (PieceKind::PAWN, Player::BLACK) => m.to.0 == 7,
            _ => false,
        };
        if crowned {
            self.make_king(m.to);
        }
    }

    /// Crowns the man on `pos`.
    pub fn make_king(&mut self, pos: (i32, i32))
        requires
            old(self).wf(),
            old(self)@.at_sq(pos) is Some,
        ensures
            final(self).pieces@ == old(self).pieces@.update(
                index_of(pos),
                Some(Piece { kind: PieceKind::KING, player: old(self)@.at_sq(pos)->Some_0.player }),
            ),
            final(self).player_turn == old(self).player_turn,
            final(self).selected_piece == old(self).selected_piece,
            final(self).successive_piece == old(self).successive_piece,
    {
        let i = pos.0 as usize * 8 + pos.1 as usize;
        let pawn = self.pieces[i].unwrap();
        self.pieces.set(i, Some(Piece::new(PieceKind::KING, pawn.player)));
    }
}

} // verus!
