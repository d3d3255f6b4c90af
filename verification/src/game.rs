//! A chess game: the current position and the moves that led to it.

use vstd::prelude::*;

use crate::board::Board;
use crate::castling_rights::CastlingRights;
use crate::make_unmake::{spec_make, spec_move_applicable, spec_unmake, ChessUnmove};
use crate::move_generation::pushes_ok;
use crate::move_laws::{lemma_make_rights_fit, lemma_make_unmake};
use crate::movegen::{spec_pseudo_legal, ChessMove};
use crate::bitboard::bit;
use crate::pieces::{Color, Piece};
use crate::fen::{
    cell_of, fen_board_ok, fen_cell, fen_en_passant, fen_turn, parse_board, parse_en_passant, parse_turn,
    parse_u32, span_words, spec_parse_u32, split_words, words_from,
};
use crate::castling_rights::spec_castling_from_fen;
use crate::lan::LanMove;
use crate::position::{ParseFenError, Position};
use crate::square::Square;
use crate::square::File;

verus! {

/// A record of one ply of a game: the hash of the position before it and the
/// data that rolls it back.
#[derive(Debug, Clone, Copy)]
pub struct PlyHistory {
    /// The hash of the position before the ply.
    pub hash: u64,
    /// The data that rolls the ply back.
    pub unmove: ChessUnmove,
}

/// Possible ending for a chess game.
#[derive(Debug, Clone, Copy, PartialEq, Eq, Structural)]
pub enum GameEnding {
    /// Position ends in a draw.
    Stalemate,
    /// One of the players wins by checkmate.
    Checkmate,
}

/// A chess game.
#[derive(Clone)]
pub struct Game {
    position: Position,
    history: Vec<PlyHistory>,
    past: Ghost<Seq<Position>>,
}

/// The hash a position reports: its stored hash, with zero replaced by the
/// largest value.
pub open spec fn zobrist_of(p: Position) -> u64 {
    if p.shash() == 0 {
        u64::MAX
    } else {
        p.shash()
    }
}

/// A consistent position whose rights fit its board.
#[verifier::opaque]
pub open spec fn consistent(p: Position) -> bool {
    p.wf() && p.rights_fit()
}

/// Whether a move is legal: pseudo-legal, applicable, and not leaving the
/// mover's king in check (with room left in the move counter).
pub open spec fn spec_legal(p: Position, m: ChessMove) -> bool {
    &&& spec_pseudo_legal(p, m)
    &&& spec_move_applicable(p, m)
    &&& p.smove_index() < u32::MAX
    &&& !spec_make(p, m).0.sboard().spec_in_check(p.sturn())
}

/// The number of plies of the history that were played from a position with
/// the hash.
pub open spec fn count_hash(h: Seq<PlyHistory>, hash: u64) -> nat
    decreases h.len(),
{
    if h.len() == 0 {
        0
    } else {
        count_hash(h.drop_last(), hash) + if h.last().hash == hash { 1nat } else { 0 }
    }
}

impl Game {
    /// The current position.
    pub closed spec fn spos(self) -> Position {
        self.position
    }

    /// The plies played so far.
    pub closed spec fn shistory(self) -> Seq<PlyHistory> {
        self.history@
    }

    /// The positions the plies were played from.
    pub closed spec fn spast(self) -> Seq<Position> {
        self.past@
    }

    /// The position the game started from.
    pub open spec fn start(self) -> Position {
        if self.spast().len() > 0 {
            self.spast()[0]
        } else {
            self.spos()
        }
    }

    /// The position after ply `i`.
    pub open spec fn after(self, i: int) -> Position {
        if i + 1 < self.spast().len() {
            self.spast()[i + 1]
        } else {
            self.spos()
        }
    }

    /// A consistent game: the position is consistent, and every ply of the
    /// history is a move made from the position before it that leads to the
    /// next one.
    pub open spec fn wf(self) -> bool {
        &&& consistent(self.spos())
        &&& self.spast().len() == self.shistory().len()
        &&& forall|i: int| 0 <= i < self.spast().len() ==> #[trigger] self.ply_ok(i)
    }

    /// Ply `i` was made from a consistent position and leads to the next one.
    #[verifier::opaque]
    pub open spec fn ply_ok(self, i: int) -> bool {
        let p = self.spast()[i];
        let u = self.shistory()[i].unmove;
        &&& consistent(p)
        &&& spec_pseudo_legal(p, u.chess_move)
        &&& spec_move_applicable(p, u.chess_move)
        &&& p.smove_index() < u32::MAX
        &&& spec_make(p, u.chess_move) == (self.after(i), u)
        &&& self.shistory()[i].hash == zobrist_of(p)
    }

    /// Starts a game from a consistent position.
    pub fn from_position(position: Position) -> (r: Self)
        requires
            position.wf(),
            position.rights_fit(),
        ensures
            r.wf(),
            r.spos() == position,
            r.shistory() == Seq::<PlyHistory>::empty(),
    {
        proof {
            reveal(consistent);
        }
        Game { position, history: Vec::new(), past: Ghost(Seq::empty()) }
    }

    /// Returns a hash for the current position.
    pub fn zobrist(&self) -> (r: u64)
        ensures
            r == zobrist_of(self.spos()),
            r != 0,
    {
        self.position.zobrist()
    }

    /// Returns the possible en passant target file if available or `None`.
    pub fn en_passant(&self) -> (r: Option<File>)
        ensures
            r == self.spos().sen_passant(),
    {
        self.position.en_passant()
    }

    /// Returns the state of castling rights.
    pub fn castling_rights(&self) -> (r: CastlingRights)
        ensures
            r == self.spos().scastling(),
    {
        self.position.castling_rights()
    }

    /// Returns a reference to the position's board.
    pub fn board(&self) -> (r: &Board)
        ensures
            *r == self.spos().sboard(),
    {
        self.position.board()
    }

    /// Returns the color of the player who is about to make a turn.
    pub fn turn(&self) -> (r: Color)
        ensures
            r == self.spos().sturn(),
    {
        self.position.turn()
    }

    /// Returns the current state of halfmove clock.
    pub fn halfmove_clock(&self) -> (r: u32)
        requires
            self.wf(),
        ensures
            r == self.spos().smove_index() - self.spos().srule_50(),
    {
        proof {
            reveal(consistent);
        }
        self.position.halfmove_clock()
    }

    /// Returns the current move index.
    pub fn move_index(&self) -> (r: u32)
        ensures
            r == self.spos().smove_index(),
    {
        self.position.ply_index()
    }

    /// Returns the number of plies played so far.
    pub fn ply_index(&self) -> (r: u32)
        ensures
            r == self.spos().smove_index(),
    {
        self.position.ply_index()
    }

    /// Returns the move index when the 50 move rule counter was last reset.
    pub fn move_index_rule_50(&self) -> (r: u32)
        ensures
            r == self.spos().srule_50(),
    {
        self.position.move_index_rule_50()
    }

    /// Returns whether the king of the playing player is currently in check.
    pub fn is_check(&self) -> (r: bool)
        requires
            self.wf(),
        ensures
            r == self.spos().sboard().spec_in_check(self.spos().sturn()),
    {
        proof {
            reveal(consistent);
        }
        proof {
            crate::position::lemma_one_king_mask(self.spos().sboard(), self.spos().sturn());
        }
        self.board().is_king_in_check(self.turn())
    }

    /// Returns whether the king of the opponent player is currently in check.
    pub fn was_check_ignored(&self) -> (r: bool)
        requires
            self.wf(),
        ensures
            r == self.spos().sboard().spec_in_check(self.spos().sturn().opp()),
    {
        proof {
            reveal(consistent);
        }
        proof {
            crate::position::lemma_one_king_mask(self.spos().sboard(), self.spos().sturn().opp());
        }
        self.board().is_king_in_check(self.turn().not())
    }

    /// Returns the number of times this position was played before in the game
    /// (as told by its hash).
    pub fn count_repetitions(&self) -> (r: usize)
        ensures
            r == count_hash(self.shistory(), zobrist_of(self.spos())),
    {
        let hash = self.zobrist();
        let mut count: usize = 0;
        let mut i: usize = 0;
        while i < self.history.len()
            invariant
                i <= self.history@.len(),
                count == count_hash(self.history@.take(i as int), hash),
                count <= i,
            decreases self.history.len() - i,
        {
            proof {
                assert(self.history@.take(i + 1).drop_last() =~= self.history@.take(i as int));
            }
            if self.history[i].hash == hash {
                count = count + 1;
            }
            i = i + 1;
        }
        proof {
            assert(self.history@.take(i as int) =~= self.history@);
        }
        count
    }

    /// Returns `true` if this is the starting position for the game.
    pub fn is_history_empty(&self) -> (r: bool)
        ensures
            r == (self.shistory().len() == 0),
    {
        self.history.len() == 0
    }

    /// Returns `true` if the positions are the same (history is ignored).
    pub fn is_same_position(&self, other: &Self) -> (r: bool)
        ensures
            r == (self.spos() == other.spos()),
    {
        self.position == other.position
    }

    /// Returns whether a given chess move is at least pseudo-legal in this position.
    pub fn is_move_pseudo_legal(&self, chess_move: ChessMove) -> (r: bool)
        requires
            self.wf(),
        ensures
            r == spec_pseudo_legal(self.spos(), chess_move),
    {
        proof {
            reveal(consistent);
        }
        self.position.is_move_pseudo_legal(chess_move)
    }

    /// Generates pseudo-legal moves for this position.
    pub fn push_moves(&self, moves: &mut Vec<ChessMove>)
        requires
            self.wf(),
        ensures
            pushes_ok(self.spos(), old(moves)@, final(moves)@),
            forall|m: ChessMove| #[trigger] self.spos().spec_generated(m) ==> final(moves)@.contains(m),
            crate::move_generation::distinct_new(old(moves)@, final(moves)@),
            self.spos().spec_double_check() ==> forall|k: int|
                old(moves)@.len() <= k < final(moves)@.len() ==> self.spos().sboard().spec_piece_at(
                    (#[trigger] final(moves)@[k]).from,
                ) == Some(Piece::King),
    {
        proof {
            reveal(consistent);
        }
        self.position.push_moves(moves);
    }

    /// Makes a [`ChessMove`] if it's legal, and returns whether it was made.
    ///
    /// A move that is not pseudo-legal, or that would capture a king, leave the
    /// mover's king in check or overflow the move counter, is refused and
    /// leaves the game as it was.
    pub fn try_make_move(&mut self, chess_move: ChessMove) -> (r: bool)
        requires
            old(self).wf(),
        ensures
            final(self).wf(),
            r == spec_legal(old(self).spos(), chess_move),
            r ==> final(self).spos() == spec_make(old(self).spos(), chess_move).0
                && final(self).shistory() == old(self).shistory().push(
                PlyHistory { hash: zobrist_of(old(self).spos()), unmove: spec_make(old(self).spos(), chess_move).1 },
            ) && final(self).spast() == old(self).spast().push(old(self).spos()),
            !r ==> final(self).spos() == old(self).spos() && final(self).shistory() == old(self).shistory()
                && final(self).spast() == old(self).spast(),
    {
        proof {
            reveal(consistent);
        }
        if !self.position.is_move_pseudo_legal(chess_move) || !self.position.is_move_applicable(chess_move) {
            return false;
        }
        if self.position.move_index() == u32::MAX {
            return false;
        }
        self.make_move_unchecked(chess_move)
    }

    /// Makes a pseudo-legal, applicable [`ChessMove`] unless it leaves the
    /// mover's king in check, and returns whether it was made.
    fn make_move_unchecked(&mut self, chess_move: ChessMove) -> (r: bool)
        requires
            old(self).wf(),
            spec_pseudo_legal(old(self).spos(), chess_move),
            spec_move_applicable(old(self).spos(), chess_move),
            old(self).spos().smove_index() < u32::MAX,
        ensures
            final(self).wf(),
            r == !spec_make(old(self).spos(), chess_move).0.sboard().spec_in_check(old(self).spos().sturn()),
            r ==> final(self).spos() == spec_make(old(self).spos(), chess_move).0
                && final(self).shistory() == old(self).shistory().push(
                PlyHistory { hash: zobrist_of(old(self).spos()), unmove: spec_make(old(self).spos(), chess_move).1 },
            ) && final(self).spast() == old(self).spast().push(old(self).spos()),
            !r ==> final(self).spos() == old(self).spos() && final(self).shistory() == old(self).shistory()
                && final(self).spast() == old(self).spast(),
    {
        let ghost p = self.position;
        let ghost g0 = *self;
        proof {
            assert(p.wf() && p.rights_fit()) by {
                reveal(consistent);
            }
            lemma_make_facts(p, chess_move);
        }
        let hash = self.zobrist();
        let unmove = self.position.make_move(chess_move);
        proof {
            let q = self.position;
            assert(q.sboard().wf() && crate::position::one_king(q.sboard(), q.sturn().opp())) by {
                reveal(consistent);
            }
            crate::position::lemma_one_king_mask(q.sboard(), q.sturn().opp());
        }
        if self.position.board().is_king_in_check(self.position.turn().not()) {
            self.position.unmake_move(unmove);
            return false;
        }
        self.history.push(PlyHistory { hash, unmove });
        proof {
            self.past = Ghost(self.past@.push(p));
            lemma_wf_push(g0, *self, chess_move);
        }
        true
    }

    /// Unrolls the last made move unless there are no previous positions for
    /// this game, and returns whether a move was unrolled.
    pub fn try_unmake_move(&mut self) -> (r: bool)
        requires
            old(self).wf(),
        ensures
            final(self).wf(),
            r == (old(self).shistory().len() > 0),
            r ==> final(self).spos() == old(self).spast().last() && final(self).shistory()
                == old(self).shistory().drop_last() && final(self).spast() == old(self).spast().drop_last(),
            !r ==> *final(self) == *old(self),
    {
        if self.history.len() == 0 {
            return false;
        }
        let ghost old_game = *self;
        proof {
            lemma_last_ply(old_game);
        }
        let ply = self.history.pop().unwrap();
        self.position.unmake_move(ply.unmove);
        proof {
            self.past = Ghost(self.past@.drop_last());
            lemma_wf_pop(old_game, *self);
        }
        true
    }

    /// Makes a legal [`ChessMove`].
    pub fn make_move(&mut self, chess_move: ChessMove)
        requires
            old(self).wf(),
            spec_legal(old(self).spos(), chess_move),
        ensures
            final(self).wf(),
            final(self).spos() == spec_make(old(self).spos(), chess_move).0,
            final(self).shistory() == old(self).shistory().push(
                PlyHistory { hash: zobrist_of(old(self).spos()), unmove: spec_make(old(self).spos(), chess_move).1 },
            ),
            final(self).spast() == old(self).spast().push(old(self).spos()),
    {
        let is_legal = self.try_make_move(chess_move);
    }

    /// Unrolls the last made move of a game with a nonempty history.
    pub fn unmake_move(&mut self)
        requires
            old(self).wf(),
            old(self).shistory().len() > 0,
        ensures
            final(self).wf(),
            final(self).spos() == old(self).spast().last(),
            final(self).shistory() == old(self).shistory().drop_last(),
            final(self).spast() == old(self).spast().drop_last(),
    {
        let is_legal = self.try_unmake_move();
    }
}

/// What making a pseudo-legal, applicable move gives: a consistent position
/// that the returned data rolls back.
proof fn lemma_make_facts(p: Position, m: ChessMove)
    requires
        p.wf(),
        p.rights_fit(),
        spec_pseudo_legal(p, m),
        spec_move_applicable(p, m),
        p.smove_index() < u32::MAX,
    ensures
        consistent(spec_make(p, m).0),
        spec_make(p, m).1.chess_move == m,
        spec_make(p, m).0.sturn() == p.sturn().opp(),
        crate::make_unmake::spec_unmake_ok(spec_make(p, m).0, spec_make(p, m).1),
        spec_unmake(spec_make(p, m).0, spec_make(p, m).1) == p,
{
    lemma_make_unmake(p, m);
    lemma_make_rights_fit(p, m);
    crate::make_unmake::lemma_make_shape(p, m);
    reveal(consistent);
}

/// A game with one more ply made from its position is consistent.
proof fn lemma_wf_push(g: Game, g2: Game, m: ChessMove)
    requires
        g.wf(),
        spec_pseudo_legal(g.spos(), m),
        spec_move_applicable(g.spos(), m),
        g.spos().smove_index() < u32::MAX,
        consistent(spec_make(g.spos(), m).0),
        spec_make(g.spos(), m).1.chess_move == m,
        g2.spos() == spec_make(g.spos(), m).0,
        g2.shistory() == g.shistory().push(PlyHistory { hash: zobrist_of(g.spos()), unmove: spec_make(g.spos(), m).1 }),
        g2.spast() == g.spast().push(g.spos()),
    ensures
        g2.wf(),
{
    reveal(Game::ply_ok);
    let n = g.spast().len();
    let mk = spec_make(g.spos(), m);
    assert(g2.ply_ok(n as int)) by {
        assert(g2.spast()[n as int] == g.spos());
        assert(g2.shistory()[n as int].unmove == mk.1);
        assert(g2.after(n as int) == mk.0);
        assert(mk == (mk.0, mk.1));
    }
    assert forall|i: int| 0 <= i < g2.spast().len() implies #[trigger] g2.ply_ok(i) by {
        if i < n {
            assert(g.ply_ok(i));
            assert(g2.shistory()[i] == g.shistory()[i]);
            assert(g2.spast()[i] == g.spast()[i]);
            assert(g2.after(i) == g.after(i));
        }
    }
}

/// The last ply of a game with a nonempty history can be rolled back into the
/// position it was made from.
proof fn lemma_last_ply(g: Game)
    requires
        g.wf(),
        g.shistory().len() > 0,
    ensures
        crate::make_unmake::spec_unmake_ok(g.spos(), g.shistory().last().unmove),
        spec_unmake(g.spos(), g.shistory().last().unmove) == g.spast().last(),
        g.spast().last().wf(),
        g.spast().last().rights_fit(),
{
    reveal(Game::ply_ok);
    let n = g.shistory().len() - 1;
    assert(g.ply_ok(n));
    reveal(consistent);
    lemma_make_unmake(g.spast()[n], g.shistory()[n].unmove.chess_move);
}

/// A game with its last ply rolled back is consistent.
proof fn lemma_wf_pop(g: Game, g2: Game)
    requires
        g.wf(),
        g.shistory().len() > 0,
        g2.spos() == g.spast().last(),
        g2.shistory() == g.shistory().drop_last(),
        g2.spast() == g.spast().drop_last(),
    ensures
        g2.wf(),
{
    reveal(Game::ply_ok);
    let n = g.shistory().len() - 1;
    assert(g.ply_ok(n));
    assert(consistent(g.spast().last())) by {
        assert(g.spast().last() == g.spast()[n]);
    }
    reveal(consistent);
    assert forall|i: int| 0 <= i < g2.spast().len() implies #[trigger] g2.ply_ok(i) by {
        assert(g.ply_ok(i));
        assert(g2.shistory()[i] == g.shistory()[i]);
        assert(g2.spast()[i] == g.spast()[i]);
        assert(g2.after(i) == g.after(i));
    }
}

/// The board holds the cells of a well formed board field.
pub open spec fn board_matches(b: Board, w: Seq<char>) -> bool {
    forall|sq: Square| #[trigger] cell_of(b, sq) == fen_cell(w, sq.idx())
}

/// The move index a FEN string gives: two plies per full move before the
/// current one, plus one when black is to move.
pub open spec fn fen_move_index(s: Seq<char>) -> int {
    let w = words_from(s, 0);
    (spec_parse_u32(w[5]).unwrap() - 1) * 2 + if fen_turn(w[1]) == Some(Color::Black) { 1int } else { 0 }
}

/// A FEN string is accepted: six fields that are each well formed, a full
/// move number of at least one, a halfmove clock within the plies played,
/// and a valid position.
pub open spec fn spec_fen_ok(s: Seq<char>) -> bool {
    let w = words_from(s, 0);
    &&& w.len() == 6
    &&& fen_board_ok(w[0])
    &&& fen_turn(w[1]) is Some
    &&& spec_castling_from_fen(w[2]) is Some
    &&& fen_en_passant(w[3]) is Some
    &&& spec_parse_u32(w[4]) is Some
    &&& spec_parse_u32(w[5]) is Some
    &&& spec_parse_u32(w[5]).unwrap() != 0
    &&& fen_move_index(s) <= u32::MAX
    &&& spec_parse_u32(w[4]).unwrap() <= fen_move_index(s)
    &&& forall|b: Board| b.wf() && board_matches(b, w[0]) ==> #[trigger] Position::spec_parts_valid(
        b,
        fen_turn(w[1]).unwrap(),
        CastlingRights(spec_castling_from_fen(w[2]).unwrap()),
        fen_en_passant(w[3]).unwrap(),
    )
}

/// The position a valid FEN string describes: its board, side to move,
/// castling rights, en passant file and move counters.
pub open spec fn spec_fen_position(p: Position, fen: Seq<char>) -> bool {
    let w = words_from(fen, 0);
    &&& board_matches(p.sboard(), w[0])
    &&& p.sturn() == fen_turn(w[1]).unwrap()
    &&& p.scastling().0 == spec_castling_from_fen(w[2]).unwrap()
    &&& p.sen_passant() == fen_en_passant(w[3]).unwrap()
    &&& p.smove_index() == fen_move_index(fen)
    &&& p.srule_50() == fen_move_index(fen) - spec_parse_u32(w[4]).unwrap()
}

/// The standard starting position of a chess game.
pub open spec fn spec_initial_position(p: Position) -> bool {
    &&& p.sboard().is_initial()
    &&& p.sturn() == Color::White
    &&& p.scastling().0 == 15
    &&& p.sen_passant() is None
    &&& p.smove_index() == 0
    &&& p.srule_50() == 0
}

/// Two consistent boards with the same cells are the same board.
proof fn lemma_same_cells(b1: Board, b2: Board)
    requires
        b1.wf(),
        b2.wf(),
        forall|sq: Square| #[trigger] cell_of(b1, sq) == cell_of(b2, sq),
    ensures
        b1 == b2,
{
    assert forall|sq: Square| b1.spec_color_at(sq) == b2.spec_color_at(sq) && b1.spec_piece_at(sq) == b2.spec_piece_at(sq) by {
        b1.lemma_color_iff_piece(sq);
        b2.lemma_color_iff_piece(sq);
        assert(cell_of(b1, sq) == cell_of(b2, sq));
    }
    crate::position::lemma_board_contents_equal(b1, b2);
}

impl Game {
    /// Tries to parse a new game from [FEN].
    ///
    /// [fen]: https://www.chessprogramming.org/Forsyth-Edwards_Notation
    pub fn try_from_fen(fen: &str) -> (r: Result<Self, ParseFenError>)
        ensures
            r is Ok <==> spec_fen_ok(fen@),
            r matches Ok(g) ==> g.wf() && g.shistory().len() == 0 && spec_fen_position(g.spos(), fen@),
    {
        let ghost s = fen@;
        let ghost w = words_from(s, 0);
        let spans = split_words(fen);
        if spans.len() != 6 {
            return Err(ParseFenError);
        }
        proof {
            assert forall|k: int| 0 <= k < 6 implies w[k] == #[trigger] s.subrange(spans@[k].0 as int, spans@[k].1 as int) by {
                assert(span_words(s, spans@)[k] == s.subrange(spans@[k].0 as int, spans@[k].1 as int));
            }
        }
        let (a0, e0) = spans[0];
        let (a1, e1) = spans[1];
        let (a2, e2) = spans[2];
        let (a3, e3) = spans[3];
        let (a4, e4) = spans[4];
        let (a5, e5) = spans[5];
        proof {
            assert(w[0] == s.subrange(spans@[0].0 as int, spans@[0].1 as int));
            assert(w[1] == s.subrange(spans@[1].0 as int, spans@[1].1 as int));
            assert(w[2] == s.subrange(spans@[2].0 as int, spans@[2].1 as int));
            assert(w[3] == s.subrange(spans@[3].0 as int, spans@[3].1 as int));
            assert(w[4] == s.subrange(spans@[4].0 as int, spans@[4].1 as int));
            assert(w[5] == s.subrange(spans@[5].0 as int, spans@[5].1 as int));
            assert(spans@[0].0 <= spans@[0].1 <= s.len());
            assert(spans@[1].0 <= spans@[1].1 <= s.len());
            assert(spans@[2].0 <= spans@[2].1 <= s.len());
            assert(spans@[3].0 <= spans@[3].1 <= s.len());
            assert(spans@[4].0 <= spans@[4].1 <= s.len());
            assert(spans@[5].0 <= spans@[5].1 <= s.len());
        }
        let board = match parse_board(fen, a0, e0) {
            Some(b) => b,
            None => return Err(ParseFenError),
        };
        let turn = match parse_turn(fen, a1, e1) {
            Some(t) => t,
            None => return Err(ParseFenError),
        };
        let castling = match CastlingRights::from_fen_segment(fen.substring_char(a2, e2)) {
            Some(c) => c,
            None => return Err(ParseFenError),
        };
        let en_passant = match parse_en_passant(fen, a3, e3) {
            Some(ep) => ep,
            None => return Err(ParseFenError),
        };
        let hm = match parse_u32(fen, a4, e4) {
            Some(v) => v,
            None => return Err(ParseFenError),
        };
        let fm = match parse_u32(fen, a5, e5) {
            Some(v) => v,
            None => return Err(ParseFenError),
        };
        if fm == 0 {
            return Err(ParseFenError);
        }
        let black: u64 = match turn {
            Color::White => 0,
            Color::Black => 1,
        };
        let mi64: u64 = (fm as u64 - 1) * 2 + black;
        if mi64 > u32::MAX as u64 {
            return Err(ParseFenError);
        }
        let move_index = mi64 as u32;
        if hm > move_index {
            return Err(ParseFenError);
        }
        let mut position = match Position::from_parts(board, turn, castling, en_passant) {
            Some(p) => p,
            None => {
                proof {
                    assert(board_matches(board, w[0]));
                    assert(castling == CastlingRights(spec_castling_from_fen(w[2]).unwrap()));
                    assert(!Position::spec_parts_valid(
                        board,
                        fen_turn(w[1]).unwrap(),
                        CastlingRights(spec_castling_from_fen(w[2]).unwrap()),
                        fen_en_passant(w[3]).unwrap(),
                    ));
                }
                return Err(ParseFenError);
            },
        };
        proof {
            assert forall|b: Board| b.wf() && board_matches(b, w[0]) implies #[trigger] Position::spec_parts_valid(
                b,
                fen_turn(w[1]).unwrap(),
                CastlingRights(spec_castling_from_fen(w[2]).unwrap()),
                fen_en_passant(w[3]).unwrap(),
            ) by {
                assert forall|sq: Square| #[trigger] cell_of(b, sq) == cell_of(board, sq) by {
                    assert(cell_of(b, sq) == fen_cell(w[0], sq.idx()));
                    assert(cell_of(board, sq) == fen_cell(w[0], sq.idx()));
                }
                lemma_same_cells(b, board);
            }
        }
        position.set_move_counters(move_index, move_index - hm);
        proof {
            broadcast use Position::lemma_mk;
            assert(position.hash_ok());
        }
        Ok(Game::from_position(position))
    }
}

impl Game {
    /// Returns an equivalent `ChessMove` for a `LanMove` in this position.
    pub fn lan_move(&self, lan_move: LanMove) -> (r: Option<ChessMove>)
        requires
            self.wf(),
        ensures
            r matches Some(m) ==> m.spec_lan() == lan_move && spec_pseudo_legal(self.spos(), m),
            self.spos().sboard().spec_piece_at(lan_move.from) is None ==> r is None,
            (exists|m: ChessMove| #[trigger] self.spos().spec_generated(m) && m.spec_lan() == lan_move) ==> r is Some,
    {
        proof {
            reveal(consistent);
        }
        self.position.lan_move(lan_move)
    }

    /// Returns the legal moves of this position among the generated ones, in
    /// the order of generation; the game is left as it was.
    pub fn legal_moves(&mut self) -> (r: Vec<ChessMove>)
        requires
            old(self).wf(),
        ensures
            final(self).wf(),
            final(self).spos() == old(self).spos(),
            final(self).shistory() == old(self).shistory(),
            final(self).spast() == old(self).spast(),
            forall|k: int| 0 <= k < r@.len() ==> spec_legal(old(self).spos(), #[trigger] r@[k]),
            forall|m: ChessMove| #[trigger] old(self).spos().spec_generated(m) && spec_legal(old(self).spos(), m)
                ==> r@.contains(m),
            r@.no_duplicates(),
    {
        let mut moves: Vec<ChessMove> = Vec::new();
        self.push_moves(&mut moves);
        let mut legal: Vec<ChessMove> = Vec::new();
        let ghost p = self.spos();
        let ghost h = self.shistory();
        let ghost past = self.spast();
        let mut i: usize = 0;
        let ghost mut idx: Seq<int> = Seq::empty();
        while i < moves.len()
            invariant
                self.wf(),
                self.spos() == p,
                self.shistory() == h,
                self.spast() == past,
                i <= moves@.len(),
                forall|k: int| 0 <= k < legal@.len() ==> spec_legal(p, #[trigger] legal@[k]),
                forall|k: int| 0 <= k < i && spec_legal(p, #[trigger] moves@[k]) ==> legal@.contains(moves@[k]),
                crate::move_generation::distinct_new(Seq::<ChessMove>::empty(), moves@),
                legal@.no_duplicates(),
                idx.len() == legal@.len(),
                forall|a: int| 0 <= a < legal@.len() ==> 0 <= #[trigger] idx[a] < i && legal@[a] == moves@[idx[a]],
            decreases moves.len() - i,
        {
            let m = moves[i];
            let ghost before = legal@;
            if self.try_make_move(m) {
                proof {
                    assert forall|a: int| 0 <= a < legal@.len() implies legal@[a] != m by {
                        assert(legal@[a] == moves@[idx[a]]);
                        assert(idx[a] < i);
                    }
                    idx = idx.push(i as int);
                }
                legal.push(m);
                let undone = self.try_unmake_move();
                proof {
                    assert(self.shistory() =~= h);
                    assert(self.spast() =~= past);
                }
            }
            proof {
                assert forall|k: int| 0 <= k < i + 1 && spec_legal(p, #[trigger] moves@[k]) implies legal@.contains(
                    moves@[k],
                ) by {
                    if k < i {
                        let j = choose|j: int| 0 <= j < before.len() && before[j] == moves@[k];
                        assert(legal@[j] == moves@[k]);
                    } else {
                        assert(legal@[legal@.len() - 1] == m);
                    }
                }
            }
            i = i + 1;
        }
        proof {
            assert forall|m: ChessMove| #[trigger] p.spec_generated(m) && spec_legal(p, m) implies legal@.contains(m) by {
                let k = choose|k: int| 0 <= k < moves@.len() && moves@[k] == m;
                assert(spec_legal(p, moves@[k]));
            }
        }
        legal
    }

    /// Returns a legal move of this position (the last one generated), or how
    /// the game ends when none of the generated moves is legal: checkmate when
    /// the king is in check, stalemate otherwise.
    pub fn check_ending(&mut self) -> (r: Result<ChessMove, GameEnding>)
        requires
            old(self).wf(),
        ensures
            final(self).wf(),
            final(self).spos() == old(self).spos(),
            final(self).shistory() == old(self).shistory(),
            final(self).spast() == old(self).spast(),
            r matches Ok(m) ==> spec_legal(old(self).spos(), m),
            r is Err ==> forall|m: ChessMove| #[trigger] old(self).spos().spec_generated(m) ==> !spec_legal(
                old(self).spos(),
                m,
            ),
            r matches Err(e) ==> e == (if old(self).spos().sboard().spec_in_check(old(self).spos().sturn()) {
                GameEnding::Checkmate
            } else {
                GameEnding::Stalemate
            }),
    {
        let legal = self.legal_moves();
        if legal.len() > 0 {
            Ok(legal[legal.len() - 1])
        } else if self.is_check() {
            Err(GameEnding::Checkmate)
        } else {
            Err(GameEnding::Stalemate)
        }
    }
}

/// A word with only the bit `k` set has exactly one square.
proof fn lemma_single_bit(x: u64, k: u64)
    requires
        k < 64,
        x == 1u64 << k,
    ensures
        crate::position::single(x),
        crate::bitboard::squares_of(x)[0].idx() == k,
{
    let t = vstd::std_specs::bits::u64_trailing_zeros(x) as u64;
    assert((k < 64 ==> (1u64 << k) != 0 && (1u64 << k) & (((1u64 << k) - 1) as u64) == 0) && (k < 64 && t < 64
        && (((1u64 << k) >> t) & 1u64 == 1u64) ==> t == k)) by (bit_vector);
    assert(crate::bitboard::squares_of(0) == Seq::<Square>::empty());
    crate::bitboard::lemma_lsb(x);
    Square::lemma_from_repr_in_range(k as int);
}

/// The squares of a step from the eighth rank lie on the sixth rank or above.
proof fn lemma_step_high(dr: int, df: int, j: int)
    requires
        0 <= j < 64,
        -2 <= dr <= 2,
        bit(crate::attacks::step(Square::E8, dr, df), j),
    ensures
        j >= 40,
{
    crate::attacks::lemma_step_bits(Square::E8, dr, df, j);
}

/// The squares of a ray from the king's square of the eighth rank on the
/// starting board lie on the seventh rank or above.
proof fn lemma_ray_high(dr: int, df: int, j: int)
    requires
        0 <= j < 64,
        -1 <= dr <= 1,
        -1 <= df <= 1,
        !(dr == 0 && df == 0),
        bit(crate::attacks::ray_from(0xffff00000000ffffu64, Square::E8, dr, df), j),
    ensures
        j >= 48,
{
    let occ = 0xffff00000000ffffu64;
    let r = 7 + dr;
    let f = 4 + df;
    if crate::attacks::on_board(r, f) {
        let k = (r * 8 + f) as u64;
        assert(k >= 48 && k < 64 ==> (0xffff00000000ffffu64 >> k) & 1u64 == 1u64) by (bit_vector);
        crate::bitboard::lemma_bit_single(r * 8 + f);
    } else {
        if 0 <= j < 64 {
            crate::bitboard::lemma_bits_of_constants(j as u64);
        }
    }
}

/// The starting board is a valid position with white to move, all castling
/// rights and no en passant file.
proof fn lemma_initial_valid(b: Board)
    requires
        b.wf(),
        b.color_bb(Color::White) == 0xffffu64,
        b.color_bb(Color::Black) == 0xffff000000000000u64,
        b.piece_bb(Piece::Pawn) == 0x00ff00000000ff00u64,
        b.piece_bb(Piece::Knight) == 0x4200000000000042u64,
        b.piece_bb(Piece::Bishop) == 0x2400000000000024u64,
        b.piece_bb(Piece::Rook) == 0x8100000000000081u64,
        b.piece_bb(Piece::Queen) == 0x0800000000000008u64,
        b.piece_bb(Piece::King) == 0x1000000000000010u64,
    ensures
        Position::spec_parts_valid(b, Color::White, CastlingRights(15), None),
{
    assert(0xffffu64 & 0x1000000000000010u64 == 1u64 << 4u64 && 0xffff000000000000u64 & 0x1000000000000010u64
        == 1u64 << 60u64 && 0xffffu64 | 0xffff000000000000u64 == 0xffff00000000ffffu64 && ((0xffffu64
        & 0x1000000000000010u64) >> 4u64) & 1u64 == 1u64 && ((0xffffu64 & 0x8100000000000081u64) >> 7u64) & 1u64
        == 1u64 && ((0xffffu64 & 0x8100000000000081u64) >> 0u64) & 1u64 == 1u64 && ((0xffff000000000000u64
        & 0x1000000000000010u64) >> 60u64) & 1u64 == 1u64 && ((0xffff000000000000u64 & 0x8100000000000081u64)
        >> 63u64) & 1u64 == 1u64 && ((0xffff000000000000u64 & 0x8100000000000081u64) >> 56u64) & 1u64 == 1u64
        && 15u8 & 15u8 == 15u8) by (bit_vector);
    lemma_single_bit(b.color_piece_bb(Color::White, Piece::King), 4);
    lemma_single_bit(b.color_piece_bb(Color::Black, Piece::King), 60);
    let k = b.spec_king(Color::Black);
    assert(k == Square::E8) by {
        Square::lemma_idx_injective(k, Square::E8);
    }
    let occ = b.occupied_bb();
    assert(occ == 0xffff00000000ffffu64);
    let x = (crate::attacks::pawn_attack_spec(k, Color::Black) & b.piece_bb(Piece::Pawn)) | (
    crate::attacks::knight_spec(k) & b.piece_bb(Piece::Knight)) | (crate::attacks::king_spec(k) & b.piece_bb(Piece::King)) | (
    crate::attacks::bishop_spec(occ, k) & (b.piece_bb(Piece::Queen) | b.piece_bb(Piece::Bishop))) | (crate::attacks::rook_spec(
        occ,
        k,
    ) & (b.piece_bb(Piece::Queen) | b.piece_bb(Piece::Rook)));
    assert forall|j: int| 0 <= j < 64 && #[trigger] bit(x, j) implies j >= 40 by {
        let p1 = crate::attacks::pawn_attack_spec(k, Color::Black);
        let p2 = crate::attacks::knight_spec(k);
        let p3 = crate::attacks::king_spec(k);
        let p4 = crate::attacks::bishop_spec(occ, k);
        let p5 = crate::attacks::rook_spec(occ, k);
        if bit(x, j) {
            lemma_bit_or5(
                p1 & b.piece_bb(Piece::Pawn),
                p2 & b.piece_bb(Piece::Knight),
                p3 & b.piece_bb(Piece::King),
                p4 & (b.piece_bb(Piece::Queen) | b.piece_bb(Piece::Bishop)),
                p5 & (b.piece_bb(Piece::Queen) | b.piece_bb(Piece::Rook)),
                j,
            );
            crate::bitboard::lemma_bit_ops(p1, b.piece_bb(Piece::Pawn));
            crate::bitboard::lemma_bit_ops(p2, b.piece_bb(Piece::Knight));
            crate::bitboard::lemma_bit_ops(p3, b.piece_bb(Piece::King));
            crate::bitboard::lemma_bit_ops(p4, b.piece_bb(Piece::Queen) | b.piece_bb(Piece::Bishop));
            crate::bitboard::lemma_bit_ops(p5, b.piece_bb(Piece::Queen) | b.piece_bb(Piece::Rook));
            if bit(p1, j) {
                crate::bitboard::lemma_bit_ops(crate::attacks::step(k, -1, -1), crate::attacks::step(k, -1, 1));
                if bit(crate::attacks::step(k, -1, -1), j) {
                    lemma_step_high(-1, -1, j);
                } else {
                    lemma_step_high(-1, 1, j);
                }
            } else if bit(p2, j) {
                lemma_knight_high(j);
            } else if bit(p3, j) {
                lemma_king_high(j);
            } else if bit(p4, j) {
                crate::bitboard::lemma_bit_ops(crate::attacks::diagonal_spec(occ, k), crate::attacks::antidiag_spec(occ, k));
                crate::bitboard::lemma_bit_ops(crate::attacks::ray_from(occ, k, 1, 1), crate::attacks::ray_from(occ, k, -1, -1));
                crate::bitboard::lemma_bit_ops(crate::attacks::ray_from(occ, k, 1, -1), crate::attacks::ray_from(occ, k, -1, 1));
                if bit(crate::attacks::ray_from(occ, k, 1, 1), j) {
                    lemma_ray_high(1, 1, j);
                } else if bit(crate::attacks::ray_from(occ, k, -1, -1), j) {
                    lemma_ray_high(-1, -1, j);
                } else if bit(crate::attacks::ray_from(occ, k, 1, -1), j) {
                    lemma_ray_high(1, -1, j);
                } else {
                    lemma_ray_high(-1, 1, j);
                }
            } else {
                crate::bitboard::lemma_bit_ops(crate::attacks::file_spec(occ, k), crate::attacks::rank_spec(occ, k));
                crate::bitboard::lemma_bit_ops(crate::attacks::ray_from(occ, k, 1, 0), crate::attacks::ray_from(occ, k, -1, 0));
                crate::bitboard::lemma_bit_ops(crate::attacks::ray_from(occ, k, 0, 1), crate::attacks::ray_from(occ, k, 0, -1));
                if bit(crate::attacks::ray_from(occ, k, 1, 0), j) {
                    lemma_ray_high(1, 0, j);
                } else if bit(crate::attacks::ray_from(occ, k, -1, 0), j) {
                    lemma_ray_high(-1, 0, j);
                } else if bit(crate::attacks::ray_from(occ, k, 0, 1), j) {
                    lemma_ray_high(0, 1, j);
                } else {
                    lemma_ray_high(0, -1, j);
                }
            }
        }
    }
    let a = b.spec_color_attackers_to(k, Color::White);
    assert(a == 0xffffu64 & x);
    assert forall|j: int| 0 <= j < 64 implies #[trigger] bit(a, j) == bit(0u64, j) by {
        crate::bitboard::lemma_bit_ops(0xffffu64, x);
        let jj = j as u64;
        assert(jj < 64 ==> (((0xffffu64 >> jj) & 1u64 == 1u64) ==> jj < 16)) by (bit_vector);
        crate::bitboard::lemma_bits_of_constants(jj);
    }
    crate::bitboard::lemma_bits_equal(a, 0);
    let wk = b.color_piece_bb(Color::White, Piece::King);
    let wr = b.color_piece_bb(Color::White, Piece::Rook);
    let bk = b.color_piece_bb(Color::Black, Piece::King);
    let br = b.color_piece_bb(Color::Black, Piece::Rook);
    assert(bit(wk, 4) && bit(wr, 7) && bit(wr, 0) && bit(bk, 60) && bit(br, 63) && bit(br, 56)) by {
    }
    assert(crate::position::spec_castling_max(b) == 15);
}

/// A set bit of an or of eight words is set in one of them.
proof fn lemma_bit_or8(a1: u64, a2: u64, a3: u64, a4: u64, a5: u64, a6: u64, a7: u64, a8: u64, j: int)
    requires
        0 <= j < 64,
        bit(a1 | a2 | a3 | a4 | a5 | a6 | a7 | a8, j),
    ensures
        bit(a1, j) || bit(a2, j) || bit(a3, j) || bit(a4, j) || bit(a5, j) || bit(a6, j) || bit(a7, j) || bit(a8, j),
{
    crate::bitboard::lemma_bit_ops(a1 | a2 | a3 | a4 | a5 | a6 | a7, a8);
    crate::bitboard::lemma_bit_ops(a1 | a2 | a3 | a4 | a5 | a6, a7);
    crate::bitboard::lemma_bit_ops(a1 | a2 | a3 | a4 | a5, a6);
    crate::bitboard::lemma_bit_ops(a1 | a2 | a3 | a4, a5);
    crate::bitboard::lemma_bit_ops(a1 | a2 | a3, a4);
    crate::bitboard::lemma_bit_ops(a1 | a2, a3);
    crate::bitboard::lemma_bit_ops(a1, a2);
}

/// A set bit of an or of five words is set in one of them.
proof fn lemma_bit_or5(a: u64, b: u64, c: u64, d: u64, e: u64, j: int)
    requires
        0 <= j < 64,
        bit(a | b | c | d | e, j),
    ensures
        bit(a, j) || bit(b, j) || bit(c, j) || bit(d, j) || bit(e, j),
{
    crate::bitboard::lemma_bit_ops(a | b | c | d, e);
    crate::bitboard::lemma_bit_ops(a | b | c, d);
    crate::bitboard::lemma_bit_ops(a | b, c);
    crate::bitboard::lemma_bit_ops(a, b);
}

/// The knight jumps from the eighth-rank king's square stay on the sixth rank or above.
proof fn lemma_knight_high(j: int)
    requires
        0 <= j < 64,
        bit(crate::attacks::knight_spec(Square::E8), j),
    ensures
        j >= 40,
{
    let s = Square::E8;
    let a1 = crate::attacks::step(s, 1, 2);
    let a2 = crate::attacks::step(s, 2, 1);
    let a3 = crate::attacks::step(s, 2, -1);
    let a4 = crate::attacks::step(s, 1, -2);
    let a5 = crate::attacks::step(s, -1, -2);
    let a6 = crate::attacks::step(s, -2, -1);
    let a7 = crate::attacks::step(s, -2, 1);
    let a8 = crate::attacks::step(s, -1, 2);
    lemma_bit_or8(a1, a2, a3, a4, a5, a6, a7, a8, j);
    if bit(a1, j) { lemma_step_high(1, 2, j); }
    else if bit(a2, j) { lemma_step_high(2, 1, j); }
    else if bit(a3, j) { lemma_step_high(2, -1, j); }
    else if bit(a4, j) { lemma_step_high(1, -2, j); }
    else if bit(a5, j) { lemma_step_high(-1, -2, j); }
    else if bit(a6, j) { lemma_step_high(-2, -1, j); }
    else if bit(a7, j) { lemma_step_high(-2, 1, j); }
    else { lemma_step_high(-1, 2, j); }
}

/// The king steps from the eighth-rank king's square stay on the seventh rank or above.
proof fn lemma_king_high(j: int)
    requires
        0 <= j < 64,
        bit(crate::attacks::king_spec(Square::E8), j),
    ensures
        j >= 40,
{
    let s = Square::E8;
    let a1 = crate::attacks::step(s, 1, -1);
    let a2 = crate::attacks::step(s, 1, 0);
    let a3 = crate::attacks::step(s, 1, 1);
    let a4 = crate::attacks::step(s, 0, -1);
    let a5 = crate::attacks::step(s, 0, 1);
    let a6 = crate::attacks::step(s, -1, -1);
    let a7 = crate::attacks::step(s, -1, 0);
    let a8 = crate::attacks::step(s, -1, 1);
    lemma_bit_or8(a1, a2, a3, a4, a5, a6, a7, a8, j);
    if bit(a1, j) { lemma_step_high(1, -1, j); }
    else if bit(a2, j) { lemma_step_high(1, 0, j); }
    else if bit(a3, j) { lemma_step_high(1, 1, j); }
    else if bit(a4, j) { lemma_step_high(0, -1, j); }
    else if bit(a5, j) { lemma_step_high(0, 1, j); }
    else if bit(a6, j) { lemma_step_high(-1, -1, j); }
    else if bit(a7, j) { lemma_step_high(-1, 0, j); }
    else { lemma_step_high(-1, 1, j); }
}

impl Game {
    /// Returns the initial position for a normal chess game.
    pub fn initial_position() -> (r: Self)
        ensures
            r.wf(),
            r.shistory().len() == 0,
            spec_initial_position(r.spos()),
    {
        let board = Board::initial();
        proof {
            lemma_initial_valid(board);
        }
        let position = Position::from_parts(board, Color::White, CastlingRights::all(), None).unwrap();
        Game::from_position(position)
    }
}

/// Making a legal move in a game and taking it back gives the game back:
/// from what making the move leaves (the new position, the ply recorded,
/// the old position remembered), taking it back restores the position, the
/// history and the past positions.
pub proof fn lemma_game_make_unmake(g: Game, m: ChessMove, made: Game, undone: Game)
    requires
        g.wf(),
        spec_legal(g.spos(), m),
        made.spos() == spec_make(g.spos(), m).0,
        made.shistory() == g.shistory().push(
            PlyHistory { hash: zobrist_of(g.spos()), unmove: spec_make(g.spos(), m).1 },
        ),
        made.spast() == g.spast().push(g.spos()),
        undone.spos() == made.spast().last(),
        undone.shistory() == made.shistory().drop_last(),
        undone.spast() == made.spast().drop_last(),
    ensures
        undone.spos() == g.spos(),
        undone.shistory() == g.shistory(),
        undone.spast() == g.spast(),
        undone.start() == g.start(),
{
    assert(made.shistory().drop_last() =~= g.shistory());
    assert(made.spast().drop_last() =~= g.spast());
}

} // verus!
