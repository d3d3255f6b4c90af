//! Searching the game tree: alpha-beta search over the legal moves with a
//! transposition table, limited by depth, nodes, time and a stop flag.

use std::sync::atomic::{AtomicBool, Ordering};
use std::time::Instant;

use vstd::prelude::*;

use crate::bitboard::{squares_of, BitBoard};
use crate::board::Board;
use crate::game::{spec_legal, zobrist_of, Game, GameEnding};
use crate::make_unmake::spec_make;
use crate::position::Position;
use crate::movegen::{spec_pseudo_legal, ChessMove};
use crate::pieces::{Color, Piece};
use crate::score::{score_order, spec_prev_sat, Score};
use crate::transposition::{slot_of, Transposition, TranspositionTableBase};

verus! {

/// A reading of the monotonic clock.
#[verifier::external_type_specification]
#[verifier::external_body]
pub struct ExInstant(Instant);

/// Reads the clock, `std::time::Instant::now`. Nothing is stated of the
/// reading: it depends on the time of the call.
#[verifier::external_body]
fn clock_now() -> Instant {
    Instant::now()
}

/// Whether the first reading is later than the second, `>` on `Instant`.
/// What the comparison gives is not stated: readings are opaque values here.
#[verifier::external_body]
fn is_later(a: Instant, b: Instant) -> bool {
    a > b
}

/// Whether another thread has asked the search to stop.
fn stop_requested(stop: &AtomicBool) -> bool {
    stop.load(Ordering::Relaxed)
}

/// Request to search a position.
#[derive(Clone)]
pub struct SearchRequest {
    /// Game position to search.
    pub game: Game,
    /// Depth of the search.
    pub depth: u64,
    /// Searched nodes limit.
    pub nodes: Option<u64>,
    /// Search time limit.
    pub deadline: Option<Instant>,
}

/// Result of searching a position.
#[derive(Debug, Clone, Copy, PartialEq, Eq)]
pub struct SearchResult {
    /// Proposed score of the position.
    pub score: Score,
    /// Number of nodes searched.
    pub nodes: u64,
    /// Proposed best move (or `None` if no legal moves are available).
    pub best_move: Option<ChessMove>,
    /// Whether the search was abruptly canceled.
    pub is_canceled: bool,
}

/// Processing results for a [`SearchRequest`] of a batch.
#[derive(Debug, Clone, Copy)]
pub struct ServerResponse {
    /// Index of the corresponding [`SearchRequest`] inside of the batch.
    pub batch_index: usize,
    /// Result of the search.
    pub result: SearchResult,
}

/// A command for the parallel search server.
#[derive(Clone)]
pub enum ServerCommand {
    /// Start processing multiple [`SearchRequest`]s.
    ProcessBatch(Vec<SearchRequest>),
    /// Finish the batch being processed as soon as possible.
    Cancel,
    /// Clear the transposition table.
    ClearHash,
    /// Resize the transposition table to at most this many mebibytes.
    SetHashSize { max_mib: usize },
    /// Change the number of worker threads for future searches.
    SetWorkerCount(usize),
}

/// A search request with its place in the batch.
#[derive(Clone)]
pub struct Job {
    /// The request.
    pub request: SearchRequest,
    /// Index of the request inside of the batch.
    pub batch_index: usize,
}

/// The limits a search runs under.
#[derive(Clone, Copy)]
pub struct SearchConstraints {
    /// The largest number of nodes to search.
    pub nodes_max: Option<u64>,
    /// The time by which to stop.
    pub deadline: Option<Instant>,
}

impl SearchConstraints {
    /// Whether the number of searched nodes is over the limit.
    pub fn nodes_fail(self, nodes: u64) -> (r: bool)
        ensures
            r == (self.nodes_max matches Some(max) && nodes > max),
    {
        match self.nodes_max {
            Some(max) => nodes > max,
            None => false,
        }
    }

    /// Whether the deadline has passed. Without a deadline, it never does.
    pub fn time_fails(self) -> (r: bool)
        ensures
            self.deadline is None ==> !r,
    {
        match self.deadline {
            Some(d) => is_later(clock_now(), d),
            None => false,
        }
    }
}

/// The number of squares of a word.
pub open spec fn count_of(x: u64) -> int {
    squares_of(x).len() as int
}

/// How many more pieces of a kind the player has than the other pieces of
/// that kind.
pub open spec fn balance(b: Board, c: Color, p: Piece) -> int {
    count_of(b.piece_bb(p) & b.color_bb(c)) - count_of(b.piece_bb(p) & !b.color_bb(c))
}

/// The material balance for the player, in pawns: a knight or a bishop is
/// worth three pawns, a rook five and a queen nine.
pub open spec fn material(b: Board, c: Color) -> int {
    balance(b, c, Piece::Pawn) + (balance(b, c, Piece::Knight) + balance(b, c, Piece::Bishop)) * 3 + balance(
        b,
        c,
        Piece::Rook,
    ) * 5 + balance(b, c, Piece::Queen) * 9
}

/// The score of a position without legal moves.
pub open spec fn ending_score(in_check: bool) -> Score {
    if in_check {
        Score::Mated(0)
    } else {
        Score::Cp(0)
    }
}

/// The scores a search gives: being mated now, or a bounded number of
/// centipawns.
pub open spec fn score_ok(s: Score) -> bool {
    ||| s == Score::Mated(0)
    ||| (s matches Score::Cp(i) && -1_000_000 <= i <= 1_000_000)
}

/// The table has a slot.
pub open spec fn table_ok(tt: TranspositionTableBase<Transposition>) -> bool {
    tt.slots().len() > 0
}

/// The transposition of the position that a search to `depth` takes from
/// the table instead of searching: the one stored in the position's slot under
/// its hash, when its move is not pseudo-legal here and it was searched at
/// least as deep.
pub open spec fn table_move(tt: TranspositionTableBase<Transposition>, p: Position, depth: u64) -> Option<
    Transposition,
> {
    let key = zobrist_of(p);
    match tt.slots()[slot_of(key, tt.slots().len())] {
        Some(item) => if item.0 == key && !spec_pseudo_legal(p, item.1.best_move) && item.1.depth >= depth {
            Some(item.1)
        } else {
            None
        },
        None => None,
    }
}

/// How many more pieces of a kind the player has than the other pieces of
/// that kind.
fn piece_balance(board: &Board, player: BitBoard, piece: Piece) -> (r: i32)
    ensures
        r == count_of(board.piece_bb(piece) & player.0) - count_of(board.piece_bb(piece) & !player.0),
        -64 <= r <= 64,
{
    let pieces = board.get_piece(piece);
    let own = pieces.bitand(player).count();
    let other = pieces.bitand(player.not()).count();
    own as i32 - other as i32
}

/// Scores a position by its material, or by its ending when there are no
/// legal moves; the move returned is any legal move.
pub fn evaluate(game: &mut Game, is_canceled: bool) -> (r: SearchResult)
    requires
        old(game).wf(),
    ensures
        final(game).wf(),
        final(game).spos() == old(game).spos(),
        final(game).shistory() == old(game).shistory(),
        final(game).spast() == old(game).spast(),
        r.nodes == 1,
        r.is_canceled == is_canceled,
        score_ok(r.score),
        r.best_move matches Some(m) ==> spec_legal(old(game).spos(), m) && r.score == Score::Cp(
            (material(old(game).spos().sboard(), old(game).spos().sturn()) * 100) as i32,
        ),
        r.best_move is None ==> r.score == ending_score(
            old(game).spos().sboard().spec_in_check(old(game).spos().sturn()),
        ),
        r.best_move is None ==> forall|m: ChessMove| #[trigger] old(game).spos().spec_generated(m) ==> !spec_legal(
            old(game).spos(),
            m,
        ),
{
    let nodes: u64 = 1;
    let any_move = match game.check_ending() {
        Ok(chess_move) => chess_move,
        Err(ending) => {
            return SearchResult { best_move: None, score: Score::ending(ending), nodes, is_canceled };
        },
    };
    let board = game.board();
    let player = board.get_color(game.turn());
    let q_score = piece_balance(board, player, Piece::Queen);
    let r_score = piece_balance(board, player, Piece::Rook);
    let b_score = piece_balance(board, player, Piece::Bishop);
    let n_score = piece_balance(board, player, Piece::Knight);
    let p_score = piece_balance(board, player, Piece::Pawn);
    let p = p_score + (n_score + b_score) * 3 + r_score * 5 + q_score * 9;
    let score = Score::Cp(p * 100);
    SearchResult { best_move: Some(any_move), score, nodes, is_canceled }
}

/// Scores a position at the end of the search: by [`evaluate`], marked as
/// canceled when the search was asked to stop.
pub fn quiescence(stop: &AtomicBool, game: &mut Game, alpha: Score, beta: Score) -> (r: SearchResult)
    requires
        old(game).wf(),
    ensures
        final(game).wf(),
        final(game).spos() == old(game).spos(),
        final(game).shistory() == old(game).shistory(),
        final(game).spast() == old(game).spast(),
        r.nodes == 1,
        score_ok(r.score),
        r.best_move matches Some(m) ==> spec_legal(old(game).spos(), m) && r.score == Score::Cp(
            (material(old(game).spos().sboard(), old(game).spos().sturn()) * 100) as i32,
        ),
        r.best_move is None ==> r.score == ending_score(
            old(game).spos().sboard().spec_in_check(old(game).spos().sturn()),
        ),
        r.best_move is None ==> forall|m: ChessMove| #[trigger] old(game).spos().spec_generated(m) ==> !spec_legal(
            old(game).spos(),
            m,
        ),
{
    if stop_requested(stop) {
        return evaluate(game, true);
    }
    evaluate(game, false)
}

/// The best of the children searched, in the order searched, with its score
/// seen from the side to move: the first child whose result, seen from the
/// side to move, is better than those before it.
pub open spec fn pick_best(ms: Seq<ChessMove>, ss: Seq<Score>) -> Option<(ChessMove, Score)>
    decreases ms.len(),
{
    if ms.len() == 0 {
        None
    } else {
        let before = pick_best(ms.drop_last(), ss.drop_last());
        let sc = spec_prev_sat(ss[ms.len() - 1]);
        match before {
            None => Some((ms.last(), sc)),
            Some(b) => if score_order(sc, b.1) > 0 {
                Some((ms.last(), sc))
            } else {
                before
            },
        }
    }
}

/// How a node follows from the children it searched: `ms` are the legal
/// moves searched, each once, and `ss` the scores their searches gave (each
/// seen by the opponent). Every child but the last scored below `beta`; when
/// the last one did too, every generated legal move was searched. The node's
/// move and score are the best child and its score seen from the side to
/// move, or, without children, the ending.
pub open spec fn node_from_children(
    p: Position,
    beta: Score,
    ms: Seq<ChessMove>,
    ss: Seq<Score>,
    best_move: Option<ChessMove>,
    score: Score,
) -> bool {
    &&& ms.len() == ss.len()
    &&& ms.no_duplicates()
    &&& forall|k: int| 0 <= k < ms.len() ==> spec_legal(p, #[trigger] ms[k])
    &&& forall|k: int| 0 <= k < ms.len() - 1 ==> score_order(#[trigger] ss[k], beta) < 0
    &&& (ms.len() == 0 || score_order(ss[ms.len() - 1], beta) < 0) ==> forall|m: ChessMove| #[trigger] p.spec_generated(
        m,
    ) && spec_legal(p, m) ==> ms.contains(m)
    &&& ms.len() == 0 ==> best_move is None && score == ending_score(p.sboard().spec_in_check(p.sturn()))
    &&& ms.len() > 0 ==> best_move is Some && pick_best(ms, ss) == Some((best_move.unwrap(), score))
}

/// What a search of a position evaluated at the bottom of the tree gives: a
/// legal move scored by the material, or, without a legal move, the ending.
pub open spec fn evaluated(p: Position, best_move: Option<ChessMove>, score: Score) -> bool {
    match best_move {
        Some(m) => spec_legal(p, m) && score == Score::Cp((material(p.sboard(), p.sturn()) * 100) as i32),
        None => score == ending_score(p.sboard().spec_in_check(p.sturn())) && forall|m: ChessMove|
            #[trigger] p.spec_generated(m) ==> !spec_legal(p, m),
    }
}

/// The nodes a search counts for a node whose children's searches counted
/// `ns`, in the order searched: one for the node, then each child's count
/// added, staying at the largest `u64` once there.
pub open spec fn nodes_total(ns: Seq<u64>) -> u64
    decreases ns.len(),
{
    if ns.len() == 0 {
        1
    } else {
        let before = nodes_total(ns.drop_last());
        if before + ns.last() > u64::MAX { u64::MAX } else { (before + ns.last()) as u64 }
    }
}

/// What a search of the position to `depth`, not canceled, may answer with
/// its node count: the move and score of a table entry whose move is not
/// pseudo-legal here, one node; at depth 0, the evaluation of the position,
/// one node; deeper, the node that follows from its children, each child
/// searched one ply shallower (the last child searched may instead be one
/// that reached `beta`, which ends the search of the node whatever became of
/// it), counting one node and the children's counts.
pub open spec fn searched(
    p: Position,
    depth: u64,
    beta: Score,
    best_move: Option<ChessMove>,
    score: Score,
    nodes: u64,
) -> bool
    decreases depth,
{
    ||| best_move matches Some(m) && !spec_pseudo_legal(p, m) && nodes == 1
    ||| depth == 0 && evaluated(p, best_move, score) && nodes == 1
    ||| depth > 0 && exists|ms: Seq<ChessMove>, ss: Seq<Score>, bs: Seq<Option<ChessMove>>, ns: Seq<u64>|
        #![trigger node_from_children(p, beta, ms, ss, best_move, score), bs.len(), ns.len()]
        node_from_children(p, beta, ms, ss, best_move, score) && bs.len() == ms.len() && ns.len() == ms.len()
            && nodes == nodes_total(ns) && forall|k: int|
            #![trigger ms[k]] 0 <= k < ms.len() ==> (k == ms.len() - 1 && score_order(ss[k], beta) >= 0) || searched(
            spec_make(p, ms[k]).0,
            (depth - 1) as u64,
            beta,
            bs[k],
            ss[k],
            ns[k],
        )
}

/// A search to a depth above 0 that took no table entry (its move, if any,
/// is pseudo-legal) answers with the best of the position's children, and
/// each child was searched one ply shallower: its score is what a search of
/// the child to `depth - 1` answers, but for a last child that reached
/// `beta`; the node count is one plus the children's counts. At depth 0 the
/// answer is the evaluation of the position, counted as one node.
pub proof fn lemma_search_depth(
    p: Position,
    depth: u64,
    beta: Score,
    best_move: Option<ChessMove>,
    score: Score,
    nodes: u64,
)
    requires
        searched(p, depth, beta, best_move, score, nodes),
        best_move matches Some(m) ==> spec_pseudo_legal(p, m),
    ensures
        depth == 0 ==> evaluated(p, best_move, score) && nodes == 1,
        depth > 0 ==> exists|ms: Seq<ChessMove>, ss: Seq<Score>, bs: Seq<Option<ChessMove>>, ns: Seq<u64>|
            #![trigger node_from_children(p, beta, ms, ss, best_move, score), bs.len(), ns.len()]
            node_from_children(p, beta, ms, ss, best_move, score) && bs.len() == ms.len() && ns.len() == ms.len()
            && nodes == nodes_total(ns) && forall|k: int|
            #![trigger ms[k]] 0 <= k < ms.len() ==> (k == ms.len() - 1 && score_order(ss[k], beta) >= 0) || searched(
            spec_make(p, ms[k]).0,
            (depth - 1) as u64,
            beta,
            bs[k],
            ss[k],
            ns[k],
        ),
{
}

/// A node whose children were each searched one ply shallower (but for a last
/// child that reached `beta`) was searched to its depth.
proof fn lemma_node_searched(
    p: Position,
    d: u64,
    beta: Score,
    ms: Seq<ChessMove>,
    ss: Seq<Score>,
    bs: Seq<Option<ChessMove>>,
    ns: Seq<u64>,
    best: Option<ChessMove>,
    sc: Score,
)
    requires
        d > 0,
        node_from_children(p, beta, ms, ss, best, sc),
        bs.len() == ms.len(),
        ns.len() == ms.len(),
        forall|k: int| #![trigger ms[k]] 0 <= k < ms.len() ==> (k == ms.len() - 1 && score_order(ss[k], beta) >= 0) || searched(
            spec_make(p, ms[k]).0,
            (d - 1) as u64,
            beta,
            bs[k],
            ss[k],
            ns[k],
        ),
    ensures
        searched(p, d, beta, best, sc, nodes_total(ns)),
{
}

/// Searches the game tree from the position to the given depth.
///
/// A transposition of the position found in the table is used when its move
/// is not pseudo-legal here and it was searched at least as deep. Otherwise the
/// legal moves are searched one after the other (the last generated first),
/// each child with the same bounds; the best child is the first one whose
/// score, seen from this side, is better than the best score so far. The
/// search of the moves ends early when a child's score reaches `beta`, or,
/// marked as canceled, when the node or time limit fails, a stop was asked
/// for or the child's own search was canceled. The best score and move are
/// saved to the table.
#[verifier::spinoff_prover]
#[verifier::rlimit(60)]
pub fn search(
    tt: &mut TranspositionTableBase<Transposition>,
    stop: &AtomicBool,
    game: &mut Game,
    depth: u64,
    constraints: SearchConstraints,
    alpha: Score,
    beta: Score,
) -> (r: SearchResult)
    requires
        old(game).wf(),
        table_ok(*old(tt)),
    ensures
        final(game).wf(),
        final(game).spos() == old(game).spos(),
        final(game).shistory() == old(game).shistory(),
        final(game).spast() == old(game).spast(),
        table_ok(*final(tt)),
        final(tt).slots().len() == old(tt).slots().len(),
        r.nodes >= 1,
        r.best_move is None ==> r.score == ending_score(
            old(game).spos().sboard().spec_in_check(old(game).spos().sturn()),
        ),
        r.best_move is None ==> forall|m: ChessMove| #[trigger] old(game).spos().spec_generated(m) ==> !spec_legal(
            old(game).spos(),
            m,
        ),
        (table_move(*old(tt), old(game).spos(), depth) is None || r.is_canceled) ==> (r.best_move matches Some(m) ==> spec_legal(
            old(game).spos(),
            m,
        )),
        table_move(*old(tt), old(game).spos(), depth) matches Some(t) ==> (!r.is_canceled ==> r == (SearchResult {
            best_move: Some(t.best_move),
            score: t.score,
            nodes: 1,
            is_canceled: false,
        })),
        (table_move(*old(tt), old(game).spos(), depth) is None && depth == 0) ==> r.nodes == 1 && (
        r.best_move matches Some(m) ==> r.score == Score::Cp(
            (material(old(game).spos().sboard(), old(game).spos().sturn()) * 100) as i32,
        )),
        !r.is_canceled ==> searched(old(game).spos(), depth, beta, r.best_move, r.score, r.nodes),
        (table_move(*old(tt), old(game).spos(), depth) is None && depth > 0 && !r.is_canceled) ==> exists|
            ms: Seq<ChessMove>,
            ss: Seq<Score>,
        | #[trigger] node_from_children(old(game).spos(), beta, ms, ss, r.best_move, r.score),
        (table_move(*old(tt), old(game).spos(), depth) is None && depth > 0 && !r.is_canceled) ==> (
        r.best_move matches Some(m) ==> final(tt).slots()[slot_of(zobrist_of(old(game).spos()), final(tt).slots().len())]
            == Some((zobrist_of(old(game).spos()), Transposition { best_move: m, depth, score: r.score }))),
    decreases depth,
{
    if stop_requested(stop) || constraints.time_fails() {
        return evaluate(game, true);
    }
    let hash = game.zobrist();
    match tt.get(hash) {
        Some(entry) => {
            if entry.is_exact() {
                let t = *entry.get();
                if !game.is_move_pseudo_legal(t.best_move) && t.depth >= depth {
                    return SearchResult { best_move: Some(t.best_move), score: t.score, nodes: 1, is_canceled: false };
                }
            }
        },
        None => {},
    }
    if depth == 0 {
        return quiescence(stop, game, alpha, beta);
    }
    let ghost p = game.spos();
    let ghost h = game.shistory();
    let ghost past = game.spast();
    let ghost n0 = tt.slots().len();
    let moves = game.legal_moves();
    let mut alpha = alpha;
    let mut best_move: Option<ChessMove> = None;
    let mut best_score: Option<Score> = None;
    let mut nodes: u64 = 1;
    let mut is_canceled = false;
    let mut i = moves.len();
    let mut done = false;
    let ghost mut tried: Seq<ChessMove> = Seq::empty();
    let ghost mut scores: Seq<Score> = Seq::empty();
    let ghost mut bests: Seq<Option<ChessMove>> = Seq::empty();
    let ghost mut counts: Seq<u64> = Seq::empty();
    let ghost mut cut = false;
    while i > 0 && !done
        invariant
            moves@.no_duplicates(),
            forall|m: ChessMove| #[trigger] p.spec_generated(m) && spec_legal(p, m) ==> moves@.contains(m),
            tried.len() == scores.len(),
            tried.len() + i == moves@.len(),
            forall|k: int| 0 <= k < tried.len() ==> #[trigger] tried[k] == moves@[moves@.len() - 1 - k],
            forall|k: int| 0 <= k < tried.len() - 1 ==> score_order(#[trigger] scores[k], beta) < 0,
            !cut && tried.len() > 0 ==> score_order(scores[tried.len() - 1], beta) < 0,
            bests.len() == tried.len(),
            counts.len() == tried.len(),
            nodes == nodes_total(counts),
            !is_canceled ==> forall|k: int| 0 <= k < tried.len() ==> (k == tried.len() - 1 && score_order(scores[k], beta) >= 0)
                || #[trigger] searched(spec_make(p, tried[k]).0, (depth - 1) as u64, beta, bests[k], scores[k], counts[k]),
            cut ==> done && tried.len() > 0 && score_order(scores[tried.len() - 1], beta) >= 0,
            done ==> cut || is_canceled,
            is_canceled ==> done,
            match pick_best(tried, scores) {
                None => best_move is None && best_score is None,
                Some(b) => best_move == Some(b.0) && best_score == Some(b.1),
            },
            game.wf(),
            game.spos() == p,
            game.shistory() == h,
            game.spast() == past,
            table_ok(*tt),
            tt.slots().len() == n0,
            i <= moves@.len(),
            forall|k: int| 0 <= k < moves@.len() ==> spec_legal(p, #[trigger] moves@[k]),
            nodes >= 1,
            depth > 0,
            done ==> i < moves@.len(),
            best_move matches Some(m) ==> spec_legal(p, m),
            i < moves@.len() ==> best_move is Some,
        decreases i,
    {
        i = i - 1;
        let ghost tried0 = tried;
        let ghost scores0 = scores;
        let ghost bests0 = bests;
        let ghost counts0 = counts;
        let chess_move = moves[i];
        game.make_move(chess_move);
        let ghost child = game.spos();
        let result = search(tt, stop, game, depth - 1, constraints, alpha, beta);
        game.unmake_move();
        proof {
            assert(game.shistory() =~= h);
            assert(game.spast() =~= past);
        }
        nodes = nodes.saturating_add(result.nodes);
        let seen = result.score.prev_saturating();
        let take = match best_score {
            None => true,
            Some(s) => seen.is_better(s),
        };
        proof {
            let t2 = tried.push(chess_move);
            let s2 = scores.push(result.score);
            assert(t2.drop_last() =~= tried);
            assert(s2.drop_last() =~= scores);
            tried = t2;
            scores = s2;
            bests = bests.push(result.best_move);
            let c2 = counts.push(result.nodes);
            assert(c2.drop_last() =~= counts);
            counts = c2;
        }
        if take {
            best_score = Some(seen);
            best_move = Some(chess_move);
        }
        if result.score.is_better(alpha) {
            alpha = result.score;
        }
        if result.score.is_at_least(beta) {
            proof {
                cut = true;
            }
            done = true;
        } else if constraints.nodes_fail(nodes) || constraints.time_fails() || stop_requested(stop)
            || result.is_canceled {
            is_canceled = true;
            done = true;
        }
        proof {
            if !is_canceled {
                assert(child == spec_make(p, chess_move).0);
                assert forall|k: int| 0 <= k < tried.len() implies (k == tried.len() - 1 && score_order(scores[k], beta)
                    >= 0) || #[trigger] searched(spec_make(p, tried[k]).0, (depth - 1) as u64, beta, bests[k], scores[k], counts[k]) by {
                    if k < tried0.len() {
                        assert(tried[k] == tried0[k]);
                        assert(scores[k] == scores0[k]);
                        assert(bests[k] == bests0[k]);
                        assert(counts[k] == counts0[k]);
                        assert(score_order(scores0[k], beta) < 0);
                    } else {
                        assert(tried[k] == chess_move);
                        assert(scores[k] == result.score);
                        assert(bests[k] == result.best_move);
                        assert(counts[k] == result.nodes);
                    }
                }
            }
        }
    }
    let score = if moves.len() == 0 {
        if game.is_check() {
            Score::Mated(0)
        } else {
            Score::Cp(0)
        }
    } else {
        let chess_move = best_move.unwrap();
        let s = best_score.unwrap();
        let _ = tt.insert(hash, Transposition { best_move: chess_move, depth, score: s });
        s
    };
    proof {
        if !is_canceled {
            assert(!done || cut);
            assert forall|a: int, b: int| 0 <= a < b < tried.len() implies tried[a] != tried[b] by {
                assert(tried[a] == moves@[moves@.len() - 1 - a]);
                assert(tried[b] == moves@[moves@.len() - 1 - b]);
            }
            if tried.len() == 0 || score_order(scores[tried.len() - 1], beta) < 0 {
                assert(i == 0);
                assert forall|m: ChessMove| #[trigger] p.spec_generated(m) && spec_legal(p, m) implies tried.contains(m) by {
                    let k = choose|k: int| 0 <= k < moves@.len() && moves@[k] == m;
                    assert(tried[moves@.len() - 1 - k] == m);
                }
            }
            assert forall|k: int| 0 <= k < tried.len() implies spec_legal(p, #[trigger] tried[k]) by {
                assert(tried[k] == moves@[moves@.len() - 1 - k]);
            }
            assert(node_from_children(p, beta, tried, scores, best_move, score));
            lemma_node_searched(p, depth, beta, tried, scores, bests, counts, best_move, score);
        }
    }
    SearchResult { best_move, score, nodes, is_canceled }
}

/// Searches the position of a job from the worst score up to the best one
/// above it, and returns the result with the job's place in the batch.
pub fn run_job(tt: &mut TranspositionTableBase<Transposition>, stop: &AtomicBool, job: Job) -> (r: ServerResponse)
    requires
        job.request.game.wf(),
        table_ok(*old(tt)),
    ensures
        table_ok(*final(tt)),
        final(tt).slots().len() == old(tt).slots().len(),
        r.batch_index == job.batch_index,
        r.result.nodes >= 1,
        ({
            let p = job.request.game.spos();
            let depth = job.request.depth;
            let hit = table_move(*old(tt), p, depth);
            &&& (hit is None || r.result.is_canceled) ==> (r.result.best_move matches Some(m) ==> spec_legal(p, m))
            &&& r.result.best_move is None ==> r.result.score == ending_score(p.sboard().spec_in_check(p.sturn()))
            &&& r.result.best_move is None ==> forall|m: ChessMove| #[trigger] p.spec_generated(m) ==> !spec_legal(p, m)
            &&& hit matches Some(t) ==> (!r.result.is_canceled ==> r.result == (SearchResult {
                best_move: Some(t.best_move),
                score: t.score,
                nodes: 1,
                is_canceled: false,
            }))
            &&& (hit is None && depth == 0) ==> r.result.nodes == 1 && (r.result.best_move matches Some(m)
                ==> r.result.score == Score::Cp((material(p.sboard(), p.sturn()) * 100) as i32))
            &&& !r.result.is_canceled ==> searched(p, depth, Score::Mating(1), r.result.best_move, r.result.score, r.result.nodes)
            &&& (hit is None && depth > 0 && !r.result.is_canceled) ==> exists|ms: Seq<ChessMove>, ss: Seq<Score>|
                #[trigger] node_from_children(p, Score::Mating(1), ms, ss, r.result.best_move, r.result.score)
        }),
{
    let mut game = job.request.game;
    let worst_score = Score::ending(GameEnding::Checkmate);
    let constraints = SearchConstraints { nodes_max: job.request.nodes, deadline: job.request.deadline };
    let result = search(tt, stop, &mut game, job.request.depth, constraints, worst_score, worst_score.prev());
    ServerResponse { result, batch_index: job.batch_index }
}

} // verus!
