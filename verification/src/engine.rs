//! The decisions of the UCI engine: what a command asks the engine to do,
//! the limits of a search, and when iterative deepening stops.

use std::time::Instant;

use vstd::prelude::*;

use crate::game::{spec_legal, Game};
use crate::position::Position;
use crate::movegen::{spec_pseudo_legal, ChessMove};
use crate::pieces::Color;
use crate::score::{score_order, spec_prev_sat, Score};
use crate::lan::LanMove;
use crate::search;
use crate::uci::{Command, Go};

verus! {

/// The deepest round of iterative deepening.
pub const MAX_ROUND_DEPTH: u64 = 255;

/// What the engine does for a command.
#[derive(Debug, Clone, Copy, PartialEq, Eq, Structural)]
pub enum ServerAction {
    /// Keep the command until the running search has finished.
    Defer,
    /// Answer the handshake with the engine's name and author.
    Identify,
    /// Answer that the engine is ready.
    ReadyOk,
    /// Clear the transposition table.
    ClearHash,
    /// Set up the game of the command.
    SetPosition,
    /// Start searching the current game with the parameters of the command.
    StartSearch,
    /// Stop the running search and report its result.
    StopSearch,
    /// Leave pondering mode.
    PonderHit,
    /// Nothing to do.
    Ignore,
    /// End the program, stopping the running search first when there is one.
    Quit { stop_search: bool },
}

/// What the engine does for a command: while a search runs, a new game,
/// position or search waits for it to finish; "stop" and "ponderhit" only
/// act on a running search.
pub open spec fn spec_command_action(command: Command, search_running: bool) -> ServerAction {
    if search_running && (command matches Command::UciNewGame || command matches Command::Position(_)
        || command matches Command::Go(_)) {
        ServerAction::Defer
    } else {
        match command {
            Command::Uci => ServerAction::Identify,
            Command::IsReady => ServerAction::ReadyOk,
            Command::UciNewGame => ServerAction::ClearHash,
            Command::Position(_) => ServerAction::SetPosition,
            Command::Go(_) => ServerAction::StartSearch,
            Command::Stop => if search_running {
                ServerAction::StopSearch
            } else {
                ServerAction::Ignore
            },
            Command::PonderHit => if search_running {
                ServerAction::PonderHit
            } else {
                ServerAction::Ignore
            },
            Command::Quit => ServerAction::Quit { stop_search: search_running },
        }
    }
}

/// Decides what the engine does for a command.
pub fn command_action(command: &Command, search_running: bool) -> (r: ServerAction)
    ensures
        r == spec_command_action(*command, search_running),
{
    let deferred = match command {
        Command::UciNewGame | Command::Position(_) | Command::Go(_) => true,
        _ => false,
    };
    if search_running && deferred {
        return ServerAction::Defer;
    }
    match command {
        Command::Uci => ServerAction::Identify,
        Command::IsReady => ServerAction::ReadyOk,
        Command::UciNewGame => ServerAction::ClearHash,
        Command::Position(_) => ServerAction::SetPosition,
        Command::Go(_) => ServerAction::StartSearch,
        Command::Stop => if search_running {
            ServerAction::StopSearch
        } else {
            ServerAction::Ignore
        },
        Command::PonderHit => if search_running {
            ServerAction::PonderHit
        } else {
            ServerAction::Ignore
        },
        Command::Quit => ServerAction::Quit { stop_search: search_running },
    }
}

/// A sum of two `u64` values, saturating at the largest one.
pub open spec fn sat_add(a: u64, b: u64) -> u64 {
    if a + b > u64::MAX {
        u64::MAX
    } else {
        (a + b) as u64
    }
}

/// The time a search may take, in milliseconds: the move time when it is
/// given, else the remaining time of the side to move plus its increment
/// (none when the remaining time is not given).
pub open spec fn spec_time_budget(go: Go, turn: Color) -> Option<u64> {
    if go.movetime is Some {
        go.movetime
    } else {
        let time = if turn == Color::White { go.wtime } else { go.btime };
        let inc = if turn == Color::White { go.winc } else { go.binc };
        match time {
            Some(t) => Some(sat_add(t, if inc is Some { inc.unwrap() } else { 0 })),
            None => None,
        }
    }
}

/// The time budget of a search: the move time when it is given; otherwise,
/// for each side, that side's own remaining time plus that side's own
/// increment (none counts as zero), capped at the largest `u64`, and no
/// budget when that side's remaining time is not given. The other side's
/// clock plays no part.
pub proof fn lemma_time_budget_by_side(go: Go)
    ensures
        go.movetime matches Some(t) ==> spec_time_budget(go, Color::White) == Some(t) && spec_time_budget(
            go,
            Color::Black,
        ) == Some(t),
        go.movetime is None ==> (spec_time_budget(go, Color::White) is None <==> go.wtime is None),
        go.movetime is None ==> (spec_time_budget(go, Color::Black) is None <==> go.btime is None),
        go.movetime is None && go.wtime is Some ==> {
            let total = go.wtime.unwrap() + (if go.winc is Some { go.winc.unwrap() as int } else { 0 });
            spec_time_budget(go, Color::White).unwrap() == (if total <= u64::MAX { total } else { u64::MAX as int })
        },
        go.movetime is None && go.btime is Some ==> {
            let total = go.btime.unwrap() + (if go.binc is Some { go.binc.unwrap() as int } else { 0 });
            spec_time_budget(go, Color::Black).unwrap() == (if total <= u64::MAX { total } else { u64::MAX as int })
        },
{
}

/// Swapping the two sides' clocks swaps the budgets: what Black gets from its
/// clock is what White gets from the same clock.
pub proof fn lemma_time_budget_symmetric(go: Go, other: Go)
    requires
        other.movetime == go.movetime,
        other.wtime == go.btime,
        other.winc == go.binc,
        other.btime == go.wtime,
        other.binc == go.winc,
    ensures
        spec_time_budget(go, Color::Black) == spec_time_budget(other, Color::White),
        spec_time_budget(go, Color::White) == spec_time_budget(other, Color::Black),
{
}

/// Computes the time a search may take, in milliseconds.
pub fn time_budget(go: &Go, turn: Color) -> (r: Option<u64>)
    ensures
        r == spec_time_budget(*go, turn),
{
    if go.movetime.is_some() {
        return go.movetime;
    }
    let (time, inc) = match turn {
        Color::White => (go.wtime, go.winc),
        Color::Black => (go.btime, go.binc),
    };
    let inc = match inc {
        Some(i) => i,
        None => 0,
    };
    match time {
        Some(t) => Some(t.saturating_add(inc)),
        None => None,
    }
}

/// The deepest round of iterative deepening a "go" command asks for: one
/// below the depth given, and none for an infinite search.
pub fn depth_limit(go: &Go) -> (r: Option<u64>)
    requires
        go.depth != Some(0u64),
    ensures
        r == (if go.infinite {
            None
        } else {
            match go.depth {
                Some(d) => Some((d - 1) as u64),
                None => None,
            }
        }),
{
    if go.infinite {
        return None;
    }
    match go.depth {
        Some(d) => Some(d - 1),
        None => None,
    }
}

/// Limits of the search.
#[derive(Clone, Copy)]
pub struct SearchLimits {
    /// Search no further than this depth.
    pub depth: Option<u64>,
    /// Search no more than this many nodes.
    pub nodes: Option<u64>,
    /// Stop search if mate in less than this many turns is found.
    pub mate: Option<u64>,
    /// Stop search when reaching the deadline.
    pub deadline: Option<Instant>,
}

/// The root move with the best result among the first `n`, with its score,
/// both seen from the side to move (a root move's result scores the position
/// after it, for the opponent): the first one whose score is better than
/// those before it.
pub open spec fn best_of(s: Seq<(ChessMove, Option<search::SearchResult>)>, n: nat) -> Option<(ChessMove, Score)>
    decreases n,
{
    if n == 0 {
        None
    } else {
        let before = best_of(s, (n - 1) as nat);
        let sc = spec_prev_sat(s[n - 1].1.unwrap().score);
        match before {
            None => Some((s[n - 1].0, sc)),
            Some(b) => if score_order(sc, b.1) > 0 {
                Some((s[n - 1].0, sc))
            } else {
                before
            },
        }
    }
}

/// The nodes the first `n` results searched, the sum saturating at the
/// largest `u64`.
pub open spec fn nodes_of(s: Seq<(ChessMove, Option<search::SearchResult>)>, n: nat) -> u64
    decreases n,
{
    if n == 0 {
        0
    } else {
        sat_add(nodes_of(s, (n - 1) as nat), s[n - 1].1.unwrap().nodes)
    }
}

/// Whether one of the first `n` results was canceled.
pub open spec fn any_canceled(s: Seq<(ChessMove, Option<search::SearchResult>)>, n: nat) -> bool
    decreases n,
{
    if n == 0 {
        false
    } else {
        any_canceled(s, (n - 1) as nat) || s[n - 1].1.unwrap().is_canceled
    }
}

/// Whether a round of the search should be the last one, with its best move
/// and score: when a result was canceled, the time is up, the depth, node or
/// mate limit is reached, or the deepest round is done.
pub open spec fn round_stops(
    s: Seq<(ChessMove, Option<search::SearchResult>)>,
    limits: SearchLimits,
    running_depth: u64,
    time_fails: bool,
    score: Score,
) -> bool {
    let nodes = nodes_of(s, s.len());
    ||| any_canceled(s, s.len())
    ||| time_fails
    ||| (limits.depth matches Some(max) && running_depth >= max)
    ||| (limits.nodes matches Some(max) && nodes >= max)
    ||| (limits.mate matches Some(n) && (score_order(score, Score::Mating(n)) >= 0 || score_order(
        score,
        Score::Mated(n),
    ) <= 0))
    ||| running_depth == MAX_ROUND_DEPTH
}

/// Collects a finished round of the search over the root moves: the best
/// move, whether to stop, and whether to hold the result back (when
/// pondering, or after the deepest round). Without root moves there is no
/// move and the search stops.
pub fn collect(
    moves: &Vec<(ChessMove, Option<search::SearchResult>)>,
    limits: SearchLimits,
    running_depth: u64,
    is_pondering: bool,
    time_fails: bool,
) -> (r: (Option<ChessMove>, bool, bool))
    requires
        forall|i: int| 0 <= i < moves@.len() ==> (#[trigger] moves@[i]).1 is Some,
    ensures
        ({
            let s = moves@;
            match best_of(s, s.len()) {
                None => r == (None::<ChessMove>, true, is_pondering),
                Some(b) => {
                    let stop = round_stops(s, limits, running_depth, time_fails, b.1);
                    r == (Some(b.0), stop, stop && (is_pondering || running_depth == MAX_ROUND_DEPTH))
                },
            }
        }),
{
    let ghost s = moves@;
    let mut best_move: Option<ChessMove> = None;
    let mut score: Option<Score> = None;
    let mut nodes: u64 = 0;
    let mut unfinished = false;
    let mut i: usize = 0;
    while i < moves.len()
        invariant
            s == moves@,
            i <= s.len(),
            forall|k: int| 0 <= k < s.len() ==> (#[trigger] s[k]).1 is Some,
            nodes == nodes_of(s, i as nat),
            unfinished == any_canceled(s, i as nat),
            match best_of(s, i as nat) {
                None => best_move is None && score is None,
                Some(b) => best_move == Some(b.0) && score == Some(b.1),
            },
        decreases s.len() - i,
    {
        let (chess_move, result) = moves[i];
        let result = result.unwrap();
        let seen = result.score.prev_saturating();
        let better = match score {
            None => true,
            Some(sc) => seen.is_better(sc),
        };
        if better {
            score = Some(seen);
            best_move = Some(chess_move);
        }
        nodes = nodes.saturating_add(result.nodes);
        unfinished = unfinished || result.is_canceled;
        i = i + 1;
    }
    let (best_move, score) = match (best_move, score) {
        (Some(m), Some(sc)) => (m, sc),
        _ => {
            return (None, true, is_pondering);
        },
    };
    let depth_fails = match limits.depth {
        Some(max) => running_depth >= max,
        None => false,
    };
    let nodes_fail = match limits.nodes {
        Some(max) => nodes >= max,
        None => false,
    };
    let mate_fail = match limits.mate {
        Some(n) => {
            proof {
                crate::score::lemma_order_antisymmetric(score, Score::Mated(n));
            }
            score.is_at_least(Score::Mating(n)) || Score::Mated(n).is_at_least(score)
        },
        None => false,
    };
    let depth_limited = running_depth == MAX_ROUND_DEPTH;
    let should_stop = unfinished || time_fails || depth_fails || nodes_fail || mate_fail || depth_limited;
    let should_hold = should_stop && (is_pondering || depth_limited);
    (Some(best_move), should_stop, should_hold)
}

/// What a search result for a root move leaves in its slot: the first
/// result, replaced by later ones that were not canceled.
pub fn merge_result(slot: Option<search::SearchResult>, result: search::SearchResult) -> (r: search::SearchResult)
    ensures
        r == (match slot {
            None => result,
            Some(old) => if result.is_canceled {
                old
            } else {
                result
            },
        }),
{
    match slot {
        None => result,
        Some(old) => if result.is_canceled {
            old
        } else {
            result
        },
    }
}

/// What the engine does once a search result has come in.
#[derive(Debug, Clone, Copy, PartialEq, Eq, Structural)]
pub enum CheckAction {
    /// Results of the round are still pending.
    Wait,
    /// The search is over; `report` tells whether to report the best move now.
    Finish { report: bool },
    /// Start the next, deeper round.
    Deepen,
}

/// Decides what to do once a result has come in, from the number of pending
/// results and what the finished round says: forcing stops the search and
/// reports it even when the result would be held back.
pub fn check_action(pending_count: usize, force: bool, should_stop: bool, should_hold: bool) -> (r: CheckAction)
    ensures
        r == (if pending_count != 0 {
            CheckAction::Wait
        } else if should_stop || force {
            CheckAction::Finish { report: !should_hold || force }
        } else {
            CheckAction::Deepen
        }),
{
    if pending_count != 0 {
        CheckAction::Wait
    } else if should_stop || force {
        CheckAction::Finish { report: !should_hold || force }
    } else {
        CheckAction::Deepen
    }
}

/// The moves are all the legal moves of the position: each is legal, and
/// every generated legal move is among them.
pub open spec fn all_legal(p: Position, r: Seq<ChessMove>) -> bool {
    &&& forall|k: int| 0 <= k < r.len() ==> spec_legal(p, #[trigger] r[k])
    &&& forall|m: ChessMove| #[trigger] p.spec_generated(m) && spec_legal(p, m) ==> r.contains(m)
}

/// Each of the moves is named by one of the listed LAN moves.
pub open spec fn all_listed(v: Seq<LanMove>, r: Seq<ChessMove>) -> bool {
    forall|k: int| 0 <= k < r.len() ==> v.contains(#[trigger] r[k].spec_lan())
}

/// The root moves a "go" command searches: for each move it lists, the first
/// legal move of the position that it names, or all legal moves when it
/// lists none or none of them names a legal move.
pub fn root_moves(game: &mut Game, go: &Go) -> (r: Vec<ChessMove>)
    requires
        old(game).wf(),
    ensures
        final(game).wf(),
        final(game).spos() == old(game).spos(),
        final(game).shistory() == old(game).shistory(),
        final(game).spast() == old(game).spast(),
        forall|k: int| 0 <= k < r@.len() ==> spec_legal(old(game).spos(), #[trigger] r@[k]),
        go.searchmoves is None ==> all_legal(old(game).spos(), r@),
        go.searchmoves matches Some(v) ==> all_listed(v@, r@) || all_legal(old(game).spos(), r@),
        go.searchmoves matches Some(v) ==> forall|lan: LanMove|
            #![trigger v@.contains(lan)]
            v@.contains(lan) && (exists|m: ChessMove| #[trigger] old(game).spos().spec_generated(m) && m.spec_lan() == lan
                && spec_legal(old(game).spos(), m)) ==> exists|k: int| 0 <= k < r@.len() && (#[trigger] r@[k]).spec_lan()
                == lan,
        r@.len() == 0 ==> forall|m: ChessMove| #[trigger] old(game).spos().spec_generated(m) ==> !spec_legal(
            old(game).spos(),
            m,
        ),
{
    let legal = game.legal_moves();
    let ghost p = game.spos();
    let mut listed: Vec<ChessMove> = Vec::new();
    match &go.searchmoves {
        Some(lan_moves) => {
            let mut i: usize = 0;
            while i < lan_moves.len()
                invariant
                    i <= lan_moves@.len(),
                    go.searchmoves == Some(*lan_moves),
                    forall|k: int| 0 <= k < legal@.len() ==> spec_legal(p, #[trigger] legal@[k]),
                    forall|m: ChessMove| #[trigger] p.spec_generated(m) && spec_legal(p, m) ==> legal@.contains(m),
                    forall|k: int| 0 <= k < listed@.len() ==> spec_legal(p, #[trigger] listed@[k]),
                    forall|k: int| 0 <= k < listed@.len() ==> lan_moves@.contains(#[trigger] listed@[k].spec_lan()),
                    forall|j: int|
                        0 <= j < i && (exists|m: ChessMove| #[trigger] p.spec_generated(m) && m.spec_lan() == lan_moves@[j]
                            && spec_legal(p, m)) ==> exists|k: int| 0 <= k < listed@.len() && (#[trigger] listed@[k]).spec_lan()
                            == #[trigger] lan_moves@[j],
                decreases lan_moves@.len() - i,
            {
                let lan = lan_moves[i];
                let ghost before = listed@;
                let mut t: usize = 0;
                let mut found = false;
                while t < legal.len() && !found
                    invariant
                        t <= legal@.len(),
                        i < lan_moves@.len(),
                        lan == lan_moves@[i as int],
                        forall|k: int| 0 <= k < legal@.len() ==> spec_legal(p, #[trigger] legal@[k]),
                        forall|k: int| 0 <= k < listed@.len() ==> spec_legal(p, #[trigger] listed@[k]),
                        forall|k: int| 0 <= k < listed@.len() ==> lan_moves@.contains(#[trigger] listed@[k].spec_lan()),
                        listed@.len() >= before.len(),
                        forall|k: int| 0 <= k < before.len() ==> listed@[k] == before[k],
                        !found ==> listed@ == before,
                        !found ==> forall|u: int| 0 <= u < t ==> (#[trigger] legal@[u]).spec_lan() != lan,
                        found ==> listed@[listed@.len() - 1].spec_lan() == lan && listed@.len() > 0,
                    decreases legal@.len() - t, (if found { 0int } else { 1int }),
                {
                    let m = legal[t];
                    if m.lan() == lan {
                        listed.push(m);
                        proof {
                            assert(lan_moves@[i as int] == m.spec_lan());
                        }
                        found = true;
                    } else {
                        t = t + 1;
                    }
                }
                proof {
                    assert forall|j: int|
                        0 <= j < i + 1 && (exists|m: ChessMove| #[trigger] p.spec_generated(m) && m.spec_lan() == lan_moves@[j]
                            && spec_legal(p, m)) implies exists|k: int| 0 <= k < listed@.len() && (#[trigger] listed@[k]).spec_lan()
                            == #[trigger] lan_moves@[j] by {
                        if j < i {
                            let k = choose|k: int| 0 <= k < before.len() && (#[trigger] before[k]).spec_lan() == lan_moves@[j];
                            assert(listed@[k] == before[k]);
                        } else if found {
                            assert(listed@[listed@.len() - 1].spec_lan() == lan_moves@[j]);
                        } else {
                            let m = choose|m: ChessMove| #[trigger] p.spec_generated(m) && m.spec_lan() == lan_moves@[j]
                                && spec_legal(p, m);
                            assert(legal@.contains(m));
                            let u = choose|u: int| 0 <= u < legal@.len() && legal@[u] == m;
                            assert(legal@[u].spec_lan() != lan);
                        }
                    }
                }
                i = i + 1;
            }
            proof {
                assert forall|lan: LanMove|
                    #![trigger lan_moves@.contains(lan)]
                    lan_moves@.contains(lan) && (exists|m: ChessMove| #[trigger] p.spec_generated(m) && m.spec_lan() == lan
                        && spec_legal(p, m)) implies exists|k: int| 0 <= k < listed@.len() && (#[trigger] listed@[k]).spec_lan()
                        == lan by {
                    let j = choose|j: int| 0 <= j < lan_moves@.len() && lan_moves@[j] == lan;
                    assert(lan_moves@[j] == lan);
                }
            }
        },
        None => {},
    }
    if listed.len() > 0 {
        listed
    } else {
        legal
    }

}

/// What the engine reports at the end of a search.
#[derive(Debug, Clone, Copy, PartialEq, Eq)]
pub struct SearchResult {
    /// The best move found, if any.
    pub best_move: Option<LanMove>,
    /// The move to ponder on, if any.
    pub ponder: Option<LanMove>,
}

impl SearchResult {
    /// The report of a search that found the given best move and suggests no
    /// move to ponder on.
    pub fn from_best_move(best_move: Option<ChessMove>) -> (r: Self)
        ensures
            r.best_move == (match best_move {
                Some(m) => Some(m.spec_lan()),
                None => None,
            }),
            r.ponder is None,
    {
        let best_move = match best_move {
            Some(m) => Some(m.lan()),
            None => None,
        };
        SearchResult { best_move, ponder: None }
    }
}

/// A command for the engine's search.
#[derive(Clone)]
pub enum SearchCommand {
    /// Search the game with the parameters.
    Go(Box<Go>, Game),
    /// Stop the search and report.
    Stop,
    /// Leave pondering mode.
    PonderHit,
    /// Clear the transposition table.
    UciNewGame,
}

} // verus!
