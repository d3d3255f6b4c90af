//! Walking the legal continuations of a game, one child node at a time.

use vstd::prelude::*;

use crate::game::{spec_legal, Game, GameEnding};
use crate::make_unmake::spec_make;
use crate::move_list::MoveList;
use crate::movegen::ChessMove;

verus! {

/// Two games in the same state: the same position, plies and past positions.
pub open spec fn same_game(a: Game, b: Game) -> bool {
    &&& a.spos() == b.spos()
    &&& a.shistory() == b.shistory()
    &&& a.spast() == b.spast()
}

/// `b` is the move list `a` with possibly fewer moves in its current group:
/// the same groups, the older ones untouched, the current one cut short.
pub open spec fn trimmed(a: MoveList, b: MoveList) -> bool {
    if a.slens().len() == 0 {
        b.slens() == a.slens() && b.smoves() == a.smoves()
    } else {
        &&& b.slens().len() == a.slens().len()
        &&& b.slens().drop_last() == a.slens().drop_last()
        &&& b.slens().last() <= a.slens().last()
        &&& b.smoves() == a.smoves().subrange(0, a.smoves().len() - (a.slens().last() - b.slens().last()))
    }
}

/// A move list is a trimmed form of itself.
pub proof fn lemma_trimmed_refl(a: MoveList)
    ensures
        trimmed(a, a),
{
    assert(a.smoves().subrange(0, a.smoves().len() as int) =~= a.smoves());
}

/// Taking one more move off the current group keeps a list trimmed.
proof fn lemma_trimmed_pop(a: MoveList, b: MoveList, c: MoveList)
    requires
        a.slens().len() > 0,
        trimmed(a, b),
        b.slens().last() > 0,
        b.smoves().len() > 0,
        a.smoves().len() >= a.slens().last(),
        c.slens() == b.slens().update(b.slens().len() - 1, (b.slens().last() - 1) as usize),
        c.smoves() == b.smoves().drop_last(),
    ensures
        trimmed(a, c),
{
    assert(c.slens().drop_last() =~= b.slens().drop_last());
    assert(c.smoves() =~= a.smoves().subrange(0, a.smoves().len() - (a.slens().last() - c.slens().last())));
}

/// How a game without legal moves ends: checkmate when the king of the side
/// to move is in check, stalemate otherwise.
pub open spec fn spec_ending(g: Game) -> GameEnding {
    if g.spos().sboard().spec_in_check(g.spos().sturn()) {
        GameEnding::Checkmate
    } else {
        GameEnding::Stalemate
    }
}

/// Walks the game tree below a game: it holds the game, which it changes only
/// for the time an inspection of a child node runs, and the moves left to try
/// at each level of the walk (one group per level).
pub struct GameExplorer<'a> {
    /// The game being walked.
    pub game: &'a mut Game,
    /// The moves still to try, one group per level of the walk.
    pub move_list: MoveList,
}

impl<'a> GameExplorer<'a> {
    /// The game as it stands at this point of the walk.
    pub open spec fn sgame(self) -> Game {
        *self.game
    }

    /// A consistent game and a well-formed move list.
    pub open spec fn wf(self) -> bool {
        self.sgame().wf() && self.move_list.wf()
    }

    /// The state of the game at this point during the walk.
    pub fn game(&self) -> (r: &Game)
        ensures
            *r == self.sgame(),
    {
        self.game
    }

    /// Returns a legal move of this position (the last one generated), or how
    /// the game ends when none of the generated moves is legal.
    pub fn check_ending(&mut self) -> (r: Result<ChessMove, GameEnding>)
        requires
            old(self).wf(),
        ensures
            final(self).wf(),
            same_game(final(self).sgame(), old(self).sgame()),
            final(self).move_list == old(self).move_list,
            r matches Ok(m) ==> spec_legal(old(self).sgame().spos(), m),
            r is Err ==> forall|m: ChessMove| #[trigger] old(self).sgame().spos().spec_generated(m) ==> !spec_legal(
                old(self).sgame().spos(),
                m,
            ),
            r matches Err(e) ==> e == spec_ending(old(self).sgame()),
    {
        self.game.check_ending()
    }

    /// Makes a move and, if it is legal, inspects the resulting state of the
    /// game with `op` before taking the move back. Returns whether the move
    /// was legal.
    ///
    /// `op` may look into the game and walk further down, but has to leave
    /// the game as it found it and may only take moves off the current group.
    /// A legal move has `op` run on the game after it.
    pub fn map_move_if_legal<F: FnOnce(&mut Self)>(&mut self, chess_move: ChessMove, op: F) -> (r: bool)
        requires
            old(self).wf(),
            forall|e: &mut GameExplorer<'a>| (*e).wf() ==> call_requires(op, (e,)),
            forall|e: &mut GameExplorer<'a>| call_ensures(op, (e,), ()) ==> (*final(e)).wf() && same_game(
                (*final(e)).sgame(),
                (*e).sgame(),
            ) && trimmed((*e).move_list, (*final(e)).move_list),
        ensures
            final(self).wf(),
            r == spec_legal(old(self).sgame().spos(), chess_move),
            same_game(final(self).sgame(), old(self).sgame()),
            trimmed(old(self).move_list, final(self).move_list),
            r ==> exists|e: &mut GameExplorer<'a>| #[trigger] call_ensures(op, (e,), ()) && (*e).sgame().spos()
                == spec_make(old(self).sgame().spos(), chess_move).0,
    {
        let ghost g0 = self.sgame();
        proof {
            lemma_trimmed_refl(self.move_list);
        }
        if !self.game.try_make_move(chess_move) {
            return false;
        }
        let ghost before = *self;
        proof {
            assert(before.wf());
        }
        op(self);
        proof {
            assert(self.wf() && same_game(self.sgame(), before.sgame()));
        }
        self.game.unmake_move();
        proof {
            assert(self.sgame().shistory() =~= g0.shistory());
            assert(self.sgame().spast() =~= g0.spast());
        }
        true
    }

    /// Inspects, with `op`, the state of the game after each legal move of
    /// this position, taking back each move afterwards; the moves are tried
    /// from the last generated one to the first, and `op` may end the walk
    /// early by taking the moves left off the current group (see
    /// [`Self::exhaust_moves`]). When `op` never does so, it is run on every
    /// legal move, with the game after that move. Returns how the game ends
    /// when no move was legal, and `None` otherwise.
    pub fn for_each_legal_child_node<F: FnMut(&mut Self, ChessMove)>(&mut self, mut op: F) -> (r: Option<
        GameEnding,
    >)
        requires
            old(self).wf(),
            forall|e: &mut GameExplorer<'a>, m: ChessMove| (*e).wf() && (*e).move_list.slens().len() > 0
                ==> call_requires(op, (e, m)),
            forall|e: &mut GameExplorer<'a>, m: ChessMove| call_ensures(op, (e, m), ()) ==> (*final(e)).wf()
                && same_game((*final(e)).sgame(), (*e).sgame()) && trimmed((*e).move_list, (*final(e)).move_list),
        ensures
            final(self).wf(),
            same_game(final(self).sgame(), old(self).sgame()),
            final(self).move_list.smoves() == old(self).move_list.smoves(),
            final(self).move_list.slens() == old(self).move_list.slens(),
            r is None ==> exists|m: ChessMove| spec_legal(old(self).sgame().spos(), m),
            r is Some ==> forall|m: ChessMove| #[trigger] old(self).sgame().spos().spec_generated(m) ==> !spec_legal(
                old(self).sgame().spos(),
                m,
            ),
            r matches Some(e) ==> e == spec_ending(old(self).sgame()),
            (forall|e: &mut GameExplorer<'a>, m: ChessMove| #[trigger] call_ensures(op, (e, m), ())
                ==> (*final(e)).move_list.slens() == (*e).move_list.slens()) ==> forall|m: ChessMove|
                #[trigger] old(self).sgame().spos().spec_generated(m) && spec_legal(old(self).sgame().spos(), m)
                ==> exists|e: &mut GameExplorer<'a>| #[trigger] call_ensures(op, (e, m), ()) && (*e).sgame().spos()
                == spec_make(old(self).sgame().spos(), m).0,
    {
        let ghost g0 = self.sgame();
        let ghost p = g0.spos();
        let ghost op0 = op;
        let ghost moves0 = self.move_list.smoves();
        let ghost lens0 = self.move_list.slens();
        self.move_list.push_group();
        let mut generated: Vec<ChessMove> = Vec::new();
        self.game.push_moves(&mut generated);
        let mut i: usize = 0;
        while i < generated.len()
            invariant
                self.wf(),
                same_game(self.sgame(), g0),
                i <= generated@.len(),
                self.move_list.slens() == lens0.push(i),
                self.move_list.smoves() == moves0 + generated@.subrange(0, i as int),
            decreases generated.len() - i,
        {
            self.move_list.push_move(generated[i]);
            proof {
                assert(self.move_list.smoves() =~= moves0 + generated@.subrange(0, i + 1));
                assert(self.move_list.slens() =~= lens0.push((i + 1) as usize));
            }
            i = i + 1;
        }
        let mut has_moves = false;
        loop
            invariant
                p == g0.spos(),
                op == op0,
                self.wf(),
                same_game(self.sgame(), g0),
                self.move_list.slens().len() == lens0.len() + 1,
                self.move_list.slens().drop_last() == lens0,
                self.move_list.slens().last() <= generated@.len(),
                self.move_list.smoves() == moves0 + generated@.subrange(0, self.move_list.slens().last() as int),
                has_moves ==> exists|m: ChessMove| spec_legal(p, m),
                !has_moves ==> forall|j: int|
                    self.move_list.slens().last() <= j < generated@.len() ==> !spec_legal(p, #[trigger] generated@[j]),
                forall|m: ChessMove| #[trigger] p.spec_generated(m) ==> generated@.contains(m),
                (forall|e: &mut GameExplorer<'a>, m: ChessMove| #[trigger] call_ensures(op, (e, m), ())
                    ==> (*final(e)).move_list.slens() == (*e).move_list.slens()) ==> forall|j: int| self.move_list.slens().last() <= j < generated@.len() && spec_legal(p, #[trigger] generated@[j])
                    ==> exists|e: &mut GameExplorer<'a>| #[trigger] call_ensures(op, (e, generated@[j]), ())
                    && (*e).sgame().spos() == spec_make(p, generated@[j]).0,
                forall|e: &mut GameExplorer<'a>, m: ChessMove| (*e).wf() && (*e).move_list.slens().len() > 0
                    ==> call_requires(op, (e, m)),
                forall|e: &mut GameExplorer<'a>, m: ChessMove| call_ensures(op, (e, m), ()) ==> (*final(e)).wf()
                    && same_game((*final(e)).sgame(), (*e).sgame()) && trimmed((*e).move_list, (*final(e)).move_list),
            ensures
                self.wf(),
                same_game(self.sgame(), g0),
                self.move_list.slens().len() == lens0.len() + 1,
                self.move_list.slens().drop_last() == lens0,
                self.move_list.slens().last() == 0,
                self.move_list.smoves() == moves0,
                has_moves ==> exists|m: ChessMove| spec_legal(p, m),
                !has_moves ==> forall|j: int| 0 <= j < generated@.len() ==> !spec_legal(p, #[trigger] generated@[j]),
                forall|m: ChessMove| #[trigger] p.spec_generated(m) ==> generated@.contains(m),
                (forall|e: &mut GameExplorer<'a>, m: ChessMove| #[trigger] call_ensures(op, (e, m), ())
                    ==> (*final(e)).move_list.slens() == (*e).move_list.slens()) ==> forall|j: int| 0 <= j < generated@.len() && spec_legal(p, #[trigger] generated@[j])
                    ==> exists|e: &mut GameExplorer<'a>| #[trigger] call_ensures(op, (e, generated@[j]), ())
                    && (*e).sgame().spos() == spec_make(p, generated@[j]).0,
                (forall|e: &mut GameExplorer<'a>, m: ChessMove| #[trigger] call_ensures(op, (e, m), ())
                    ==> (*final(e)).move_list.slens() == (*e).move_list.slens()) ==> forall|m: ChessMove|
                    #[trigger] p.spec_generated(m) && spec_legal(p, m) ==> exists|e: &mut GameExplorer<'a>|
                    #[trigger] call_ensures(op, (e, m), ()) && (*e).sgame().spos() == spec_make(p, m).0,
            decreases self.move_list.slens().last(),
        {
            let ghost k = self.move_list.slens().last();
            proof {
                assert(self.move_list.slens() =~= self.move_list.slens().drop_last().push(k));
            }
            match self.move_list.pop_move() {
                None => {
                    proof {
                        assert(moves0 + generated@.subrange(0, 0) =~= moves0);
                    }
                    break;
                },
                Some(m) => {
                    proof {
                        assert(m == generated@[k - 1]) by {
                            assert((moves0 + generated@.subrange(0, k as int)).last() == generated@[k - 1]);
                        }
                        assert(self.move_list.smoves() =~= moves0 + generated@.subrange(0, k - 1));
                        assert(self.move_list.slens().drop_last() =~= lens0);
                    }
                    if self.game.try_make_move(m) {
                        assert(spec_legal(p, m));
                        has_moves = true;
                        let ghost at_call = self.sgame().spos();
                        op(self, m);
                        proof {
                            assert(exists|e: &mut GameExplorer<'a>| #[trigger] call_ensures(op, (e, m), ())
                                && (*e).sgame().spos() == spec_make(p, m).0);
                        }
                        self.game.unmake_move();
                        proof {
                            assert(self.sgame().shistory() =~= g0.shistory());
                            assert(self.sgame().spast() =~= g0.spast());
                            let l = self.move_list.slens().last();
                            assert(self.move_list.smoves() =~= moves0 + generated@.subrange(0, l as int));
                        }
                    } else {
                        assert(!spec_legal(p, generated@[k - 1]));
                    }
                },
            }
        }
        proof {
            assert(self.move_list.slens() =~= lens0.push(self.move_list.slens().last()));
        }
        self.move_list.pop_group();
        proof {
            assert(self.move_list.smoves() =~= moves0);
            if !has_moves {
                assert forall|m: ChessMove| #[trigger] p.spec_generated(m) implies !spec_legal(p, m) by {
                    let j = choose|j: int| 0 <= j < generated@.len() && generated@[j] == m;
                    assert(!spec_legal(p, generated@[j]));
                }
            }
        }
        if has_moves {
            None
        } else if self.game.is_check() {
            Some(GameEnding::Checkmate)
        } else {
            Some(GameEnding::Stalemate)
        }
    }

    /// Takes all the moves left off the current group, so that a walk over
    /// the child nodes of this level ends after the current one.
    pub fn exhaust_moves(&mut self)
        requires
            old(self).wf(),
            old(self).move_list.slens().len() > 0,
        ensures
            final(self).wf(),
            same_game(final(self).sgame(), old(self).sgame()),
            trimmed(old(self).move_list, final(self).move_list),
            final(self).move_list.slens().last() == 0,
    {
        let ghost list0 = self.move_list;
        proof {
            lemma_trimmed_refl(list0);
            crate::move_list::lemma_last_group_fits(list0);
        }
        loop
            invariant
                self.wf(),
                same_game(self.sgame(), old(self).sgame()),
                self.move_list.slens().len() > 0,
                trimmed(list0, self.move_list),
                list0.slens().len() > 0,
                list0.smoves().len() >= list0.slens().last(),
            ensures
                self.wf(),
                same_game(self.sgame(), old(self).sgame()),
                trimmed(list0, self.move_list),
                self.move_list.slens().last() == 0,
            decreases self.move_list.slens().last(),
        {
            let ghost before = self.move_list;
            if self.move_list.pop_move().is_none() {
                break;
            }
            proof {
                crate::move_list::lemma_last_group_fits(before);
                lemma_trimmed_pop(list0, before, self.move_list);
            }
        }
    }
}

impl Game {
    /// Returns an explorer for this game, with no moves to try yet. Once the
    /// explorer is done with, the game is the explorer's.
    pub fn explore(&mut self) -> (r: GameExplorer<'_>)
        requires
            old(self).wf(),
        ensures
            r.wf(),
            r.sgame() == *old(self),
            r.move_list.smoves() == Seq::<ChessMove>::empty(),
            r.move_list.slens() == Seq::<usize>::empty(),
            *final(r.game) == *final(self),
    {
        GameExplorer { game: self, move_list: MoveList::empty() }
    }
}

} // verus!
