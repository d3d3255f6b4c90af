//! A stack of move groups used during search.

use vstd::prelude::*;

use crate::movegen::{ChessMove, PackedChessMove};

verus! {

/// The sum of the group lengths.
pub open spec fn sum_lens(lens: Seq<usize>) -> int
    decreases lens.len(),
{
    if lens.len() == 0 {
        0
    } else {
        sum_lens(lens.drop_last()) + lens.last()
    }
}

/// Stores chess moves during search: the moves of nested groups one after
/// the other, the last group being the current one.
#[derive(Debug, Clone)]
pub struct MoveList {
    moves: Vec<PackedChessMove>,
    lens: Vec<usize>,
}

impl MoveList {
    /// The stored moves, oldest group first.
    pub closed spec fn smoves(self) -> Seq<ChessMove> {
        self.moves@.map_values(|p: PackedChessMove| p@)
    }

    /// The lengths of the groups, oldest first.
    pub closed spec fn slens(self) -> Seq<usize> {
        self.lens@
    }

    /// The groups' lengths add up to the number of moves, and every packed
    /// move is valid.
    pub closed spec fn wf(self) -> bool {
        &&& sum_lens(self.lens@) == self.moves@.len()
        &&& forall|i: int| 0 <= i < self.moves@.len() ==> #[trigger] self.moves@[i].valid()
    }

    /// Constructs a new [`MoveList`].
    pub fn empty() -> (r: MoveList)
        ensures
            r.wf(),
            r.smoves() == Seq::<ChessMove>::empty(),
            r.slens() == Seq::<usize>::empty(),
    {
        let r = MoveList { moves: Vec::new(), lens: Vec::new() };
        proof {
            assert(r.smoves() =~= Seq::<ChessMove>::empty());
        }
        r
    }

    /// Removes and returns a move from end of the current move group, or
    /// `None` when the current group is empty.
    pub fn pop_move(&mut self) -> (r: Option<ChessMove>)
        requires
            old(self).wf(),
            old(self).slens().len() > 0,
        ensures
            final(self).wf(),
            old(self).slens().last() == 0 ==> r is None && *final(self) == *old(self),
            old(self).slens().last() > 0 ==> r == Some(old(self).smoves().last())
                && final(self).smoves() == old(self).smoves().drop_last()
                && final(self).slens() == old(self).slens().update(old(self).slens().len() - 1, (old(self).slens().last() - 1) as usize),
    {
        let k = self.lens.len() - 1;
        let len = self.lens[k];
        if len == 0 {
            return None;
        }
        let ghost old_lens = self.lens@;
        let ghost old_moves = self.moves@;
        proof {
            lemma_sum_lens_last(old_lens);
        }
        self.lens.set(k, len - 1);
        proof {
            assert(self.lens@.drop_last() =~= old_lens.drop_last());
            assert(old_moves.len() > 0);
        }
        let packed = self.moves.pop().unwrap();
        proof {
            assert(old_moves[old_moves.len() - 1].valid());
            assert(self.smoves() =~= old_moves.map_values(|p: PackedChessMove| p@).drop_last());
            assert forall|i: int| 0 <= i < self.moves@.len() implies #[trigger] self.moves@[i].valid() by {
                assert(self.moves@[i] == old_moves[i]);
            }
        }
        Some(packed.get())
    }

    /// Pushes a move into the end of the current move group.
    pub fn push_move(&mut self, chess_move: ChessMove)
        requires
            old(self).wf(),
            old(self).slens().len() > 0,
        ensures
            final(self).wf(),
            final(self).smoves() == old(self).smoves().push(chess_move),
            final(self).slens() == old(self).slens().update(old(self).slens().len() - 1, (old(self).slens().last() + 1) as usize),
    {
        let ghost old_lens = self.lens@;
        let ghost old_moves = self.moves@;
        self.moves.push(PackedChessMove::new(chess_move));
        let total = self.moves.len();
        let k = self.lens.len() - 1;
        proof {
            lemma_sum_lens_last(old_lens);
        }
        let len = self.lens[k];
        self.lens.set(k, len + 1);
        proof {
            assert(self.lens@.drop_last() =~= old_lens.drop_last());
            assert(self.smoves() =~= old_moves.map_values(|p: PackedChessMove| p@).push(chess_move));
            assert forall|i: int| 0 <= i < self.moves@.len() implies #[trigger] self.moves@[i].valid() by {
                if i < old_moves.len() {
                    assert(self.moves@[i] == old_moves[i]);
                }
            }
        }
    }

    /// Returns the moves of the current group, in place, so that they can be
    /// reordered. The list's moves become those before the group followed by
    /// the slice as the caller leaves it; the list stays well-formed when the
    /// slice keeps its length and holds valid moves.
    pub fn group_mut(&mut self) -> (r: &mut [PackedChessMove])
        requires
            old(self).wf(),
            old(self).slens().len() > 0,
        ensures
            r@.map_values(|p: PackedChessMove| p@) == old(self).smoves().subrange(
                old(self).smoves().len() - old(self).slens().last(),
                old(self).smoves().len() as int,
            ),
            final(self).slens() == old(self).slens(),
            final(self).smoves() == old(self).smoves().subrange(
                0,
                old(self).smoves().len() - old(self).slens().last(),
            ) + final(r)@.map_values(|p: PackedChessMove| p@),
            (final(r)@.len() == r@.len() && forall|i: int| 0 <= i < final(r)@.len() ==> #[trigger] final(r)@[i].valid())
                ==> final(self).wf(),
    {
        proof {
            lemma_sum_lens_last(self.lens@);
        }
        let end = self.moves.len();
        let start = end - self.lens[self.lens.len() - 1];
        let ghost before = self.moves@;
        let slice = self.moves.as_mut_slice();
        let (head, group) = slice.split_at_mut(start);
        proof {
            assert(group@.map_values(|p: PackedChessMove| p@) =~= before.map_values(|p: PackedChessMove| p@).subrange(
                start as int,
                end as int,
            ));
        }
        group
    }

    /// Discards the current move group and its moves, restoring the group
    /// before it (if any).
    pub fn pop_group(&mut self)
        requires
            old(self).wf(),
            old(self).slens().len() > 0,
        ensures
            final(self).wf(),
            final(self).slens() == old(self).slens().drop_last(),
            final(self).smoves() == old(self).smoves().subrange(0, old(self).smoves().len() - old(self).slens().last()),
    {
        let ghost old_moves = self.moves@;
        let len = self.lens.pop().unwrap();
        proof {
            lemma_sum_lens_last(old(self).lens@);
        }
        self.moves.truncate(self.moves.len() - len);
        proof {
            assert(self.smoves() =~= old_moves.map_values(|p: PackedChessMove| p@).subrange(0, old_moves.len() - len));
            assert forall|i: int| 0 <= i < self.moves@.len() implies #[trigger] self.moves@[i].valid() by {
                assert(self.moves@[i] == old_moves[i]);
            }
        }
    }

    /// Saves the old move group (if any) and starts a new, empty one.
    pub fn push_group(&mut self)
        requires
            old(self).wf(),
        ensures
            final(self).wf(),
            final(self).slens() == old(self).slens().push(0),
            final(self).smoves() == old(self).smoves(),
    {
        let ghost old_lens = self.lens@;
        self.lens.push(0);
        proof {
            assert(self.lens@.drop_last() =~= old_lens);
        }
    }
}

/// The current group is a stack: pushing a move and popping one gives the
/// move back and the list as it was.
pub proof fn lemma_push_then_pop(l0: MoveList, m: ChessMove, l1: MoveList, r: Option<ChessMove>, l2: MoveList)
    requires
        l0.slens().len() > 0,
        l1.smoves() == l0.smoves().push(m),
        l1.slens().len() == l0.slens().len(),
        l1.slens().drop_last() == l0.slens().drop_last(),
        l1.slens().last() == l0.slens().last() + 1,
        r == Some(l1.smoves().last()),
        l2.smoves() == l1.smoves().drop_last(),
        l2.slens() == l1.slens().update(l1.slens().len() - 1, (l1.slens().last() - 1) as usize),
    ensures
        r == Some(m),
        l2.smoves() == l0.smoves(),
        l2.slens() == l0.slens(),
{
    assert(l2.smoves() =~= l0.smoves());
    assert forall|i: int| 0 <= i < l0.slens().len() - 1 implies l2.slens()[i] == l0.slens()[i] by {
        assert(l1.slens().drop_last()[i] == l1.slens()[i]);
        assert(l0.slens().drop_last()[i] == l0.slens()[i]);
    }
    assert(l2.slens() =~= l0.slens());
}

/// Starting a group and discarding it again gives the list as it was.
pub proof fn lemma_push_then_pop_group(l0: MoveList, l1: MoveList, l2: MoveList)
    requires
        l1.slens() == l0.slens().push(0),
        l1.smoves() == l0.smoves(),
        l2.slens() == l1.slens().drop_last(),
        l2.smoves() == l1.smoves().subrange(0, l1.smoves().len() - l1.slens().last()),
    ensures
        l2.smoves() == l0.smoves(),
        l2.slens() == l0.slens(),
{
    assert(l2.smoves() =~= l0.smoves());
    assert(l2.slens() =~= l0.slens());
}

/// The current group of a well-formed list holds no more moves than the
/// whole list.
pub proof fn lemma_last_group_fits(l: MoveList)
    requires
        l.wf(),
        l.slens().len() > 0,
    ensures
        l.smoves().len() >= l.slens().last(),
{
    lemma_sum_lens_last(l.lens@);
}

/// The last group is no longer than all the groups together, and every group
/// length is bounded by the sum.
proof fn lemma_sum_lens_last(lens: Seq<usize>)
    requires
        lens.len() > 0,
    ensures
        lens.last() <= sum_lens(lens),
        sum_lens(lens.drop_last()) >= 0,
{
    lemma_sum_lens_nonneg(lens.drop_last());
}

proof fn lemma_sum_lens_nonneg(lens: Seq<usize>)
    ensures
        sum_lens(lens) >= 0,
    decreases lens.len(),
{
    if lens.len() > 0 {
        lemma_sum_lens_nonneg(lens.drop_last());
    }
}

} // verus!
