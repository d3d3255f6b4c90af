//! The triangular table that collects the principal variation during search.

use vstd::prelude::*;

use crate::movegen::{ChessMove, PackedChessMove};

verus! {

/// The `n`th triangular number.
pub open spec fn tri(n: int) -> int {
    n * (n + 1) / 2
}

/// The triangular numbers grow by `n + 1` from `n` to `n + 1`.
proof fn lemma_tri_step(n: int)
    requires
        n >= 0,
    ensures
        tri(n + 1) == tri(n) + n + 1,
        tri(n) >= 0,
{
    assert((n + 1) * (n + 2) == n * (n + 1) + 2 * (n + 1)) by (nonlinear_arith);
    assert(n * (n + 1) >= 0) by (nonlinear_arith)
        requires
            n >= 0,
    ;
}

/// The triangular numbers are monotonic.
proof fn lemma_tri_mono(a: int, b: int)
    requires
        0 <= a <= b,
    ensures
        tri(a) <= tri(b),
    decreases b - a,
{
    if a < b {
        lemma_tri_mono(a, b - 1);
        lemma_tri_step(b - 1);
    } else {
    }
}

/// Returns the `n`th triangular number.
fn trnum(n: usize) -> (r: usize)
    requires
        tri(n as int) <= usize::MAX,
    ensures
        r == tri(n as int),
    decreases n,
{
    if n == 0 {
        return 0;
    }
    proof {
        lemma_tri_step(n - 1);
        lemma_tri_mono(0, n - 1);
    }
    let prev = trnum(n - 1);
    prev + n
}

/// Table that is used to collect the [Principal Variation] during the search:
/// the variation found at ply `p` is kept in the row of depth
/// `capacity - 1 - p`, which starts at the triangular number of the depth.
///
/// [Principal Variation]: https://www.chessprogramming.org/Principal_Variation
#[derive(Debug, Clone)]
pub struct PvTable {
    ply_capacity: usize,
    ply_len: usize,
    data: Vec<Option<PackedChessMove>>,
}

impl PvTable {
    /// The capacity in plies.
    pub closed spec fn scapacity(self) -> nat {
        self.ply_capacity as nat
    }

    /// The length in plies of the stored variation.
    pub closed spec fn slen(self) -> nat {
        self.ply_len as nat
    }

    /// The stored moves, row after row.
    pub closed spec fn sdata(self) -> Seq<Option<ChessMove>> {
        self.data@.map_values(|p: Option<PackedChessMove>| match p {
            Some(m) => Some(m@),
            None => None,
        })
    }

    /// The table has room for all its rows, and the stored moves are valid.
    pub closed spec fn wf(self) -> bool {
        &&& self.data@.len() == tri(self.ply_capacity as int)
        &&& forall|i: int| 0 <= i < self.data@.len() ==> (#[trigger] self.data@[i] matches Some(p) ==> p.valid())
    }

    /// Creates a new table that can hold a PV up to a specified number of plies (moves).
    pub fn new(ply_capacity: usize) -> (r: Self)
        requires
            tri(ply_capacity as int) <= usize::MAX,
        ensures
            r.wf(),
            r.scapacity() == ply_capacity,
            r.slen() == 0,
            r.sdata() == Seq::new(tri(ply_capacity as int) as nat, |i: int| None::<ChessMove>),
    {
        let n = trnum(ply_capacity);
        let mut data: Vec<Option<PackedChessMove>> = Vec::new();
        while data.len() < n
            invariant
                data@.len() <= n,
                forall|i: int| 0 <= i < data@.len() ==> #[trigger] data@[i] is None,
            decreases n - data@.len(),
        {
            data.push(None);
        }
        let r = Self { ply_capacity, ply_len: 0, data };
        proof {
            assert(r.sdata() =~= Seq::new(tri(ply_capacity as int) as nat, |i: int| None::<ChessMove>));
        }
        r
    }

    /// Return the maximum PV length (in plies), that this table can hold.
    pub fn pv_capacity(&self) -> (r: usize)
        ensures
            r == self.scapacity(),
    {
        self.ply_capacity
    }

    /// Returns the current length (in plies) of the PV stored in the table.
    pub fn pv_len(&self) -> (r: usize)
        ensures
            r == self.slen(),
    {
        self.ply_len
    }

    /// Copies the row of the other table at the specified ply, as far as this
    /// table's variation reaches.
    pub fn copy_ply(&mut self, other: &Self, ply: usize)
        requires
            old(self).wf(),
            other.wf(),
            old(self).scapacity() == other.scapacity(),
            ply < other.slen(),
            ply < old(self).slen(),
            old(self).slen() <= old(self).scapacity(),
        ensures
            final(self).wf(),
            final(self).scapacity() == old(self).scapacity(),
            final(self).slen() == old(self).slen(),
            ({
                let start = tri(old(self).scapacity() - 1 - ply);
                let count = old(self).slen() - ply;
                final(self).sdata() == Seq::new(
                    old(self).sdata().len(),
                    |i: int| if start <= i < start + count { other.sdata()[i] } else { old(self).sdata()[i] },
                )
            }),
    {
        let total = self.data.len();
        let depth = (self.ply_capacity - 1) - ply;
        proof {
            lemma_tri_step(depth as int);
            lemma_tri_mono(depth + 1, self.ply_capacity as int);
        }
        let start = trnum(depth);
        let count = depth - (self.ply_capacity - self.ply_len) + 1;
        let ghost old_data = self.data@;
        let mut i: usize = 0;
        while i < count
            invariant
                i <= count,
                count == self.ply_len - ply,
                self.ply_len == old(self).ply_len,
                self.ply_capacity == old(self).ply_capacity,
                depth == self.ply_capacity - 1 - ply,
                start == tri(depth as int),
                start + count <= self.data@.len(),
                self.data@.len() == total,
                self.data@.len() == old_data.len(),
                self.data@.len() == other.data@.len(),
                forall|j: int| 0 <= j < other.data@.len() ==> (#[trigger] other.data@[j] matches Some(p) ==> p.valid()),
                forall|j: int| 0 <= j < old_data.len() ==> (#[trigger] old_data[j] matches Some(p) ==> p.valid()),
                forall|j: int| 0 <= j < self.data@.len() ==> #[trigger] self.data@[j] == if start <= j < start + i {
                    other.data@[j]
                } else {
                    old_data[j]
                },
            decreases count - i,
        {
            let item = other.data[start + i];
            self.data.set(start + i, item);
            i = i + 1;
        }
        proof {
            assert forall|j: int| 0 <= j < self.data@.len() implies (#[trigger] self.data@[j] matches Some(p) ==> p.valid()) by {
                if start <= j < start + count {
                    assert(other.data@[j] matches Some(p) ==> p.valid());
                } else {
                    assert(old_data[j] matches Some(p) ==> p.valid());
                }
            }
            let start_i = tri(self.ply_capacity - 1 - ply);
            assert(start_i == start);
            assert forall|j: int| 0 <= j < self.data@.len() implies #[trigger] self.sdata()[j] == (if start_i <= j < start_i + count { other.sdata()[j] } else { old(self).sdata()[j] }) by {
                assert(self.data@[j] == if start <= j < start + count { other.data@[j] } else { old_data[j] });
            }
            assert(self.sdata() =~= Seq::new(
                old(self).sdata().len(),
                |j: int| if start_i <= j < start_i + count { other.sdata()[j] } else { old(self).sdata()[j] },
            ));
        }
    }

    /// Stores the PV move for the specified ply, followed by the variation of
    /// the next ply.
    pub fn store(&mut self, chess_move: ChessMove, ply: usize)
        requires
            old(self).wf(),
            ply < old(self).scapacity(),
            ply <= old(self).slen(),
            old(self).slen() <= old(self).scapacity(),
        ensures
            final(self).wf(),
            final(self).scapacity() == old(self).scapacity(),
            final(self).slen() == (if ply == old(self).slen() { old(self).slen() + 1int } else { old(self).slen() as int }),
            ({
                let depth = old(self).scapacity() - 1 - ply;
                let start = tri(depth);
                let count = final(self).slen() - ply - 1;
                final(self).sdata() == Seq::new(
                    old(self).sdata().len(),
                    |i: int| if i == start {
                        Some(chess_move)
                    } else if start + 1 <= i < start + 1 + count {
                        old(self).sdata()[i - start - 1 + tri(depth - 1)]
                    } else {
                        old(self).sdata()[i]
                    },
                )
            }),
    {
        if ply == self.ply_len {
            self.ply_len = self.ply_len + 1;
        }
        let total = self.data.len();
        let depth = (self.ply_capacity - 1) - ply;
        proof {
            lemma_tri_step(depth as int);
            lemma_tri_mono(depth + 1, self.ply_capacity as int);
            if depth > 0 {
                lemma_tri_step(depth - 1);
            }
        }
        let start = trnum(depth);
        let ghost old_data = self.data@;
        let packed = PackedChessMove::new(chess_move);
        self.data.set(start, Some(packed));
        let count = depth - (self.ply_capacity - self.ply_len);
        let mut i: usize = 0;
        while i < count
            invariant
                i <= count,
                count == self.ply_len - ply - 1,
                self.ply_capacity == old(self).ply_capacity,
                self.ply_len == (if ply == old(self).ply_len { old(self).ply_len + 1 } else { old(self).ply_len as int }),
                depth == self.ply_capacity - 1 - ply,
                start == tri(depth as int),
                depth > 0 ==> start - depth == tri(depth - 1),
                count <= depth,
                start + 1 + count <= self.data@.len(),
                self.data@.len() == total,
                self.data@.len() == old_data.len(),
                forall|j: int| 0 <= j < old_data.len() ==> (#[trigger] old_data[j] matches Some(p) ==> p.valid()),
                self.data@[start as int] == Some(packed),
                packed@ == chess_move,
                packed.valid(),
                forall|j: int| 0 <= j < self.data@.len() && j != start ==> #[trigger] self.data@[j] == if start + 1 <= j
                    < start + 1 + i {
                    old_data[j - start - 1 + start - depth]
                } else {
                    old_data[j]
                },
            decreases count - i,
        {
            let item = self.data[start - depth + i];
            self.data.set(start + 1 + i, item);
            i = i + 1;
        }
        proof {
            let d = depth as int;
            assert(self.sdata() =~= Seq::new(
                old(self).sdata().len(),
                |j: int| if j == start {
                    Some(chess_move)
                } else if start + 1 <= j < start + 1 + count {
                    old(self).sdata()[j - start - 1 + tri(d - 1)]
                } else {
                    old(self).sdata()[j]
                },
            ));
        }
    }

    /// Returns the largest PV that is currently stored in the table: the
    /// moves of the row of ply `0`.
    pub fn pv(&self) -> (r: Vec<ChessMove>)
        requires
            self.wf(),
            self.slen() <= self.scapacity(),
            forall|i: int|
                pv_start(self.scapacity() as int) <= i < pv_start(self.scapacity() as int) + self.slen() ==> #[trigger] self.sdata()[i] is Some,
        ensures
            r@ == Seq::new(self.slen(), |i: int| self.sdata()[pv_start(self.scapacity() as int) + i].unwrap()),
    {
        let total = self.data.len();
        let len = self.ply_len;
        let cap = self.ply_capacity;
        let s = if cap == 0 { 0 } else { cap - 1 };
        proof {
            lemma_tri_step(s as int);
        }
        let start = trnum(s);
        let mut r: Vec<ChessMove> = Vec::new();
        let mut i: usize = 0;
        while i < len
            invariant
                i <= len,
                len == self.ply_len,
                self.ply_len <= self.ply_capacity,
                start + len <= self.data@.len(),
                self.data@.len() == total,
                start == pv_start(self.ply_capacity as int),
                self.wf(),
                forall|k: int| start <= k < start + len ==> #[trigger] self.sdata()[k] is Some,
                r@ == Seq::new(i as nat, |k: int| self.sdata()[start + k].unwrap()),
            decreases len - i,
        {
            let item = self.data[start + i];
            proof {
                assert(self.sdata()[start + i] is Some);
            }
            let m = item.unwrap().get();
            r.push(m);
            proof {
                assert(r@ =~= Seq::new((i + 1) as nat, |k: int| self.sdata()[start + k].unwrap()));
            }
            i = i + 1;
        }
        r
    }

    /// Forgets PVs that are stored in the table with the ply index
    /// greater than or equal to the specified one.
    pub fn clear(&mut self, ply: usize)
        requires
            old(self).wf(),
        ensures
            final(self).wf(),
            final(self).slen() == ply,
            final(self).scapacity() == old(self).scapacity(),
            final(self).sdata() == old(self).sdata(),
    {
        self.ply_len = ply;
    }
}

/// Where the row of ply `0`, the principal variation, starts in a table of
/// `cap` plies.
pub open spec fn pv_start(cap: int) -> int {
    if cap == 0 {
        0
    } else {
        tri(cap - 1)
    }
}

/// The cells from `start` on moved one place towards the start over a run
/// of `l` cells (the last cell of the run keeps its value).
pub open spec fn shift_left<A>(d: Seq<A>, start: int, l: int) -> Seq<A> {
    Seq::new(d.len(), |i: int| if start <= i < start + l - 1 { d[i + 1] } else { d[i] })
}

/// The rows of plies `0` to `k - 1` shifted one after the other, the row of
/// ply `p` (in a table of `cap` plies) starting at the triangular number of
/// `cap - 1 - p` and running over `len - p` cells.
pub open spec fn shift_rows<A>(d: Seq<A>, cap: int, len: int, k: int) -> Seq<A>
    decreases k,
{
    if k <= 0 {
        d
    } else {
        shift_left(shift_rows(d, cap, len, k - 1), tri(cap - 1 - (k - 1)), len - (k - 1))
    }
}

/// The row of ply `p` of a variation of length `len` in a table of `cap`
/// plies fits in the table.
proof fn lemma_row_fits(p: int, len: int, cap: int)
    requires
        0 <= p < len <= cap,
    ensures
        0 <= tri(cap - 1 - p),
        tri(cap - 1 - p) + (len - p) <= tri(cap),
{
    lemma_tri_step(cap - 1 - p);
    lemma_tri_mono(cap - p, cap);
}

impl PvTable {
    /// Makes one step "into" the PV, reducing the overall ply length by one.
    pub fn apply_pv_move(&mut self)
        requires
            old(self).wf(),
            old(self).slen() <= old(self).scapacity(),
        ensures
            final(self).wf(),
            final(self).scapacity() == old(self).scapacity(),
            final(self).slen() == (if old(self).slen() == 0 { 0 } else { old(self).slen() - 1 }),
            final(self).sdata() == shift_rows(
                old(self).sdata(),
                old(self).scapacity() as int,
                old(self).slen() as int,
                old(self).slen() as int,
            ),
    {
        let total = self.data.len();
        let len = self.ply_len;
        let mut ply: usize = 0;
        proof {
            lemma_tri_mono(len as int, self.ply_capacity as int);
        }
        while ply < len
            invariant
                ply <= len,
                len == self.ply_len,
                len == old(self).ply_len,
                self.ply_capacity == old(self).ply_capacity,
                len <= self.ply_capacity,
                tri(len as int) <= tri(self.ply_capacity as int),
                self.data@.len() == total,
                self.wf(),
                self.sdata() == shift_rows(old(self).sdata(), self.ply_capacity as int, len as int, ply as int),
            decreases len - ply,
        {
            proof {
                lemma_row_fits(ply as int, len as int, self.ply_capacity as int);
            }
            let start = trnum(self.ply_capacity - 1 - ply);
            let l = len - ply;
            let ghost before = self.data@;
            let ghost before_s = self.sdata();
            let mut i: usize = 0;
            while i < l - 1
                invariant
                    l >= 1,
                    i <= l - 1,
                    l == len - ply,
                    start == tri(self.ply_capacity - 1 - ply),
                    start + l <= self.data@.len(),
                    self.data@.len() == total,
                    before.len() == total,
                    self.ply_capacity == old(self).ply_capacity,
                    self.ply_len == old(self).ply_len,
                    forall|j: int| 0 <= j < before.len() ==> (#[trigger] before[j] matches Some(p) ==> p.valid()),
                    forall|j: int| 0 <= j < self.data@.len() ==> #[trigger] self.data@[j] == if start <= j < start + i {
                        before[j + 1]
                    } else {
                        before[j]
                    },
                decreases l - i,
            {
                let item = self.data[start + i + 1];
                self.data.set(start + i, item);
                i = i + 1;
            }
            proof {
                assert forall|j: int| 0 <= j < self.data@.len() implies (#[trigger] self.data@[j] matches Some(p) ==> p.valid()) by {
                    if start <= j < start + i {
                        assert(before[j + 1] matches Some(p) ==> p.valid());
                    } else {
                        assert(before[j] matches Some(p) ==> p.valid());
                    }
                }
                assert forall|j: int| 0 <= j < self.data@.len() implies #[trigger] self.sdata()[j] == shift_left(before_s, start as int, l as int)[j] by {
                    assert(self.data@[j] == if start <= j < start + l - 1 { before[j + 1] } else { before[j] });
                }
                assert(self.sdata() =~= shift_left(before_s, start as int, l as int));
            }
            ply = ply + 1;
        }
        if self.ply_len > 0 {
            self.ply_len = self.ply_len - 1;
        }
    }
}

} // verus!
