//! The base end of a floating machine: the leading coordinates a held base occupies, and the joint block
//! it leaves behind. Every quantity a realization reads is sliced by the same split, and the command is
//! assembled with the split it was read with.

use vstd::prelude::*;

verus! {

/// `len` rows of `v` starting at row `from`, with `pad` wherever `v` has run out.
pub open spec fn rows_from<T>(v: Seq<T>, from: int, len: nat, pad: T) -> Seq<T> {
    Seq::new(len, |i: int| if 0 <= from + i < v.len() { v[from + i] } else { pad })
}

/// The first `len` entries of `x`, padded with `pad` past its end.
pub fn fill<T: Copy>(x: &[T], len: usize, pad: T) -> (out: Vec<T>)
    ensures
        out@ == rows_from(x@, 0, len as nat, pad),
        out@.len() == len,
        forall|i: int| 0 <= i < len ==> #[trigger] out@[i] == (if i < x@.len() { x@[i] } else { pad }),
{
    let mut out: Vec<T> = Vec::with_capacity(len);
    let mut i: usize = 0;
    while i < len
        invariant
            i <= len,
            out@ == rows_from(x@, 0, i as nat, pad),
        decreases len - i,
    {
        let e = if i < x.len() { x[i] } else { pad };
        out.push(e);
        i += 1;
        assert(out@ =~= rows_from(x@, 0, i as nat, pad));
    }
    out
}

/// A row-major grid reaches at least `rows` rows of at least `cols` entries each.
pub open spec fn covers<T>(m: Seq<Vec<T>>, rows: nat, cols: nat) -> bool {
    &&& m.len() >= rows
    &&& forall|i: int| 0 <= i < rows ==> #[trigger] m[i]@.len() >= cols
}

/// The `rows` x `cols` block of a grid whose top-left entry is `(r0, c0)`.
pub open spec fn block<T>(m: Seq<Vec<T>>, r0: int, c0: int, rows: nat, cols: nat) -> Seq<Seq<T>> {
    Seq::new(rows, |i: int| Seq::new(cols, |j: int| m[r0 + i]@[c0 + j]))
}

/// The rows of a grid, each taken by its own view.
pub open spec fn grid_view<T>(m: Seq<Vec<T>>) -> Seq<Seq<T>> {
    Seq::new(m.len(), |i: int| m[i]@)
}

fn block_of<T: Copy>(m: &Vec<Vec<T>>, r0: usize, c0: usize, rows: usize, cols: usize) -> (out: Vec<
    Vec<T>,
>)
    requires
        r0 + rows <= usize::MAX,
        c0 + cols <= usize::MAX,
        covers(m@, (r0 + rows) as nat, (c0 + cols) as nat),
    ensures
        grid_view(out@) == block(m@, r0 as int, c0 as int, rows as nat, cols as nat),
        out@.len() == rows,
        forall|i: int| 0 <= i < rows ==> (#[trigger] out@[i])@.len() == cols,
        forall|i: int, j: int|
            0 <= i < rows && 0 <= j < cols ==> #[trigger] out@[i]@[j] == m@[r0 + i]@[c0 + j],
{
    let mut out: Vec<Vec<T>> = Vec::with_capacity(rows);
    let mut i: usize = 0;
    while i < rows
        invariant
            i <= rows,
            r0 + rows <= usize::MAX,
            c0 + cols <= usize::MAX,
            covers(m@, (r0 + rows) as nat, (c0 + cols) as nat),
            grid_view(out@) == block(m@, r0 as int, c0 as int, i as nat, cols as nat),
        decreases rows - i,
    {
        let src = &m[r0 + i];
        assert(m@[r0 + i]@.len() >= c0 + cols);
        let mut row: Vec<T> = Vec::with_capacity(cols);
        let mut j: usize = 0;
        while j < cols
            invariant
                j <= cols,
                c0 + cols <= src@.len(),
                c0 + cols <= usize::MAX,
                row@ == Seq::new(j as nat, |k: int| src@[c0 + k]),
            decreases cols - j,
        {
            row.push(src[c0 + j]);
            j += 1;
            assert(row@ =~= Seq::new(j as nat, |k: int| src@[c0 + k]));
        }
        let ghost prev = out@;
        out.push(row);
        i += 1;
        assert(grid_view(out@) =~= grid_view(prev).push(row@));
        assert(grid_view(out@) =~= block(m@, r0 as int, c0 as int, i as nat, cols as nat));
    }
    assert forall|a: int| 0 <= a < rows implies (#[trigger] out@[a])@.len() == cols && forall|
        j: int,
    | 0 <= j < cols ==> out@[a]@[j] == m@[r0 + a]@[c0 + j] by {
        assert(grid_view(out@)[a] == out@[a]@);
    }
    out
}

/// The leading `nb` of an `n`-coordinate machine, read as a base the loop holds.
#[derive(Clone, Copy, Debug, PartialEq, Eq, Structural)]
pub struct HeldBase {
    /// how many leading coordinates are the base pose
    pub nb: usize,
    /// the machine's coordinate count, the base included
    pub n: usize,
}

impl HeldBase {
    /// A held base is a prefix of the coordinates.
    pub open spec fn wf(&self) -> bool {
        self.nb <= self.n
    }

    /// The joint count as a number: everything but the base.
    pub open spec fn joints(&self) -> nat {
        (self.n - self.nb) as nat
    }

    pub fn new(nb: usize, n: usize) -> (h: HeldBase)
        requires
            nb <= n,
        ensures
            h.nb == nb,
            h.n == n,
            h.wf(),
    {
        HeldBase { nb, n }
    }

    /// The coordinates the law is written in: everything but the base.
    pub fn nj(&self) -> (k: usize)
        requires
            self.wf(),
        ensures
            k == self.joints(),
    {
        self.n - self.nb
    }

    /// M_jj, the joint block: a held base's acceleration is zero, so its rows leave the joint equation
    /// and the inertia that multiplies the joint accelerations is exactly this block.
    pub fn joint_block<T: Copy>(&self, m: &Vec<Vec<T>>) -> (out: Vec<Vec<T>>)
        requires
            self.wf(),
            covers(m@, self.n as nat, self.n as nat),
        ensures
            grid_view(out@) == block(m@, self.nb as int, self.nb as int, self.joints(), self.joints()),
            out@.len() == self.n - self.nb,
            forall|i: int| 0 <= i < self.n - self.nb ==> (#[trigger] out@[i])@.len() == self.n - self.nb,
            forall|i: int, j: int|
                0 <= i < self.n - self.nb && 0 <= j < self.n - self.nb ==> #[trigger] out@[i]@[j]
                    == m@[self.nb + i]@[self.nb + j],
    {
        let nj = self.nj();
        block_of(m, self.nb, self.nb, nj, nj)
    }

    /// The joint columns of a task Jacobian: a base that does not move contributes no task motion.
    pub fn joint_cols<T: Copy>(&self, a: &Vec<Vec<T>>) -> (out: Vec<Vec<T>>)
        requires
            self.wf(),
            covers(a@, a@.len(), self.n as nat),
        ensures
            grid_view(out@) == block(a@, 0, self.nb as int, a@.len(), self.joints()),
            out@.len() == a@.len(),
            forall|i: int| 0 <= i < a@.len() ==> (#[trigger] out@[i])@.len() == self.n - self.nb,
            forall|i: int, j: int|
                0 <= i < a@.len() && 0 <= j < self.n - self.nb ==> #[trigger] out@[i]@[j]
                    == a@[i]@[self.nb + j],
    {
        let nj = self.nj();
        block_of(a, 0, self.nb, a.len(), nj)
    }

    /// M_bj, the joint columns of the base's rows: the coupling the held base's wrench has to cancel.
    pub fn base_coupling<T: Copy>(&self, m: &Vec<Vec<T>>) -> (out: Vec<Vec<T>>)
        requires
            self.wf(),
            covers(m@, self.nb as nat, self.n as nat),
        ensures
            grid_view(out@) == block(m@, 0, self.nb as int, self.nb as nat, self.joints()),
            out@.len() == self.nb,
            forall|i: int| 0 <= i < self.nb ==> (#[trigger] out@[i])@.len() == self.n - self.nb,
            forall|i: int, j: int|
                0 <= i < self.nb && 0 <= j < self.n - self.nb ==> #[trigger] out@[i]@[j]
                    == m@[i]@[self.nb + j],
    {
        let nj = self.nj();
        block_of(m, 0, self.nb, self.nb, nj)
    }

    /// Rows `nb..n` of a full-coordinate vector: the joint part of a bias, a velocity, a limit.
    pub fn tail<T: Copy>(&self, v: &[T], pad: T) -> (out: Vec<T>)
        requires
            self.wf(),
        ensures
            out@ == rows_from(v@, self.nb as int, self.joints(), pad),
            out@.len() == self.n - self.nb,
            forall|k: int|
                0 <= k < self.n - self.nb ==> #[trigger] out@[k] == (if self.nb + k < v@.len() {
                    v@[self.nb + k]
                } else {
                    pad
                }),
    {
        let mut out: Vec<T> = Vec::with_capacity(self.n - self.nb);
        let mut i: usize = self.nb;
        while i < self.n
            invariant
                self.nb <= i <= self.n,
                out@ == rows_from(v@, self.nb as int, (i - self.nb) as nat, pad),
            decreases self.n - i,
        {
            let e = if i < v.len() { v[i] } else { pad };
            out.push(e);
            i += 1;
            assert(out@ =~= rows_from(v@, self.nb as int, (i - self.nb) as nat, pad));
        }
        out
    }

    /// Rows `..nb`: the base part of the same vector.
    pub fn head<T: Copy>(&self, v: &[T], pad: T) -> (out: Vec<T>)
        ensures
            out@ == rows_from(v@, 0, self.nb as nat, pad),
            out@.len() == self.nb,
            forall|k: int| 0 <= k < self.nb ==> #[trigger] out@[k] == (if k < v@.len() { v@[k] } else { pad }),
    {
        fill(v, self.nb, pad)
    }

    /// The command in the machine's own coordinates: the base's rows, then the joints'; a short side
    /// leaves `pad` in the rows it does not reach.
    pub fn assemble<T: Copy>(&self, base: &[T], joints: &[T], pad: T) -> (out: Vec<T>)
        requires
            self.wf(),
        ensures
            out@ == rows_from(base@, 0, self.nb as nat, pad) + rows_from(
                joints@,
                0,
                self.joints(),
                pad,
            ),
            out@.len() == self.n,
            forall|i: int|
                0 <= i < self.nb ==> #[trigger] out@[i] == (if i < base@.len() { base@[i] } else { pad }),
            forall|i: int|
                self.nb <= i < self.n ==> #[trigger] out@[i] == (if i - self.nb < joints@.len() {
                    joints@[i - self.nb]
                } else {
                    pad
                }),
    {
        let mut out = self.head(base, pad);
        let mut k: usize = 0;
        let nj = self.nj();
        while k < nj
            invariant
                nj == self.joints(),
                k <= nj,
                out@ == rows_from(base@, 0, self.nb as nat, pad) + rows_from(
                    joints@,
                    0,
                    k as nat,
                    pad,
                ),
            decreases nj - k,
        {
            let e = if k < joints.len() { joints[k] } else { pad };
            out.push(e);
            k += 1;
            assert(out@ =~= rows_from(base@, 0, self.nb as nat, pad) + rows_from(
                joints@,
                0,
                k as nat,
                pad,
            ));
        }
        out
    }
}

/// Splitting a full-coordinate vector into its base and joint rows and assembling the two again gives
/// the vector back, padded to the machine's coordinate count: the command is assembled with the same
/// split it was read with.
pub proof fn lemma_assemble_undoes_split<T>(h: HeldBase, v: Seq<T>, pad: T)
    requires
        h.wf(),
    ensures
        rows_from(rows_from(v, 0, h.nb as nat, pad), 0, h.nb as nat, pad) + rows_from(
            rows_from(v, h.nb as int, h.joints(), pad),
            0,
            h.joints(),
            pad,
        ) == rows_from(v, 0, h.n as nat, pad),
{
    assert(rows_from(rows_from(v, 0, h.nb as nat, pad), 0, h.nb as nat, pad) + rows_from(
        rows_from(v, h.nb as int, h.joints(), pad),
        0,
        h.joints(),
        pad,
    ) =~= rows_from(v, 0, h.n as nat, pad));
}

/// Reading the base and joint rows back out of an assembled command gives exactly the base rows and
/// the joint rows it was assembled from, each padded to its own length.
pub proof fn lemma_split_undoes_assemble<T>(h: HeldBase, base: Seq<T>, joints: Seq<T>, pad: T)
    requires
        h.wf(),
    ensures
        ({
            let cmd = rows_from(base, 0, h.nb as nat, pad) + rows_from(joints, 0, h.joints(), pad);
            &&& rows_from(cmd, 0, h.nb as nat, pad) == rows_from(base, 0, h.nb as nat, pad)
            &&& rows_from(cmd, h.nb as int, h.joints(), pad) == rows_from(joints, 0, h.joints(), pad)
        }),
{
    let cmd = rows_from(base, 0, h.nb as nat, pad) + rows_from(joints, 0, h.joints(), pad);
    assert(rows_from(cmd, 0, h.nb as nat, pad) =~= rows_from(base, 0, h.nb as nat, pad));
    assert(rows_from(cmd, h.nb as int, h.joints(), pad) =~= rows_from(joints, 0, h.joints(), pad));
}

/// Entry (i, j) of a block is the grid's entry (r0 + i, c0 + j), for every corner and shape.
pub proof fn lemma_block_entries<T>(m: Seq<Vec<T>>, r0: int, c0: int, rows: nat, cols: nat)
    ensures
        block(m, r0, c0, rows, cols).len() == rows,
        forall|i: int| 0 <= i < rows ==> #[trigger] block(m, r0, c0, rows, cols)[i].len() == cols,
        forall|i: int, j: int|
            0 <= i < rows && 0 <= j < cols ==> #[trigger] block(m, r0, c0, rows, cols)[i][j] == m[r0
                + i]@[c0 + j],
{
}

/// The joint block of a mass matrix is the joint columns of its joint rows: reading M_jj directly
/// and reading the joint columns of rows `nb..n` as if they were a task Jacobian agree.
pub proof fn lemma_joint_block_is_joint_columns_of_joint_rows<T>(h: HeldBase, m: Seq<Vec<T>>)
    requires
        h.wf(),
        m.len() >= h.n,
    ensures
        block(m, h.nb as int, h.nb as int, h.joints(), h.joints()) == block(
            m.skip(h.nb as int),
            0,
            h.nb as int,
            h.joints(),
            h.joints(),
        ),
{
    assert(block(m, h.nb as int, h.nb as int, h.joints(), h.joints()) =~~= block(
        m.skip(h.nb as int),
        0,
        h.nb as int,
        h.joints(),
        h.joints(),
    ));
}

/// Row k of `rows_from(v, from, len, pad)` is row `from + k` of `v` where `v` has one, and `pad`
/// elsewhere.
pub proof fn lemma_rows_from_entries<T>(v: Seq<T>, from: int, len: nat, pad: T)
    ensures
        rows_from(v, from, len, pad).len() == len,
        forall|k: int|
            0 <= k < len ==> #[trigger] rows_from(v, from, len, pad)[k] == (if 0 <= from + k
                < v.len() {
                v[from + k]
            } else {
                pad
            }),
{
}

} // verus!
