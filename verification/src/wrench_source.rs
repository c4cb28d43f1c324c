//! Where the law's desired force is turned into a command: what may be written on the rows the law
//! does not span is a fact about the plant. A base with no actuator leaves its rows to the contact; a
//! held base's rows are the wrench the hold costs.

use vstd::prelude::*;
use crate::base::{rows_from, HeldBase};

verus! {

/// The shipped source: the machine drives every coordinate the law spans.
#[derive(Clone, Copy, Debug, Default)]
pub struct ActuatedJoints;

/// A bounded actuator at the base, which is the whole of what makes a machine a fixed one.
#[derive(Clone, Copy, Debug, Default)]
pub struct HeldBaseSource;

/// The joint part of a full-coordinate vector: rows `nb..` under a held base, every row otherwise.
pub open spec fn tail_of_spec<T>(hb: Option<HeldBase>, v: Seq<T>, pad: T) -> Seq<T> {
    match hb {
        Some(h) => rows_from(v, h.nb as int, h.joints(), pad),
        None => v,
    }
}

/// Rows `nb..` of a full-coordinate vector: the joint part of a bias, a weight, a velocity, a bound; a
/// machine with no base in its coordinates is every row.
pub fn tail_of<T: Copy>(hb: Option<HeldBase>, v: &[T], pad: T) -> (out: Vec<T>)
    requires
        hb matches Some(h) ==> h.wf(),
    ensures
        out@ == tail_of_spec(hb, v@, pad),
        hb is None ==> out@ == v@,
        hb matches Some(h) ==> out@.len() == h.n - h.nb && forall|k: int|
            0 <= k < h.n - h.nb ==> #[trigger] out@[k] == (if h.nb + k < v@.len() {
                v@[h.nb + k]
            } else {
                pad
            }),
{
    match hb {
        Some(h) => h.tail(v, pad),
        None => {
            let mut out: Vec<T> = Vec::with_capacity(v.len());
            let mut k: usize = 0;
            while k < v.len()
                invariant
                    k <= v@.len(),
                    out@ == v@.take(k as int),
                decreases v@.len() - k,
            {
                out.push(v[k]);
                k += 1;
                assert(out@ =~= v@.take(k as int));
            }
            assert(v@.take(v@.len() as int) =~= v@);
            out
        },
    }
}

/// What a machine's base end is, read off the leading rows of its actuator table: every base row
/// bounded is a held base; none bounded, or no table stated, is a base with no actuator, left to the
/// contact; a bound in some base directions and none in others is a machine the loop cannot read.
#[derive(Clone, Copy, Debug, PartialEq, Eq, Structural)]
pub enum BaseEnd {
    Free,
    Held,
    Unreadable,
}

/// The base end a table of per-row "bounded" flags over the base rows states; an empty table is one
/// that was not stated.
pub open spec fn base_end_of(bounded: Seq<bool>) -> BaseEnd {
    if forall|i: int| 0 <= i < bounded.len() ==> !#[trigger] bounded[i] {
        BaseEnd::Free
    } else if forall|i: int| 0 <= i < bounded.len() ==> #[trigger] bounded[i] {
        BaseEnd::Held
    } else {
        BaseEnd::Unreadable
    }
}

/// Reads the base end from whether each of the base's rows carries a bound: all of them is a held
/// base, none of them (or an empty table) is a free one, and a mix is unreadable.
pub fn base_end(bounded: &[bool]) -> (end: BaseEnd)
    ensures
        end == base_end_of(bounded@),
        (end == BaseEnd::Held) <==> (bounded@.len() > 0 && forall|i: int|
            0 <= i < bounded@.len() ==> #[trigger] bounded@[i]),
        (end == BaseEnd::Free) <==> forall|i: int| 0 <= i < bounded@.len() ==> !#[trigger] bounded@[i],
        (end == BaseEnd::Unreadable) <==> (exists|i: int| 0 <= i < bounded@.len() && #[trigger] bounded@[i])
            && (exists|j: int| 0 <= j < bounded@.len() && !#[trigger] bounded@[j]),
{
    let mut any = false;
    let mut all = true;
    let mut i: usize = 0;
    while i < bounded.len()
        invariant
            i <= bounded@.len(),
            any == (exists|k: int| 0 <= k < i && #[trigger] bounded@[k]),
            all == (forall|k: int| 0 <= k < i ==> #[trigger] bounded@[k]),
        decreases bounded@.len() - i,
    {
        if bounded[i] {
            any = true;
        } else {
            all = false;
        }
        i += 1;
    }
    proof {
        lemma_base_end_reads_every_row(bounded@);
    }
    if !any {
        BaseEnd::Free
    } else if all {
        BaseEnd::Held
    } else {
        BaseEnd::Unreadable
    }
}

impl BaseEnd {
    /// The held base of an `n`-coordinate machine whose leading `nb` rows are the base: only a held
    /// base end has one.
    pub fn held_base(&self, nb: usize, n: usize) -> (hb: Option<HeldBase>)
        requires
            nb <= n,
        ensures
            hb == (if *self == BaseEnd::Held {
                Some(HeldBase { nb, n })
            } else {
                None
            }),
    {
        match self {
            BaseEnd::Held => Some(HeldBase::new(nb, n)),
            _ => None,
        }
    }

    /// The leading rows left to the contact: none under a held base; all `nb` base rows otherwise,
    /// since an unreadable base end is read as having no actuator at all.
    pub fn free_rows(&self, nb: usize) -> (k: usize)
        ensures
            k == (if *self == BaseEnd::Held {
                0
            } else {
                nb
            }),
    {
        match self {
            BaseEnd::Held => 0,
            _ => nb,
        }
    }
}

impl ActuatedJoints {
    /// A base with no actuator declared is written by nobody: its leading `nfree` rows are left to the
    /// contact, and every other row keeps the command it had.
    pub fn leave_to_contact<T: Copy>(&self, tau: &mut Vec<T>, nfree: usize, zero: T)
        requires
            nfree <= old(tau)@.len(),
        ensures
            final(tau)@ == Seq::new(
                old(tau)@.len(),
                |i: int| if i < nfree { zero } else { old(tau)@[i] },
            ),
    {
        let mut i: usize = 0;
        while i < nfree
            invariant
                i <= nfree,
                nfree <= old(tau)@.len(),
                tau@ == Seq::new(
                    old(tau)@.len(),
                    |k: int| if k < i { zero } else { old(tau)@[k] },
                ),
            decreases nfree - i,
        {
            tau.set(i, zero);
            i += 1;
            assert(tau@ =~= Seq::new(
                old(tau)@.len(),
                |k: int| if k < i { zero } else { old(tau)@[k] },
            ));
        }
    }
}

/// The base end is held exactly when there is a base row and every one of them, the first included,
/// carries a bound; free exactly when none does; and unreadable exactly when one row is bounded and
/// another is not.
pub proof fn lemma_base_end_reads_every_row(bounded: Seq<bool>)
    ensures
        (base_end_of(bounded) == BaseEnd::Held) <==> (bounded.len() > 0 && forall|i: int|
            0 <= i < bounded.len() ==> #[trigger] bounded[i]),
        (base_end_of(bounded) == BaseEnd::Free) <==> forall|i: int|
            0 <= i < bounded.len() ==> !#[trigger] bounded[i],
        (base_end_of(bounded) == BaseEnd::Unreadable) <==> (exists|i: int|
            0 <= i < bounded.len() && #[trigger] bounded[i]) && (exists|j: int|
            0 <= j < bounded.len() && !#[trigger] bounded[j]),
{
    if bounded.len() > 0 && forall|i: int| 0 <= i < bounded.len() ==> #[trigger] bounded[i] {
        assert(bounded[0]);
    }
}

} // verus!
