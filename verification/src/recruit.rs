//! Minimal-authority-first recruitment: channels are taken in ascending order of their price, ties by
//! index so the answer is deterministic. A channel's price is carried here by an integer key that orders
//! the same way the price does.

use vstd::prelude::*;
use crate::numeral::{decimal, push_char, push_decimal};

verus! {

/// Channel `a` is recruited before channel `b`: a lower price, or the same price and a lower index.
pub open spec fn recruited_before(keys: Seq<u64>, a: usize, b: usize) -> bool {
    keys[a as int] < keys[b as int] || (keys[a as int] == keys[b as int] && a < b)
}

/// `r` lists every channel of the price table exactly once, in recruitment order.
pub open spec fn is_recruitment_order(keys: Seq<u64>, r: Seq<usize>) -> bool {
    &&& r.len() == keys.len()
    &&& forall|k: int| 0 <= k < r.len() ==> #[trigger] r[k] < keys.len()
    &&& forall|a: int, b: int|
        0 <= a < b < r.len() ==> recruited_before(keys, #[trigger] r[a], #[trigger] r[b])
    &&& forall|j: usize| j < keys.len() ==> #[trigger] r.contains(j)
}

/// The recruitment order of a price table: channel indices by ascending key, ties by index.
pub fn recruitment_order(keys: &[u64]) -> (r: Vec<usize>)
    ensures
        is_recruitment_order(keys@, r@),
        r@.len() == keys@.len(),
        forall|j: usize| j < keys@.len() ==> #[trigger] r@.contains(j),
        forall|a: int, b: int|
            0 <= a < b < r@.len() ==> keys@[#[trigger] r@[a] as int] <= keys@[#[trigger] r@[b] as int],
        forall|a: int, b: int|
            0 <= a < b < r@.len() && keys@[#[trigger] r@[a] as int] == keys@[#[trigger] r@[b] as int]
                ==> r@[a] < r@[b],
{
    let n = keys.len();
    let mut r: Vec<usize> = Vec::with_capacity(n);
    let mut i: usize = 0;
    while i < n
        invariant
            n == keys@.len(),
            i <= n,
            r@.len() == i,
            forall|k: int| 0 <= k < r@.len() ==> #[trigger] r@[k] < i,
            forall|a: int, b: int|
                0 <= a < b < r@.len() ==> recruited_before(keys@, #[trigger] r@[a], #[trigger] r@[b]),
            forall|j: usize| j < i ==> #[trigger] r@.contains(j),
        decreases n - i,
    {
        let ki = keys[i];
        let mut p: usize = 0;
        while p < r.len() && keys[r[p]] <= ki
            invariant
                n == keys@.len(),
                i < n,
                ki == keys@[i as int],
                p <= r@.len(),
                forall|k: int| 0 <= k < r@.len() ==> #[trigger] r@[k] < i,
                forall|q: int| 0 <= q < p ==> keys@[#[trigger] r@[q] as int] <= ki,
            decreases r@.len() - p,
        {
            p += 1;
        }
        let ghost old_r = r@;
        r.insert(p, i);
        proof {
            assert(r@ == old_r.insert(p as int, i));
            assert forall|k: int| 0 <= k < r@.len() implies #[trigger] r@[k] < i + 1 by {
                if k < p {
                    assert(r@[k] == old_r[k]);
                } else if k > p {
                    assert(r@[k] == old_r[k - 1]);
                }
            }
            assert forall|a: int, b: int| 0 <= a < b < r@.len() implies recruited_before(
                keys@,
                #[trigger] r@[a],
                #[trigger] r@[b],
            ) by {
                if b < p {
                    assert(r@[a] == old_r[a] && r@[b] == old_r[b]);
                } else if b == p {
                    assert(r@[a] == old_r[a]);
                    assert(keys@[old_r[a] as int] <= ki);
                } else if a == p {
                    assert(r@[b] == old_r[b - 1]);
                    assert(p < old_r.len());
                    assert(keys@[old_r[p as int] as int] > ki);
                    if b - 1 > p {
                        assert(recruited_before(keys@, old_r[p as int], old_r[b - 1]));
                    }
                } else if a < p {
                    assert(r@[a] == old_r[a] && r@[b] == old_r[b - 1]);
                } else {
                    assert(r@[a] == old_r[a - 1] && r@[b] == old_r[b - 1]);
                }
            }
            assert forall|j: usize| j < i + 1 implies #[trigger] r@.contains(j) by {
                if j == i {
                    assert(r@[p as int] == i);
                } else {
                    assert(old_r.contains(j));
                    let k = choose|k: int| 0 <= k < old_r.len() && old_r[k] == j;
                    if k < p {
                        assert(r@[k] == j);
                    } else {
                        assert(r@[k + 1] == j);
                    }
                }
            }
        }
        i += 1;
    }
    proof {
        lemma_recruitment_order_ascends(keys@, r@);
    }
    r
}

proof fn lemma_orders_agree_below(keys: Seq<u64>, r1: Seq<usize>, r2: Seq<usize>, k: int)
    requires
        is_recruitment_order(keys, r1),
        is_recruitment_order(keys, r2),
        0 <= k <= r1.len(),
    ensures
        forall|q: int| 0 <= q < k ==> r1[q] == r2[q],
    decreases k,
{
    if k > 0 {
        lemma_orders_agree_below(keys, r1, r2, k - 1);
        let j = k - 1;
        if r1[j] != r2[j] {
            let x = r1[j];
            let y = r2[j];
            assert(r2.contains(x));
            let m = choose|m: int| 0 <= m < r2.len() && r2[m] == x;
            assert(r1.contains(y));
            let m2 = choose|m: int| 0 <= m < r1.len() && r1[m] == y;
            if m < j {
                assert(r1[m] == x);
                assert(recruited_before(keys, r1[m], r1[j]));
            }
            if m2 < j {
                assert(r2[m2] == y);
                assert(recruited_before(keys, r2[m2], r2[j]));
            }
            assert(m > j && m2 > j);
            assert(recruited_before(keys, r1[j], r1[m2]));
            assert(recruited_before(keys, r2[j], r2[m]));
        }
    }
}

/// A price table has exactly one recruitment order: ties are broken by index, so the order is
/// deterministic whatever sort produced it.
pub proof fn lemma_recruitment_order_is_unique(keys: Seq<u64>, r1: Seq<usize>, r2: Seq<usize>)
    requires
        is_recruitment_order(keys, r1),
        is_recruitment_order(keys, r2),
    ensures
        r1 == r2,
{
    lemma_orders_agree_below(keys, r1, r2, r1.len() as int);
    assert(r1 =~= r2);
}

/// A uniform price table recruits the channels in index order: the rule switched on over equal prices
/// is the shipped machine's order.
pub proof fn lemma_uniform_prices_keep_index_order(keys: Seq<u64>, r: Seq<usize>)
    requires
        is_recruitment_order(keys, r),
        keys.len() <= usize::MAX,
        forall|a: int, b: int| 0 <= a < keys.len() && 0 <= b < keys.len() ==> keys[a] == keys[b],
    ensures
        r == Seq::new(keys.len(), |k: int| k as usize),
{
    let id = Seq::new(keys.len(), |k: int| k as usize);
    assert forall|j: usize| j < keys.len() implies #[trigger] id.contains(j) by {
        assert(id[j as int] == j);
    }
    assert forall|a: int, b: int| 0 <= a < b < id.len() implies recruited_before(
        keys,
        #[trigger] id[a],
        #[trigger] id[b],
    ) by {
        assert(keys[id[a] as int] == keys[id[b] as int]);
    }
    lemma_recruitment_order_is_unique(keys, r, id);
}

/// Channel indices written out in decimal and separated by ", ", as a readout lists an order.
pub open spec fn index_list(s: Seq<usize>) -> Seq<char>
    decreases s.len(),
{
    if s.len() == 0 {
        Seq::empty()
    } else if s.len() == 1 {
        decimal(s[0] as nat)
    } else {
        index_list(s.drop_last()) + seq![',', ' '] + decimal(s.last() as nat)
    }
}

/// The readout form of a recruitment order: its indices in decimal, separated by ", ".
pub fn order_list(order: &[usize]) -> (text: String)
    ensures
        text@ == index_list(order@),
{
    let mut text = String::new();
    let mut k: usize = 0;
    while k < order.len()
        invariant
            k <= order@.len(),
            text@ == index_list(order@.take(k as int)),
        decreases order@.len() - k,
    {
        let ghost before = text@;
        if k > 0 {
            push_char(&mut text, ',');
            push_char(&mut text, ' ');
        }
        push_decimal(&mut text, order[k]);
        proof {
            let t = order@.take(k + 1);
            assert(t.drop_last() =~= order@.take(k as int));
            if k == 0 {
                assert(before =~= Seq::<char>::empty());
                assert(text@ =~= index_list(t));
            } else {
                assert(text@ =~= index_list(t));
            }
        }
        k += 1;
    }
    assert(order@.take(order@.len() as int) =~= order@);
    text
}

/// Recruitment takes channels by ascending price: in an order, no channel stands after one with a
/// higher price, channels of equal price stand by index, and every channel of the table appears.
pub proof fn lemma_recruitment_order_ascends(keys: Seq<u64>, r: Seq<usize>)
    requires
        is_recruitment_order(keys, r),
    ensures
        r.len() == keys.len(),
        forall|j: usize| j < keys.len() ==> #[trigger] r.contains(j),
        forall|a: int, b: int|
            0 <= a < b < r.len() ==> keys[#[trigger] r[a] as int] <= keys[#[trigger] r[b] as int],
        forall|a: int, b: int|
            0 <= a < b < r.len() && keys[#[trigger] r[a] as int] == keys[#[trigger] r[b] as int]
                ==> r[a] < r[b],
        forall|a: int, b: int|
            0 <= a < r.len() && 0 <= b < r.len() && keys[#[trigger] r[a] as int] < keys[
                #[trigger] r[b] as int
            ] ==> a < b,
{
    assert forall|a: int, b: int|
        0 <= a < r.len() && 0 <= b < r.len() && keys[#[trigger] r[a] as int] < keys[
            #[trigger] r[b] as int
        ] implies a < b by {
        if b < a {
            assert(recruited_before(keys, r[b], r[a]));
        }
    }
}

} // verus!
