//! The task loop's discrete configuration: how many planes a design has, and which link radius each
//! sampled segment of the chain is inflated by.

use vstd::prelude::*;

verus! {

/// The plane count a loop runs with: the design's own count, else the length of the gain array it
/// was given (poles before physical), else three position planes.
pub open spec fn plane_count_of(m: nat, wn_len: nat, k_len: nat) -> nat {
    if m != 0 {
        m
    } else if wn_len != 0 {
        wn_len
    } else if k_len != 0 {
        k_len
    } else {
        3
    }
}

/// The plane count for a loop whose design states `m` planes (0 for none) and whose poles and
/// physical gain arrays have `wn_len` and `k_len` entries.
pub fn plane_count(m: usize, wn_len: usize, k_len: usize) -> (c: usize)
    ensures
        c == plane_count_of(m as nat, wn_len as nat, k_len as nat),
        c > 0,
        m != 0 ==> c == m,
        m == 0 && wn_len != 0 ==> c == wn_len,
        m == 0 && wn_len == 0 && k_len != 0 ==> c == k_len,
        m == 0 && wn_len == 0 && k_len == 0 ==> c == 3,
{
    let mut c = m;
    if c == 0 {
        c = if wn_len != 0 {
            wn_len
        } else {
            k_len
        };
    }
    if c == 0 {
        c = 3;
    }
    c
}

/// The radius of each of the `n + 1` chain segments (base, links, tool flange): a stated per-segment
/// list of the right length wins; otherwise a per-link table made for exactly this chain gives the
/// base segment the first link's radius and every later segment the radius of the link it ends on;
/// otherwise every segment has the one body radius.
pub open spec fn segment_radii_of<T>(n: nat, table: Seq<T>, body_r: T, body_rs: Seq<T>) -> Seq<T> {
    if body_rs.len() == n + 1 {
        body_rs
    } else if n > 0 && table.len() == n {
        Seq::new(n + 1, |k: int| if k == 0 { table[0] } else { table[k - 1] })
    } else {
        Seq::new(n + 1, |k: int| body_r)
    }
}

/// The per-segment radii of an `n`-link chain, from the measured per-link table, the one body radius,
/// and a per-segment list that overrides both when it has `n + 1` entries.
pub fn segment_radii<T: Copy>(n: usize, table: &[T], body_r: T, body_rs: &[T]) -> (rad: Vec<T>)
    requires
        n < usize::MAX,
    ensures
        rad@ == segment_radii_of(n as nat, table@, body_r, body_rs@),
        rad@.len() == n + 1,
        body_rs@.len() == n + 1 ==> rad@ == body_rs@,
        body_rs@.len() != n + 1 && n > 0 && table@.len() == n ==> rad@[0] == table@[0] && forall|
            k: int,
        | 1 <= k <= n ==> #[trigger] rad@[k] == table@[k - 1],
        body_rs@.len() != n + 1 && (n == 0 || table@.len() != n) ==> forall|k: int|
            0 <= k <= n ==> #[trigger] rad@[k] == body_r,
{
    let mut rad: Vec<T> = Vec::with_capacity(n + 1);
    if body_rs.len() == n + 1 {
        let mut k: usize = 0;
        while k < body_rs.len()
            invariant
                k <= body_rs@.len(),
                rad@ == body_rs@.take(k as int),
            decreases body_rs@.len() - k,
        {
            rad.push(body_rs[k]);
            k += 1;
            assert(rad@ =~= body_rs@.take(k as int));
        }
        assert(body_rs@.take(body_rs@.len() as int) =~= body_rs@);
    } else if n > 0 && table.len() == n {
        rad.push(table[0]);
        let mut k: usize = 1;
        while k <= n
            invariant
                1 <= k <= n + 1,
                n < usize::MAX,
                table@.len() == n,
                n > 0,
                rad@ == Seq::new(k as nat, |q: int| if q == 0 { table@[0] } else { table@[q - 1] }),
            decreases n + 1 - k,
        {
            rad.push(table[k - 1]);
            k += 1;
            assert(rad@ =~= Seq::new(
                k as nat,
                |q: int| if q == 0 { table@[0] } else { table@[q - 1] },
            ));
        }
    } else {
        let mut k: usize = 0;
        while k <= n
            invariant
                k <= n + 1,
                n < usize::MAX,
                rad@ == Seq::new(k as nat, |q: int| body_r),
            decreases n + 1 - k,
        {
            rad.push(body_r);
            k += 1;
            assert(rad@ =~= Seq::new(k as nat, |q: int| body_r));
        }
    }
    rad
}

/// The plane count is the design's own when it states one; otherwise the poles gain array's length
/// when that array is non-empty, whatever the physical one holds; otherwise the physical array's;
/// otherwise three.
pub proof fn lemma_plane_count_prefers_the_design_then_the_poles(m: nat, wn_len: nat, k_len: nat)
    ensures
        m != 0 ==> plane_count_of(m, wn_len, k_len) == m,
        m == 0 && wn_len != 0 ==> plane_count_of(m, wn_len, k_len) == wn_len,
        m == 0 && wn_len == 0 && k_len != 0 ==> plane_count_of(m, wn_len, k_len) == k_len,
        m == 0 && wn_len == 0 && k_len == 0 ==> plane_count_of(m, wn_len, k_len) == 3,
        plane_count_of(m, wn_len, k_len) > 0,
{
}

/// There is one radius per segment; a stated per-segment list is taken as it is; the measured table
/// is read only for a chain of exactly its length; and every other chain has the one body radius on
/// every segment.
pub proof fn lemma_segment_radii_by_source<T>(n: nat, table: Seq<T>, body_r: T, body_rs: Seq<T>)
    ensures
        segment_radii_of(n, table, body_r, body_rs).len() == n + 1,
        body_rs.len() == n + 1 ==> segment_radii_of(n, table, body_r, body_rs) == body_rs,
        body_rs.len() != n + 1 && n > 0 && table.len() == n ==> segment_radii_of(
            n,
            table,
            body_r,
            body_rs,
        )[0] == table[0] && forall|k: int|
            1 <= k <= n ==> #[trigger] segment_radii_of(n, table, body_r, body_rs)[k] == table[k
                - 1],
        body_rs.len() != n + 1 && (n == 0 || table.len() != n) ==> forall|k: int|
            0 <= k <= n ==> #[trigger] segment_radii_of(n, table, body_r, body_rs)[k] == body_r,
{
}

} // verus!
