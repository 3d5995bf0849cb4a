//! Ranking of candidate positions by distance.
//!
//! Distances are carried as the bit patterns of IEEE-754 single precision
//! values. `order_key` maps a bit pattern to an unsigned key whose order is
//! the total order of the floating-point values (negative values below
//! positive ones, larger magnitudes further from zero).
use vstd::prelude::*;

verus! {

/// The unsigned key under which distance bit patterns are ordered.
pub open spec fn order_key(bits: u32) -> u32 {
    if bits >= 0x8000_0000u32 {
        (0xffff_ffffu32 - bits) as u32
    } else {
        (bits + 0x8000_0000u32) as u32
    }
}

/// Executable form of `order_key`.
pub fn distance_order_key(bits: u32) -> (r: u32)
    ensures
        r == order_key(bits),
{
    if bits >= 0x8000_0000u32 {
        0xffff_ffffu32 - bits
    } else {
        bits + 0x8000_0000u32
    }
}

/// Candidate `i` ranks strictly before candidate `j`: a smaller distance, or an
/// equal distance and a smaller position.
pub open spec fn ranks_before(d: Seq<u32>, i: int, j: int) -> bool {
    order_key(d[i]) < order_key(d[j]) || (order_key(d[i]) == order_key(d[j]) && i < j)
}

/// `r` lists positions of `d` in strictly increasing rank.
pub open spec fn ranked(d: Seq<u32>, r: Seq<usize>) -> bool {
    &&& forall|j: int| 0 <= j < r.len() ==> r[j] < d.len()
    &&& forall|i: int, j: int|
        0 <= i < j < r.len() ==> #[trigger] ranks_before(d, r[i] as int, r[j] as int)
}

/// `r` is the sequence of the `n` best-ranked positions of `d` (all of them
/// when `d` has fewer), best first.
pub open spec fn is_top(d: Seq<u32>, n: nat, r: Seq<usize>) -> bool {
    &&& r.len() == if n < d.len() { n } else { d.len() }
    &&& ranked(d, r)
    &&& forall|q: int, j: int|
        0 <= q < d.len() && !r.contains(q as usize) && 0 <= j < r.len() ==> #[trigger] ranks_before(
            d,
            r[j] as int,
            q,
        )
}

proof fn lemma_top_step(d: Seq<u32>, n: nat, r1: Seq<usize>, r2: Seq<usize>, j: int)
    requires
        is_top(d, n, r1),
        is_top(d, n, r2),
        0 <= j < r1.len(),
        forall|i: int| 0 <= i < j ==> r1[i] == r2[i],
    ensures
        !ranks_before(d, r1[j] as int, r2[j] as int),
{
    let p = r1[j];
    if !ranks_before(d, r1[j] as int, r2[j] as int) {
    } else if r2.contains(p) {
        let m = choose|m: int| 0 <= m < r2.len() && r2[m] == p;
        if m < j {
            assert(r1[m] == p);
            assert(ranks_before(d, r1[m] as int, r1[j] as int));
        } else {
            assert(m != j);
            assert(ranks_before(d, r2[j] as int, r2[m] as int));
        }
    } else {
        assert(ranks_before(d, r2[j] as int, p as int));
    }
}

proof fn lemma_top_prefix(d: Seq<u32>, n: nat, r1: Seq<usize>, r2: Seq<usize>, j: int)
    requires
        is_top(d, n, r1),
        is_top(d, n, r2),
        0 <= j <= r1.len(),
    ensures
        forall|i: int| 0 <= i < j ==> r1[i] == r2[i],
    decreases j,
{
    if j > 0 {
        lemma_top_prefix(d, n, r1, r2, j - 1);
        let k = j - 1;
        lemma_top_step(d, n, r1, r2, k);
        lemma_top_step(d, n, r2, r1, k);
    }
}

/// The best `n` positions are determined by the distances alone: two
/// sequences that both meet `is_top` are equal.
pub proof fn lemma_top_unique(d: Seq<u32>, n: nat, r1: Seq<usize>, r2: Seq<usize>)
    requires
        is_top(d, n, r1),
        is_top(d, n, r2),
    ensures
        r1 == r2,
{
    lemma_top_prefix(d, n, r1, r2, r1.len() as int);
    assert(r1 =~= r2);
}

/// Executable form of `ranks_before`.
fn before(d: &Vec<u32>, i: usize, j: usize) -> (r: bool)
    requires
        i < d@.len(),
        j < d@.len(),
    ensures
        r == ranks_before(d@, i as int, j as int),
{
    let ki = distance_order_key(d[i]);
    let kj = distance_order_key(d[j]);
    ki < kj || (ki == kj && i < j)
}

/// The `n` best-ranked positions of `d`, best first: positions ordered by
/// increasing distance, equal distances by increasing position.
pub fn top_positions(d: &Vec<u32>, n: usize) -> (r: Vec<usize>)
    ensures
        is_top(d@, n as nat, r@),
{
    let mut r: Vec<usize> = Vec::new();
    let mut p: usize = 0;
    while p < d.len()
        invariant
            p <= d@.len(),
            r@.len() == if (n as int) < p { n as int } else { p as int },
            forall|j: int| 0 <= j < r@.len() ==> r@[j] < p,
            ranked(d@, r@),
            forall|q: int, j: int|
                0 <= q < p && !r@.contains(q as usize) && 0 <= j < r@.len() ==> #[trigger] ranks_before(
                    d@,
                    r@[j] as int,
                    q,
                ),
            r@.len() < n ==> forall|q: int| 0 <= q < p ==> #[trigger] r@.contains(q as usize),
        decreases d@.len() - p,
    {
        let ghost old_r = r@;
        let mut k: usize = 0;
        while k < r.len() && !before(d, p, r[k])
            invariant
                k <= r@.len(),
                r@ == old_r,
                p < d@.len(),
                forall|j: int| 0 <= j < r@.len() ==> r@[j] < p,
                forall|j: int| 0 <= j < k ==> !ranks_before(d@, p as int, #[trigger] r@[j] as int),
            decreases r@.len() - k,
        {
            k = k + 1;
        }
        // Every candidate from `k` on ranks after `p`.
        assert forall|j: int| k <= j < old_r.len() implies ranks_before(d@, p as int, old_r[j] as int) by {
            if j > k {
                assert(ranks_before(d@, old_r[k as int] as int, old_r[j] as int));
            }
        }
        // Every candidate before `k` ranks before `p`.
        assert forall|j: int| 0 <= j < k implies ranks_before(d@, old_r[j] as int, p as int) by {
            assert(!ranks_before(d@, p as int, old_r[j] as int));
        }
        if k < n {
            r.insert(k, p);
            let ghost ins = r@;
            assert(ins == old_r.insert(k as int, p));
            if r.len() > n {
                let _ = r.pop();
                proof {
                    assert(r@ == ins.subrange(0, ins.len() - 1));
                    assert(ins.len() - 1 > k);
                    let last = old_r[old_r.len() - 1];
                    assert(ins[ins.len() - 1] == last);
                    assert forall|q: int, j: int|
                        0 <= q < p + 1 && !r@.contains(q as usize) && 0 <= j < r@.len() implies #[trigger] ranks_before(d@, r@[j] as int, q) by {
                        assert(r@[k as int] == p);
                        if q == last as int {
                            assert(ranks_before(d@, ins[j] as int, ins[ins.len() - 1] as int));
                        } else {
                            if old_r.contains(q as usize) {
                                let w = choose|w: int| 0 <= w < old_r.len() && old_r[w] == q as usize;
                                if w < k {
                                    assert(r@[w] == old_r[w]);
                                } else {
                                    assert(w < old_r.len() - 1);
                                    assert(r@[w + 1] == old_r[w]);
                                }
                            }
                            assert(!old_r.contains(q as usize));
                            if j < k {
                                assert(r@[j] == old_r[j]);
                            } else if j == k {
                                assert(ranks_before(d@, p as int, last as int));
                                assert(ranks_before(d@, last as int, q));
                            } else {
                                assert(r@[j] == old_r[j - 1]);
                            }
                        }
                    }
                }
            } else {
                proof {
                    assert forall|q: int, j: int|
                        0 <= q < p + 1 && !r@.contains(q as usize) && 0 <= j < r@.len() implies #[trigger] ranks_before(d@, r@[j] as int, q) by {
                        assert(r@[k as int] == p);
                        if old_r.contains(q as usize) {
                            let w = choose|w: int| 0 <= w < old_r.len() && old_r[w] == q as usize;
                            if w < k {
                                assert(r@[w] == old_r[w]);
                            } else {
                                assert(r@[w + 1] == old_r[w]);
                            }
                        }
                        assert(!old_r.contains(q as usize));
                        assert(old_r.len() == n);
                        if j < k {
                            assert(r@[j] == old_r[j]);
                        } else if j == k {
                            assert(ranks_before(d@, p as int, old_r[old_r.len() - 1] as int));
                            assert(ranks_before(d@, old_r[old_r.len() - 1] as int, q));
                        } else {
                            assert(r@[j] == old_r[j - 1]);
                        }
                    }
                    assert(r@.len() < n ==> forall|q: int| 0 <= q < p + 1 ==> #[trigger] r@.contains(q as usize)) by {
                        if r@.len() < n {
                            assert forall|q: int| 0 <= q < p + 1 implies #[trigger] r@.contains(q as usize) by {
                                if q == p {
                                    assert(r@[k as int] == p);
                                } else {
                                    assert(old_r.contains(q as usize));
                                    let w = choose|w: int| 0 <= w < old_r.len() && old_r[w] == q as usize;
                                    if w < k {
                                        assert(r@[w] == old_r[w]);
                                    } else {
                                        assert(r@[w + 1] == old_r[w]);
                                    }
                                }
                            }
                        }
                    }
                }
            }
        } else {
            proof {
                assert(k == old_r.len());
            }
        }
        p = p + 1;
    }
    r
}

} // verus!
