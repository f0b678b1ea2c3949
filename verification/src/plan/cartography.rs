//! The map furniture's integer decisions: the order labels are placed in.

use vstd::prelude::*;

use super::text::{decimal, push_decimal};

verus! {

/// The warning a plan reports when `dropped` labels found no free spot.
pub open spec fn labels_hidden_text(dropped: usize) -> Seq<char> {
    decimal(dropped as nat) + " labels hidden to avoid overlap"@
}

/// The warning a plan reports when `dropped` labels found no free spot.
pub fn labels_hidden_warning(dropped: usize) -> (r: String)
    ensures
        r@ == labels_hidden_text(dropped),
{
    let mut out = String::new();
    push_decimal(&mut out, dropped as u64);
    out.append(" labels hidden to avoid overlap");
    out
}

/// The positions among the first `k` of `priorities` that hold `p`, ascending.
pub open spec fn positions_with(priorities: Seq<u8>, p: int, k: nat) -> Seq<usize>
    decreases k,
{
    if k == 0 {
        Seq::empty()
    } else {
        let rest = positions_with(priorities, p, (k - 1) as nat);
        if priorities[k - 1] == p { rest.push((k - 1) as usize) } else { rest }
    }
}

/// The positions of every priority below `p`, lowest priority first, each
/// priority's positions ascending.
pub open spec fn placement_order(priorities: Seq<u8>, p: nat) -> Seq<usize>
    decreases p,
{
    if p == 0 {
        Seq::empty()
    } else {
        placement_order(priorities, (p - 1) as nat) + positions_with(priorities, p - 1, priorities.len())
    }
}

/// The order label requests are placed in: by priority, lower first (it wins
/// contested space), and in request order among equal priorities, as a
/// stable sort by priority leaves them. Returns positions into `priorities`.
pub fn label_order(priorities: &Vec<u8>) -> (r: Vec<usize>)
    ensures
        r@ == placement_order(priorities@, 256),
{
    let mut out: Vec<usize> = Vec::new();
    let mut p: u32 = 0;
    while p < 256
        invariant
            p <= 256,
            out@ == placement_order(priorities@, p as nat),
        decreases 256 - p,
    {
        let ghost base = out@;
        let mut i: usize = 0;
        while i < priorities.len()
            invariant
                i <= priorities@.len(),
                p < 256,
                base == placement_order(priorities@, p as nat),
                out@ == base + positions_with(priorities@, p as int, i as nat),
            decreases priorities@.len() - i,
        {
            if priorities[i] as u32 == p {
                out.push(i);
                proof {
                    assert(out@ =~= base + positions_with(priorities@, p as int, (i + 1) as nat));
                }
            }
            i = i + 1;
        }
        p = p + 1;
    }
    out
}

proof fn lemma_positions_with(priorities: Seq<u8>, p: int, k: nat)
    requires
        k <= priorities.len(),
        priorities.len() <= usize::MAX,
    ensures
        forall|i: int| 0 <= i < positions_with(priorities, p, k).len() ==>
            #[trigger] positions_with(priorities, p, k)[i] < k && priorities[positions_with(priorities, p, k)[i] as int] == p,
        forall|i: int, j: int| 0 <= i < j < positions_with(priorities, p, k).len() ==>
            #[trigger] positions_with(priorities, p, k)[i] < #[trigger] positions_with(priorities, p, k)[j],
        forall|x: int| 0 <= x < k && priorities[x] == p ==>
            #[trigger] positions_with(priorities, p, k).contains(x as usize),
    decreases k,
{
    if k > 0 {
        lemma_positions_with(priorities, p, (k - 1) as nat);
        let prev = positions_with(priorities, p, (k - 1) as nat);
        let cur = positions_with(priorities, p, k);
        assert forall|x: int| 0 <= x < k && priorities[x] == p implies #[trigger] cur.contains(x as usize) by {
            if x < k - 1 {
                assert(prev.contains(x as usize));
                let i = choose|i: int| 0 <= i < prev.len() && prev[i] == x as usize;
                assert(cur[i] == x as usize);
            } else {
                assert(cur[prev.len() as int] == x as usize);
            }
        }
    }
}

proof fn lemma_placement_order(priorities: Seq<u8>, p: nat)
    requires
        p <= 256,
        priorities.len() <= usize::MAX,
    ensures
        forall|i: int| 0 <= i < placement_order(priorities, p).len() ==>
            #[trigger] placement_order(priorities, p)[i] < priorities.len()
            && priorities[placement_order(priorities, p)[i] as int] < p,
        forall|i: int, j: int| 0 <= i < j < placement_order(priorities, p).len() ==> {
            let a = #[trigger] placement_order(priorities, p)[i];
            let b = #[trigger] placement_order(priorities, p)[j];
            priorities[a as int] < priorities[b as int] || (priorities[a as int] == priorities[b as int] && a < b)
        },
        forall|x: int| 0 <= x < priorities.len() && priorities[x] < p ==>
            #[trigger] placement_order(priorities, p).contains(x as usize),
    decreases p,
{
    if p > 0 {
        let n = priorities.len();
        lemma_placement_order(priorities, (p - 1) as nat);
        lemma_positions_with(priorities, p - 1, n);
        let prev = placement_order(priorities, (p - 1) as nat);
        let grp = positions_with(priorities, p - 1, n);
        let cur = placement_order(priorities, p);
        assert(cur == prev + grp);
        assert forall|i: int| 0 <= i < cur.len() implies
            #[trigger] cur[i] < n && priorities[cur[i] as int] < p by {
            if i >= prev.len() {
                assert(cur[i] == grp[i - prev.len()]);
            }
        }
        assert forall|i: int, j: int| 0 <= i < j < cur.len() implies {
            let a = #[trigger] cur[i];
            let b = #[trigger] cur[j];
            priorities[a as int] < priorities[b as int] || (priorities[a as int] == priorities[b as int] && a < b)
        } by {
            if j < prev.len() {
                assert(cur[i] == prev[i] && cur[j] == prev[j]);
            } else if i < prev.len() {
                assert(cur[i] == prev[i] && cur[j] == grp[j - prev.len()]);
            } else {
                assert(cur[i] == grp[i - prev.len()] && cur[j] == grp[j - prev.len()]);
            }
        }
        assert forall|x: int| 0 <= x < n && priorities[x] < p implies #[trigger] cur.contains(x as usize) by {
            if priorities[x] < p - 1 {
                assert(prev.contains(x as usize));
                let i = choose|i: int| 0 <= i < prev.len() && prev[i] == x as usize;
                assert(cur[i] == x as usize);
            } else {
                assert(grp.contains(x as usize));
                let i = choose|i: int| 0 <= i < grp.len() && grp[i] == x as usize;
                assert(cur[prev.len() + i] == x as usize);
            }
        }
    }
}

/// Labels are placed in a stable sort by priority: every request exactly
/// once, lower priorities first, and requests of equal priority in the order
/// they were made.
pub proof fn lemma_label_order_is_a_stable_sort(priorities: Seq<u8>)
    requires
        priorities.len() <= usize::MAX,
    ensures
        forall|i: int| 0 <= i < placement_order(priorities, 256).len() ==>
            #[trigger] placement_order(priorities, 256)[i] < priorities.len(),
        forall|x: int| 0 <= x < priorities.len() ==> #[trigger] placement_order(priorities, 256).contains(x as usize),
        forall|i: int, j: int| 0 <= i < j < placement_order(priorities, 256).len() ==> {
            let a = #[trigger] placement_order(priorities, 256)[i];
            let b = #[trigger] placement_order(priorities, 256)[j];
            priorities[a as int] < priorities[b as int] || (priorities[a as int] == priorities[b as int] && a < b)
        },
{
    lemma_placement_order(priorities, 256);
}

} // verus!
