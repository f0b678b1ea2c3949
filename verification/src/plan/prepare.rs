//! What is decided before a single pixel is drawn: whether the page fits the
//! pixel budget, how much of each enabled layer is drawn, and which entity
//! sets appear.

use vstd::prelude::*;

use super::{all_layers, layer_index, Layer, PlanError};

verus! {

/// Refuses a map area of `map_w` x `map_h` pixels larger than `max_pixels`.
pub fn check_map_size(map_w: u64, map_h: u64, max_pixels: u64) -> (r: Result<(), PlanError>)
    requires
        map_w * map_h <= u64::MAX,
    ensures
        map_w * map_h <= max_pixels ==> r is Ok,
        map_w * map_h > max_pixels ==> (r matches Err(PlanError::TooLarge { width, height })
            && width == map_w && height == map_h),
{
    if map_w * map_h > max_pixels {
        Err(PlanError::TooLarge { width: map_w, height: map_h })
    } else {
        Ok(())
    }
}

/// How many items of each layer survived the band filter.
#[derive(Debug, Clone, Copy, PartialEq, Eq, Structural)]
pub struct LayerTally {
    pub rooms: usize,
    pub portals: usize,
    pub entities: usize,
    pub collision: usize,
    pub drawable: usize,
    pub navmesh: usize,
}

/// The count a tally holds for layer `l`.
pub open spec fn tally_of(t: LayerTally, l: Layer) -> usize {
    match l {
        Layer::Rooms => t.rooms,
        Layer::Portals => t.portals,
        Layer::Entities => t.entities,
        Layer::Collision => t.collision,
        Layer::Drawable => t.drawable,
        Layer::Navmesh => t.navmesh,
    }
}

impl LayerTally {
    /// The count for layer `l`.
    pub fn count(&self, l: Layer) -> (r: usize)
        ensures
            r == tally_of(*self, l),
    {
        match l {
            Layer::Rooms => self.rooms,
            Layer::Portals => self.portals,
            Layer::Entities => self.entities,
            Layer::Collision => self.collision,
            Layer::Drawable => self.drawable,
            Layer::Navmesh => self.navmesh,
        }
    }
}

/// Each layer's count is the tally's field named after that layer, so the six
/// layers between them count every field exactly once.
pub proof fn lemma_each_layer_counts_its_own_field(t: LayerTally)
    ensures
        tally_of(t, Layer::Rooms) == t.rooms,
        tally_of(t, Layer::Portals) == t.portals,
        tally_of(t, Layer::Entities) == t.entities,
        tally_of(t, Layer::Collision) == t.collision,
        tally_of(t, Layer::Drawable) == t.drawable,
        tally_of(t, Layer::Navmesh) == t.navmesh,
        tally_of(t, all_layers()[0]) + tally_of(t, all_layers()[1]) + tally_of(t, all_layers()[2])
            + tally_of(t, all_layers()[3]) + tally_of(t, all_layers()[4]) + tally_of(t, all_layers()[5])
            == t.rooms + t.portals + t.entities + t.collision + t.drawable + t.navmesh,
{
}

/// Whether `l` is among `layers`.
pub fn contains_layer(layers: &Vec<Layer>, l: Layer) -> (r: bool)
    ensures
        r == layers@.contains(l),
{
    let mut i: usize = 0;
    while i < layers.len()
        invariant
            i <= layers@.len(),
            forall|j: int| 0 <= j < i ==> layers@[j] != l,
        decreases layers@.len() - i,
    {
        if layers[i] == l {
            return true;
        }
        i = i + 1;
    }
    false
}

/// Per enabled layer among the first `k` in declaration order, how much of
/// it is being drawn.
pub open spec fn drawn_counts(enabled: Seq<Layer>, t: LayerTally, k: nat) -> Seq<(Layer, usize)>
    decreases k,
{
    if k == 0 {
        Seq::empty()
    } else {
        let l = all_layers()[k - 1];
        let rest = drawn_counts(enabled, t, (k - 1) as nat);
        if enabled.contains(l) { rest.push((l, tally_of(t, l))) } else { rest }
    }
}

proof fn lemma_drawn_counts_prefix(enabled: Seq<Layer>, t: LayerTally, k: nat)
    requires
        k <= 6,
    ensures
        forall|i: int| 0 <= i < drawn_counts(enabled, t, k).len() ==> {
            let (l, n) = #[trigger] drawn_counts(enabled, t, k)[i];
            enabled.contains(l) && n == tally_of(t, l) && layer_index(l) < k
        },
        forall|i: int, j: int| 0 <= i < j < drawn_counts(enabled, t, k).len() ==>
            layer_index(#[trigger] drawn_counts(enabled, t, k)[i].0) < layer_index(#[trigger] drawn_counts(enabled, t, k)[j].0),
        forall|l: Layer| enabled.contains(l) && layer_index(l) < k ==>
            exists|i: int| 0 <= i < drawn_counts(enabled, t, k).len() && #[trigger] drawn_counts(enabled, t, k)[i].0 == l,
    decreases k,
{
    if k > 0 {
        lemma_drawn_counts_prefix(enabled, t, (k - 1) as nat);
        let prev = drawn_counts(enabled, t, (k - 1) as nat);
        let cur = drawn_counts(enabled, t, k);
        let l = all_layers()[k - 1];
        assert(layer_index(l) == k - 1);
        assert forall|m: Layer| enabled.contains(m) && layer_index(m) < k implies
            exists|i: int| 0 <= i < cur.len() && #[trigger] cur[i].0 == m by {
            if layer_index(m) < k - 1 {
                let i = choose|i: int| 0 <= i < prev.len() && #[trigger] prev[i].0 == m;
                assert(cur[i] == prev[i]);
            } else {
                assert(m == l);
                assert(cur[prev.len() as int].0 == m);
            }
        }
    }
}

/// Each drawn count is of an enabled layer and is that layer's tally; the
/// layers come in declaration order, each once; and every enabled layer is
/// there, whatever order the layers were enabled in.
pub proof fn lemma_drawn_counts_are_the_enabled_layers(enabled: Seq<Layer>, t: LayerTally)
    ensures
        forall|i: int| 0 <= i < drawn_counts(enabled, t, 6).len() ==>
            enabled.contains(#[trigger] drawn_counts(enabled, t, 6)[i].0)
            && drawn_counts(enabled, t, 6)[i].1 == tally_of(t, drawn_counts(enabled, t, 6)[i].0),
        forall|i: int, j: int| 0 <= i < j < drawn_counts(enabled, t, 6).len() ==>
            layer_index(#[trigger] drawn_counts(enabled, t, 6)[i].0) < layer_index(#[trigger] drawn_counts(enabled, t, 6)[j].0),
        forall|l: Layer| #[trigger] enabled.contains(l) ==>
            exists|i: int| 0 <= i < drawn_counts(enabled, t, 6).len() && #[trigger] drawn_counts(enabled, t, 6)[i].0 == l,
{
    lemma_drawn_counts_prefix(enabled, t, 6);
    let r = drawn_counts(enabled, t, 6);
    assert forall|i: int| 0 <= i < r.len() implies enabled.contains(#[trigger] r[i].0) && r[i].1 == tally_of(t, r[i].0) by {
        let (l, n) = r[i];
    }
}

/// Per enabled layer, in declaration order, how much of it is being drawn.
pub fn layer_counts(enabled: &Vec<Layer>, tally: &LayerTally) -> (r: Vec<(Layer, usize)>)
    ensures
        r@ == drawn_counts(enabled@, *tally, 6),
{
    let all = Layer::ALL;
    let mut out: Vec<(Layer, usize)> = Vec::new();
    let mut k: usize = 0;
    while k < 6
        invariant
            k <= 6,
            all@ == all_layers(),
            out@ == drawn_counts(enabled@, *tally, k as nat),
        decreases 6 - k,
    {
        let l = all[k];
        if contains_layer(enabled, l) {
            out.push((l, tally.count(l)));
        }
        k = k + 1;
    }
    out
}

/// Whether `s` is strictly increasing.
pub open spec fn strictly_increasing(s: Seq<usize>) -> bool {
    forall|i: int, j: int| 0 <= i < j < s.len() ==> s[i] < s[j]
}

/// Inserts `x` into the strictly increasing `v`, unless it is there already.
fn insert_sorted(v: &mut Vec<usize>, x: usize)
    requires
        strictly_increasing(old(v)@),
    ensures
        strictly_increasing(final(v)@),
        forall|y: usize| #[trigger] final(v)@.contains(y) <==> (old(v)@.contains(y) || y == x),
{
    let n = v.len();
    let mut i: usize = 0;
    while i < n && v[i] < x
        invariant
            n == v@.len(),
            i <= n,
            v@ == old(v)@,
            forall|j: int| 0 <= j < i ==> v@[j] < x,
        decreases n - i,
    {
        i = i + 1;
    }
    if i < n && v[i] == x {
        return;
    }
    let ghost before = v@;
    assert(before == old(v)@);
    v.insert(i, x);
    proof {
        assert forall|y: usize| #[trigger] v@.contains(y) <==> (old(v)@.contains(y) || y == x) by {
            if v@.contains(y) {
                let k = choose|k: int| 0 <= k < v@.len() && v@[k] == y;
                if k < i {
                    assert(before[k] == y);
                } else if k > i {
                    assert(before[k - 1] == y);
                }
            }
            if before.contains(y) {
                let k = choose|k: int| 0 <= k < before.len() && before[k] == y;
                if k < i {
                    assert(v@[k] == y);
                } else {
                    assert(v@[k + 1] == y);
                }
            }
            if y == x {
                assert(v@[i as int] == x);
            }
        }
    }
}

/// Whether some entry of `sets` is `Some(k)`.
pub open spec fn has_set(sets: Seq<Option<usize>>, k: usize) -> bool {
    exists|i: int| 0 <= i < sets.len() && sets[i] == Some(k)
}

/// The entity-set indices present among `sets`, ascending, each once.
pub fn distinct_sets(sets: &Vec<Option<usize>>) -> (r: Vec<usize>)
    ensures
        strictly_increasing(r@),
        forall|k: usize| r@.contains(k) <==> has_set(sets@, k),
{
    let mut out: Vec<usize> = Vec::new();
    let mut i: usize = 0;
    while i < sets.len()
        invariant
            i <= sets@.len(),
            strictly_increasing(out@),
            forall|k: usize| out@.contains(k) <==> has_set(sets@.take(i as int), k),
        decreases sets@.len() - i,
    {
        let ghost prev = out@;
        if let Some(k) = sets[i] {
            insert_sorted(&mut out, k);
        }
        proof {
            let t1 = sets@.take(i + 1);
            let t0 = sets@.take(i as int);
            assert forall|k: usize| out@.contains(k) <==> has_set(t1, k) by {
                if has_set(t1, k) {
                    let j = choose|j: int| 0 <= j < t1.len() && #[trigger] t1[j] == Some(k);
                    if j < i {
                        assert(t0[j] == Some(k));
                    }
                }
                if has_set(t0, k) {
                    let j = choose|j: int| 0 <= j < t0.len() && #[trigger] t0[j] == Some(k);
                    assert(t1[j] == Some(k));
                }
                if sets@[i as int] == Some(k) {
                    assert(t1[i as int] == Some(k));
                }
            }
        }
        i = i + 1;
    }
    proof {
        assert(sets@.take(sets@.len() as int) =~= sets@);
    }
    out
}

/// How many of `counts` are non-zero.
pub open spec fn nonzero_count(counts: Seq<(Layer, usize)>) -> nat
    decreases counts.len(),
{
    if counts.len() == 0 {
        0
    } else {
        nonzero_count(counts.drop_last()) + if counts.last().1 > 0 { 1nat } else { 0nat }
    }
}

proof fn lemma_nonzero_count_bound(counts: Seq<(Layer, usize)>)
    ensures
        nonzero_count(counts) <= counts.len(),
    decreases counts.len(),
{
    if counts.len() > 0 {
        lemma_nonzero_count_bound(counts.drop_last());
    }
}

/// The number of legend rows: one per layer actually drawn, one per set.
pub fn legend_row_count(counts: &Vec<(Layer, usize)>, n_sets: usize) -> (r: usize)
    requires
        counts@.len() + n_sets <= usize::MAX,
    ensures
        r == nonzero_count(counts@) + n_sets,
{
    let mut n: usize = 0;
    let mut i: usize = 0;
    while i < counts.len()
        invariant
            i <= counts@.len(),
            n == nonzero_count(counts@.take(i as int)),
            counts@.len() + n_sets <= usize::MAX,
        decreases counts@.len() - i,
    {
        proof {
            assert(counts@.take(i + 1).drop_last() =~= counts@.take(i as int));
            lemma_nonzero_count_bound(counts@.take(i as int));
        }
        if counts[i].1 > 0 {
            n = n + 1;
        }
        i = i + 1;
    }
    proof {
        assert(counts@.take(counts@.len() as int) =~= counts@);
        lemma_nonzero_count_bound(counts@);
    }
    n + n_sets
}

} // verus!
