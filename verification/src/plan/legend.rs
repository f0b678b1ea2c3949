//! The legend: one row per layer actually drawn, then one per entity set.

use vstd::prelude::*;

use super::palette::{hue, room_hue, wall_of, Mesh, Rgba8, HUE_COUNT, INK, NAV_INTERIOR_STROKE, PORTAL_STROKE};
use super::text::{decimal, push_decimal};
use super::prepare::nonzero_count;
use super::{layer_name, Layer};

verus! {

/// One legend entry: a colour swatch and its text.
pub struct LegendRow {
    pub swatch: Rgba8,
    pub text: String,
}

/// The swatch a layer's legend row shows.
pub open spec fn layer_swatch(l: Layer) -> Rgba8 {
    match l {
        Layer::Rooms => room_hue(1),
        Layer::Portals => PORTAL_STROKE,
        Layer::Entities => INK,
        Layer::Collision => wall_of(Mesh::Collision),
        Layer::Drawable => wall_of(Mesh::Drawable),
        Layer::Navmesh => NAV_INTERIOR_STROKE,
    }
}

/// The swatch a layer's legend row shows.
pub fn legend_swatch(l: Layer) -> (r: Rgba8)
    ensures
        r == layer_swatch(l),
{
    match l {
        Layer::Rooms => hue(1),
        Layer::Portals => PORTAL_STROKE,
        Layer::Entities => INK,
        Layer::Collision => Mesh::Collision.swatch(),
        Layer::Drawable => Mesh::Drawable.swatch(),
        Layer::Navmesh => NAV_INTERIOR_STROKE,
    }
}

/// A legend row as plain values.
pub open spec fn row_view(r: LegendRow) -> (Rgba8, Seq<char>) {
    (r.swatch, r.text@)
}

/// The rows for the first `k` layer counts: one per non-zero count, reading
/// `"<layer> <n>"`.
pub open spec fn count_rows(counts: Seq<(Layer, usize)>, k: nat) -> Seq<(Rgba8, Seq<char>)>
    decreases k,
{
    if k == 0 {
        Seq::empty()
    } else {
        let (l, n) = counts[k - 1];
        let rest = count_rows(counts, (k - 1) as nat);
        if n > 0 { rest.push((layer_swatch(l), layer_name(l) + " "@ + decimal(n as nat))) } else { rest }
    }
}

/// The name of entity set `set`: its given name, or `"set <set>"`.
pub open spec fn set_name(names: Seq<Seq<char>>, set: usize) -> Seq<char> {
    if set < names.len() { names[set as int] } else { "set "@ + decimal(set as nat) }
}

/// The rows for the first `k` entity sets.
pub open spec fn set_rows(sets: Seq<usize>, names: Seq<Seq<char>>, k: nat) -> Seq<(Rgba8, Seq<char>)>
    decreases k,
{
    if k == 0 {
        Seq::empty()
    } else {
        set_rows(sets, names, (k - 1) as nat).push(
            (room_hue(sets[k - 1] as int % HUE_COUNT as int), set_name(names, sets[k - 1])),
        )
    }
}

/// The legend rows for what was drawn: the layers with a non-zero count, in
/// the order given, then the entity sets, named from `names` where it has a
/// name for them.
pub fn legend_rows(counts: &Vec<(Layer, usize)>, sets: &Vec<usize>, names: &Vec<String>) -> (r: Vec<LegendRow>)
    ensures
        r@.map_values(|row: LegendRow| row_view(row)) == count_rows(counts@, counts@.len())
            + set_rows(sets@, names@.map_values(|s: String| s@), sets@.len()),
{
    let mut rows: Vec<LegendRow> = Vec::new();
    let mut i: usize = 0;
    while i < counts.len()
        invariant
            i <= counts@.len(),
            rows@.map_values(|row: LegendRow| row_view(row)) == count_rows(counts@, i as nat),
        decreases counts@.len() - i,
    {
        let (l, n) = counts[i];
        if n > 0 {
            let mut text = String::from_str(l.name());
            text.append(" ");
            push_decimal(&mut text, n as u64);
            let ghost prev = rows@;
            rows.push(LegendRow { swatch: legend_swatch(l), text });
            proof {
                assert(rows@.map_values(|row: LegendRow| row_view(row)) =~= prev.map_values(|row: LegendRow| row_view(row)).push(
                    (layer_swatch(l), layer_name(l) + " "@ + decimal(n as nat))));
            }
        }
        i = i + 1;
    }
    let ghost base = rows@.map_values(|row: LegendRow| row_view(row));
    let ghost name_views = names@.map_values(|s: String| s@);
    let mut j: usize = 0;
    while j < sets.len()
        invariant
            j <= sets@.len(),
            base == count_rows(counts@, counts@.len()),
            name_views == names@.map_values(|s: String| s@),
            rows@.map_values(|row: LegendRow| row_view(row)) == base + set_rows(sets@, name_views, j as nat),
        decreases sets@.len() - j,
    {
        let set = sets[j];
        let name = if set < names.len() {
            names[set].clone()
        } else {
            let mut t = String::from_str("set ");
            push_decimal(&mut t, set as u64);
            t
        };
        let ghost prev = rows@;
        rows.push(LegendRow { swatch: hue(set), text: name });
        proof {
            assert(rows@.map_values(|row: LegendRow| row_view(row)) =~= prev.map_values(|row: LegendRow| row_view(row)).push(
                (room_hue(set as int % HUE_COUNT as int), set_name(name_views, set))));
            assert(base + set_rows(sets@, name_views, (j + 1) as nat) =~= base + set_rows(sets@, name_views, j as nat).push(
                (room_hue(set as int % HUE_COUNT as int), set_name(name_views, set))));
        }
        j = j + 1;
    }
    rows
}

proof fn lemma_count_rows_len(counts: Seq<(Layer, usize)>, k: nat)
    requires
        k <= counts.len(),
    ensures
        count_rows(counts, k).len() == nonzero_count(counts.take(k as int)),
    decreases k,
{
    if k > 0 {
        lemma_count_rows_len(counts, (k - 1) as nat);
        assert(counts.take(k as int).drop_last() =~= counts.take(k - 1));
    }
}

proof fn lemma_set_rows_len(sets: Seq<usize>, names: Seq<Seq<char>>, k: nat)
    ensures
        set_rows(sets, names, k).len() == k,
    decreases k,
{
    if k > 0 {
        lemma_set_rows_len(sets, names, (k - 1) as nat);
    }
}

/// The row a layer count of `n` gets.
pub open spec fn count_row(l: Layer, n: usize) -> (Rgba8, Seq<char>) {
    (layer_swatch(l), layer_name(l) + " "@ + decimal(n as nat))
}

/// Whether `row` is the row of some non-zero count among the first `k`.
pub open spec fn row_of_some_count(counts: Seq<(Layer, usize)>, k: int, row: (Rgba8, Seq<char>)) -> bool {
    exists|i: int| #![trigger counts[i]] 0 <= i < k && counts[i].1 > 0 && row == count_row(counts[i].0, counts[i].1)
}

proof fn lemma_count_rows_cover(counts: Seq<(Layer, usize)>, k: nat)
    requires
        k <= counts.len(),
    ensures
        forall|i: int| 0 <= i < k && (#[trigger] counts[i]).1 > 0 ==>
            count_rows(counts, k).contains(count_row(counts[i].0, counts[i].1)),
        forall|j: int| 0 <= j < count_rows(counts, k).len() ==> row_of_some_count(counts, k as int, #[trigger] count_rows(counts, k)[j]),
    decreases k,
{
    if k > 0 {
        lemma_count_rows_cover(counts, (k - 1) as nat);
        let prev = count_rows(counts, (k - 1) as nat);
        let cur = count_rows(counts, k);
        assert forall|i: int| 0 <= i < k && (#[trigger] counts[i]).1 > 0 implies
            cur.contains(count_row(counts[i].0, counts[i].1)) by {
            if i < k - 1 {
                let j = choose|j: int| 0 <= j < prev.len() && prev[j] == count_row(counts[i].0, counts[i].1);
                assert(cur[j] == prev[j]);
            } else {
                assert(cur[prev.len() as int] == count_row(counts[i].0, counts[i].1));
            }
        }
        assert forall|j: int| 0 <= j < cur.len() implies row_of_some_count(counts, k as int, #[trigger] cur[j]) by {
            if j < prev.len() {
                assert(cur[j] == prev[j]);
                assert(row_of_some_count(counts, k - 1, prev[j]));
                let i = choose|i: int| #![trigger counts[i]] 0 <= i < k - 1 && counts[i].1 > 0 && prev[j] == count_row(counts[i].0, counts[i].1);
                assert(counts[i].1 > 0);
            } else {
                assert(cur[j] == count_row(counts[k - 1].0, counts[k - 1].1));
                assert(counts[k - 1].1 > 0);
            }
        }
    }
}

/// Every layer with a non-zero count gets its row, whichever layer it is,
/// reading `"<layer> <n>"` beside the layer's swatch; every count row is of
/// such a layer; and there are as many count rows as there are non-zero
/// counts.
pub proof fn lemma_every_drawn_layer_gets_a_row(counts: Seq<(Layer, usize)>)
    ensures
        forall|i: int| 0 <= i < counts.len() && (#[trigger] counts[i]).1 > 0 ==>
            count_rows(counts, counts.len()).contains(count_row(counts[i].0, counts[i].1)),
        forall|j: int| 0 <= j < count_rows(counts, counts.len()).len() ==>
            row_of_some_count(counts, counts.len() as int, #[trigger] count_rows(counts, counts.len())[j]),
        count_rows(counts, counts.len()).len() == counts.filter(|p: (Layer, usize)| p.1 > 0).len(),
        nonzero_count(counts) == counts.filter(|p: (Layer, usize)| p.1 > 0).len(),
{
    let n = counts.len();
    lemma_count_rows_cover(counts, n);
    lemma_nonzero_count_is_filter(counts);
    lemma_count_rows_len(counts, counts.len());
    assert(counts.take(counts.len() as int) =~= counts);
}

proof fn lemma_nonzero_count_is_filter(counts: Seq<(Layer, usize)>)
    ensures
        nonzero_count(counts) == counts.filter(|p: (Layer, usize)| p.1 > 0).len(),
    decreases counts.len(),
{
    reveal(Seq::filter);
    if counts.len() > 0 {
        lemma_nonzero_count_is_filter(counts.drop_last());
    }
}

/// The legend drawn has as many rows as were counted when the page was laid
/// out: one per layer with a non-zero count, one per entity set.
pub proof fn lemma_legend_matches_its_row_count(counts: Seq<(Layer, usize)>, sets: Seq<usize>, names: Seq<Seq<char>>)
    ensures
        count_rows(counts, counts.len()).len() + set_rows(sets, names, sets.len()).len()
            == nonzero_count(counts) + sets.len(),
{
    lemma_count_rows_len(counts, counts.len());
    assert(counts.take(counts.len() as int) =~= counts);
    lemma_set_rows_len(sets, names, sets.len());
}

} // verus!
