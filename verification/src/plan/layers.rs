//! What the scene's own content is drawn with: the label text of rooms and
//! portals, their colours, entity colours, and the navmesh drawing order.

use vstd::prelude::*;

use super::palette::{darken, hue, mix, room_hue, with_alpha, Rgba8, HUE_COUNT, INK, LIMBO_STROKE};
use super::text::{decimal, push_decimal};
use super::NavClass;

verus! {

/// A room's label: `"r<index>"`, followed by its name when it has one.
pub open spec fn room_label_text(index: usize, name: Seq<char>) -> Seq<char> {
    if name.len() == 0 {
        "r"@ + decimal(index as nat)
    } else {
        "r"@ + decimal(index as nat) + " "@ + name
    }
}

/// A room's label: `"r<index>"`, followed by its name when it has one.
pub fn room_label(index: usize, name: &str) -> (r: String)
    ensures
        r@ == room_label_text(index, name@),
{
    let mut out = String::from_str("r");
    push_decimal(&mut out, index as u64);
    if name.unicode_len() != 0 {
        out.append(" ");
        out.append(name);
    }
    out
}

/// The hue of a room or entity set.
pub open spec fn hue_of(index: usize) -> Rgba8 {
    room_hue(index as int % HUE_COUNT as int)
}

/// Room 0 is the limbo room, outside the interior proper.
pub open spec fn is_limbo(index: usize) -> bool {
    index == 0
}

/// The colour of a room's label: grey for the limbo room, otherwise the
/// room's hue darkened.
pub fn room_label_colour(index: usize) -> (r: Rgba8)
    ensures
        r == if is_limbo(index) {
            LIMBO_STROKE
        } else {
            [(hue_of(index)[0] / 2) as u8, (hue_of(index)[1] / 2) as u8, (hue_of(index)[2] / 2) as u8, hue_of(index)[3]]
        },
{
    if index == 0 { LIMBO_STROKE } else { darken(hue(index)) }
}

/// A portal's label, `"P<index> <from>-><to>"`, in ASCII so that the bitmap
/// font can draw it.
pub open spec fn portal_label_text(index: usize, from: usize, to: usize) -> Seq<char> {
    "P"@ + decimal(index as nat) + " "@ + decimal(from as nat) + "->"@ + decimal(to as nat)
}

/// A portal's label, `"P<index> <from>-><to>"`, in ASCII so that the bitmap
/// font can draw it.
pub fn portal_label(index: usize, from: usize, to: usize) -> (r: String)
    ensures
        r@ == portal_label_text(index, from, to),
{
    let mut out = String::from_str("P");
    push_decimal(&mut out, index as u64);
    out.append(" ");
    push_decimal(&mut out, from as u64);
    out.append("->");
    push_decimal(&mut out, to as u64);
    proof {
        assert(out@ =~= portal_label_text(index, from, to));
    }
    out
}

/// A portal to or from the limbo room is drawn dashed.
pub fn portal_is_limbo(room_from: usize, room_to: usize) -> (r: bool)
    ensures
        r == (is_limbo(room_from) || is_limbo(room_to)),
{
    room_from == 0 || room_to == 0
}

/// The mean of two rooms' hues at opacity `alpha`.
pub open spec fn portal_fill_of(room_from: usize, room_to: usize, alpha: u8) -> Rgba8 {
    [
        ((hue_of(room_from)[0] as int + hue_of(room_to)[0] as int) / 2) as u8,
        ((hue_of(room_from)[1] as int + hue_of(room_to)[1] as int) / 2) as u8,
        ((hue_of(room_from)[2] as int + hue_of(room_to)[2] as int) / 2) as u8,
        alpha,
    ]
}

/// A portal's fill: the mean of its two rooms' hues at opacity `alpha`.
pub fn portal_fill(room_from: usize, room_to: usize, alpha: u8) -> (r: Rgba8)
    ensures
        r == portal_fill_of(room_from, room_to, alpha),
{
    mix(hue(room_from), hue(room_to), alpha)
}

/// An entity dot's fill and ring at opacity `alpha`: an entity in a set
/// takes the set's hue with a darker ring, any other is plain ink.
pub fn entity_colours(set: Option<usize>, alpha: u8) -> (r: (Rgba8, Option<Rgba8>))
    ensures
        r == match set {
            Some(k) => ([hue_of(k)[0], hue_of(k)[1], hue_of(k)[2], alpha], Some([
                (hue_of(k)[0] / 2) as u8,
                (hue_of(k)[1] / 2) as u8,
                (hue_of(k)[2] / 2) as u8,
                alpha,
            ])),
            None => ([INK[0], INK[1], INK[2], alpha], None),
        },
{
    match set {
        Some(k) => {
            let c = hue(k);
            (with_alpha(c, alpha), Some(with_alpha(darken(c), alpha)))
        },
        None => (with_alpha(INK, alpha), None),
    }
}

/// The navmesh classes in the order they are drawn: exterior first, so that
/// the interior reads on top, sunk polygons last.
pub open spec fn nav_class_order() -> Seq<NavClass> {
    seq![NavClass::Exterior, NavClass::Interior, NavClass::Sunk]
}

/// The positions among the first `k` of `classes` that hold `c`, ascending.
pub open spec fn positions_of(classes: Seq<NavClass>, c: NavClass, k: nat) -> Seq<usize>
    decreases k,
{
    if k == 0 {
        Seq::empty()
    } else {
        let rest = positions_of(classes, c, (k - 1) as nat);
        if classes[k - 1] == c { rest.push((k - 1) as usize) } else { rest }
    }
}

/// The positions of the first `g` classes of the drawing order, grouped.
pub open spec fn nav_groups(classes: Seq<NavClass>, g: nat) -> Seq<usize>
    decreases g,
{
    if g == 0 {
        Seq::empty()
    } else {
        nav_groups(classes, (g - 1) as nat) + positions_of(classes, nav_class_order()[g - 1], classes.len())
    }
}

/// The order the navmesh polygons of the given classes are drawn in: the
/// exterior ones, then the interior ones, then the sunk ones, each group in
/// the given order. Returns positions into `classes`.
pub fn nav_draw_order(classes: &Vec<NavClass>) -> (r: Vec<usize>)
    ensures
        r@ == nav_groups(classes@, 3),
{
    let order = [NavClass::Exterior, NavClass::Interior, NavClass::Sunk];
    let mut out: Vec<usize> = Vec::new();
    let mut g: usize = 0;
    while g < 3
        invariant
            g <= 3,
            order@ == nav_class_order(),
            out@ == nav_groups(classes@, g as nat),
        decreases 3 - g,
    {
        let c = order[g];
        let ghost base = out@;
        let mut i: usize = 0;
        while i < classes.len()
            invariant
                i <= classes@.len(),
                g < 3,
                c == nav_class_order()[g as int],
                base == nav_groups(classes@, g as nat),
                out@ == base + positions_of(classes@, c, i as nat),
            decreases classes@.len() - i,
        {
            if classes[i] == c {
                out.push(i);
                proof {
                    assert(out@ =~= base + positions_of(classes@, c, (i + 1) as nat));
                }
            }
            i = i + 1;
        }
        g = g + 1;
    }
    out
}

/// A class's place in the navmesh drawing order.
pub open spec fn class_rank(c: NavClass) -> int {
    match c {
        NavClass::Exterior => 0,
        NavClass::Interior => 1,
        NavClass::Sunk => 2,
    }
}

proof fn lemma_positions_of(classes: Seq<NavClass>, c: NavClass, k: nat)
    requires
        k <= classes.len(),
        classes.len() <= usize::MAX,
    ensures
        forall|i: int| 0 <= i < positions_of(classes, c, k).len() ==>
            #[trigger] positions_of(classes, c, k)[i] < k && classes[positions_of(classes, c, k)[i] as int] == c,
        forall|i: int, j: int| 0 <= i < j < positions_of(classes, c, k).len() ==>
            #[trigger] positions_of(classes, c, k)[i] < #[trigger] positions_of(classes, c, k)[j],
        forall|x: int| 0 <= x < k && classes[x] == c ==> #[trigger] positions_of(classes, c, k).contains(x as usize),
    decreases k,
{
    if k > 0 {
        lemma_positions_of(classes, c, (k - 1) as nat);
        let prev = positions_of(classes, c, (k - 1) as nat);
        let cur = positions_of(classes, c, k);
        assert forall|x: int| 0 <= x < k && classes[x] == c implies #[trigger] cur.contains(x as usize) by {
            if x < k - 1 {
                assert(prev.contains(x as usize));
                let i = choose|i: int| 0 <= i < prev.len() && prev[i] == x as usize;
                assert(cur[i] == x as usize);
            } else {
                assert(cur[prev.len() as int] == x as usize);
            }
        }
    }
}

proof fn lemma_nav_groups(classes: Seq<NavClass>, g: nat)
    requires
        g <= 3,
        classes.len() <= usize::MAX,
    ensures
        forall|i: int| 0 <= i < nav_groups(classes, g).len() ==>
            #[trigger] nav_groups(classes, g)[i] < classes.len() && class_rank(classes[nav_groups(classes, g)[i] as int]) < g,
        forall|i: int, j: int| 0 <= i < j < nav_groups(classes, g).len() ==> {
            let a = #[trigger] nav_groups(classes, g)[i];
            let b = #[trigger] nav_groups(classes, g)[j];
            class_rank(classes[a as int]) < class_rank(classes[b as int])
                || (classes[a as int] == classes[b as int] && a < b)
        },
        forall|x: int| 0 <= x < classes.len() && class_rank(classes[x]) < g ==>
            #[trigger] nav_groups(classes, g).contains(x as usize),
    decreases g,
{
    if g > 0 {
        let n = classes.len();
        let c = nav_class_order()[g - 1];
        assert(class_rank(c) == g - 1);
        lemma_nav_groups(classes, (g - 1) as nat);
        lemma_positions_of(classes, c, n);
        let prev = nav_groups(classes, (g - 1) as nat);
        let grp = positions_of(classes, c, n);
        let cur = nav_groups(classes, g);
        assert(cur == prev + grp);
        assert forall|i: int| 0 <= i < cur.len() implies
            #[trigger] cur[i] < n && class_rank(classes[cur[i] as int]) < g by {
            if i >= prev.len() {
                assert(cur[i] == grp[i - prev.len()]);
            }
        }
        assert forall|i: int, j: int| 0 <= i < j < cur.len() implies {
            let a = #[trigger] cur[i];
            let b = #[trigger] cur[j];
            class_rank(classes[a as int]) < class_rank(classes[b as int])
                || (classes[a as int] == classes[b as int] && a < b)
        } by {
            if j < prev.len() {
                assert(cur[i] == prev[i] && cur[j] == prev[j]);
            } else if i < prev.len() {
                assert(cur[i] == prev[i] && cur[j] == grp[j - prev.len()]);
            } else {
                assert(cur[i] == grp[i - prev.len()] && cur[j] == grp[j - prev.len()]);
            }
        }
        assert forall|x: int| 0 <= x < n && class_rank(classes[x]) < g implies #[trigger] cur.contains(x as usize) by {
            if class_rank(classes[x]) < g - 1 {
                assert(prev.contains(x as usize));
                let i = choose|i: int| 0 <= i < prev.len() && prev[i] == x as usize;
                assert(cur[i] == x as usize);
            } else {
                assert(classes[x] == c);
                assert(grp.contains(x as usize));
                let i = choose|i: int| 0 <= i < grp.len() && grp[i] == x as usize;
                assert(cur[prev.len() + i] == x as usize);
            }
        }
    }
}

/// Every navmesh polygon is drawn exactly once: the exterior ones first,
/// then the interior ones, then the sunk ones, each class in the order given.
pub proof fn lemma_nav_order_draws_each_once_by_class(classes: Seq<NavClass>)
    requires
        classes.len() <= usize::MAX,
    ensures
        forall|i: int| 0 <= i < nav_groups(classes, 3).len() ==> #[trigger] nav_groups(classes, 3)[i] < classes.len(),
        forall|x: int| 0 <= x < classes.len() ==> #[trigger] nav_groups(classes, 3).contains(x as usize),
        forall|i: int, j: int| 0 <= i < j < nav_groups(classes, 3).len() ==> {
            let a = #[trigger] nav_groups(classes, 3)[i];
            let b = #[trigger] nav_groups(classes, 3)[j];
            class_rank(classes[a as int]) < class_rank(classes[b as int])
                || (classes[a as int] == classes[b as int] && a < b)
        },
{
    lemma_nav_groups(classes, 3);
}

/// A portal's fill does not depend on which way it is walked.
pub proof fn lemma_portal_fill_is_symmetric(room_from: usize, room_to: usize, alpha: u8)
    ensures
        portal_fill_of(room_from, room_to, alpha) == portal_fill_of(room_to, room_from, alpha),
{
    assert(portal_fill_of(room_from, room_to, alpha) =~= portal_fill_of(room_to, room_from, alpha));
}

} // verus!
