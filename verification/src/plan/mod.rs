//! The floor plan: which layers exist and the decisions taken before and
//! while drawing them.

pub mod canvas;
pub mod cartography;
pub mod layers;
pub mod legend;
pub mod palette;
pub mod prepare;
pub mod raster;
pub mod svg;
pub mod text;

use vstd::prelude::*;

use text::{ascii_lower, decimal, push_decimal, to_ascii_lower};

verus! {

/// A drawable layer of the plan. Layers are drawn bottom-up in this order.
#[derive(Debug, Clone, Copy, PartialEq, Eq, Hash, Structural)]
pub enum Layer {
    Rooms,
    Portals,
    Entities,
    Collision,
    Drawable,
    Navmesh,
}

/// The lowercase name of a layer.
pub open spec fn layer_name(l: Layer) -> Seq<char> {
    match l {
        Layer::Rooms => "rooms"@,
        Layer::Portals => "portals"@,
        Layer::Entities => "entities"@,
        Layer::Collision => "collision"@,
        Layer::Drawable => "drawable"@,
        Layer::Navmesh => "navmesh"@,
    }
}

/// Every layer, in declaration order.
pub open spec fn all_layers() -> Seq<Layer> {
    seq![Layer::Rooms, Layer::Portals, Layer::Entities, Layer::Collision, Layer::Drawable, Layer::Navmesh]
}

/// The position of a layer in declaration order.
pub open spec fn layer_index(l: Layer) -> int {
    match l {
        Layer::Rooms => 0,
        Layer::Portals => 1,
        Layer::Entities => 2,
        Layer::Collision => 3,
        Layer::Drawable => 4,
        Layer::Navmesh => 5,
    }
}

/// The first layer, in declaration order, among the first `k` whose name
/// is `t`.
pub open spec fn layer_named_among(t: Seq<char>, k: nat) -> Option<Layer>
    decreases k,
{
    if k == 0 {
        None
    } else {
        match layer_named_among(t, (k - 1) as nat) {
            Some(l) => Some(l),
            None => if layer_name(all_layers()[k - 1]) == t { Some(all_layers()[k - 1]) } else { None },
        }
    }
}

proof fn lemma_named_among_stays(t: Seq<char>, k: nat, m: nat)
    requires
        k <= m,
        layer_named_among(t, k) is Some,
    ensures
        layer_named_among(t, m) == layer_named_among(t, k),
    decreases m - k,
{
    if k < m {
        lemma_named_among_stays(t, k, (m - 1) as nat);
    }
}

/// The layer a command-line name selects: names are compared after
/// lowering ASCII letters.
pub open spec fn parse_layer(s: Seq<char>) -> Option<Layer> {
    layer_named_among(ascii_lower(s), 6)
}

/// The layer names joined with `", "`, over the first `k` layers.
pub open spec fn layer_list(k: nat) -> Seq<char>
    decreases k,
{
    if k == 0 {
        Seq::empty()
    } else if k == 1 {
        layer_name(all_layers()[0])
    } else {
        layer_list((k - 1) as nat) + ", "@ + layer_name(all_layers()[k - 1])
    }
}

proof fn lemma_named_among_matches(t: Seq<char>, k: nat)
    requires
        k <= 6,
    ensures
        layer_named_among(t, k) matches Some(l) ==> layer_name(l) == t,
    decreases k,
{
    if k > 0 {
        lemma_named_among_matches(t, (k - 1) as nat);
    }
}

/// A name selects a layer only when, lowered, it is that layer's name.
pub proof fn lemma_parse_selects_by_name(s: Seq<char>)
    ensures
        parse_layer(s) matches Some(l) ==> layer_name(l) == ascii_lower(s),
{
    lemma_named_among_matches(ascii_lower(s), 6);
}

proof fn lemma_named_among_none(t: Seq<char>, k: nat)
    requires
        k <= 6,
        forall|j: int| 0 <= j < k ==> layer_name(#[trigger] all_layers()[j]) != t,
    ensures
        layer_named_among(t, k) is None,
    decreases k,
{
    if k > 0 {
        lemma_named_among_none(t, (k - 1) as nat);
    }
}

/// No two layers share a name.
pub proof fn lemma_layer_names_distinct(l1: Layer, l2: Layer)
    requires
        l1 != l2,
    ensures
        layer_name(l1) != layer_name(l2),
{
    reveal_strlit("rooms");
    reveal_strlit("portals");
    reveal_strlit("entities");
    reveal_strlit("collision");
    reveal_strlit("drawable");
    reveal_strlit("navmesh");
    assert(layer_name(l1)[0] != layer_name(l2)[0]);
}

/// Every layer is selected by its own name, in any ASCII case.
pub proof fn lemma_parse_name_round_trip(l: Layer, s: Seq<char>)
    requires
        ascii_lower(s) == layer_name(l),
    ensures
        parse_layer(s) == Some(l),
{
    reveal_strlit("rooms");
    reveal_strlit("portals");
    reveal_strlit("entities");
    reveal_strlit("collision");
    reveal_strlit("drawable");
    reveal_strlit("navmesh");
    let t = ascii_lower(s);
    assert forall|m: Layer| m != l implies layer_name(m) != t by {
        lemma_layer_names_distinct(m, l);
    }
    assert(layer_named_among(t, 0) is None);
    assert(all_layers()[layer_index(l)] == l);
    assert forall|j: int| 0 <= j < layer_index(l) implies layer_name(#[trigger] all_layers()[j]) != t by {
        assert(all_layers()[j] != l);
    }
    lemma_named_among_none(t, layer_index(l) as nat);
    assert(layer_named_among(t, (layer_index(l) + 1) as nat) == Some(l));
    lemma_named_among_stays(t, (layer_index(l) + 1) as nat, 6);
}

/// Every layer's own name is in lowercase, so a layer name selects it.
pub proof fn lemma_names_are_lowercase(l: Layer)
    ensures
        ascii_lower(layer_name(l)) == layer_name(l),
{
    reveal_strlit("rooms");
    reveal_strlit("portals");
    reveal_strlit("entities");
    reveal_strlit("collision");
    reveal_strlit("drawable");
    reveal_strlit("navmesh");
    assert(ascii_lower(layer_name(l)) =~= layer_name(l));
}

/// Why a plan could not be drawn.
#[derive(Debug)]
pub enum PlanError {
    /// No geometry in the chosen layers and z band.
    NothingToDraw,
    /// The region is not a finite rectangle.
    NotFinite,
    /// The scale is not greater than zero.
    BadScale,
    /// The map would be `width` x `height` pixels, more than allowed.
    TooLarge { width: u64, height: u64 },
    /// A layer name that names no layer.
    UnknownLayer(String),
}

/// The message a plan error is reported with.
pub open spec fn error_message(e: PlanError) -> Seq<char> {
    match e {
        PlanError::NothingToDraw => "nothing to draw: no geometry in the chosen layers and z band"@,
        PlanError::NotFinite => "nothing to draw: the region is not a finite rectangle"@,
        PlanError::BadScale => "scale must be greater than zero"@,
        PlanError::TooLarge { width, height } => decimal(width as nat) + "x"@ + decimal(height as nat)
            + " px is too large; lower --scale or shrink --region"@,
        PlanError::UnknownLayer(s) => "unknown layer '"@ + s@ + "'; valid layers are "@ + layer_list(6),
    }
}

impl PlanError {
    /// The message this error is reported with.
    pub fn message(&self) -> (r: String)
        ensures
            r@ == error_message(*self),
    {
        match self {
            PlanError::NothingToDraw => String::from_str("nothing to draw: no geometry in the chosen layers and z band"),
            PlanError::NotFinite => String::from_str("nothing to draw: the region is not a finite rectangle"),
            PlanError::BadScale => String::from_str("scale must be greater than zero"),
            PlanError::TooLarge { width, height } => {
                let mut out = String::new();
                push_decimal(&mut out, *width);
                out.append("x");
                push_decimal(&mut out, *height);
                out.append(" px is too large; lower --scale or shrink --region");
                proof {
                    assert(out@ =~= error_message(*self));
                }
                out
            },
            PlanError::UnknownLayer(s) => {
                let mut out = String::from_str("unknown layer '");
                out.append(s.as_str());
                out.append("'; valid layers are ");
                let names = Layer::list();
                out.append(names.as_str());
                proof {
                    assert(out@ =~= error_message(*self));
                }
                out
            },
        }
    }
}

impl Layer {
    /// Every layer, in declaration order.
    pub const ALL: [Layer; 6] = [
        Layer::Rooms,
        Layer::Portals,
        Layer::Entities,
        Layer::Collision,
        Layer::Drawable,
        Layer::Navmesh,
    ];

    /// The layer names, in declaration order, joined with `", "`.
    pub fn list() -> (r: String)
        ensures
            r@ == layer_list(6),
    {
        let all = Layer::ALL;
        let mut out = String::new();
        let mut k: usize = 0;
        while k < 6
            invariant
                k <= 6,
                all@ == all_layers(),
                out@ == layer_list(k as nat),
            decreases 6 - k,
        {
            if k > 0 {
                out.append(", ");
            }
            out.append(all[k].name());
            k = k + 1;
        }
        out
    }

    /// The layer named `s`, compared after lowering ASCII letters; an
    /// unknown name is refused with a message listing the valid ones.
    pub fn parse(s: &str) -> (r: Result<Layer, PlanError>)
        ensures
            match parse_layer(s@) {
                Some(l) => r == Ok::<Layer, PlanError>(l),
                None => r matches Err(PlanError::UnknownLayer(t)) && t@ == s@,
            },
    {
        let lower = to_ascii_lower(s);
        let all = Layer::ALL;
        let mut k: usize = 0;
        while k < 6
            invariant
                k <= 6,
                all@ == all_layers(),
                lower@ == ascii_lower(s@),
                layer_named_among(lower@, k as nat) is None,
            decreases 6 - k,
        {
            let name = String::from_str(all[k].name());
            if lower == name {
                proof {
                    assert(layer_named_among(lower@, (k + 1) as nat) == Some(all_layers()[k as int]));
                    lemma_named_among_stays(lower@, (k + 1) as nat, 6);
                }
                return Ok(all[k]);
            }
            k = k + 1;
        }
        Err(PlanError::UnknownLayer(String::from_str(s)))
    }

    /// The lowercase name used on the command line and in the legend.
    pub fn name(self) -> (r: &'static str)
        ensures
            r@ == layer_name(self),
    {
        match self {
            Layer::Rooms => "rooms",
            Layer::Portals => "portals",
            Layer::Entities => "entities",
            Layer::Collision => "collision",
            Layer::Drawable => "drawable",
            Layer::Navmesh => "navmesh",
        }
    }
}

impl std::str::FromStr for Layer {
    type Err = PlanError;

    fn from_str(s: &str) -> (r: Result<Layer, PlanError>)
        ensures
            match parse_layer(s@) {
                Some(l) => r == Ok::<Layer, PlanError>(l),
                None => r matches Err(PlanError::UnknownLayer(t)) && t@ == s@,
            },
    {
        Layer::parse(s)
    }
}

/// How a navmesh polygon relates to the interior being plotted.
#[derive(Debug, Clone, Copy, PartialEq, Eq, Structural)]
pub enum NavClass {
    Interior,
    Exterior,
    Sunk,
}

} // verus!
