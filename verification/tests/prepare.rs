use rage_render::plan::cartography::{label_order, labels_hidden_warning};
use rage_render::plan::legend::{legend_rows, legend_swatch};
use rage_render::plan::palette::{hue, Mesh, INK, NAV_INTERIOR_STROKE, PORTAL_STROKE};
use rage_render::plan::prepare::{check_map_size, contains_layer, distinct_sets, layer_counts, legend_row_count, LayerTally};
use rage_render::plan::{Layer, PlanError};

fn tally() -> LayerTally {
    LayerTally { rooms: 1, portals: 0, entities: 2, collision: 5, drawable: 0, navmesh: 1 }
}

#[test]
fn disabled_layers_are_not_counted() {
    let counts = layer_counts(&vec![Layer::Navmesh], &tally());
    assert_eq!(counts, vec![(Layer::Navmesh, 1)]);
}

#[test]
fn counts_follow_declaration_order_whatever_the_enabling_order() {
    let counts = layer_counts(&vec![Layer::Navmesh, Layer::Rooms, Layer::Entities, Layer::Rooms], &tally());
    assert_eq!(counts, vec![(Layer::Rooms, 1), (Layer::Entities, 2), (Layer::Navmesh, 1)]);
    let all = layer_counts(&Layer::ALL.to_vec(), &tally());
    assert_eq!(all.len(), 6);
    assert_eq!(all[3], (Layer::Collision, 5));
    assert!(layer_counts(&vec![], &tally()).is_empty());
}

#[test]
fn contains_layer_finds_members() {
    assert!(contains_layer(&vec![Layer::Drawable, Layer::Portals], Layer::Portals));
    assert!(!contains_layer(&vec![Layer::Drawable], Layer::Portals));
}

#[test]
fn entity_sets_are_sorted_and_distinct() {
    let sets = distinct_sets(&vec![Some(3), None, Some(0), Some(3), Some(7), None, Some(0)]);
    assert_eq!(sets, vec![0, 3, 7]);
    assert!(distinct_sets(&vec![None, None]).is_empty());
}

#[test]
fn legend_row_count_counts_drawn_layers_and_sets() {
    let counts = vec![(Layer::Rooms, 1), (Layer::Portals, 0), (Layer::Navmesh, 4)];
    assert_eq!(legend_row_count(&counts, 3), 5);
    assert_eq!(legend_row_count(&vec![], 0), 0);
}

#[test]
fn a_map_bigger_than_max_pixels_is_refused_with_its_size() {
    assert!(check_map_size(100, 100, 10_000).is_ok());
    let err = check_map_size(101, 100, 10_000).unwrap_err();
    assert!(matches!(err, PlanError::TooLarge { width: 101, height: 100 }));
    assert_eq!(err.message(), "101x100 px is too large; lower --scale or shrink --region");
}

#[test]
fn plan_error_messages() {
    assert_eq!(
        PlanError::NothingToDraw.message(),
        "nothing to draw: no geometry in the chosen layers and z band"
    );
    assert_eq!(PlanError::NotFinite.message(), "nothing to draw: the region is not a finite rectangle");
    assert_eq!(PlanError::BadScale.message(), "scale must be greater than zero");
}

#[test]
fn legend_lists_drawn_layers_then_named_sets() {
    let counts = vec![(Layer::Rooms, 2), (Layer::Portals, 0), (Layer::Collision, 12)];
    let names = vec!["kitchen props".to_string()];
    let rows = legend_rows(&counts, &vec![0, 13], &names);
    let texts: Vec<&str> = rows.iter().map(|r| r.text.as_str()).collect();
    assert_eq!(texts, vec!["rooms 2", "collision 12", "kitchen props", "set 13"]);
    assert_eq!(rows[0].swatch, hue(1));
    assert_eq!(rows[1].swatch, Mesh::Collision.swatch());
    assert_eq!(rows[2].swatch, hue(0));
    assert_eq!(rows[3].swatch, hue(3));
    assert_eq!(rows.len(), legend_row_count(&counts, 2));
}

#[test]
fn legend_swatches_per_layer() {
    assert_eq!(legend_swatch(Layer::Portals), PORTAL_STROKE);
    assert_eq!(legend_swatch(Layer::Entities), INK);
    assert_eq!(legend_swatch(Layer::Drawable), [0x8B, 0x6B, 0x4A, 255]);
    assert_eq!(legend_swatch(Layer::Navmesh), NAV_INTERIOR_STROKE);
}

#[test]
fn labels_are_placed_by_priority_then_request_order() {
    assert_eq!(label_order(&vec![3, 1, 0, 1, 2, 0]), vec![2, 5, 1, 3, 4, 0]);
    assert_eq!(label_order(&vec![255, 0]), vec![1, 0]);
    assert!(label_order(&vec![]).is_empty());
}

#[test]
fn hidden_labels_are_reported() {
    assert_eq!(labels_hidden_warning(3), "3 labels hidden to avoid overlap");
}
