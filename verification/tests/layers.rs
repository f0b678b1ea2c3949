use rage_render::plan::layers::{entity_colours, nav_draw_order, portal_fill, portal_is_limbo, portal_label, room_label, room_label_colour};
use rage_render::plan::palette::{darken, hue, mix, with_alpha, Mesh, INK, LIMBO_STROKE};
use rage_render::plan::NavClass;

#[test]
fn room_labels_carry_index_and_name() {
    assert_eq!(room_label(1, "kitchen"), "r1 kitchen");
    assert_eq!(room_label(12, ""), "r12");
}

#[test]
fn portal_labels_are_ascii() {
    assert_eq!(portal_label(4, 3, 7), "P4 3->7");
    assert!(portal_label(40, 0, 12).is_ascii());
}

#[test]
fn limbo_room_and_portals() {
    assert_eq!(room_label_colour(0), LIMBO_STROKE);
    assert_eq!(room_label_colour(1), darken(hue(1)));
    assert_eq!(room_label_colour(1), [0x7F, 0x3F, 0x07, 255]);
    assert!(portal_is_limbo(0, 3));
    assert!(portal_is_limbo(3, 0));
    assert!(!portal_is_limbo(3, 4));
}

#[test]
fn hues_cycle_through_ten() {
    assert_eq!(hue(0), [0x1F, 0x77, 0xB4, 255]);
    assert_eq!(hue(13), hue(3));
    assert_eq!(hue(9), [0x17, 0xBE, 0xCF, 255]);
}

#[test]
fn portal_fill_averages_both_rooms() {
    assert_eq!(portal_fill(0, 1, 89), [143, 123, 97, 89]);
    assert_eq!(portal_fill(2, 5, 89), portal_fill(5, 2, 89));
    assert_eq!(mix([255, 255, 255, 255], [0, 1, 2, 255], 10), [127, 128, 128, 10]);
}

#[test]
fn entity_colours_by_set() {
    assert_eq!(entity_colours(None, 102), (with_alpha(INK, 102), None));
    let (fill, ring) = entity_colours(Some(2), 255);
    assert_eq!(fill, hue(2));
    assert_eq!(ring, Some([0x16, 0x50, 0x16, 255]));
}

#[test]
fn navmesh_exterior_first_interior_on_top() {
    let classes = vec![NavClass::Interior, NavClass::Sunk, NavClass::Exterior, NavClass::Interior, NavClass::Exterior];
    assert_eq!(nav_draw_order(&classes), vec![2, 4, 0, 3, 1]);
}

#[test]
fn mesh_colours() {
    assert_eq!(Mesh::Collision.floor_ramp(), ([0xB8, 0xC0, 0xCC, 255], [0xE4, 0xE8, 0xEE, 255]));
    assert_eq!(Mesh::Drawable.slope(), [0xC0, 0xA8, 0x88, 255]);
    assert_eq!(Mesh::Collision.swatch(), Mesh::Collision.wall());
}
