//! Every colour the plan uses, in one place.

use vstd::prelude::*;

verus! {

/// Straight (non-premultiplied) RGBA.
pub type Rgba8 = [u8; 4];

pub const BACKGROUND: Rgba8 = [255, 255, 255, 255];
pub const GRID_MINOR: Rgba8 = [0xEC, 0xEC, 0xEC, 255];
pub const GRID_MAJOR: Rgba8 = [0xD5, 0xD5, 0xD5, 255];
pub const AXIS_TEXT: Rgba8 = [0x55, 0x55, 0x55, 255];
pub const INK: Rgba8 = [0x20, 0x20, 0x20, 255];

/// Interior navmesh fill, at 0.45 opacity.
pub const NAV_INTERIOR_FILL: Rgba8 = [90, 190, 110, 115];
pub const NAV_INTERIOR_STROKE: Rgba8 = [0x1E, 0x7A, 0x3C, 255];
pub const NAV_EXTERIOR_STROKE: Rgba8 = [0xC0, 0xC0, 0xC0, 255];
pub const NAV_SUNK_STROKE: Rgba8 = [0xD0, 0x28, 0x28, 255];

pub const PORTAL_STROKE: Rgba8 = [0x6A, 0x1B, 0x9A, 255];
pub const LIMBO_STROKE: Rgba8 = [0x80, 0x80, 0x80, 255];

/// Number of categorical hues.
pub const HUE_COUNT: usize = 10;

/// The ten categorical room hues, picked by room index.
pub open spec fn room_hue(k: int) -> Rgba8 {
    if k == 0 { [0x1F, 0x77, 0xB4, 255] }
    else if k == 1 { [0xFF, 0x7F, 0x0E, 255] }
    else if k == 2 { [0x2C, 0xA0, 0x2C, 255] }
    else if k == 3 { [0xD6, 0x27, 0x28, 255] }
    else if k == 4 { [0x94, 0x67, 0xBD, 255] }
    else if k == 5 { [0x8C, 0x56, 0x4B, 255] }
    else if k == 6 { [0xE3, 0x77, 0xC2, 255] }
    else if k == 7 { [0x7F, 0x7F, 0x7F, 255] }
    else if k == 8 { [0xBC, 0xBD, 0x22, 255] }
    else { [0x17, 0xBE, 0xCF, 255] }
}

/// The categorical hue for a room or entity-set index.
pub fn hue(index: usize) -> (r: Rgba8)
    ensures
        r == room_hue(index as int % HUE_COUNT as int),
{
    let k = index % HUE_COUNT;
    if k == 0 { [0x1F, 0x77, 0xB4, 255] }
    else if k == 1 { [0xFF, 0x7F, 0x0E, 255] }
    else if k == 2 { [0x2C, 0xA0, 0x2C, 255] }
    else if k == 3 { [0xD6, 0x27, 0x28, 255] }
    else if k == 4 { [0x94, 0x67, 0xBD, 255] }
    else if k == 5 { [0x8C, 0x56, 0x4B, 255] }
    else if k == 6 { [0xE3, 0x77, 0xC2, 255] }
    else if k == 7 { [0x7F, 0x7F, 0x7F, 255] }
    else if k == 8 { [0xBC, 0xBD, 0x22, 255] }
    else { [0x17, 0xBE, 0xCF, 255] }
}

/// `c` with its alpha replaced by `alpha` (0 transparent, 255 opaque).
pub fn with_alpha(c: Rgba8, alpha: u8) -> (r: Rgba8)
    ensures
        r == [c[0], c[1], c[2], alpha],
{
    [c[0], c[1], c[2], alpha]
}

/// The mean of two channel values, rounded down.
pub open spec fn mean_channel(a: u8, b: u8) -> u8 {
    ((a as int + b as int) / 2) as u8
}

/// Component-wise average of two colours, with the given alpha.
pub fn mix(a: Rgba8, b: Rgba8, alpha: u8) -> (r: Rgba8)
    ensures
        r == [mean_channel(a[0], b[0]), mean_channel(a[1], b[1]), mean_channel(a[2], b[2]), alpha],
{
    let r0 = ((a[0] as u16 + b[0] as u16) / 2) as u8;
    let r1 = ((a[1] as u16 + b[1] as u16) / 2) as u8;
    let r2 = ((a[2] as u16 + b[2] as u16) / 2) as u8;
    with_alpha([r0, r1, r2, 255], alpha)
}

/// A darker version of `c`, for entity rings: each colour channel halved.
pub fn darken(c: Rgba8) -> (r: Rgba8)
    ensures
        r == [(c[0] / 2) as u8, (c[1] / 2) as u8, (c[2] / 2) as u8, c[3]],
{
    [c[0] / 2, c[1] / 2, c[2] / 2, c[3]]
}

/// Which kind of surface a mesh triangle is, by its normal.
#[derive(Debug, Clone, Copy, PartialEq, Eq, Structural)]
pub enum Facing {
    Floor,
    Wall,
    Slope,
}

/// Which mesh a triangle came from; they are shaded in different families.
#[derive(Debug, Clone, Copy, PartialEq, Eq, Structural)]
pub enum Mesh {
    Collision,
    Drawable,
}

/// The bottom and top colours of a mesh's floor ramp.
pub open spec fn floor_ramp_of(m: Mesh) -> (Rgba8, Rgba8) {
    match m {
        Mesh::Collision => ([0xB8, 0xC0, 0xCC, 255], [0xE4, 0xE8, 0xEE, 255]),
        Mesh::Drawable => ([0xEA, 0xDF, 0xCB, 255], [0xF4, 0xEC, 0xDC, 255]),
    }
}

/// The colour of a mesh's walls.
pub open spec fn wall_of(m: Mesh) -> Rgba8 {
    match m {
        Mesh::Collision => [0x4B, 0x56, 0x73, 255],
        Mesh::Drawable => [0x8B, 0x6B, 0x4A, 255],
    }
}

/// The colour of a mesh's slopes.
pub open spec fn slope_of(m: Mesh) -> Rgba8 {
    match m {
        Mesh::Collision => [0x9A, 0xA3, 0xB5, 255],
        Mesh::Drawable => [0xC0, 0xA8, 0x88, 255],
    }
}

impl Mesh {
    /// The colours floors of this mesh shade between, bottom to top.
    pub fn floor_ramp(self) -> (r: (Rgba8, Rgba8))
        ensures
            r == floor_ramp_of(self),
    {
        match self {
            Mesh::Collision => ([0xB8, 0xC0, 0xCC, 255], [0xE4, 0xE8, 0xEE, 255]),
            Mesh::Drawable => ([0xEA, 0xDF, 0xCB, 255], [0xF4, 0xEC, 0xDC, 255]),
        }
    }

    /// The colour of this mesh's walls.
    pub fn wall(self) -> (r: Rgba8)
        ensures
            r == wall_of(self),
    {
        match self {
            Mesh::Collision => [0x4B, 0x56, 0x73, 255],
            Mesh::Drawable => [0x8B, 0x6B, 0x4A, 255],
        }
    }

    /// The colour of this mesh's slopes.
    pub fn slope(self) -> (r: Rgba8)
        ensures
            r == slope_of(self),
    {
        match self {
            Mesh::Collision => [0x9A, 0xA3, 0xB5, 255],
            Mesh::Drawable => [0xC0, 0xA8, 0x88, 255],
        }
    }

    /// The legend swatch for this mesh: its wall colour.
    pub fn swatch(self) -> (r: Rgba8)
        ensures
            r == wall_of(self),
    {
        self.wall()
    }
}

} // verus!
