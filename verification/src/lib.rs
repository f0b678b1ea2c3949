//! Integer and text logic of a top-down floor-plan renderer for GTA V
//! interiors: layer selection, legend and label text, colour choices, SVG
//! markup pieces, base64, and pixel blending onto an RGBA image.

pub mod plan;

pub use plan::{Layer, NavClass};
