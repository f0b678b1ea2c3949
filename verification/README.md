# rage_render

The integer and text core of a top-down floor-plan renderer for GTA V
interiors, written in Verus and proved against its contracts.

`src/` is the verified library (`rage_render::plan`):

- `mod.rs` — the layers (`Layer`, `Layer::ALL`, names, case-insensitive
  parsing) and `PlanError` with its messages.
- `prepare.rs` — the pixel budget check, per-layer counts in declaration
  order, the sorted distinct entity sets, and the legend row count.
- `legend.rs` — the legend rows and swatches.
- `layers.rs` — room and portal labels, limbo rooms, portal fills, entity
  colours, and the navmesh drawing order.
- `cartography.rs` — the stable by-priority order labels are placed in.
- `canvas.rs` — text sizes and folding text onto what the bitmap font draws.
- `palette.rs` — every colour, hue cycling, alpha, mixing, darkening.
- `raster.rs` — an RGBA image, source-over blending, clipped pixel writes,
  glyph stamping and blitting.
- `svg.rs` — XML escaping, paint attributes, the document wrapper, base64 and
  the embedded PNG (encoded by the `image` crate).
- `text.rs` — decimal numbers, ASCII lowering, appending characters.

`app/` holds what works in floating point: world geometry and z-band
clipping, scene bounds, page layout, label placement, the scanline
rasteriser and the SVG elements with fractional coordinates. It calls the
library for every decision above.
