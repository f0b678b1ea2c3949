use rage_render::plan::canvas::{drawable_text, TextSize};
use rage_render::plan::svg::{base64, escape, paint, png_data_uri, SvgCanvas};
use rage_render::plan::Layer;

#[test]
fn folds_text_the_font_cannot_draw() {
    assert_eq!(drawable_text("v_cafe \u{2014} all heights"), "v_cafe - all heights");
    assert_eq!(drawable_text("3\u{2192}7 \u{201C}q\u{201D} \u{fc}"), "3>7 \"q\" ?");
    assert_eq!(drawable_text("plain ASCII ~!@"), "plain ASCII ~!@");
}

#[test]
fn folding_keeps_the_character_count() {
    let raw = "a \u{2014} b \u{2018}x\u{2019} \u{00A0}\u{2212}";
    assert_eq!(drawable_text(raw).chars().count(), raw.chars().count());
    assert_eq!(drawable_text(raw), "a - b 'x'  -");
}

#[test]
fn folding_twice_is_folding_once() {
    let once = drawable_text("\u{2192}\u{fc}\u{2013}");
    assert_eq!(drawable_text(&once), once);
}

#[test]
fn base64_pads_the_tail() {
    assert_eq!(base64(b"Man"), "TWFu");
    assert_eq!(base64(b"Ma"), "TWE=");
    assert_eq!(base64(b"M"), "TQ==");
    assert_eq!(base64(b""), "");
    assert_eq!(base64(b"any carnal pleasure."), "YW55IGNhcm5hbCBwbGVhc3VyZS4=");
}

#[test]
fn base64_uses_the_whole_alphabet() {
    assert_eq!(base64(&[0xfb, 0xff, 0xbf]), "+/+/");
    assert_eq!(base64(&[0x00, 0x10, 0x83]), "ABCD");
    assert_eq!(base64(&[0xd3, 0x5d, 0xb7, 0xe3, 0x9e, 0xbb, 0xf3, 0xdf, 0xbf]), "0123456789+/");
}

#[test]
fn text_is_escaped() {
    assert_eq!(escape("a & b < \"c\""), "a &amp; b &lt; &quot;c&quot;");
}

#[test]
fn every_markup_character_is_escaped() {
    assert_eq!(escape("<'>&\""), "&lt;&apos;&gt;&amp;&quot;");
    assert_eq!(escape("plain \u{fc}"), "plain \u{fc}");
}

#[test]
fn unknown_layer_names_list_the_valid_ones() {
    let err = "walls".parse::<Layer>().unwrap_err().message();
    assert!(err.contains("rooms") && err.contains("navmesh"), "{err}");
    assert_eq!("Rooms".parse::<Layer>().unwrap(), Layer::Rooms);
}

#[test]
fn layer_names_round_trip_in_any_case() {
    for l in Layer::ALL {
        assert_eq!(Layer::parse(l.name()).unwrap(), l);
        assert_eq!(Layer::parse(&l.name().to_uppercase()).unwrap(), l);
    }
    assert_eq!(
        Layer::parse("walls").unwrap_err().message(),
        "unknown layer 'walls'; valid layers are rooms, portals, entities, collision, drawable, navmesh"
    );
}

#[test]
fn paint_writes_rgb_and_opacity_like_float_formatting() {
    for a in 0..=255u8 {
        let expected = format!("fill=\"rgb(1,22,255)\" fill-opacity=\"{:.3}\"", a as f32 / 255.0);
        assert_eq!(paint("fill", [1, 22, 255, a]), expected);
    }
    assert_eq!(paint("stroke", [0x6A, 0x1B, 0x9A, 255]), "stroke=\"rgb(106,27,154)\" stroke-opacity=\"1.000\"");
}

#[test]
fn svg_document_wraps_the_body() {
    let mut canvas = SvgCanvas::new();
    canvas.push("<text>v_office</text>");
    let svg = canvas.finish(120, 80);
    assert_eq!(
        svg,
        "<svg xmlns=\"http://www.w3.org/2000/svg\" width=\"120\" height=\"80\" viewBox=\"0 0 120 80\">\n<text>v_office</text>\n</svg>\n"
    );
}

#[test]
fn text_sizes_scale_the_glyph_height() {
    assert_eq!(TextSize::Small.scale(), 1);
    assert_eq!(TextSize::Body.scale(), 2);
    assert_eq!(TextSize::Title.scale(), 3);
    assert_eq!(TextSize::Title.line_height(), 21);
}

#[test]
fn png_data_uri_embeds_a_png() {
    let img = rage_render::plan::raster::Image::filled(3, 2, [10, 200, 30, 255]);
    let uri = png_data_uri(&img).expect("a PNG");
    assert!(uri.starts_with("data:image/png;base64,iVBORw0KGgo"), "{uri}");
}
