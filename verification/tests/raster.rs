use rage_render::plan::raster::{blend, Image, RasterCanvas};

#[test]
fn opaque_paint_replaces_the_pixel() {
    let mut img = Image::filled(4, 3, [10, 20, 30, 255]);
    blend(&mut img, 1, 2, [200, 100, 50, 255]);
    assert_eq!(img.get_pixel(1, 2), [200, 100, 50, 255]);
    assert_eq!(img.get_pixel(2, 1), [10, 20, 30, 255]);
}

#[test]
fn half_paint_over_opaque_is_a_lerp() {
    let mut img = Image::filled(2, 2, [0, 0, 0, 255]);
    blend(&mut img, 0, 0, [255, 255, 255, 128]);
    assert_eq!(img.get_pixel(0, 0), [128, 128, 128, 255]);
}

#[test]
fn paint_over_transparent_keeps_its_colour() {
    let mut img = Image::filled(2, 2, [0, 0, 0, 0]);
    blend(&mut img, 1, 1, [90, 190, 110, 115]);
    assert_eq!(img.get_pixel(1, 1), [90, 190, 110, 115]);
}

#[test]
fn transparent_and_out_of_bounds_paint_do_nothing() {
    let mut img = Image::filled(2, 2, [1, 2, 3, 4]);
    blend(&mut img, 0, 0, [255, 0, 0, 0]);
    blend(&mut img, -1, 0, [255, 0, 0, 255]);
    blend(&mut img, 2, 1, [255, 0, 0, 255]);
    for y in 0..2 {
        for x in 0..2 {
            assert_eq!(img.get_pixel(x, y), [1, 2, 3, 4]);
        }
    }
}

#[test]
fn canvas_has_at_least_one_pixel() {
    let c = RasterCanvas::new(0, 0, [255, 255, 255, 255]);
    assert_eq!((c.image().width(), c.image().height()), (1, 1));
    let t = RasterCanvas::transparent(3, 0);
    assert_eq!((t.image().width(), t.image().height()), (3, 1));
    assert_eq!(t.image().get_pixel(2, 0), [0, 0, 0, 0]);
}

#[test]
fn writes_obey_the_clip_rect() {
    const BG: [u8; 4] = [0, 128, 0, 255];
    let mut c = RasterCanvas::new(10, 10, BG);
    c.set_clip(Some([2, 2, 5, 5]));
    for y in 0..10 {
        for x in 0..10 {
            c.put(x, y, [255, 0, 0, 255]);
            c.stamp(x, y, [0, 0, 255, 255]);
        }
    }
    c.set_clip(None);
    let img = c.into_image();
    for y in 0..10u32 {
        for x in 0..10u32 {
            let inside = (2..5).contains(&x) && (2..5).contains(&y);
            let expected = if inside { [0, 0, 255, 255] } else { BG };
            assert_eq!(img.get_pixel(x, y), expected, "pixel ({x}, {y})");
        }
    }
}

#[test]
fn blit_places_the_source_at_its_offset() {
    let mut c = RasterCanvas::new(6, 4, [255, 255, 255, 255]);
    let mut src = Image::filled(2, 2, [0, 0, 0, 255]);
    src.set_pixel(1, 1, [0, 0, 0, 0]);
    c.blit(3, 1, &src);
    c.blit(-1, -1, &src);
    let img = c.image();
    assert_eq!(img.get_pixel(3, 1), [0, 0, 0, 255]);
    assert_eq!(img.get_pixel(4, 2), [255, 255, 255, 255]);
    assert_eq!(img.get_pixel(4, 1), [0, 0, 0, 255]);
    assert_eq!(img.get_pixel(0, 0), [255, 255, 255, 255]);
    assert_eq!(img.get_pixel(5, 3), [255, 255, 255, 255]);
}

#[test]
fn raw_bytes_are_row_major_rgba() {
    let mut img = Image::filled(2, 1, [1, 2, 3, 4]);
    img.set_pixel(1, 0, [5, 6, 7, 8]);
    assert_eq!(img.to_raw(), vec![1, 2, 3, 4, 5, 6, 7, 8]);
}
