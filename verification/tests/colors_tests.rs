use mandelbrot::colors::{color_gen, gen_palette, hsv, Rgb};

#[test]
fn hsv_primaries_at_full_value() {
    assert_eq!(hsv(0, 1000, 1000), Rgb { r: 255, g: 0, b: 0 });
    assert_eq!(hsv(120, 1000, 1000), Rgb { r: 0, g: 255, b: 0 });
    assert_eq!(hsv(240, 1000, 1000), Rgb { r: 0, g: 0, b: 255 });
}

#[test]
fn hsv_secondaries_at_full_value() {
    assert_eq!(hsv(60, 1000, 1000), Rgb { r: 255, g: 255, b: 0 });
    assert_eq!(hsv(180, 1000, 1000), Rgb { r: 0, g: 255, b: 255 });
    assert_eq!(hsv(300, 1000, 1000), Rgb { r: 255, g: 0, b: 255 });
}

#[test]
fn hsv_value_scales_channels() {
    // value 0.8: the chroma channel lands at 204 = 0.8 * 255.
    assert_eq!(hsv(240, 1000, 800), Rgb { r: 0, g: 0, b: 204 });
    // hue 250 sits 10 degrees into the blue sector: the fading secondary
    // is 800 * 10 / 60 = 133 per-mille, i.e. 33 in 8 bits.
    assert_eq!(hsv(250, 1000, 800), Rgb { r: 33, g: 0, b: 204 });
}

#[test]
fn hsv_zero_saturation_is_grey() {
    assert_eq!(hsv(123, 0, 1000), Rgb { r: 255, g: 255, b: 255 });
    assert_eq!(hsv(321, 0, 500), Rgb { r: 127, g: 127, b: 127 });
}

#[test]
fn palette_is_deterministic() {
    let a = color_gen(5);
    let b = color_gen(5);
    assert_eq!(a, b);
    assert_eq!(a.len(), 1000);
}

#[test]
fn palette_entries_follow_the_hue_wheel() {
    let pal = color_gen(5);
    // entry 0 has hue 240: pure blue at value 0.8.
    assert_eq!(pal[0], Rgb { r: 0, g: 0, b: 204 });
    // entry 2 has hue 250.
    assert_eq!(pal[2], Rgb { r: 33, g: 0, b: 204 });
    // entry 24 has hue (24 * 5 + 240) % 360 == 0: pure red.
    assert_eq!(pal[24], Rgb { r: 204, g: 0, b: 0 });
}

#[test]
fn gen_palette_respects_count() {
    let pal = gen_palette(50, 7);
    assert_eq!(pal.len(), 50);
    let long = gen_palette(1000, 7);
    assert_eq!(&long[..50], &pal[..]);
}

#[test]
fn palette_speed_changes_colours() {
    let slow = color_gen(1);
    let fast = color_gen(7);
    assert_eq!(slow[0], fast[0]);
    assert_ne!(slow[30], fast[30]);
}
