use rael_obj::color::Rgb;
use rael_obj::color::Rgba;
use rael_obj::texture::Texture;

fn px(r: u8, g: u8, b: u8) -> Rgba {
    Rgba { r, g, b, a: 255 }
}

// A 2x2 texture: row 0 (top) red, green; row 1 (bottom) blue, white.
fn checker() -> Texture {
    let data = vec![px(255, 0, 0), px(0, 255, 0), px(0, 0, 255), px(255, 255, 255)];
    Texture::new(2, 2, data).unwrap()
}

// The reduction the presentation layer applies to a UV pair before the
// lookup: wrap by the fractional part, flip v, scale to raw pixel indices.
// Casting a negative or NaN float to an unsigned integer saturates to zero.
fn uv_to_raw(tex: &Texture, u: f32, v: f32) -> (usize, usize) {
    let x = (u.fract() * tex.width() as f32) as u32;
    let y = ((1.0 - v.fract()) * tex.height() as f32) as u32;
    (x as usize, y as usize)
}

fn sample(tex: &Texture, u: f32, v: f32) -> Rgb {
    let (x, y) = uv_to_raw(tex, u, v);
    tex.texel(x, y).rgb()
}

#[test]
fn new_rejects_bad_dimensions() {
    assert!(Texture::new(0, 2, vec![px(0, 0, 0); 4]).is_none());
    assert!(Texture::new(2, 0, vec![px(0, 0, 0); 4]).is_none());
    assert!(Texture::new(2, 2, vec![px(0, 0, 0); 3]).is_none());
    assert!(Texture::new(2, 2, vec![px(0, 0, 0); 4]).is_some());
}

#[test]
fn texel_reads_row_major() {
    let tex = checker();
    assert_eq!(tex.texel(0, 0), px(255, 0, 0));
    assert_eq!(tex.texel(1, 0), px(0, 255, 0));
    assert_eq!(tex.texel(0, 1), px(0, 0, 255));
    assert_eq!(tex.texel(1, 1), px(255, 255, 255));
}

#[test]
fn texel_clamps_to_last_row_and_column() {
    let tex = checker();
    assert_eq!(tex.texel(2, 0), px(0, 255, 0));
    assert_eq!(tex.texel(7, 9), px(255, 255, 255));
    assert_eq!(tex.texel(0, 100), px(0, 0, 255));
}

#[test]
fn uv_wraps_by_fractional_part() {
    let tex = checker();
    assert_eq!(sample(&tex, 1.25, 0.0), sample(&tex, 0.25, 0.0));
    assert_eq!(sample(&tex, 2.75, 0.5), sample(&tex, 0.75, 0.5));
}

#[test]
fn v_zero_reads_bottom_row_and_v_near_one_reads_top_row() {
    let tex = checker();
    // v = 0 flips to raw row `height`, clamped to the bottom row
    assert_eq!(sample(&tex, 0.0, 0.0), px(0, 0, 255).rgb());
    assert_eq!(sample(&tex, 0.75, 0.0), px(255, 255, 255).rgb());
    // v just below 1 flips to raw row 0, the top row
    assert_eq!(sample(&tex, 0.0, 0.999), px(255, 0, 0).rgb());
    assert_eq!(sample(&tex, 0.75, 0.999), px(0, 255, 0).rgb());
}
