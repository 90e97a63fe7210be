use diamonds_imager::color::Color;
use diamonds_imager::dither::{dithering_floyd_steinberg_srgb, image_dither_using_dmc_palette};
use diamonds_imager::dmc::{DmcDataIo, PaletteDmc, PaletteDmcDataIo};
use diamonds_imager::image::Img;

fn io(name: &str, code: &str, color: &str) -> DmcDataIo {
    DmcDataIo { name: name.to_string(), code: code.to_string(), color: color.to_string() }
}

fn make_palette(entries: Vec<DmcDataIo>) -> PaletteDmc {
    PaletteDmc::try_from(PaletteDmcDataIo(entries)).expect("palette should validate")
}

fn six_color_palette() -> PaletteDmc {
    make_palette(vec![
        io("Black", "310", "#000000"),
        io("Orange", "946", "#FF4D00"),
        io("Green", "700", "#1EFF1E"),
        io("Azure", "996", "#007AFF"),
        io("Indigo", "792", "#0A00FF"),
        io("White", "B5200", "#FFFFFF"),
    ])
}

fn mix(t: f32, from: u8, to: u8) -> u8 {
    let v = (1.0 - t) * (from as f32) + t * (to as f32);
    v.round().clamp(0.0, 255.0) as u8
}

fn gradient(width: u32, height: u32, from: (u8, u8, u8), to: (u8, u8, u8)) -> Img {
    let mut pixels: Vec<Color> = Vec::with_capacity((width * height) as usize);
    for _y in 0..height {
        for x in 0..width {
            let t = if width > 1 { (x as f32) / ((width - 1) as f32) } else { 0.0 };
            pixels.push(Color::new(mix(t, from.0, to.0), mix(t, from.1, to.1), mix(t, from.2, to.2)));
        }
    }
    Img::from_pixels(width, height, pixels)
}

fn palette_contains(palette: &PaletteDmc, c: Color) -> bool {
    for i in 0..palette.len() {
        if palette.get(i).color == c {
            return true;
        }
    }
    false
}

#[test]
fn test_dither_output_is_palette_quantized() {
    let palette = six_color_palette();
    let src = gradient(40, 8, (0, 33, 255), (255, 55, 0));
    let colors = palette.downgrade_to_srgb_palette();
    let out = dithering_floyd_steinberg_srgb(&src, &colors);
    assert_eq!(out.width(), 40);
    assert_eq!(out.height(), 8);
    for k in 0..out.pixel_count() {
        assert!(palette_contains(&palette, out.pixel(k)));
    }
}

#[test]
fn test_dither_bom_accounts_every_pixel() {
    let palette = six_color_palette();
    let src = gradient(400, 4, (0, 33, 255), (255, 55, 0));
    let (dithered, bom) = image_dither_using_dmc_palette(&palette, &src);
    let pixels_count = (dithered.width() as u64) * (dithered.height() as u64);
    let diamonds_used: u64 = bom.iter().map(|e| e.count).sum();
    assert_eq!(pixels_count, diamonds_used);
    let (_, unmapped) = palette.find_bom_of_image(&dithered);
    assert_eq!(unmapped, 0);
    // not every palette color need appear
    assert!(bom.len() <= palette.len());
    for e in bom.iter() {
        assert!(e.count > 0);
    }
}

#[test]
fn test_dither_is_deterministic() {
    let palette = six_color_palette();
    let src1 = gradient(60, 6, (10, 20, 30), (200, 100, 0));
    let src2 = gradient(60, 6, (10, 20, 30), (200, 100, 0));
    let colors = palette.downgrade_to_srgb_palette();
    let out1 = dithering_floyd_steinberg_srgb(&src1, &colors);
    let out2 = dithering_floyd_steinberg_srgb(&src2, &colors);
    assert_eq!(out1.pixel_count(), out2.pixel_count());
    for k in 0..out1.pixel_count() {
        assert_eq!(out1.pixel(k), out2.pixel(k));
    }
}

#[test]
fn test_dither_single_pixel_image() {
    let palette = six_color_palette();
    let src = Img::from_pixels(1, 1, vec![Color::new(200, 10, 10)]);
    let colors = palette.downgrade_to_srgb_palette();
    let out = dithering_floyd_steinberg_srgb(&src, &colors);
    assert_eq!(out.width(), 1);
    assert_eq!(out.height(), 1);
    assert!(palette_contains(&palette, out.pixel(0)));
}

#[test]
fn test_dither_two_color_palette_black_white() {
    let palette = make_palette(vec![io("Black", "310", "#000000"), io("White", "B5200", "#FFFFFF")]);
    let src = gradient(64, 16, (0, 0, 0), (255, 255, 255));
    let (dithered, bom) = image_dither_using_dmc_palette(&palette, &src);
    // both extremes are used on a full-range gradient
    assert_eq!(bom.len(), 2);
    let total: u64 = bom.iter().map(|e| e.count).sum();
    assert_eq!(total, 64 * 16);
    for k in 0..dithered.pixel_count() {
        let c = dithered.pixel(k);
        assert!(c == Color::new(0, 0, 0) || c == Color::new(255, 255, 255));
    }
}
