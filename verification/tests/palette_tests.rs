use diamonds_imager::color::{Color, Palette};
use diamonds_imager::dmc::{Dmc, DmcDataIo, DmcError, PaletteDmc, PaletteDmcDataIo};
use diamonds_imager::errors::{u32_to_dec_string, UploadImageError};
use diamonds_imager::image::Img;
use diamonds_imager::services::{
    create_unique_filepath, get_hello_message, modify_filepath, validate_input_file,
    InputFileError,
};
use diamonds_imager::settings::{parse_setting_u16, parse_setting_u32, Settings};

fn io(name: &str, code: &str, color: &str) -> DmcDataIo {
    DmcDataIo { name: name.to_string(), code: code.to_string(), color: color.to_string() }
}

fn make_palette(entries: Vec<DmcDataIo>) -> PaletteDmc {
    PaletteDmc::try_from(PaletteDmcDataIo(entries)).expect("palette should validate")
}

fn bw_palette() -> PaletteDmc {
    make_palette(vec![io("Black", "310", "#000000"), io("White", "B5200", "#FFFFFF")])
}

#[test]
fn extr_extension() {
    let filepath = "./tmp/asd.jpg";
    let modified = modify_filepath(filepath, "_abc");
    assert_eq!("./tmp/asd_abc.jpg", modified.as_str());
}

#[test]
fn test_parse_hex_color_ok() {
    let d = Dmc::try_from(io("Sky", "517", "#1A2b3C")).unwrap();
    assert_eq!(d.color, Color { red: 0x1A, green: 0x2B, blue: 0x3C });
    assert_eq!(d.name, "Sky");
    assert_eq!(d.code, "517");
}

#[test]
fn test_palette_rejects_missing_hash_prefix() {
    let r = Dmc::try_from(io("A", "1", "123456A"));
    assert!(matches!(r, Err(DmcError::HexColorParseFailed(_))));
}

#[test]
fn test_palette_rejects_wrong_length() {
    assert!(matches!(
        Dmc::try_from(io("A", "1", "#12345")),
        Err(DmcError::HexColorParseFailed(_))
    ));
    assert!(matches!(
        Dmc::try_from(io("A", "1", "#1234567")),
        Err(DmcError::HexColorParseFailed(_))
    ));
}

#[test]
fn test_palette_rejects_non_hex_digits() {
    let r = Dmc::try_from(io("A", "1", "#12G456"));
    assert!(matches!(r, Err(DmcError::HexColorParseFailed(_))));
}

#[test]
fn test_palette_rejects_empty_fields() {
    assert!(matches!(
        Dmc::try_from(io("", "1", "#123456")),
        Err(DmcError::DmcDataCorrupted)
    ));
    assert!(matches!(
        Dmc::try_from(io("A", "", "#123456")),
        Err(DmcError::DmcDataCorrupted)
    ));
    assert!(matches!(Dmc::try_from(io("A", "1", "")), Err(DmcError::DmcDataCorrupted)));
}

#[test]
fn test_palette_rejects_duplicate_name() {
    let r = PaletteDmc::try_from(PaletteDmcDataIo(vec![
        io("Same", "1", "#000000"),
        io("Same", "2", "#FFFFFF"),
    ]));
    assert!(matches!(r, Err(DmcError::DmcDataNotUnique)));
}

#[test]
fn test_palette_rejects_duplicate_code() {
    let r = PaletteDmc::try_from(PaletteDmcDataIo(vec![
        io("A", "7", "#000000"),
        io("B", "7", "#FFFFFF"),
    ]));
    assert!(matches!(r, Err(DmcError::DmcDataNotUnique)));
}

#[test]
fn test_palette_rejects_duplicate_color() {
    let r = PaletteDmc::try_from(PaletteDmcDataIo(vec![
        io("A", "1", "#123456"),
        io("B", "2", "#123456"),
    ]));
    assert!(matches!(r, Err(DmcError::DmcDataNotUnique)));
}

#[test]
fn test_palette_accepts_valid_entries() {
    let p = bw_palette();
    assert_eq!(p.len(), 2);
    assert_eq!(p.get(0).name, "Black");
    assert_eq!(p.get(1).color, Color { red: 255, green: 255, blue: 255 });
}

#[test]
fn test_find_closest_dmc() {
    let p = bw_palette();
    let near_black = p.find_closest_dmc(Color::new(1, 0, 0));
    assert_eq!(near_black.name, "Black");
    let near_white = p.find_closest_dmc(Color::new(250, 250, 250));
    assert_eq!(near_white.name, "White");
}

#[test]
fn test_find_closest_dmc_tie_breaks_first() {
    // both entries at the same distance from (128, 0, 0): the first wins
    let p = make_palette(vec![io("Low", "1", "#700000"), io("High", "2", "#900000")]);
    let d = p.find_closest_dmc(Color::new(0x80, 0, 0));
    assert_eq!(d.name, "Low");
}

#[test]
fn test_bom_counts_and_unmapped() {
    let p = bw_palette();
    // three pixels snap to black (one only nearly black), one to white
    let pixels = vec![
        Color::new(0, 0, 0),
        Color::new(0, 0, 0),
        Color::new(100, 100, 100),
        Color::new(255, 255, 255),
    ];
    let img = Img::from_pixels(2, 2, pixels);
    let (bom, unmapped) = p.find_bom_of_image(&img);
    assert_eq!(unmapped, 1); // the gray pixel matches no palette color exactly
    assert_eq!(bom.len(), 2);
    assert_eq!(bom[0].dmc.name, "Black");
    assert_eq!(bom[0].count, 3);
    assert_eq!(bom[1].dmc.name, "White");
    assert_eq!(bom[1].count, 1);
    let total: u64 = bom.iter().map(|e| e.count).sum();
    assert_eq!(total, 4);
}

#[test]
fn test_top_k_zero_empty_and_full() {
    let p = bw_palette();
    let pixels = vec![
        Color::new(0, 0, 0),
        Color::new(0, 0, 0),
        Color::new(0, 0, 0),
        Color::new(255, 255, 255),
    ];
    let img = Img::from_pixels(4, 1, pixels);
    let empty = p.find_subset_matching_image(&img, Some(0));
    assert!(empty.is_empty());
    let top1 = p.find_subset_matching_image(&img, Some(1));
    assert_eq!(top1.len(), 1);
    assert_eq!(top1[0].dmc.name, "Black");
    assert_eq!(top1[0].count, 3);
    // a cap at least the palette size keeps the full bill of materials
    let full = p.find_subset_matching_image(&img, Some(99));
    assert_eq!(full.len(), 2);
    assert_eq!(full[0].count, 3);
    assert_eq!(full[1].count, 1);
    let uncapped = p.find_subset_matching_image(&img, None);
    assert_eq!(uncapped.len(), 2);
}

#[test]
fn test_top_k_sorts_descending() {
    let p = make_palette(vec![
        io("R", "1", "#FF0000"),
        io("G", "2", "#00FF00"),
        io("B", "3", "#0000FF"),
    ]);
    let pixels = vec![
        Color::new(0, 255, 0),
        Color::new(0, 255, 0),
        Color::new(0, 255, 0),
        Color::new(255, 0, 0),
        Color::new(0, 0, 255),
        Color::new(0, 0, 255),
    ];
    let img = Img::from_pixels(6, 1, pixels);
    let top = p.find_subset_matching_image(&img, Some(3));
    assert_eq!(top.len(), 3);
    assert_eq!(top[0].dmc.name, "G");
    assert_eq!(top[0].count, 3);
    assert_eq!(top[1].dmc.name, "B");
    assert_eq!(top[1].count, 2);
    assert_eq!(top[2].dmc.name, "R");
    assert_eq!(top[2].count, 1);
}

#[test]
fn test_builtin_palettes_creations() {
    let palette_black_and_white = Palette::from_colors(vec![
        Color::new(0, 0, 0),
        Color::new(255, 255, 255),
    ]);
    assert_eq!(palette_black_and_white.len(), 2);

    let palette_primary = Palette::from_colors(vec![
        Color::new(255, 0, 0),
        Color::new(0, 255, 0),
        Color::new(0, 0, 255),
    ]);
    assert_eq!(palette_primary.len(), 3);
}

#[test]
fn test_downgrade_to_srgb_palette() {
    let p = bw_palette();
    let colors = p.downgrade_to_srgb_palette();
    assert_eq!(colors.len(), 2);
    assert_eq!(colors.colors[0], Color::new(0, 0, 0));
    assert_eq!(colors.colors[1], Color::new(255, 255, 255));
}

#[test]
fn test_image_creation() {
    let settings = Settings::default();
    let result = validate_input_file(0, settings.image_max_bytes, true);
    assert!(matches!(result, Err(InputFileError::FileEmpty)));
}

#[test]
fn test_validate_input_file_limits() {
    assert!(validate_input_file(10, 100, true).is_ok());
    assert!(matches!(
        validate_input_file(101, 100, true),
        Err(InputFileError::FileTooBig { actual: 101, limit: 100 })
    ));
    assert!(matches!(validate_input_file(10, 100, false), Err(InputFileError::FileNoname)));
}

#[test]
fn test_parse_settings_numbers() {
    assert_eq!(parse_setting_u16("8080"), Some(8080));
    assert_eq!(parse_setting_u16("0"), Some(0));
    assert_eq!(parse_setting_u16("65535"), Some(65535));
    assert_eq!(parse_setting_u16("65536"), None);
    assert_eq!(parse_setting_u16(""), None);
    assert_eq!(parse_setting_u16("80a0"), None);
    assert_eq!(parse_setting_u16("-1"), None);
    assert_eq!(parse_setting_u32("4294967295"), Some(4294967295));
    assert_eq!(parse_setting_u32("4294967296"), None);
    assert_eq!(parse_setting_u32("5000"), Some(5000));
}

#[test]
fn test_u32_decimal_rendering() {
    assert_eq!(u32_to_dec_string(0).as_str(), "0");
    assert_eq!(u32_to_dec_string(7).as_str(), "7");
    assert_eq!(u32_to_dec_string(12345).as_str(), "12345");
    assert_eq!(u32_to_dec_string(4294967295).as_str(), "4294967295");
}

#[test]
fn test_upload_error_messages() {
    let e = UploadImageError::ImageTooWide { max: 5000, actual: 6000 };
    assert_eq!(e.message().as_str(), "Image too wide max=5000, actual=6000");
    let e = UploadImageError::ImageTooHigh { max: 5000, actual: 5001 };
    assert_eq!(e.message().as_str(), "Image too high max=5000, actual=5001");
}

#[test]
fn test_hello_and_filepaths() {
    assert_eq!(get_hello_message().as_str(), "Hello");
    let settings = Settings::default();
    assert_eq!(create_unique_filepath(&settings, "a_b.jpg").as_str(), "./tmpsf/a_b.jpg");
}
