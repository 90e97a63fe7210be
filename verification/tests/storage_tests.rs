use diamonds_imager::color::Color;
use diamonds_imager::image::Img;
use diamonds_imager::services::{validate_src_img_size, ProcessingFileError};
use diamonds_imager::settings::Size;
use diamonds_imager::storage::{ImageStorageService, ImageStorageServiceError};

fn img(w: u32, h: u32) -> Img {
    Img::filled(w, h, Color::new(5, 6, 7))
}

#[test]
fn test_insert_image_rejects_empty_filename() {
    let mut store = ImageStorageService::new();
    let r = store.insert_image(String::new(), img(4, 4));
    assert!(matches!(r, Err(ImageStorageServiceError::FilenameStemMissing)));
    assert_eq!(store.len(), 0);
}

#[test]
fn test_insert_image_rejects_missing_extension() {
    let mut store = ImageStorageService::new();
    let r = store.insert_image("plainname".to_string(), img(4, 4));
    assert!(matches!(r, Err(ImageStorageServiceError::FilenameExtensionMissing)));
    let r = store.insert_image(".hidden".to_string(), img(4, 4));
    assert!(matches!(r, Err(ImageStorageServiceError::FilenameExtensionMissing)));
}

#[test]
fn test_insert_image_id_shape() {
    let mut store = ImageStorageService::new();
    let id = store.insert_image("pinkflower.jpg".to_string(), img(4, 4)).unwrap();
    // "<stem>_<36-char uuid>.<ext>"
    assert!(id.starts_with("pinkflower_"));
    assert!(id.ends_with(".jpg"));
    assert_eq!(id.chars().count(), "pinkflower".len() + 1 + 36 + 1 + "jpg".len());
    assert_eq!(store.len(), 1);
}

#[test]
fn test_insert_image_keeps_last_dot_split() {
    let mut store = ImageStorageService::new();
    let id = store.insert_image("archive.tar.gz".to_string(), img(2, 2)).unwrap();
    assert!(id.starts_with("archive.tar_"));
    assert!(id.ends_with(".gz"));
}

#[test]
fn test_access_and_meta_and_remove() {
    let mut store = ImageStorageService::new();
    let id = store.insert_image("a.png".to_string(), img(3, 5)).unwrap();
    let element = store.access_image(&id).expect("element should exist");
    assert_eq!(element.image.width(), 3);
    assert_eq!(element.image.height(), 5);
    let meta = store.get_image_meta(&id).expect("meta should exist");
    assert_eq!(meta.filename, "a.png");
    store.remove_image(&id).expect("removal should succeed");
    assert!(matches!(
        store.get_image_meta(&id),
        Err(ImageStorageServiceError::ImageNotFound)
    ));
    assert!(matches!(
        store.remove_image(&id),
        Err(ImageStorageServiceError::ImageNotFound)
    ));
    assert_eq!(store.len(), 0);
}

#[test]
fn test_removed_image_survives_through_shared_handle() {
    let mut store = ImageStorageService::new();
    let id = store.insert_image("keep.png".to_string(), img(6, 2)).unwrap();
    let handle = {
        let element = store.access_image(&id).unwrap();
        diamonds_imager::storage::clone_image_handle(&element.image)
    };
    store.remove_image(&id).unwrap();
    // the reader's handle stays valid after removal
    assert_eq!(handle.width(), 6);
    assert_eq!(handle.pixel_count(), 12);
}

#[test]
fn test_validate_src_img_size_variants() {
    let min = Size { width: 100u32, height: 100u32 };
    let max = Size { width: 5000u32, height: 5000u32 };
    assert!(validate_src_img_size(min, max, 300, 300).is_ok());
    assert!(validate_src_img_size(min, max, 101, 5000).is_ok());
    assert!(matches!(
        validate_src_img_size(min, max, 100, 300),
        Err(ProcessingFileError::WidthTooSmall { actual: 100, min: 100 })
    ));
    assert!(matches!(
        validate_src_img_size(min, max, 5001, 300),
        Err(ProcessingFileError::WidthTooBig { actual: 5001, max: 5000 })
    ));
    assert!(matches!(
        validate_src_img_size(min, max, 300, 50),
        Err(ProcessingFileError::HeightTooSmall { actual: 50, min: 100 })
    ));
    assert!(matches!(
        validate_src_img_size(min, max, 300, 6000),
        Err(ProcessingFileError::HeightTooBig { actual: 6000, max: 5000 })
    ));
}

#[test]
fn test_image_pixel_roundtrip() {
    let mut image = Img::filled(4, 3, Color::new(0, 0, 0));
    image.put_pixel(2, 1, Color::new(9, 8, 7));
    assert_eq!(image.get_pixel(2, 1), Color::new(9, 8, 7));
    assert_eq!(image.get_pixel(0, 0), Color::new(0, 0, 0));
    assert_eq!(image.pixel_count(), 12);
}
