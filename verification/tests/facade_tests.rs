use diamonds_imager::color::Color;
use diamonds_imager::dmc::{DmcDataIo, PaletteDmc, PaletteDmcDataIo};
use diamonds_imager::errors::{AppError, UploadImageError};
use diamonds_imager::handlers::{overall_status, AppData};
use diamonds_imager::image::Img;
use diamonds_imager::processing::DispatchStep;
use diamonds_imager::requests::ExtractQueryMaxColorsCount;
use diamonds_imager::storage::ImageStorageServiceError;

fn io(name: &str, code: &str, color: &str) -> DmcDataIo {
    DmcDataIo { name: name.to_string(), code: code.to_string(), color: color.to_string() }
}

fn test_palette() -> PaletteDmc {
    PaletteDmc::try_from(PaletteDmcDataIo(vec![
        io("Black", "310", "#000000"),
        io("Red", "666", "#FF0000"),
        io("Rose", "956", "#FF8080"),
        io("White", "B5200", "#FFFFFF"),
    ]))
    .expect("palette should validate")
}

fn app(max_w: u32, max_h: u32) -> AppData {
    AppData::new(max_w, max_h, test_palette())
}

fn solid_image(width: u32, height: u32, c: Color) -> Img {
    Img::filled(width, height, c)
}

fn mix(t: f32, from: u8, to: u8) -> u8 {
    let v = (1.0 - t) * (from as f32) + t * (to as f32);
    v.round().clamp(0.0, 255.0) as u8
}

fn gradient(width: u32, height: u32, from: (u8, u8, u8), to: (u8, u8, u8)) -> Img {
    let mut pixels: Vec<Color> = Vec::with_capacity((width * height) as usize);
    for _y in 0..height {
        for x in 0..width {
            let t = if width > 1 { (x as f32) / ((width - 1) as f32) } else { 0.0 };
            pixels.push(Color::new(mix(t, from.0, to.0), mix(t, from.1, to.1), mix(t, from.2, to.2)));
        }
    }
    Img::from_pixels(width, height, pixels)
}

#[test]
fn test_check_status() {
    assert_eq!(overall_status().as_str(), "<h1>Diamonds imager is running!</h1>");
}

#[test]
fn test_upload_image_should_result_ok() {
    let mut app = app(1024, 1024);
    let img = solid_image(300, 300, Color::new(240, 160, 200));
    let result = app
        .upload_image("pinkflower.jpg".to_string(), img)
        .expect("upload should succeed");
    assert!(result.id.starts_with("pinkflower"));
    assert!(result.id.ends_with(".jpg"));
    assert_eq!(result.width, 300);
    assert_eq!(result.height, 300);
}

#[test]
fn test_upload_too_wide_image_but_size_ok_should_result_err() {
    let mut app = app(1024, 1024);
    let img = solid_image(1025, 10, Color::new(0, 0, 0));
    let e = app.upload_image("too_wide.png".to_string(), img).unwrap_err();
    assert_eq!(
        e,
        AppError::UploadImage(UploadImageError::ImageTooWide { max: 1024, actual: 1025 })
    );
    assert_eq!(e.status_code(), 400);
    let msg = e.message();
    assert!(msg.as_str().contains("Image too wide"));
    assert!(msg.as_str().contains("1024"));
    assert!(msg.as_str().contains("1025"));
}

#[test]
fn test_upload_too_high_image_but_size_ok_should_result_err() {
    let mut app = app(1024, 1024);
    let img = solid_image(10, 1025, Color::new(0, 0, 0));
    let e = app.upload_image("too_high.png".to_string(), img).unwrap_err();
    assert_eq!(
        e,
        AppError::UploadImage(UploadImageError::ImageTooHigh { max: 1024, actual: 1025 })
    );
    assert_eq!(e.status_code(), 400);
}

#[test]
fn test_upload_dimensions_at_maxima_accepted() {
    let mut app = app(64, 48);
    let ok = app.upload_image("edge.png".to_string(), solid_image(64, 48, Color::new(1, 2, 3)));
    assert!(ok.is_ok());
    let wide = app.upload_image("wide.png".to_string(), solid_image(65, 48, Color::new(1, 2, 3)));
    assert!(matches!(
        wide,
        Err(AppError::UploadImage(UploadImageError::ImageTooWide { max: 64, actual: 65 }))
    ));
    let high = app.upload_image("high.png".to_string(), solid_image(64, 49, Color::new(1, 2, 3)));
    assert!(matches!(
        high,
        Err(AppError::UploadImage(UploadImageError::ImageTooHigh { max: 48, actual: 49 }))
    ));
}

#[test]
fn test_upload_rejects_bad_filenames() {
    let mut app = app(1024, 1024);
    let img = solid_image(10, 10, Color::new(0, 0, 0));
    let empty = app.upload_image(String::new(), solid_image(10, 10, Color::new(0, 0, 0)));
    assert!(matches!(
        empty,
        Err(AppError::UploadImage(UploadImageError::FilenameEmpty))
    ));
    let noext = app.upload_image("noextension".to_string(), img);
    assert!(matches!(
        noext,
        Err(AppError::ImageStorageServiceError(
            ImageStorageServiceError::FilenameExtensionMissing
        ))
    ));
}

#[test]
fn test_upload_multiple_identical_image_different_ids() {
    let mut app = app(1024, 1024);
    let img1 = solid_image(120, 80, Color::new(9, 9, 9));
    let img2 = solid_image(120, 80, Color::new(9, 9, 9));
    let r1 = app.upload_image("same.png".to_string(), img1).expect("first upload");
    let r2 = app.upload_image("same.png".to_string(), img2).expect("second upload");
    assert_ne!(r1.id, r2.id);
    assert_eq!(r1.width, r2.width);
    assert_eq!(r1.height, r2.height);
    assert!(r1.id.starts_with("same"));
    assert!(r2.id.starts_with("same"));
}

#[test]
fn test_get_image_meta() {
    let mut app = app(1024, 1024);
    let r = app
        .upload_image("flower.jpg".to_string(), solid_image(20, 20, Color::new(7, 7, 7)))
        .unwrap();
    let meta = app.get_image_meta(&r.id).expect("meta should exist");
    assert_eq!(meta.filename, "flower.jpg");
    assert_eq!(meta.upload_time, meta.last_touch_time);
    let missing = app.get_image_meta(&"nope_123.png".to_string());
    assert!(matches!(
        missing,
        Err(AppError::ImageStorageServiceError(ImageStorageServiceError::ImageNotFound))
    ));
}

#[test]
fn test_delete_semantics() {
    let mut app = app(1024, 1024);
    let r = app
        .upload_image("gone.jpg".to_string(), solid_image(20, 20, Color::new(1, 1, 1)))
        .unwrap();
    app.delete_image(&r.id).expect("delete should succeed");
    let meta = app.get_image_meta(&r.id);
    match meta {
        Err(e) => {
            assert_eq!(
                e,
                AppError::ImageStorageServiceError(ImageStorageServiceError::ImageNotFound)
            );
            assert_eq!(e.status_code(), 404);
        },
        Ok(_) => panic!("metadata should be gone"),
    }
    let second = app.delete_image(&r.id);
    assert!(matches!(
        second,
        Err(AppError::ImageStorageServiceError(ImageStorageServiceError::ImageNotFound))
    ));
}

#[test]
fn test_get_full_dmc_palette() {
    let app = app(1024, 1024);
    let result = app.get_full_dmc_palette();
    assert_eq!(result.palette.len(), 4);
}

#[test]
fn test_palette_extract_pending_then_ready() {
    let mut app = app(1024, 1024);
    let up = app
        .upload_image("grad.png".to_string(), gradient(100, 20, (0, 0, 0), (255, 0, 0)))
        .unwrap();
    let work_id = app
        .start_extracting_dmc_palette(&up.id, &ExtractQueryMaxColorsCount { max_colors: Some(5) })
        .expect("extraction should start");
    // nothing ran yet: pending
    let pending = app.poll_finish_extracting_dmc_palette(work_id);
    assert!(pending.result.is_none());
    // run the dispatcher loop by hand
    let worker = match app.processing_runner_service.dispatch_next() {
        DispatchStep::Assigned { worker, .. } => worker,
        _ => panic!("order should be assigned"),
    };
    app.processing_runner_service.worker_run_next(worker).expect("work should run");
    let ready = app.poll_finish_extracting_dmc_palette(work_id);
    let bom = ready.result.expect("result should be ready");
    assert!(!bom.is_empty());
    assert!(bom.len() <= 5);
    let total: u64 = bom.iter().map(|e| e.count).sum();
    assert_eq!(total, 2000);
    // a retrieved result is gone for good
    let again = app.poll_finish_extracting_dmc_palette(work_id);
    assert!(again.result.is_none());
}

#[test]
fn test_start_extract_unknown_image() {
    let mut app = app(1024, 1024);
    let r = app.start_extracting_dmc_palette(
        &"missing_0.png".to_string(),
        &ExtractQueryMaxColorsCount { max_colors: None },
    );
    assert!(matches!(
        r,
        Err(AppError::ImageStorageServiceError(ImageStorageServiceError::ImageNotFound))
    ));
}

#[test]
fn test_delete_does_not_disturb_running_extraction() {
    let mut app = app(1024, 1024);
    let up = app
        .upload_image("short_lived.png".to_string(), gradient(50, 10, (0, 0, 0), (255, 255, 255)))
        .unwrap();
    let work_id = app
        .start_extracting_dmc_palette(&up.id, &ExtractQueryMaxColorsCount { max_colors: None })
        .unwrap();
    // the image is removed while the work is still queued; the work holds a
    // shared handle and completes anyway
    app.delete_image(&up.id).unwrap();
    let worker = match app.processing_runner_service.dispatch_next() {
        DispatchStep::Assigned { worker, .. } => worker,
        _ => panic!("order should be assigned"),
    };
    app.processing_runner_service.worker_run_next(worker).unwrap();
    let ready = app.poll_finish_extracting_dmc_palette(work_id);
    let bom = ready.result.expect("result should be ready");
    let total: u64 = bom.iter().map(|e| e.count).sum();
    assert_eq!(total, 500);
}
