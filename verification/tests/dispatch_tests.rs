use std::sync::Arc;

use diamonds_imager::color::Color;
use diamonds_imager::dmc::{DmcDataIo, PaletteDmc, PaletteDmcDataIo};
use diamonds_imager::image::Img;
use diamonds_imager::processing::{DispatchStep, ProcessingError, WorkDispatcher};
use diamonds_imager::worker::{Work, WorkResult, WorkWrapped, Worker};

fn io(name: &str, code: &str, color: &str) -> DmcDataIo {
    DmcDataIo { name: name.to_string(), code: code.to_string(), color: color.to_string() }
}

fn small_palette() -> Arc<PaletteDmc> {
    Arc::new(
        PaletteDmc::try_from(PaletteDmcDataIo(vec![
            io("Black", "310", "#000000"),
            io("Red", "666", "#FF0000"),
            io("Rose", "956", "#FF8080"),
            io("White", "B5200", "#FFFFFF"),
        ]))
        .expect("palette should validate"),
    )
}

fn mix(t: f32, from: u8, to: u8) -> u8 {
    let v = (1.0 - t) * (from as f32) + t * (to as f32);
    v.round().clamp(0.0, 255.0) as u8
}

fn gradient(width: u32, height: u32, from: (u8, u8, u8), to: (u8, u8, u8)) -> Arc<Img> {
    let mut pixels: Vec<Color> = Vec::with_capacity((width * height) as usize);
    for _y in 0..height {
        for x in 0..width {
            let t = if width > 1 { (x as f32) / ((width - 1) as f32) } else { 0.0 };
            pixels.push(Color::new(mix(t, from.0, to.0), mix(t, from.1, to.1), mix(t, from.2, to.2)));
        }
    }
    Arc::new(Img::from_pixels(width, height, pixels))
}

fn extract_work(max_colors: Option<usize>) -> Work {
    Work::PaletteExtract {
        palette_dmc: small_palette(),
        src_image: gradient(100, 20, (0, 0, 0), (255, 0, 0)),
        max_colors,
    }
}

#[test]
fn test_worker_queue_capacity() {
    let mut w = Worker::new(0);
    for i in 0..8u64 {
        let r = w.try_enque_work(WorkWrapped { id: i, work: extract_work(None) });
        assert!(r.is_ok());
    }
    // the ninth item comes back
    let r = w.try_enque_work(WorkWrapped { id: 8, work: extract_work(None) });
    match r {
        Err(returned) => assert_eq!(returned.id, 8),
        Ok(()) => panic!("queue should be full"),
    }
    assert_eq!(w.queued_count(), 8);
}

#[test]
fn test_worker_runs_extraction() {
    let result = Worker::do_work(extract_work(Some(10)));
    match result {
        WorkResult::PaletteExtract { dmc_bom } => {
            assert!(!dmc_bom.is_empty());
            let total: u64 = dmc_bom.iter().map(|e| e.count).sum();
            assert_eq!(total, 100 * 20);
        },
        _ => panic!("Unexpected work result variant"),
    }
}

#[test]
fn test_dispatcher_ids_monotone() {
    let mut d = WorkDispatcher::new();
    let id0 = d.enque_work(extract_work(None)).expect("Failed to enqueue work");
    let id1 = d.enque_work(extract_work(None)).expect("Failed to enqueue work");
    let id2 = d.enque_work(extract_work(None)).expect("Failed to enqueue work");
    assert!(id0 < id1 && id1 < id2);
    assert_ne!(id0, id1);
    assert_ne!(id1, id2);
}

#[test]
fn test_dispatcher_busy_when_order_queue_full() {
    let mut d = WorkDispatcher::new();
    for _ in 0..32 {
        d.enque_work(extract_work(Some(1))).expect("Failed to enqueue work");
    }
    let r = d.enque_work(extract_work(Some(1)));
    assert!(matches!(r, Err(ProcessingError::Busy)));
}

#[test]
fn test_dispatcher_round_robin_assignment() {
    let mut d = WorkDispatcher::new();
    let a = d.enque_work(extract_work(None)).unwrap();
    let b = d.enque_work(extract_work(None)).unwrap();
    let first = d.dispatch_next();
    let second = d.dispatch_next();
    match (first, second) {
        (
            DispatchStep::Assigned { worker: w1, id: i1 },
            DispatchStep::Assigned { worker: w2, id: i2 },
        ) => {
            assert_eq!(i1, a);
            assert_eq!(i2, b);
            // the offset rotates after a successful assignment
            assert_ne!(w1, w2);
        },
        _ => panic!("both orders should be assigned"),
    }
    assert!(matches!(d.dispatch_next(), DispatchStep::Idle));
}

#[test]
fn test_dispatcher_simple_enqueue_and_result() {
    let mut d = WorkDispatcher::new();
    let work_id = d.enque_work(extract_work(Some(5))).expect("Failed to enqueue work");
    let step = d.dispatch_next();
    let worker = match step {
        DispatchStep::Assigned { worker, id } => {
            assert_eq!(id, work_id);
            worker
        },
        _ => panic!("order should be assigned"),
    };
    let ran = d.worker_run_next(worker).expect("worker should have an item");
    assert_eq!(ran, work_id);
    let result = d.get_work_result(work_id).expect("Should has work result by now");
    match result {
        WorkResult::PaletteExtract { dmc_bom } => {
            assert!(!dmc_bom.is_empty(), "DMC BOM should not be empty");
            assert!(dmc_bom.len() <= 5);
            let total: u64 = dmc_bom.iter().map(|e| e.count).sum();
            assert_eq!(total, 2000);
        },
        _ => panic!("Unexpected work result variant"),
    }
}

#[test]
fn test_dispatcher_multiple_works() {
    let mut d = WorkDispatcher::new();
    let mut work_ids = vec![];
    for _ in 0..5 {
        let work_id = d.enque_work(extract_work(Some(2))).expect("Failed to enqueue work");
        work_ids.push(work_id);
    }
    // drive the loop until every order is assigned and every worker drained
    loop {
        match d.dispatch_next() {
            DispatchStep::Idle => break,
            DispatchStep::Assigned { worker, .. } => {
                let _ = worker;
            },
            DispatchStep::AllWorkersBusy => {
                // free a slot by letting each worker run one item
                let _ = d.worker_run_next(0);
                let _ = d.worker_run_next(1);
            },
        }
    }
    while d.worker_run_next(0).is_some() {}
    while d.worker_run_next(1).is_some() {}
    for work_id in work_ids {
        let result = d.get_work_result(work_id).expect("Should has work result by now");
        assert!(matches!(result, WorkResult::PaletteExtract { .. }));
    }
}

#[test]
fn test_dispatcher_work_not_ready_yet() {
    let mut d = WorkDispatcher::new();
    let work_id = d.enque_work(extract_work(None)).expect("Failed to enqueue work");
    // polled before any worker ran: not available
    let early = d.get_work_result(work_id);
    assert!(matches!(early, Err(ProcessingError::NotAvailable)));
    let step = d.dispatch_next();
    let worker = match step {
        DispatchStep::Assigned { worker, .. } => worker,
        _ => panic!("order should be assigned"),
    };
    d.worker_run_next(worker).expect("worker should have an item");
    let late = d.get_work_result(work_id);
    assert!(late.is_ok());
}

#[test]
fn test_work_result_claimed_at_most_once() {
    let mut d = WorkDispatcher::new();
    let work_id = d.enque_work(extract_work(Some(3))).unwrap();
    let worker = match d.dispatch_next() {
        DispatchStep::Assigned { worker, .. } => worker,
        _ => panic!("order should be assigned"),
    };
    d.worker_run_next(worker).unwrap();
    assert!(d.get_work_result(work_id).is_ok());
    // the identifier is retired: a second retrieval cannot succeed
    assert!(matches!(d.get_work_result(work_id), Err(ProcessingError::NotAvailable)));
    assert!(matches!(d.get_work_result(work_id), Err(ProcessingError::NotAvailable)));
}

#[test]
fn test_unknown_work_id_not_available() {
    let mut d = WorkDispatcher::new();
    assert!(matches!(d.get_work_result(12345), Err(ProcessingError::NotAvailable)));
}

#[test]
fn test_worker_image_dithering() {
    let palette_dmc = small_palette();
    let src_image = gradient(400, 4, (0, 33, 255), (255, 55, 0));
    let work = Work::ImageDither { palette_dmc: palette_dmc.clone(), src_image };
    let work_result = Worker::do_work(work);
    if let WorkResult::ImageDither { dithered_image, dmc_bom } = work_result {
        let pixels_count = (dithered_image.width() as u64) * (dithered_image.height() as u64);
        let diamonds_used_count: u64 = dmc_bom.iter().map(|e| e.count).sum();
        assert_eq!(pixels_count, diamonds_used_count);
        let total_colors_count = palette_dmc.len();
        let used_colors_count = dmc_bom.len();
        assert!(used_colors_count <= total_colors_count);
    } else {
        panic!("Bad work result");
    }
}
