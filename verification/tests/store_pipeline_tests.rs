use xai_api::error::AppError;
use xai_api::mask_type::MaskType;
use xai_api::pipeline::{process_patient_dirs, PatientDir};
use xai_api::scan::get_patient_dirs_to_process;
use xai_api::store::Store;

fn dir(name: &str, files: &[&str]) -> PatientDir {
    PatientDir {
        name: name.to_string(),
        files: files.iter().map(|f| f.to_string()).collect(),
    }
}

#[test]
fn upsert_frame_is_idempotent() {
    let mut store = Store::new();
    let a = store.process_image("001", "video_0001_0000.jpg").unwrap();
    let b = store.process_image("001", "video_0001_0000.jpg").unwrap();
    assert_eq!(a, b);
    assert_eq!(store.images.len(), 1);
}

#[test]
fn upsert_mask_is_idempotent() {
    let mut store = Store::new();
    store.process_image("001", "video_0001_0000.jpg").unwrap();
    let a = store
        .process_mask("001", "occlusion_colored_video_0001_0000.jpg", MaskType::Occlusion)
        .unwrap();
    let b = store
        .process_mask("001", "occlusion_colored_video_0001_0000.jpg", MaskType::Occlusion)
        .unwrap();
    assert_eq!(a, b);
    assert_eq!(store.images.len(), 1);
    assert_eq!(store.masks.len(), 1);
}

#[test]
fn implicit_frame_creation() {
    // A directory holding only a mask file: ingestion creates exactly one
    // frame, named after the mask's recoverable source, and one mask owned by
    // it.
    let mut store = Store::new();
    let dirs = vec![dir("001", &["occlusion_colored_video_0001_0000.jpg"])];
    let report = process_patient_dirs(&mut store, &dirs);
    assert_eq!(report.images_created, 1);
    assert_eq!(report.masks_created, 1);
    assert_eq!(report.skipped, 0);
    assert_eq!(report.errors, 0);
    assert_eq!(store.images.len(), 1);
    assert_eq!(store.images[0].filename, "video_0001_0000.jpg");
    assert_eq!(store.images[0].patient_nb, "001");
    assert_eq!(store.masks.len(), 1);
    assert_eq!(store.masks[0].image_id, store.images[0].id);
    assert_eq!(store.masks[0].mask_type, MaskType::Occlusion);
    assert_eq!(store.masks[0].filename, "occlusion_colored_video_0001_0000.jpg");
}

#[test]
fn ingestion_twice_creates_nothing_new() {
    let mut store = Store::new();
    let dirs = vec![
        dir(
            "001",
            &[
                "video_0001_0000.jpg",
                "occlusion_colored_video_0001_0000.jpg",
                "saliency_colored_video_0001_0000.jpg",
            ],
        ),
        dir("002", &["video_0002_0000.jpg", "notes.txt"]),
    ];
    let first = process_patient_dirs(&mut store, &dirs);
    assert_eq!(first.images_created, 2);
    assert_eq!(first.masks_created, 2);
    assert_eq!(first.skipped, 1);
    assert_eq!(first.errors, 0);
    let images_after_first = store.images.len();
    let masks_after_first = store.masks.len();

    let second = process_patient_dirs(&mut store, &dirs);
    assert_eq!(second.images_created, 0);
    assert_eq!(second.masks_created, 0);
    assert_eq!(second.skipped, 1);
    assert_eq!(store.images.len(), images_after_first);
    assert_eq!(store.masks.len(), masks_after_first);
}

#[test]
fn masks_met_before_their_frame_attach_to_it() {
    // The mask comes first in the listing; the frame file itself follows and
    // is upserted onto the implicitly created record.
    let mut store = Store::new();
    let dirs = vec![dir(
        "007",
        &["occlusion_colored_video_0007_0001.jpg", "video_0007_0001.jpg"],
    )];
    let report = process_patient_dirs(&mut store, &dirs);
    assert_eq!(report.images_created, 1);
    assert_eq!(report.masks_created, 1);
    assert_eq!(store.images.len(), 1);
}

#[test]
fn ambiguous_mask_is_recorded_and_skipped() {
    // A file carrying a mask marker but no recoverable source-frame name is an
    // error for that file alone; the rest of the directory is still ingested.
    let mut store = Store::new();
    let dirs = vec![dir(
        "001",
        &["occlusion_colored_frame_1.jpg", "video_0001_0000.jpg"],
    )];
    let report = process_patient_dirs(&mut store, &dirs);
    assert_eq!(report.errors, 1);
    assert_eq!(report.images_created, 1);
    assert_eq!(report.masks_created, 0);
}

#[test]
fn latest_patient_nb_formats_the_maximum() {
    let mut store = Store::new();
    store.process_image("001", "video_0001_0000.jpg").unwrap();
    store.process_image("003", "video_0003_0000.jpg").unwrap();
    let latest = store.get_latest_patient_nb().unwrap();
    assert_eq!(latest.as_deref(), Some("003"));
}

#[test]
fn latest_patient_nb_empty_store_is_none() {
    let store = Store::new();
    assert_eq!(store.get_latest_patient_nb().unwrap(), None);
}

#[test]
fn latest_patient_nb_non_numeric_is_storage_error() {
    let mut store = Store::new();
    store.process_image("banana", "video_0001_0000.jpg").unwrap();
    assert_eq!(store.get_latest_patient_nb(), Err(AppError::StorageError));
}

#[test]
fn latest_patient_nb_wide_numbers_keep_their_width() {
    let mut store = Store::new();
    store.process_image("1383", "video_1383_0000.jpg").unwrap();
    let latest = store.get_latest_patient_nb().unwrap();
    assert_eq!(latest.as_deref(), Some("1383"));
}

#[test]
fn incremental_scan_returns_only_newer_directories() {
    // Persisted patients {"001","003"}; on disk {"002","003","004"}: only
    // "004" is newer than the high-water mark "003".
    let mut store = Store::new();
    store.process_image("001", "video_0001_0000.jpg").unwrap();
    store.process_image("003", "video_0003_0000.jpg").unwrap();
    let on_disk = vec!["002".to_string(), "003".to_string(), "004".to_string()];
    let r = get_patient_dirs_to_process(&store, &on_disk).unwrap();
    assert_eq!(r, vec!["004".to_string()]);
}

#[test]
fn cold_start_returns_every_directory() {
    let store = Store::new();
    let on_disk = vec!["002".to_string(), "001".to_string(), "010".to_string()];
    let r = get_patient_dirs_to_process(&store, &on_disk).unwrap();
    assert_eq!(r, on_disk);
}

#[test]
fn rescan_after_ingestion_selects_no_processed_directory() {
    // After a full run, every ingested patient is at or below the high-water
    // mark, so an unchanged disk offers nothing new.
    let mut store = Store::new();
    let on_disk = vec!["001".to_string(), "002".to_string()];
    let dirs = vec![
        dir("001", &["video_0001_0000.jpg"]),
        dir("002", &["video_0002_0000.jpg"]),
    ];
    process_patient_dirs(&mut store, &dirs);
    let again = get_patient_dirs_to_process(&store, &on_disk).unwrap();
    assert!(again.is_empty());
}

#[test]
fn find_image_and_find_mask() {
    let mut store = Store::new();
    let id = store.process_image("001", "video_0001_0000.jpg").unwrap();
    assert_eq!(store.find_image("001", "video_0001_0000.jpg"), Some(id));
    assert_eq!(store.find_image("002", "video_0001_0000.jpg"), None);
    let mid = store
        .process_mask("001", "saliency_colored_video_0001_0000.jpg", MaskType::Saliency)
        .unwrap();
    assert_eq!(
        store.find_mask(id, MaskType::Saliency, "saliency_colored_video_0001_0000.jpg"),
        Some(mid)
    );
    assert_eq!(
        store.find_mask(id, MaskType::Occlusion, "saliency_colored_video_0001_0000.jpg"),
        None
    );
}
