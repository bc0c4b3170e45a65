use xai_api::content::{build_image_data, content_type_for, extension_of};
use xai_api::error::AppError;
use xai_api::models::{Image, Mask};
use xai_api::models::{build_image_set, build_mask_image};
use xai_api::mask_type::MaskType;
use xai_api::paths::{is_path_within, join_segments, resolve_check};
use xai_api::num::{format_patient_nb, i32_to_dec, parse_patient_nb, u32_to_dec};
use xai_api::Config;

#[test]
fn traversal_outside_the_root_is_rejected() {
    // The candidate "/data/042/../../etc/passwd" canonicalizes to
    // "/etc/passwd", which does not lie under "/data".
    let r = resolve_check("/data", Some("/etc/passwd".to_string()));
    assert_eq!(r, Err(AppError::InvalidPath));
}

#[test]
fn a_file_under_the_root_is_served() {
    let r = resolve_check("/data", Some("/data/042/video_0001.jpg".to_string()));
    assert_eq!(r, Ok("/data/042/video_0001.jpg".to_string()));
}

#[test]
fn a_candidate_that_does_not_exist_is_not_found() {
    let r = resolve_check("/data", None);
    assert_eq!(r, Err(AppError::NotFound));
}

#[test]
fn resolve_against_a_missing_root_is_a_filesystem_error() {
    let segs = vec!["a".to_string()];
    let r = xai_api::paths::resolve("/no_such_root_for_these_tests", &segs);
    assert!(matches!(r, Err(AppError::FilesystemError)));
}

#[test]
fn resolve_of_a_missing_candidate_is_not_found() {
    let segs = vec!["no_such_file_for_these_tests".to_string()];
    let r = xai_api::paths::resolve("/", &segs);
    assert!(matches!(r, Err(AppError::NotFound)));
}

#[test]
fn resolve_of_an_existing_path_succeeds() {
    let r = xai_api::paths::resolve("/", &Vec::new()).unwrap();
    assert_eq!(r.path, "/");
}

#[test]
fn containment_is_component_wise_not_textual() {
    assert!(is_path_within("/data", "/data"));
    assert!(is_path_within("/data", "/data/042/a.jpg"));
    assert!(!is_path_within("/data", "/database/a.jpg"));
    assert!(!is_path_within("/data", "/etc/passwd"));
    assert!(is_path_within("/", "/etc"));
}

#[test]
fn join_appends_each_segment() {
    let segs = vec!["042".to_string(), "video_0001.jpg".to_string()];
    assert_eq!(join_segments("/data", &segs), "/data/042/video_0001.jpg");
    assert_eq!(join_segments("/data", &Vec::new()), "/data");
}

#[test]
fn content_type_table() {
    assert_eq!(content_type_for("/d/042/a.jpg"), "image/jpeg");
    assert_eq!(content_type_for("/d/042/a.jpeg"), "image/jpeg");
    assert_eq!(content_type_for("/d/042/a.png"), "image/png");
    assert_eq!(content_type_for("/d/042/a.gif"), "image/gif");
    assert_eq!(content_type_for("/d/042/a.svg"), "image/svg+xml");
    assert_eq!(content_type_for("/d/042/a.bin"), "application/octet-stream");
    assert_eq!(content_type_for("/d/042/noext"), "application/octet-stream");
    assert_eq!(content_type_for("/d/042/.hidden"), "application/octet-stream");
}

#[test]
fn extension_is_the_suffix_of_the_final_component() {
    assert_eq!(extension_of("/d/a.jpg").as_deref(), Some("jpg"));
    assert_eq!(extension_of("/d.x/a"), None);
    assert_eq!(extension_of("/d/.hidden"), None);
    assert_eq!(extension_of("archive.tar.gz").as_deref(), Some("gz"));
}

#[test]
fn image_data_embeds_base64_content() {
    let image = Image {
        id: 7,
        filename: "video_0001.jpg".to_string(),
        patient_nb: "042".to_string(),
    };
    let bytes: Vec<u8> = b"Man".to_vec();
    let d = build_image_data(&image, "/data/042/video_0001.jpg", &bytes);
    assert_eq!(d.image.id, 7);
    assert_eq!(d.content_type.as_deref(), Some("image/jpeg"));
    assert_eq!(d.data.as_deref(), Some("TWFu"));
}

#[test]
fn image_data_of_empty_bytes_is_empty() {
    let image = Image {
        id: 1,
        filename: "video_0001.png".to_string(),
        patient_nb: "001".to_string(),
    };
    let d = build_image_data(&image, "/data/001/video_0001.png", &Vec::new());
    assert_eq!(d.content_type.as_deref(), Some("image/png"));
    assert_eq!(d.data.as_deref(), Some(""));
}

#[test]
fn base64_padding_lengths() {
    let image = Image {
        id: 1,
        filename: "a.bin".to_string(),
        patient_nb: "001".to_string(),
    };
    let d = build_image_data(&image, "a.bin", &vec![0u8; 4]);
    assert_eq!(d.data.as_deref(), Some("AAAAAA=="));
}

#[test]
fn image_set_urls_and_mask_entries() {
    let image = Image {
        id: 3,
        filename: "video_0042_0007.jpg".to_string(),
        patient_nb: "042".to_string(),
    };
    let masks = vec![Mask {
        id: 11,
        image_id: 3,
        mask_type: MaskType::LayerGradcam,
        filename: "layer_gradcam_colored_video_0042_0007.jpg".to_string(),
    }];
    let set = build_image_set(&image, &masks);
    assert_eq!(set.original_image, "/file/042/video_0042_0007.jpg");
    assert_eq!(set.masks.len(), 1);
    assert_eq!(set.masks[0].id, "11");
    assert_eq!(set.masks[0].kind, "layergradcam");
    assert_eq!(
        set.masks[0].image_url,
        "file/042/layer_gradcam_colored_video_0042_0007.jpg"
    );
    assert!(set.masks[0].content_type.is_none());
    assert!(set.masks[0].image_data.is_none());
}

#[test]
fn mask_image_entry_for_negative_id() {
    let mask = Mask {
        id: -5,
        image_id: 1,
        mask_type: MaskType::GradientShap,
        filename: "gradient_shap_colored_video_1.jpg".to_string(),
    };
    let mi = build_mask_image("001", &mask);
    assert_eq!(mi.id, "-5");
    assert_eq!(mi.kind, "gradientshap");
}

#[test]
fn decimal_rendering_and_parsing() {
    assert_eq!(u32_to_dec(0), "0");
    assert_eq!(u32_to_dec(1383), "1383");
    assert_eq!(i32_to_dec(-42), "-42");
    assert_eq!(format_patient_nb(1), "001");
    assert_eq!(format_patient_nb(42), "042");
    assert_eq!(format_patient_nb(100), "100");
    assert_eq!(format_patient_nb(1383), "1383");
    assert_eq!(parse_patient_nb("003"), Some(3));
    assert_eq!(parse_patient_nb(""), None);
    assert_eq!(parse_patient_nb("12a"), None);
    assert_eq!(parse_patient_nb("4294967295"), Some(u32::MAX));
    assert_eq!(parse_patient_nb("4294967296"), None);
}

#[test]
fn config_defaults() {
    let c = Config::from_values("postgres://localhost/db".to_string(), None, None);
    assert_eq!(c.database_url, "postgres://localhost/db");
    assert_eq!(c.server_addr, "0.0.0.0:3000");
    assert_eq!(
        c.log_level,
        "xai_api=info,sqlx=debug,tower_http=debug,axum=info"
    );
    let c2 = Config::from_values(
        "u".to_string(),
        Some("127.0.0.1:8080".to_string()),
        Some("info".to_string()),
    );
    assert_eq!(c2.server_addr, "127.0.0.1:8080");
    assert_eq!(c2.log_level, "info");
}
