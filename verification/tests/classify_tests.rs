use xai_api::classify::{classify, derive_frame_filename, determine_mask_type, Kind};
use xai_api::error::AppError;
use xai_api::mask_type::MaskType;
use xai_api::text::{contains_sub, find_sub, starts_with_sub, str_eq, str_lt};

#[test]
fn classify_original_frame() {
    assert_eq!(classify("video_0000_1383.jpg"), Kind::OriginalFrame);
}

#[test]
fn classify_each_mask_kind() {
    assert_eq!(
        classify("occlusion_colored_video_0001_0000.jpg"),
        Kind::DerivedMask(MaskType::Occlusion)
    );
    assert_eq!(
        classify("saliency_colored_video_0001_0000.jpg"),
        Kind::DerivedMask(MaskType::Saliency)
    );
    assert_eq!(
        classify("layer_gradcam_colored_video_0001_0000.jpg"),
        Kind::DerivedMask(MaskType::LayerGradcam)
    );
    assert_eq!(
        classify("integrated_gradients_colored_video_0001_0000.jpg"),
        Kind::DerivedMask(MaskType::IntegratedGradients)
    );
    assert_eq!(
        classify("guided_gradcam_colored_video_0001_0000.jpg"),
        Kind::DerivedMask(MaskType::GuidedGradcam)
    );
    assert_eq!(
        classify("gradient_shap_colored_video_0001_0000.jpg"),
        Kind::DerivedMask(MaskType::GradientShap)
    );
}

#[test]
fn classify_unrecognized() {
    assert_eq!(classify("notes.txt"), Kind::Unrecognized);
    assert_eq!(classify(""), Kind::Unrecognized);
}

#[test]
fn classify_video_prefix_wins_over_markers() {
    // A name that begins with the frame prefix is an original frame even if a
    // marker occurs later in it.
    assert_eq!(
        classify("video_occlusion_colored_video_0001.jpg"),
        Kind::OriginalFrame
    );
}

#[test]
fn determine_mask_type_priority_order_is_fixed() {
    // Both markers occur; the occlusion marker is checked first and wins.
    let name = "saliency_colored_occlusion_colored_video_0001.jpg";
    assert_eq!(determine_mask_type(name), Some(MaskType::Occlusion));
}

#[test]
fn determine_mask_type_is_substring_containment() {
    // Matching is containment, not a prefix check.
    let name = "x_saliency_colored_video_0001.jpg";
    assert_eq!(determine_mask_type(name), Some(MaskType::Saliency));
    assert_eq!(determine_mask_type("video_0001.jpg"), None);
}

#[test]
fn derive_frame_filename_strips_algorithm_prefix() {
    let r = derive_frame_filename("saliency_colored_video_0042_0007.jpg").unwrap();
    assert_eq!(r, "video_0042_0007.jpg");
}

#[test]
fn derive_frame_filename_without_marker_is_ambiguous() {
    let r = derive_frame_filename("saliency_colored_frame_0042.jpg");
    assert_eq!(r, Err(AppError::AmbiguousOrigin));
}

#[test]
fn derive_frame_filename_takes_first_occurrence() {
    let r = derive_frame_filename("occlusion_colored_video_video_1.jpg").unwrap();
    assert_eq!(r, "video_video_1.jpg");
}

#[test]
fn find_sub_returns_first_match() {
    assert_eq!(find_sub("abcabc", "bc"), Some(1));
    assert_eq!(find_sub("abcabc", "zz"), None);
    assert_eq!(find_sub("abc", ""), Some(0));
}

#[test]
fn contains_and_starts_with() {
    assert!(contains_sub("saliency_colored_video_1.jpg", "video_"));
    assert!(!contains_sub("saliency.jpg", "video_"));
    assert!(starts_with_sub("video_0001.jpg", "video_"));
    assert!(!starts_with_sub("a_video_0001.jpg", "video_"));
}

#[test]
fn string_comparison_is_lexicographic() {
    assert!(str_lt("003", "004"));
    assert!(!str_lt("004", "004"));
    assert!(!str_lt("010", "004"));
    assert!(str_lt("00", "000"));
    assert!(str_eq("abc", "abc"));
    assert!(!str_eq("abc", "abd"));
}

#[test]
fn lexicographic_order_matches_string_order() {
    let pairs = [
        ("002", "003"),
        ("010", "004"),
        ("abc", "abd"),
        ("a", "ab"),
        ("", ""),
        ("ab", "a"),
        ("0100", "010"),
    ];
    for (a, b) in pairs {
        assert_eq!(str_lt(a, b), a < b);
    }
}

#[test]
fn error_status_codes() {
    assert_eq!(AppError::NotFound.http_status(), 404);
    assert_eq!(AppError::InvalidPath.http_status(), 400);
    assert_eq!(AppError::AmbiguousOrigin.http_status(), 500);
    assert_eq!(AppError::StorageError.http_status(), 500);
    assert_eq!(AppError::FilesystemError.http_status(), 500);
}

#[test]
fn error_messages() {
    assert_eq!(AppError::NotFound.message(), "Not found");
    assert_eq!(AppError::InvalidPath.message(), "Invalid file path");
}
