//! Classification of on-disk filenames: original frames, derived masks of a
//! specific kind, or unrecognized files; and the derivation of a mask's source
//! frame filename.
use vstd::prelude::*;
use vstd::string::*;

use crate::error::AppError;
use crate::mask_type::{spec_marker, MaskType};
use crate::text::{
    contains_seq,
    contains_sub,
    find_sub,
    is_first_match,
    starts_with_seq,
    starts_with_sub,
};

verus! {

/// The prefix every original frame filename begins with, and the marker a
/// mask's source-frame name is recovered from.
pub open spec fn video_prefix() -> Seq<char> {
    "video_"@
}

/// What a filename means: an original frame, a derived mask of one of the six
/// kinds, or nothing this pipeline knows.
#[derive(Clone, Copy, Debug, PartialEq, Eq, Structural)]
pub enum Kind {
    OriginalFrame,
    DerivedMask(MaskType),
    Unrecognized,
}

/// The mask kind a filename is recognized as, checking the six markers in
/// their fixed priority order.
pub open spec fn spec_determine_mask_type(s: Seq<char>) -> Option<MaskType> {
    if contains_seq(s, spec_marker(MaskType::Occlusion)) {
        Some(MaskType::Occlusion)
    } else if contains_seq(s, spec_marker(MaskType::Saliency)) {
        Some(MaskType::Saliency)
    } else if contains_seq(s, spec_marker(MaskType::LayerGradcam)) {
        Some(MaskType::LayerGradcam)
    } else if contains_seq(s, spec_marker(MaskType::IntegratedGradients)) {
        Some(MaskType::IntegratedGradients)
    } else if contains_seq(s, spec_marker(MaskType::GuidedGradcam)) {
        Some(MaskType::GuidedGradcam)
    } else if contains_seq(s, spec_marker(MaskType::GradientShap)) {
        Some(MaskType::GradientShap)
    } else {
        None
    }
}

/// Recognizes which mask kind a filename carries, by substring containment, in
/// the fixed priority order.
pub fn determine_mask_type(filename: &str) -> (r: Option<MaskType>)
    ensures
        r == spec_determine_mask_type(filename@),
{
    if contains_sub(filename, "occlusion_colored_") {
        Some(MaskType::Occlusion)
    } else if contains_sub(filename, "saliency_colored_") {
        Some(MaskType::Saliency)
    } else if contains_sub(filename, "layer_gradcam_colored_") {
        Some(MaskType::LayerGradcam)
    } else if contains_sub(filename, "integrated_gradients_colored_") {
        Some(MaskType::IntegratedGradients)
    } else if contains_sub(filename, "guided_gradcam_colored_") {
        Some(MaskType::GuidedGradcam)
    } else if contains_sub(filename, "gradient_shap_colored_") {
        Some(MaskType::GradientShap)
    } else {
        None
    }
}

/// The meaning of a filename: a name beginning with the frame prefix is an
/// original frame; otherwise the first matching mask marker decides; otherwise
/// the file is unrecognized.
pub open spec fn spec_classify(s: Seq<char>) -> Kind {
    if starts_with_seq(s, video_prefix()) {
        Kind::OriginalFrame
    } else {
        match spec_determine_mask_type(s) {
            Some(t) => Kind::DerivedMask(t),
            None => Kind::Unrecognized,
        }
    }
}

/// Classifies a filename as an original frame, a derived mask, or
/// unrecognized.
pub fn classify(filename: &str) -> (k: Kind)
    ensures
        k == spec_classify(filename@),
{
    if starts_with_sub(filename, "video_") {
        Kind::OriginalFrame
    } else {
        match determine_mask_type(filename) {
            Some(t) => Kind::DerivedMask(t),
            None => Kind::Unrecognized,
        }
    }
}

/// The index of the first occurrence of the frame prefix in a mask filename.
pub open spec fn first_video_idx(s: Seq<char>) -> int {
    choose|i: int| is_first_match(s, video_prefix(), i)
}

/// The source-frame filename implied by a mask filename: its suffix from the
/// first occurrence of the frame prefix on.
pub open spec fn spec_derive_frame_filename(s: Seq<char>) -> Seq<char> {
    s.subrange(first_video_idx(s), s.len() as int)
}

/// A first match is the only first match.
proof fn lemma_first_match_unique(s: Seq<char>, p: Seq<char>, i: int, j: int)
    requires
        is_first_match(s, p, i),
        is_first_match(s, p, j),
    ensures
        i == j,
{
}

/// Recovers the original frame's filename from a mask's filename: everything
/// from the first occurrence of the frame prefix to the end. A mask filename
/// with no such occurrence has no recoverable source frame.
pub fn derive_frame_filename(mask_filename: &str) -> (r: Result<String, AppError>)
    ensures
        r is Ok <==> contains_seq(mask_filename@, video_prefix()),
        r matches Ok(name) ==> name@ == spec_derive_frame_filename(mask_filename@),
        r matches Err(e) ==> e == AppError::AmbiguousOrigin,
{
    let n = mask_filename.unicode_len();
    match find_sub(mask_filename, "video_") {
        Some(i) => {
            proof {
                let w = choose|k: int| is_first_match(mask_filename@, video_prefix(), k);
                lemma_first_match_unique(mask_filename@, video_prefix(), i as int, w);
            }
            let name = mask_filename.substring_char(i, n);
            Ok(String::from_str(name))
        },
        None => Err(AppError::AmbiguousOrigin),
    }
}

/// Classification is total and deterministic: every filename falls in exactly
/// one of the three classes, and when several mask markers occur in one name,
/// the fixed priority order alone decides which kind wins.
pub proof fn lemma_classify_total(s: Seq<char>)
    ensures
        spec_classify(s) is OriginalFrame <==> starts_with_seq(s, video_prefix()),
        spec_classify(s) matches Kind::DerivedMask(t) ==> !starts_with_seq(s, video_prefix())
            && contains_seq(s, spec_marker(t)),
        spec_classify(s) is Unrecognized <==> (!starts_with_seq(s, video_prefix()) && forall|t:
            MaskType|
            !contains_seq(s, spec_marker(t))),
        !starts_with_seq(s, video_prefix()) && contains_seq(s, spec_marker(MaskType::Occlusion))
            ==> spec_classify(s) == Kind::DerivedMask(MaskType::Occlusion),
{
    if spec_classify(s) is Unrecognized {
        assert forall|t: MaskType| !contains_seq(s, spec_marker(t)) by {
            match t {
                MaskType::Occlusion => {},
                MaskType::Saliency => {},
                MaskType::LayerGradcam => {},
                MaskType::IntegratedGradients => {},
                MaskType::GuidedGradcam => {},
                MaskType::GradientShap => {},
            }
        }
    }
}

} // verus!
