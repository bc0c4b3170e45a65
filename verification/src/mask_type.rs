//! The six mask algorithm kinds and the filename markers that betray them.
use vstd::prelude::*;
use vstd::string::*;

verus! {

/// The explainability algorithm a derived overlay was produced by.
#[derive(Clone, Copy, Debug, PartialEq, Eq, Structural)]
pub enum MaskType {
    Occlusion,
    Saliency,
    LayerGradcam,
    IntegratedGradients,
    GuidedGradcam,
    GradientShap,
}

/// The substring marker that identifies a mask filename of this kind.
pub open spec fn spec_marker(t: MaskType) -> Seq<char> {
    match t {
        MaskType::Occlusion => "occlusion_colored_"@,
        MaskType::Saliency => "saliency_colored_"@,
        MaskType::LayerGradcam => "layer_gradcam_colored_"@,
        MaskType::IntegratedGradients => "integrated_gradients_colored_"@,
        MaskType::GuidedGradcam => "guided_gradcam_colored_"@,
        MaskType::GradientShap => "gradient_shap_colored_"@,
    }
}

impl MaskType {
    /// The marker this kind is recognized by in filenames.
    pub fn marker(&self) -> (m: &'static str)
        ensures
            m@ == spec_marker(*self),
    {
        match self {
            MaskType::Occlusion => "occlusion_colored_",
            MaskType::Saliency => "saliency_colored_",
            MaskType::LayerGradcam => "layer_gradcam_colored_",
            MaskType::IntegratedGradients => "integrated_gradients_colored_",
            MaskType::GuidedGradcam => "guided_gradcam_colored_",
            MaskType::GradientShap => "gradient_shap_colored_",
        }
    }

    /// The lowercase display name used in API payloads.
    pub fn display_name(&self) -> (m: String)
        ensures
            m@ == self.spec_display_name(),
    {
        match self {
            MaskType::Occlusion => String::from_str("occlusion"),
            MaskType::Saliency => String::from_str("saliency"),
            MaskType::LayerGradcam => String::from_str("layergradcam"),
            MaskType::IntegratedGradients => String::from_str("integratedgradients"),
            MaskType::GuidedGradcam => String::from_str("guidedgradcam"),
            MaskType::GradientShap => String::from_str("gradientshap"),
        }
    }

    pub open spec fn spec_display_name(&self) -> Seq<char> {
        match self {
            MaskType::Occlusion => "occlusion"@,
            MaskType::Saliency => "saliency"@,
            MaskType::LayerGradcam => "layergradcam"@,
            MaskType::IntegratedGradients => "integratedgradients"@,
            MaskType::GuidedGradcam => "guidedgradcam"@,
            MaskType::GradientShap => "gradientshap"@,
        }
    }
}

} // verus!
