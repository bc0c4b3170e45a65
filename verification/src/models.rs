//! The persisted records and the response shapes the routing layer serves,
//! with the verified assembly of an image-with-masks payload.
use vstd::prelude::*;
use vstd::string::*;

use crate::mask_type::MaskType;
use crate::num::{i32_to_dec, spec_i32_dec};

verus! {

/// A persisted original frame record, keyed by patient and filename.
pub struct Image {
    pub id: i32,
    pub filename: String,
    pub patient_nb: String,
}

/// The mathematical content of an [`Image`].
pub struct ImageV {
    pub id: int,
    pub filename: Seq<char>,
    pub patient_nb: Seq<char>,
}

impl View for Image {
    type V = ImageV;

    open spec fn view(&self) -> ImageV {
        ImageV { id: self.id as int, filename: self.filename@, patient_nb: self.patient_nb@ }
    }
}

impl Clone for Image {
    fn clone(&self) -> (r: Self)
        ensures
            r@ == self@,
    {
        Image {
            id: self.id,
            filename: self.filename.clone(),
            patient_nb: self.patient_nb.clone(),
        }
    }
}

/// A persisted derived-overlay record, owned by one frame.
pub struct Mask {
    pub id: i32,
    pub image_id: i32,
    pub mask_type: MaskType,
    pub filename: String,
}

/// The mathematical content of a [`Mask`].
pub struct MaskV {
    pub id: int,
    pub image_id: int,
    pub mask_type: MaskType,
    pub filename: Seq<char>,
}

impl View for Mask {
    type V = MaskV;

    open spec fn view(&self) -> MaskV {
        MaskV {
            id: self.id as int,
            image_id: self.image_id as int,
            mask_type: self.mask_type,
            filename: self.filename@,
        }
    }
}

impl Clone for Mask {
    fn clone(&self) -> (r: Self)
        ensures
            r@ == self@,
    {
        Mask {
            id: self.id,
            image_id: self.image_id,
            mask_type: self.mask_type,
            filename: self.filename.clone(),
        }
    }
}

/// An image record together with its inlined, encoded content.
pub struct ImageData {
    pub image: Image,
    pub content_type: Option<String>,
    pub data: Option<String>,
}

/// A mask as presented in an image set payload.
pub struct MaskImage {
    pub id: String,
    pub kind: String,
    pub image_url: String,
    pub content_type: Option<String>,
    pub image_data: Option<String>,
}

/// An original image's URL together with its masks.
pub struct ImageSet {
    pub original_image: String,
    pub masks: Vec<MaskImage>,
}

/// An inlined image together with its masks.
pub struct ImageDataSet {
    pub image: ImageData,
    pub masks: Vec<MaskImage>,
}

/// A registered user.
pub struct User {
    pub id: i32,
    pub username: String,
}

/// The request body for creating a user.
pub struct CreateUser {
    pub username: String,
}

/// One persisted rank a user gave a mask within a preference.
pub struct PreferenceEvent {
    pub id: i32,
    pub preference_id: i32,
    pub mask_id: i32,
    pub rank: i32,
}

/// The request body for recording a user's ranking of an image's masks.
pub struct CreatePreference {
    pub user_id: i32,
    pub image_id: i32,
    pub events: Vec<CreatePreferenceEvent>,
}

/// One requested rank within a preference to be created.
pub struct CreatePreferenceEvent {
    pub mask_id: i32,
    pub rank: i32,
}

/// A mask with its rank position, for display.
pub struct RankedMask {
    pub id: String,
    pub kind: String,
    pub image_url: String,
    pub name: String,
    pub rank: i32,
}

/// The serving URL of a file, as the raw-file endpoint routes it.
pub open spec fn spec_file_url(prefix: Seq<char>, patient_nb: Seq<char>, filename: Seq<char>) -> Seq<
    char,
> {
    prefix + patient_nb + seq!['/'] + filename
}

/// What the payload entry for one mask of an image holds: the mask's id in
/// decimal, its kind's display name, its serving URL, and no inlined content.
pub open spec fn spec_mask_image(patient_nb: Seq<char>, m: MaskV, mi: &MaskImage) -> bool {
    &&& mi.id@ == spec_i32_dec(m.id)
    &&& mi.kind@ == m.mask_type.spec_display_name()
    &&& mi.image_url@ == spec_file_url("file/"@, patient_nb, m.filename)
    &&& mi.content_type is None
    &&& mi.image_data is None
}

/// Builds the payload entry for one mask of an image.
pub fn build_mask_image(patient_nb: &str, mask: &Mask) -> (mi: MaskImage)
    ensures
        spec_mask_image(patient_nb@, mask@, &mi),
{
    let mut url = String::from_str("file/");
    url.append(patient_nb);
    url.append("/");
    url.append(mask.filename.as_str());
    proof {
        reveal_strlit("/");
        assert("/"@ =~= seq!['/']);
    }
    MaskImage {
        id: i32_to_dec(mask.id),
        kind: mask.mask_type.display_name(),
        image_url: url,
        content_type: None,
        image_data: None,
    }
}

/// Assembles the image-set payload for one image: the original frame's serving
/// URL and one entry per mask, in the masks' given order.
pub fn build_image_set(image: &Image, masks: &Vec<Mask>) -> (s: ImageSet)
    ensures
        s.original_image@ == spec_file_url("/file/"@, image@.patient_nb, image@.filename),
        s.masks@.len() == masks@.len(),
        forall|i: int|
            0 <= i < masks@.len() ==> spec_mask_image(image@.patient_nb, masks@[i]@, &s.masks@[i]),
{
    let mut url = String::from_str("/file/");
    url.append(image.patient_nb.as_str());
    url.append("/");
    url.append(image.filename.as_str());
    proof {
        reveal_strlit("/");
        assert("/"@ =~= seq!['/']);
    }
    let mut entries: Vec<MaskImage> = Vec::new();
    let mut i: usize = 0;
    while i < masks.len()
        invariant
            i <= masks@.len(),
            entries@.len() == i,
            forall|k: int|
                0 <= k < i ==> spec_mask_image(image@.patient_nb, masks@[k]@, &entries@[k]),
        decreases masks@.len() - i,
    {
        let mi = build_mask_image(image.patient_nb.as_str(), &masks[i]);
        entries.push(mi);
        i = i + 1;
    }
    ImageSet { original_image: url, masks: entries }
}

} // verus!
