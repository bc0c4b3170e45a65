//! The persistence model the ingestion pipeline runs against: frame and mask
//! records with generated identifiers, the uniqueness invariants the schema
//! enforces, and the idempotent create-or-fetch operations.
use vstd::prelude::*;
use vstd::string::*;

use crate::classify::{derive_frame_filename, spec_derive_frame_filename, video_prefix};
use crate::error::AppError;
use crate::mask_type::MaskType;
use crate::models::{Image, ImageV, Mask, MaskV};
use crate::num::{
    dec_val,
    format_patient_nb,
    is_numeric,
    lemma_dec_val_nonneg,
    lemma_pad3_round_trip,
    parse_patient_nb,
    spec_pad3,
};
use crate::text::{contains_seq, str_eq};

verus! {

/// Whether a frame record carries the given (patient, filename) key.
pub open spec fn frame_keyed(im: ImageV, patient_nb: Seq<char>, filename: Seq<char>) -> bool {
    im.patient_nb == patient_nb && im.filename == filename
}

/// Whether some frame record carries the given key.
pub open spec fn has_image(imgs: Seq<ImageV>, patient_nb: Seq<char>, filename: Seq<char>) -> bool {
    exists|i: int| 0 <= i < imgs.len() && frame_keyed(#[trigger] imgs[i], patient_nb, filename)
}

/// The id of the frame record carrying the given key.
pub open spec fn frame_id_for(imgs: Seq<ImageV>, patient_nb: Seq<char>, filename: Seq<char>) -> int {
    let i = choose|i: int|
        0 <= i < imgs.len() && frame_keyed(#[trigger] imgs[i], patient_nb, filename);
    imgs[i].id
}

/// Whether a mask record carries the given (owning frame, kind, filename) key.
pub open spec fn mask_keyed(m: MaskV, image_id: int, mask_type: MaskType, filename: Seq<char>) -> bool {
    m.image_id == image_id && m.mask_type == mask_type && m.filename == filename
}

/// Whether some mask record carries the given key.
pub open spec fn has_mask(
    ms: Seq<MaskV>,
    image_id: int,
    mask_type: MaskType,
    filename: Seq<char>,
) -> bool {
    exists|j: int| 0 <= j < ms.len() && mask_keyed(#[trigger] ms[j], image_id, mask_type, filename)
}

/// Whether the store holds both the frame keyed by (patient, frame filename)
/// and, owned by it, the mask keyed by (kind, mask filename).
pub open spec fn has_mask_for(
    imgs: Seq<ImageV>,
    ms: Seq<MaskV>,
    patient_nb: Seq<char>,
    frame_filename: Seq<char>,
    mask_type: MaskType,
    mask_filename: Seq<char>,
) -> bool {
    exists|i: int, j: int|
        0 <= i < imgs.len() && 0 <= j < ms.len() && frame_keyed(
            #[trigger] imgs[i],
            patient_nb,
            frame_filename,
        ) && mask_keyed(#[trigger] ms[j], imgs[i].id, mask_type, mask_filename)
}

/// No two frame records share a (patient, filename) key.
pub open spec fn frame_keys_unique(imgs: Seq<ImageV>) -> bool {
    forall|i: int, j: int|
        0 <= i < j < imgs.len() ==> !((#[trigger] imgs[i]).patient_nb == (
        #[trigger] imgs[j]).patient_nb && imgs[i].filename == imgs[j].filename)
}

/// No two mask records share a (frame, kind, filename) key.
pub open spec fn mask_keys_unique(ms: Seq<MaskV>) -> bool {
    forall|i: int, j: int|
        0 <= i < j < ms.len() ==> !((#[trigger] ms[i]).image_id == (#[trigger] ms[j]).image_id
            && ms[i].mask_type == ms[j].mask_type && ms[i].filename == ms[j].filename)
}

/// Whether some frame record carries the given id.
pub open spec fn has_owner(imgs: Seq<ImageV>, image_id: int) -> bool {
    exists|i: int| 0 <= i < imgs.len() && (#[trigger] imgs[i]).id == image_id
}

/// Every mask's owning frame exists.
pub open spec fn masks_have_owners(imgs: Seq<ImageV>, ms: Seq<MaskV>) -> bool {
    forall|j: int| 0 <= j < ms.len() ==> has_owner(imgs, (#[trigger] ms[j]).image_id)
}

/// Among key-unique frame records, a record carrying a key determines
/// `frame_id_for` of that key.
pub proof fn lemma_frame_id_unique(
    imgs: Seq<ImageV>,
    patient_nb: Seq<char>,
    filename: Seq<char>,
    i: int,
)
    requires
        frame_keys_unique(imgs),
        0 <= i < imgs.len(),
        frame_keyed(imgs[i], patient_nb, filename),
    ensures
        frame_id_for(imgs, patient_nb, filename) == imgs[i].id,
{
    let w = choose|k: int| 0 <= k < imgs.len() && frame_keyed(#[trigger] imgs[k], patient_nb, filename);
    if w != i {
        assert(imgs[w].patient_nb == imgs[i].patient_nb && imgs[w].filename == imgs[i].filename);
    }
}

/// A prefix relation between record sequences keeps every record where it was.
pub proof fn lemma_prefix_index<T>(a: Seq<T>, b: Seq<T>, i: int)
    requires
        a.is_prefix_of(b),
        0 <= i < a.len(),
    ensures
        b[i] == a[i],
{
    assert(a =~= b.subrange(0, a.len() as int));
}

/// The prefix relation is transitive.
pub proof fn lemma_prefix_trans<T>(a: Seq<T>, b: Seq<T>, c: Seq<T>)
    requires
        a.is_prefix_of(b),
        b.is_prefix_of(c),
    ensures
        a.is_prefix_of(c),
{
    assert forall|i: int| 0 <= i < a.len() implies a[i] == c.subrange(0, a.len() as int)[i] by {
        lemma_prefix_index(a, b, i);
        lemma_prefix_index(b, c, i);
    }
    assert(a =~= c.subrange(0, a.len() as int));
}

/// A frame present in a store stays present as the store grows.
pub proof fn lemma_has_image_prefix(
    a: Seq<ImageV>,
    b: Seq<ImageV>,
    patient_nb: Seq<char>,
    filename: Seq<char>,
)
    requires
        a.is_prefix_of(b),
        has_image(a, patient_nb, filename),
    ensures
        has_image(b, patient_nb, filename),
{
    let i = choose|i: int| 0 <= i < a.len() && frame_keyed(#[trigger] a[i], patient_nb, filename);
    lemma_prefix_index(a, b, i);
    assert(frame_keyed(b[i], patient_nb, filename));
}

/// A frame-with-mask pair present in a store stays present as the store grows.
pub proof fn lemma_has_mask_for_prefix(
    ai: Seq<ImageV>,
    am: Seq<MaskV>,
    bi: Seq<ImageV>,
    bm: Seq<MaskV>,
    patient_nb: Seq<char>,
    frame_filename: Seq<char>,
    mask_type: MaskType,
    mask_filename: Seq<char>,
)
    requires
        ai.is_prefix_of(bi),
        am.is_prefix_of(bm),
        has_mask_for(ai, am, patient_nb, frame_filename, mask_type, mask_filename),
    ensures
        has_mask_for(bi, bm, patient_nb, frame_filename, mask_type, mask_filename),
{
    let (i, j) = choose|i: int, j: int|
        0 <= i < ai.len() && 0 <= j < am.len() && frame_keyed(
            #[trigger] ai[i],
            patient_nb,
            frame_filename,
        ) && mask_keyed(#[trigger] am[j], ai[i].id, mask_type, mask_filename);
    lemma_prefix_index(ai, bi, i);
    lemma_prefix_index(am, bm, j);
    assert(frame_keyed(bi[i], patient_nb, frame_filename) && mask_keyed(
        bm[j],
        bi[i].id,
        mask_type,
        mask_filename,
    ));
}

/// The largest numeric patient identifier among the frame records, or -1 when
/// there are none.
pub open spec fn max_patient_val(imgs: Seq<ImageV>) -> int
    decreases imgs.len(),
{
    if imgs.len() == 0 {
        -1
    } else {
        let rest = max_patient_val(imgs.drop_last());
        let v = dec_val(imgs.last().patient_nb);
        if v > rest {
            v
        } else {
            rest
        }
    }
}

/// Every persisted patient identifier is a decimal numeral of machine size:
/// what the numeric cast in the high-water query relies on.
pub open spec fn all_patients_numeric(imgs: Seq<ImageV>) -> bool {
    forall|i: int|
        0 <= i < imgs.len() ==> is_numeric((#[trigger] imgs[i]).patient_nb) && dec_val(
            imgs[i].patient_nb,
        ) <= u32::MAX
}

/// Uniqueness: a well-formed store never holds two masks with identical
/// (owning frame, kind, filename), nor two frames with identical (patient,
/// filename); and since every operation of the store keeps it well-formed,
/// no sequence of ingestion calls can ever produce such duplicates.
pub proof fn lemma_store_records_unique(s: &Store)
    requires
        s.wf(),
    ensures
        frame_keys_unique(s.images_v()),
        mask_keys_unique(s.masks_v()),
{
}

/// The in-memory image of the persistence layer: every frame and mask record,
/// together with the next identifiers the sequences would generate.
pub struct Store {
    pub images: Vec<Image>,
    pub masks: Vec<Mask>,
    pub next_image_id: i32,
    pub next_mask_id: i32,
}

impl Store {
    /// The frame records as mathematical values.
    pub open spec fn images_v(&self) -> Seq<ImageV> {
        self.images@.map_values(|im: Image| im@)
    }

    /// The mask records as mathematical values.
    pub open spec fn masks_v(&self) -> Seq<MaskV> {
        self.masks@.map_values(|m: Mask| m@)
    }

    /// The uniqueness and integrity invariants the schema enforces: generated
    /// ids are positive, below the sequence counters and distinct; no two
    /// frames share a key; no two masks share a key; and every mask's owning
    /// frame exists.
    pub open spec fn wf(&self) -> bool {
        &&& 1 <= self.next_image_id
        &&& 1 <= self.next_mask_id
        &&& forall|i: int|
            0 <= i < self.images_v().len() ==> 1 <= (#[trigger] self.images_v()[i]).id
                < self.next_image_id
        &&& forall|i: int, j: int|
            0 <= i < j < self.images_v().len() ==> (#[trigger] self.images_v()[i]).id != (
            #[trigger] self.images_v()[j]).id
        &&& frame_keys_unique(self.images_v())
        &&& forall|j: int|
            0 <= j < self.masks_v().len() ==> 1 <= (#[trigger] self.masks_v()[j]).id
                < self.next_mask_id
        &&& forall|i: int, j: int|
            0 <= i < j < self.masks_v().len() ==> (#[trigger] self.masks_v()[i]).id != (
            #[trigger] self.masks_v()[j]).id
        &&& mask_keys_unique(self.masks_v())
        &&& masks_have_owners(self.images_v(), self.masks_v())
    }

    /// An empty store, as a fresh database starts.
    pub fn new() -> (s: Store)
        ensures
            s.wf(),
            s.images_v() =~= Seq::<ImageV>::empty(),
            s.masks_v() =~= Seq::<MaskV>::empty(),
            s.next_image_id == 1,
            s.next_mask_id == 1,
    {
        Store { images: Vec::new(), masks: Vec::new(), next_image_id: 1, next_mask_id: 1 }
    }

    /// Looks a frame up by its (patient, filename) key.
    pub fn find_image(&self, patient_nb: &str, filename: &str) -> (r: Option<i32>)
        ensures
            r is Some <==> has_image(self.images_v(), patient_nb@, filename@),
            r matches Some(id) ==> exists|i: int|
                0 <= i < self.images_v().len() && frame_keyed(
                    #[trigger] self.images_v()[i],
                    patient_nb@,
                    filename@,
                ) && self.images_v()[i].id == id,
    {
        let mut i: usize = 0;
        while i < self.images.len()
            invariant
                i <= self.images@.len(),
                forall|k: int|
                    0 <= k < i ==> !frame_keyed(#[trigger] self.images_v()[k], patient_nb@, filename@),
            decreases self.images@.len() - i,
        {
            let im = &self.images[i];
            proof {
                assert(self.images_v()[i as int] == self.images@[i as int]@);
            }
            if str_eq(im.patient_nb.as_str(), patient_nb) && str_eq(im.filename.as_str(), filename) {
                proof {
                    assert(frame_keyed(self.images_v()[i as int], patient_nb@, filename@));
                }
                return Some(im.id);
            }
            i = i + 1;
        }
        None
    }

    /// Looks a mask up by its (owning frame, kind, filename) key.
    pub fn find_mask(&self, image_id: i32, mask_type: MaskType, filename: &str) -> (r: Option<i32>)
        ensures
            r is Some <==> has_mask(self.masks_v(), image_id as int, mask_type, filename@),
            r matches Some(id) ==> exists|j: int|
                0 <= j < self.masks_v().len() && mask_keyed(
                    #[trigger] self.masks_v()[j],
                    image_id as int,
                    mask_type,
                    filename@,
                ) && self.masks_v()[j].id == id,
    {
        let mut j: usize = 0;
        while j < self.masks.len()
            invariant
                j <= self.masks@.len(),
                forall|k: int|
                    0 <= k < j ==> !mask_keyed(
                        #[trigger] self.masks_v()[k],
                        image_id as int,
                        mask_type,
                        filename@,
                    ),
            decreases self.masks@.len() - j,
        {
            let m = &self.masks[j];
            proof {
                assert(self.masks_v()[j as int] == self.masks@[j as int]@);
            }
            if m.image_id == image_id && m.mask_type == mask_type && str_eq(
                m.filename.as_str(),
                filename,
            ) {
                proof {
                    assert(mask_keyed(
                        self.masks_v()[j as int],
                        image_id as int,
                        mask_type,
                        filename@,
                    ));
                }
                return Some(m.id);
            }
            j = j + 1;
        }
        None
    }

    /// Inserts a frame record under a fresh id. The caller has checked the key
    /// is absent; the only failure is an exhausted id sequence.
    fn insert_image(&mut self, patient_nb: &str, filename: &str) -> (r: Result<i32, AppError>)
        requires
            old(self).wf(),
            !has_image(old(self).images_v(), patient_nb@, filename@),
        ensures
            final(self).wf(),
            final(self).masks == old(self).masks,
            final(self).next_mask_id == old(self).next_mask_id,
            old(self).next_image_id < i32::MAX ==> r == Ok::<i32, AppError>(
                old(self).next_image_id,
            ) && final(self).images_v() =~= old(self).images_v().push(
                ImageV {
                    id: old(self).next_image_id as int,
                    filename: filename@,
                    patient_nb: patient_nb@,
                },
            ) && final(self).next_image_id == old(self).next_image_id + 1,
            old(self).next_image_id == i32::MAX ==> r == Err::<i32, AppError>(
                AppError::StorageError,
            ) && *final(self) == *old(self),
    {
        if self.next_image_id == i32::MAX {
            return Err(AppError::StorageError);
        }
        let id = self.next_image_id;
        let im = Image {
            id,
            filename: String::from_str(filename),
            patient_nb: String::from_str(patient_nb),
        };
        self.images.push(im);
        self.next_image_id = id + 1;
        proof {
            let x = ImageV { id: id as int, filename: filename@, patient_nb: patient_nb@ };
            let olds = old(self).images_v();
            let new = self.images_v();
            let n = olds.len() as int;
            assert(new =~= olds.push(x));
            assert forall|i: int|
                0 <= i < new.len() implies 1 <= (#[trigger] new[i]).id < self.next_image_id by {
                if i < n {
                    assert(new[i] == olds[i]);
                } else {
                    assert(new[i] == x);
                }
            }
            assert forall|i: int, j: int|
                0 <= i < j < new.len() implies (#[trigger] new[i]).id != (
            #[trigger] new[j]).id by {
                assert(new[i] == olds[i]);
                if j < n {
                    assert(new[j] == olds[j]);
                } else {
                    assert(new[j] == x);
                    assert(olds[i].id < id as int);
                }
            }
            assert forall|i: int, j: int|
                0 <= i < j < new.len() implies !((#[trigger] new[i]).patient_nb == (
            #[trigger] new[j]).patient_nb && new[i].filename == new[j].filename) by {
                assert(new[i] == olds[i]);
                if j < n {
                    assert(new[j] == olds[j]);
                } else {
                    assert(new[j] == x);
                    assert(!frame_keyed(olds[i], patient_nb@, filename@));
                }
            }
            assert(self.masks_v() == old(self).masks_v());
            assert forall|j: int|
                0 <= j < self.masks_v().len() implies has_owner(
                self.images_v(),
                (#[trigger] self.masks_v()[j]).image_id,
            ) by {
                assert(has_owner(old(self).images_v(), old(self).masks_v()[j].image_id));
                let wi = choose|i: int|
                    0 <= i < old(self).images_v().len() && (#[trigger] old(self).images_v()[i]).id
                        == old(self).masks_v()[j].image_id;
                assert(self.images_v()[wi] == old(self).images_v()[wi]);
                assert(0 <= wi < self.images_v().len() && self.images_v()[wi].id
                    == self.masks_v()[j].image_id);
            }
        }
        Ok(id)
    }

    /// Creates the frame record for a (patient, filename) pair, or fetches the
    /// existing one: the create-or-fetch both ingestion paths rely on. Repeated
    /// calls over the same inputs insert at most once.
    pub fn process_image(&mut self, patient_nb: &str, filename: &str) -> (r: Result<i32, AppError>)
        requires
            old(self).wf(),
        ensures
            final(self).wf(),
            final(self).masks == old(self).masks,
            final(self).next_mask_id == old(self).next_mask_id,
            old(self).next_image_id <= final(self).next_image_id,
            r is Ok <==> has_image(old(self).images_v(), patient_nb@, filename@) || old(self).next_image_id < i32::MAX,
            has_image(old(self).images_v(), patient_nb@, filename@) ==> *final(self) == *old(self)
                && r is Ok,
            !has_image(old(self).images_v(), patient_nb@, filename@) && old(self).next_image_id
                < i32::MAX ==> r == Ok::<i32, AppError>(old(self).next_image_id) && final(self).images_v() =~= old(self).images_v().push(
                ImageV {
                    id: old(self).next_image_id as int,
                    filename: filename@,
                    patient_nb: patient_nb@,
                },
            ) && final(self).next_image_id == old(self).next_image_id + 1,
            r matches Ok(id) ==> exists|i: int|
                0 <= i < final(self).images_v().len() && frame_keyed(
                    #[trigger] final(self).images_v()[i],
                    patient_nb@,
                    filename@,
                ) && final(self).images_v()[i].id == id,
            r is Err ==> r == Err::<i32, AppError>(AppError::StorageError) && *final(self) == *old(self) && old(self).next_image_id == i32::MAX,
    {
        match self.find_image(patient_nb, filename) {
            Some(id) => Ok(id),
            None => {
                let r = self.insert_image(patient_nb, filename);
                proof {
                    if old(self).next_image_id < i32::MAX {
                        let n = old(self).images_v().len() as int;
                        assert(self.images_v()[n] == ImageV {
                            id: old(self).next_image_id as int,
                            filename: filename@,
                            patient_nb: patient_nb@,
                        });
                        assert(frame_keyed(self.images_v()[n], patient_nb@, filename@));
                    }
                }
                r
            },
        }
    }

    /// Inserts a mask record under a fresh id. The caller has checked the key
    /// is absent and that the owning frame exists; the only failure is an
    /// exhausted id sequence.
    fn insert_mask(&mut self, image_id: i32, mask_type: MaskType, filename: &str) -> (r: Result<
        i32,
        AppError,
    >)
        requires
            old(self).wf(),
            !has_mask(old(self).masks_v(), image_id as int, mask_type, filename@),
            has_owner(old(self).images_v(), image_id as int),
        ensures
            final(self).wf(),
            final(self).images == old(self).images,
            final(self).next_image_id == old(self).next_image_id,
            old(self).next_mask_id < i32::MAX ==> r == Ok::<i32, AppError>(old(self).next_mask_id)
                && final(self).masks_v() =~= old(self).masks_v().push(
                MaskV {
                    id: old(self).next_mask_id as int,
                    image_id: image_id as int,
                    mask_type,
                    filename: filename@,
                },
            ) && final(self).next_mask_id == old(self).next_mask_id + 1,
            old(self).next_mask_id == i32::MAX ==> r == Err::<i32, AppError>(
                AppError::StorageError,
            ) && *final(self) == *old(self),
    {
        if self.next_mask_id == i32::MAX {
            return Err(AppError::StorageError);
        }
        let id = self.next_mask_id;
        let m = Mask { id, image_id, mask_type, filename: String::from_str(filename) };
        self.masks.push(m);
        self.next_mask_id = id + 1;
        proof {
            let x = MaskV {
                id: id as int,
                image_id: image_id as int,
                mask_type,
                filename: filename@,
            };
            let olds = old(self).masks_v();
            let new = self.masks_v();
            let n = olds.len() as int;
            assert(new =~= olds.push(x));
            assert(self.images_v() == old(self).images_v());
            assert forall|j: int|
                0 <= j < new.len() implies 1 <= (#[trigger] new[j]).id < self.next_mask_id by {
                if j < n {
                    assert(new[j] == olds[j]);
                } else {
                    assert(new[j] == x);
                }
            }
            assert forall|i: int, j: int|
                0 <= i < j < new.len() implies (#[trigger] new[i]).id != (
            #[trigger] new[j]).id by {
                assert(new[i] == olds[i]);
                if j < n {
                    assert(new[j] == olds[j]);
                } else {
                    assert(new[j] == x);
                    assert(olds[i].id < id as int);
                }
            }
            assert forall|i: int, j: int|
                0 <= i < j < new.len() implies !((#[trigger] new[i]).image_id == (
            #[trigger] new[j]).image_id && new[i].mask_type == new[j].mask_type && new[i].filename
                == new[j].filename) by {
                assert(new[i] == olds[i]);
                if j < n {
                    assert(new[j] == olds[j]);
                } else {
                    assert(new[j] == x);
                    assert(!mask_keyed(olds[i], image_id as int, mask_type, filename@));
                }
            }
            assert forall|j: int|
                0 <= j < new.len() implies has_owner(
                self.images_v(),
                (#[trigger] new[j]).image_id,
            ) by {
                if j < n {
                    assert(new[j] == olds[j]);
                    assert(has_owner(old(self).images_v(), olds[j].image_id));
                } else {
                    assert(new[j] == x);
                }
            }
        }
        Ok(id)
    }

    /// Creates the mask record for a mask filename, or fetches the existing
    /// one. The source frame is recovered from the filename; when the frame
    /// itself is not persisted yet (a mask met before its frame during
    /// unordered traversal), it is created implicitly first. Repeated calls
    /// over the same inputs insert at most once.
    #[verifier::rlimit(60)]
    pub fn process_mask(&mut self, patient_nb: &str, filename: &str, mask_type: MaskType) -> (r:
        Result<i32, AppError>)
        requires
            old(self).wf(),
        ensures
            final(self).wf(),
            old(self).images_v().is_prefix_of(final(self).images_v()),
            old(self).masks_v().is_prefix_of(final(self).masks_v()),
            old(self).next_image_id <= final(self).next_image_id,
            old(self).next_mask_id <= final(self).next_mask_id,
            !contains_seq(filename@, video_prefix()) ==> r == Err::<i32, AppError>(
                AppError::AmbiguousOrigin,
            ) && *final(self) == *old(self),
            r == Err::<i32, AppError>(AppError::AmbiguousOrigin) ==> !contains_seq(
                filename@,
                video_prefix(),
            ),
            r is Err ==> r == Err::<i32, AppError>(AppError::AmbiguousOrigin) || (r == Err::<
                i32,
                AppError,
            >(AppError::StorageError) && (final(self).next_image_id == i32::MAX || final(self).next_mask_id == i32::MAX)),
            r is Ok <==> contains_seq(filename@, video_prefix()) && ((has_image(
                old(self).images_v(),
                patient_nb@,
                spec_derive_frame_filename(filename@),
            ) && has_mask(
                old(self).masks_v(),
                frame_id_for(
                    old(self).images_v(),
                    patient_nb@,
                    spec_derive_frame_filename(filename@),
                ),
                mask_type,
                filename@,
            )) || (has_image(
                old(self).images_v(),
                patient_nb@,
                spec_derive_frame_filename(filename@),
            ) && old(self).next_mask_id < i32::MAX) || (!has_image(
                old(self).images_v(),
                patient_nb@,
                spec_derive_frame_filename(filename@),
            ) && old(self).next_image_id < i32::MAX && old(self).next_mask_id < i32::MAX)),
            contains_seq(filename@, video_prefix()) && has_mask_for(
                old(self).images_v(),
                old(self).masks_v(),
                patient_nb@,
                spec_derive_frame_filename(filename@),
                mask_type,
                filename@,
            ) ==> *final(self) == *old(self) && r is Ok,
            contains_seq(filename@, video_prefix()) && r is Ok ==> has_mask_for(
                final(self).images_v(),
                final(self).masks_v(),
                patient_nb@,
                spec_derive_frame_filename(filename@),
                mask_type,
                filename@,
            ),
            r matches Ok(id) ==> exists|j: int|
                0 <= j < final(self).masks_v().len() && mask_keyed(
                    #[trigger] final(self).masks_v()[j],
                    frame_id_for(
                        final(self).images_v(),
                        patient_nb@,
                        spec_derive_frame_filename(filename@),
                    ),
                    mask_type,
                    filename@,
                ) && final(self).masks_v()[j].id == id,
            contains_seq(filename@, video_prefix()) && !has_image(
                old(self).images_v(),
                patient_nb@,
                spec_derive_frame_filename(filename@),
            ) && old(self).next_image_id < i32::MAX && old(self).next_mask_id < i32::MAX ==> r
                == Ok::<i32, AppError>(old(self).next_mask_id) && final(self).images_v() =~= old(self).images_v().push(
                ImageV {
                    id: old(self).next_image_id as int,
                    filename: spec_derive_frame_filename(filename@),
                    patient_nb: patient_nb@,
                },
            ) && final(self).masks_v() =~= old(self).masks_v().push(
                MaskV {
                    id: old(self).next_mask_id as int,
                    image_id: old(self).next_image_id as int,
                    mask_type,
                    filename: filename@,
                },
            ),
            contains_seq(filename@, video_prefix()) && has_image(
                old(self).images_v(),
                patient_nb@,
                spec_derive_frame_filename(filename@),
            ) && !has_mask(
                old(self).masks_v(),
                frame_id_for(
                    old(self).images_v(),
                    patient_nb@,
                    spec_derive_frame_filename(filename@),
                ),
                mask_type,
                filename@,
            ) && old(self).next_mask_id < i32::MAX ==> r == Ok::<i32, AppError>(
                old(self).next_mask_id,
            ) && final(self).images == old(self).images && final(self).masks_v() =~= old(self).masks_v().push(
                MaskV {
                    id: old(self).next_mask_id as int,
                    image_id: frame_id_for(
                        old(self).images_v(),
                        patient_nb@,
                        spec_derive_frame_filename(filename@),
                    ),
                    mask_type,
                    filename: filename@,
                },
            ),
    {
        let ghost d = spec_derive_frame_filename(filename@);
        let image_filename = match derive_frame_filename(filename) {
            Ok(n) => n,
            Err(e) => {
                proof {
                    assert(old(self).images_v().is_prefix_of(self.images_v())) by {
                        assert(self.images_v() =~= self.images_v().subrange(
                            0,
                            self.images_v().len() as int,
                        ));
                    }
                    assert(old(self).masks_v().is_prefix_of(self.masks_v())) by {
                        assert(self.masks_v() =~= self.masks_v().subrange(
                            0,
                            self.masks_v().len() as int,
                        ));
                    }
                }
                return Err(e);
            },
        };
        let image_id = match self.find_image(patient_nb, image_filename.as_str()) {
            Some(id) => {
                proof {
                    let i = choose|i: int|
                        0 <= i < self.images_v().len() && frame_keyed(
                            #[trigger] self.images_v()[i],
                            patient_nb@,
                            d,
                        ) && self.images_v()[i].id == id;
                    lemma_frame_id_unique(self.images_v(), patient_nb@, d, i);
                }
                id
            },
            None => {
                match self.process_image(patient_nb, image_filename.as_str()) {
                    Ok(id) => {
                        proof {
                            let n = old(self).images_v().len() as int;
                            assert(self.images_v()[n] == ImageV {
                                id: old(self).next_image_id as int,
                                filename: d,
                                patient_nb: patient_nb@,
                            });
                            lemma_frame_id_unique(self.images_v(), patient_nb@, d, n);
                            assert(old(self).images_v().is_prefix_of(self.images_v())) by {
                                assert(old(self).images_v() =~= self.images_v().subrange(0, n));
                            }
                        }
                        id
                    },
                    Err(e) => {
                        proof {
                            assert(old(self).images_v().is_prefix_of(self.images_v())) by {
                                assert(self.images_v() =~= self.images_v().subrange(
                                    0,
                                    self.images_v().len() as int,
                                ));
                            }
                            assert(old(self).masks_v().is_prefix_of(self.masks_v())) by {
                                assert(self.masks_v() =~= self.masks_v().subrange(
                                    0,
                                    self.masks_v().len() as int,
                                ));
                            }
                        }
                        return Err(e);
                    },
                }
            },
        };
        let ghost mid_images = self.images_v();
        let ghost mid_masks = self.masks_v();
        proof {
            assert(mid_masks == old(self).masks_v());
            assert(has_image(mid_images, patient_nb@, d));
            assert(image_id as int == frame_id_for(mid_images, patient_nb@, d));
            assert(old(self).images_v().is_prefix_of(mid_images)) by {
                // On the insert path this was established right after the
                // insert; on the lookup path nothing changed.
                if has_image(old(self).images_v(), patient_nb@, d) {
                    assert(old(self).images_v() =~= mid_images.subrange(
                        0,
                        old(self).images_v().len() as int,
                    ));
                }
            }
            assert(has_owner(mid_images, image_id as int)) by {
                let i = choose|i: int|
                    0 <= i < mid_images.len() && frame_keyed(
                        #[trigger] mid_images[i],
                        patient_nb@,
                        d,
                    );
                lemma_frame_id_unique(mid_images, patient_nb@, d, i);
                assert(mid_images[i].id == image_id as int);
            }
            if !has_image(old(self).images_v(), patient_nb@, d) {
                // The frame was just created under a fresh id, so no persisted
                // mask can reference it yet.
                assert forall|j: int| 0 <= j < old(self).masks_v().len() implies !mask_keyed(
                    #[trigger] old(self).masks_v()[j],
                    image_id as int,
                    mask_type,
                    filename@,
                ) by {
                    assert(has_owner(old(self).images_v(), old(self).masks_v()[j].image_id));
                    let wi = choose|i: int|
                        0 <= i < old(self).images_v().len() && (#[trigger] old(self).images_v()[i]).id == old(self).masks_v()[j].image_id;
                    assert(old(self).images_v()[wi].id < old(self).next_image_id);
                }
            }
        }
        let r = match self.find_mask(image_id, mask_type, filename) {
            Some(id) => {
                proof {
                    let j = choose|j: int|
                        0 <= j < self.masks_v().len() && mask_keyed(
                            #[trigger] self.masks_v()[j],
                            image_id as int,
                            mask_type,
                            filename@,
                        ) && self.masks_v()[j].id == id;
                    assert(mask_keyed(
                        self.masks_v()[j],
                        frame_id_for(self.images_v(), patient_nb@, d),
                        mask_type,
                        filename@,
                    ));
                }
                Ok(id)
            },
            None => {
                let rr = self.insert_mask(image_id, mask_type, filename);
                proof {
                    if mid_masks.len() < self.masks_v().len() {
                        let n = mid_masks.len() as int;
                        assert(self.masks_v()[n] == MaskV {
                            id: old(self).next_mask_id as int,
                            image_id: image_id as int,
                            mask_type,
                            filename: filename@,
                        });
                        assert(mask_keyed(
                            self.masks_v()[n],
                            frame_id_for(self.images_v(), patient_nb@, d),
                            mask_type,
                            filename@,
                        ));
                    }
                }
                rr
            },
        };
        proof {
            assert(self.images_v() == mid_images);
            assert(mid_masks.is_prefix_of(self.masks_v())) by {
                assert(mid_masks =~= self.masks_v().subrange(0, mid_masks.len() as int));
            }
            lemma_prefix_trans(old(self).masks_v(), mid_masks, self.masks_v());
            if r is Ok {
                let j = choose|j: int|
                    0 <= j < self.masks_v().len() && mask_keyed(
                        #[trigger] self.masks_v()[j],
                        frame_id_for(self.images_v(), patient_nb@, d),
                        mask_type,
                        filename@,
                    ) && self.masks_v()[j].id == r->Ok_0;
                let i = choose|i: int|
                    0 <= i < mid_images.len() && frame_keyed(
                        #[trigger] mid_images[i],
                        patient_nb@,
                        d,
                    );
                lemma_frame_id_unique(mid_images, patient_nb@, d, i);
                assert(has_mask_for(
                    self.images_v(),
                    self.masks_v(),
                    patient_nb@,
                    d,
                    mask_type,
                    filename@,
                )) by {
                    assert(frame_keyed(self.images_v()[i], patient_nb@, d) && mask_keyed(
                        self.masks_v()[j],
                        self.images_v()[i].id,
                        mask_type,
                        filename@,
                    ));
                }
            }
            if contains_seq(filename@, video_prefix()) && has_mask_for(
                old(self).images_v(),
                old(self).masks_v(),
                patient_nb@,
                d,
                mask_type,
                filename@,
            ) {
                let (wi, wj) = choose|wi: int, wj: int|
                    0 <= wi < old(self).images_v().len() && 0 <= wj < old(self).masks_v().len()
                        && frame_keyed(#[trigger] old(self).images_v()[wi], patient_nb@, d)
                        && mask_keyed(
                        #[trigger] old(self).masks_v()[wj],
                        old(self).images_v()[wi].id,
                        mask_type,
                        filename@,
                    );
                lemma_frame_id_unique(old(self).images_v(), patient_nb@, d, wi);
            }
        }
        r
    }

    /// The high-water mark: the numerically largest patient identifier among
    /// the persisted frames, rendered back as a zero-padded folder name, or
    /// nothing when no frame is persisted. A persisted identifier that is not
    /// a machine-sized numeral fails the numeric cast and surfaces as a
    /// storage failure.
    pub fn get_latest_patient_nb(&self) -> (r: Result<Option<String>, AppError>)
        ensures
            r is Err <==> !all_patients_numeric(self.images_v()),
            r matches Err(e) ==> e == AppError::StorageError,
            all_patients_numeric(self.images_v()) && self.images_v().len() == 0 ==> (r matches Ok(o)
                && o is None),
            all_patients_numeric(self.images_v()) && self.images_v().len() > 0 ==> (r matches Ok(o)
                && o matches Some(s) && s@ == spec_pad3(max_patient_val(self.images_v()) as nat)
                && is_numeric(s@) && dec_val(s@) == max_patient_val(self.images_v())),
    {
        let mut best: u32 = 0;
        let mut seen = false;
        let mut i: usize = 0;
        while i < self.images.len()
            invariant
                i <= self.images@.len(),
                seen <==> i > 0,
                forall|k: int|
                    0 <= k < i ==> is_numeric((#[trigger] self.images_v()[k]).patient_nb)
                        && dec_val(self.images_v()[k].patient_nb) <= u32::MAX,
                i > 0 ==> best == max_patient_val(self.images_v().subrange(0, i as int)),
            decreases self.images@.len() - i,
        {
            let im = &self.images[i];
            proof {
                assert(self.images_v()[i as int] == self.images@[i as int]@);
            }
            let v = match parse_patient_nb(im.patient_nb.as_str()) {
                Some(v) => v,
                None => {
                    return Err(AppError::StorageError);
                },
            };
            proof {
                let p = self.images_v().subrange(0, i + 1);
                assert(p.drop_last() =~= self.images_v().subrange(0, i as int));
                assert(p.last() == self.images_v()[i as int]);
                lemma_dec_val_nonneg(self.images_v()[i as int].patient_nb);
                if i == 0 {
                    assert(self.images_v().subrange(0, 0).len() == 0);
                    assert(max_patient_val(self.images_v().subrange(0, 0)) == -1);
                }
            }
            if !seen || v > best {
                best = v;
            }
            seen = true;
            i = i + 1;
        }
        if !seen {
            return Ok(None);
        }
        proof {
            assert(self.images_v().subrange(0, self.images_v().len() as int) =~= self.images_v());
            lemma_pad3_round_trip(best as nat);
        }
        Ok(Some(format_patient_nb(best)))
    }
}

} // verus!
