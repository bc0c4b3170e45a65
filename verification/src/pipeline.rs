//! The ingestion pipeline: walks the handed-over directory listings, classifies
//! every file, and materializes frames and masks through the idempotent
//! upserts, producing a processing report. Each upsert is its own transaction:
//! a failing file is recorded and skipped, and never aborts the rest of the
//! run.
use vstd::prelude::*;
use vstd::string::*;

use crate::classify::{classify, spec_classify, spec_derive_frame_filename, video_prefix, Kind};
use crate::models::{ImageV, MaskV};
use crate::store::{
    has_image,
    has_mask_for,
    lemma_has_image_prefix,
    lemma_has_mask_for_prefix,
    lemma_prefix_trans,
    Store,
};
use crate::text::contains_seq;

verus! {

/// One on-disk patient directory, as the filesystem listing hands it over: the
/// directory's name and the names of the files directly inside it.
pub struct PatientDir {
    pub name: String,
    pub files: Vec<String>,
}

/// The mathematical content of a [`PatientDir`].
pub struct PatientDirV {
    pub name: Seq<char>,
    pub files: Seq<Seq<char>>,
}

impl View for PatientDir {
    type V = PatientDirV;

    open spec fn view(&self) -> PatientDirV {
        PatientDirV { name: self.name@, files: self.files.deep_view() }
    }
}

/// The directory listings as mathematical values.
pub open spec fn dirs_view(dirs: Seq<PatientDir>) -> Seq<PatientDirV> {
    dirs.map_values(|d: PatientDir| d@)
}

/// What one ingestion run reports: how many frames and masks were created, how
/// many files were skipped as unrecognized, and how many errors were met.
pub struct ProcessingReport {
    pub images_created: usize,
    pub masks_created: usize,
    pub skipped: usize,
    pub errors: usize,
}

/// A file is unrecognized and skipped.
pub open spec fn is_skipped_file(f: Seq<char>) -> bool {
    spec_classify(f) is Unrecognized
}

/// A file matched a mask marker but carries no recoverable source-frame name:
/// a per-file error.
pub open spec fn is_ambiguous_mask_file(f: Seq<char>) -> bool {
    spec_classify(f) matches Kind::DerivedMask(_) && !contains_seq(f, video_prefix())
}

/// How many files of a listing are unrecognized.
pub open spec fn skipped_in_files(files: Seq<Seq<char>>) -> nat
    decreases files.len(),
{
    if files.len() == 0 {
        0
    } else {
        skipped_in_files(files.drop_last()) + if is_skipped_file(files.last()) {
            1nat
        } else {
            0nat
        }
    }
}

/// How many files of a listing have no recoverable source frame.
pub open spec fn errors_in_files(files: Seq<Seq<char>>) -> nat
    decreases files.len(),
{
    if files.len() == 0 {
        0
    } else {
        errors_in_files(files.drop_last()) + if is_ambiguous_mask_file(files.last()) {
            1nat
        } else {
            0nat
        }
    }
}

/// How many files of a directory tree are unrecognized.
pub open spec fn skipped_in_dirs(dirs: Seq<PatientDirV>) -> nat
    decreases dirs.len(),
{
    if dirs.len() == 0 {
        0
    } else {
        skipped_in_dirs(dirs.drop_last()) + skipped_in_files(dirs.last().files)
    }
}

/// How many files of a directory tree have no recoverable source frame.
pub open spec fn errors_in_dirs(dirs: Seq<PatientDirV>) -> nat
    decreases dirs.len(),
{
    if dirs.len() == 0 {
        0
    } else {
        errors_in_dirs(dirs.drop_last()) + errors_in_files(dirs.last().files)
    }
}

/// A count as a machine word: itself while it fits, pinned at the top
/// otherwise.
pub open spec fn sat_count(n: nat) -> nat {
    if n <= usize::MAX {
        n
    } else {
        usize::MAX as nat
    }
}

/// Everything one file implies is already persisted: its frame for an original
/// frame file; its mask together with the owning frame for a mask file with a
/// recoverable source; nothing for the rest.
pub open spec fn file_ingested(
    imgs: Seq<ImageV>,
    ms: Seq<MaskV>,
    patient_nb: Seq<char>,
    f: Seq<char>,
) -> bool {
    match spec_classify(f) {
        Kind::OriginalFrame => has_image(imgs, patient_nb, f),
        Kind::DerivedMask(t) => contains_seq(f, video_prefix()) ==> has_mask_for(
            imgs,
            ms,
            patient_nb,
            spec_derive_frame_filename(f),
            t,
            f,
        ),
        Kind::Unrecognized => true,
    }
}

/// Everything a directory implies is already persisted.
pub open spec fn dir_ingested(imgs: Seq<ImageV>, ms: Seq<MaskV>, d: PatientDirV) -> bool {
    forall|k: int| 0 <= k < d.files.len() ==> file_ingested(imgs, ms, d.name, #[trigger] d.files[k])
}

/// Everything a directory tree implies is already persisted.
pub open spec fn tree_ingested(imgs: Seq<ImageV>, ms: Seq<MaskV>, dirs: Seq<PatientDirV>) -> bool {
    forall|k: int| 0 <= k < dirs.len() ==> dir_ingested(imgs, ms, #[trigger] dirs[k])
}

/// A file once ingested stays ingested as the store grows.
pub proof fn lemma_file_ingested_prefix(
    ai: Seq<ImageV>,
    am: Seq<MaskV>,
    bi: Seq<ImageV>,
    bm: Seq<MaskV>,
    patient_nb: Seq<char>,
    f: Seq<char>,
)
    requires
        ai.is_prefix_of(bi),
        am.is_prefix_of(bm),
        file_ingested(ai, am, patient_nb, f),
    ensures
        file_ingested(bi, bm, patient_nb, f),
{
    match spec_classify(f) {
        Kind::OriginalFrame => {
            lemma_has_image_prefix(ai, bi, patient_nb, f);
        },
        Kind::DerivedMask(t) => {
            if contains_seq(f, video_prefix()) {
                lemma_has_mask_for_prefix(
                    ai,
                    am,
                    bi,
                    bm,
                    patient_nb,
                    spec_derive_frame_filename(f),
                    t,
                    f,
                );
            }
        },
        Kind::Unrecognized => {},
    }
}

/// A directory once ingested stays ingested as the store grows.
pub proof fn lemma_dir_ingested_prefix(
    ai: Seq<ImageV>,
    am: Seq<MaskV>,
    bi: Seq<ImageV>,
    bm: Seq<MaskV>,
    d: PatientDirV,
)
    requires
        ai.is_prefix_of(bi),
        am.is_prefix_of(bm),
        dir_ingested(ai, am, d),
    ensures
        dir_ingested(bi, bm, d),
{
    assert forall|k: int| 0 <= k < d.files.len() implies file_ingested(
        bi,
        bm,
        d.name,
        #[trigger] d.files[k],
    ) by {
        lemma_file_ingested_prefix(ai, am, bi, bm, d.name, d.files[k]);
    }
}

/// Ingests every file of every handed-over directory into the store,
/// create-or-fetch per file, and reports what happened. Running it again over
/// an unchanged tree into the unchanged store creates nothing new.
pub fn process_patient_dirs(store: &mut Store, dirs: &Vec<PatientDir>) -> (report:
    ProcessingReport)
    requires
        old(store).wf(),
    ensures
        final(store).wf(),
        old(store).images_v().is_prefix_of(final(store).images_v()),
        old(store).masks_v().is_prefix_of(final(store).masks_v()),
        old(store).next_image_id <= final(store).next_image_id,
        old(store).next_mask_id <= final(store).next_mask_id,
        report.images_created == final(store).images_v().len() - old(store).images_v().len(),
        report.masks_created == final(store).masks_v().len() - old(store).masks_v().len(),
        report.skipped == sat_count(skipped_in_dirs(dirs_view(dirs@))),
        final(store).next_image_id < i32::MAX && final(store).next_mask_id < i32::MAX ==> (tree_ingested(
            final(store).images_v(),
            final(store).masks_v(),
            dirs_view(dirs@),
        ) && report.errors == sat_count(errors_in_dirs(dirs_view(dirs@)))),
        tree_ingested(old(store).images_v(), old(store).masks_v(), dirs_view(dirs@)) ==> (*final(store)
            == *old(store) && report.images_created == 0 && report.masks_created == 0),
{
    let initial_images = store.images.len();
    let initial_masks = store.masks.len();
    let mut skipped: usize = 0;
    let mut errors: usize = 0;
    let ghost dv = dirs_view(dirs@);
    let mut di: usize = 0;
    while di < dirs.len()
        invariant
            old(store).wf(),
            store.wf(),
            dv == dirs_view(dirs@),
            di <= dirs@.len(),
            initial_images == old(store).images_v().len(),
            initial_masks == old(store).masks_v().len(),
            old(store).images_v().is_prefix_of(store.images_v()),
            old(store).masks_v().is_prefix_of(store.masks_v()),
            old(store).next_image_id <= store.next_image_id,
            old(store).next_mask_id <= store.next_mask_id,
            skipped == sat_count(skipped_in_dirs(dv.subrange(0, di as int))),
            store.next_image_id < i32::MAX && store.next_mask_id < i32::MAX ==> (errors
                == sat_count(errors_in_dirs(dv.subrange(0, di as int))) && forall|k: int|
                0 <= k < di ==> dir_ingested(store.images_v(), store.masks_v(), #[trigger] dv[k])),
            tree_ingested(old(store).images_v(), old(store).masks_v(), dv) ==> *store == *old(
                store,
            ),
        decreases dirs@.len() - di,
    {
        let dir = &dirs[di];
        proof {
            assert(dv[di as int] == dirs@[di as int]@);
        }
        let ghost fv = dv[di as int].files;
        let mut fi: usize = 0;
        let mut dir_skipped: usize = 0;
        let mut dir_errors: usize = 0;
        while fi < dir.files.len()
            invariant
                old(store).wf(),
                store.wf(),
                dv == dirs_view(dirs@),
                di < dirs@.len(),
                dv[di as int] == dirs@[di as int]@,
                fv == dv[di as int].files,
                dir == dirs@[di as int],
                fi <= dir.files@.len(),
                fv.len() == dir.files@.len(),
                old(store).images_v().is_prefix_of(store.images_v()),
                old(store).masks_v().is_prefix_of(store.masks_v()),
                old(store).next_image_id <= store.next_image_id,
                old(store).next_mask_id <= store.next_mask_id,
                dir_skipped == sat_count(skipped_in_files(fv.subrange(0, fi as int))),
                skipped == sat_count(skipped_in_dirs(dv.subrange(0, di as int))),
                store.next_image_id < i32::MAX && store.next_mask_id < i32::MAX ==> errors
                    == sat_count(errors_in_dirs(dv.subrange(0, di as int))),
                store.next_image_id < i32::MAX && store.next_mask_id < i32::MAX ==> (dir_errors
                    == sat_count(errors_in_files(fv.subrange(0, fi as int))) && (forall|k: int|
                    0 <= k < di ==> dir_ingested(
                        store.images_v(),
                        store.masks_v(),
                        #[trigger] dv[k],
                    )) && (forall|k: int|
                    0 <= k < fi ==> file_ingested(
                        store.images_v(),
                        store.masks_v(),
                        dv[di as int].name,
                        #[trigger] fv[k],
                    ))),
                tree_ingested(old(store).images_v(), old(store).masks_v(), dv) ==> *store == *old(
                    store,
                ),
            decreases dir.files@.len() - fi,
        {
            let file = &dir.files[fi];
            let ghost pre_images = store.images_v();
            let ghost pre_masks = store.masks_v();
            proof {
                assert(fv[fi as int] == dir.files@[fi as int]@);
                assert(fv.subrange(0, fi + 1).drop_last() =~= fv.subrange(0, fi as int));
                assert(fv.subrange(0, fi + 1).last() == fv[fi as int]);
                if tree_ingested(old(store).images_v(), old(store).masks_v(), dv) {
                    assert(dir_ingested(old(store).images_v(), old(store).masks_v(), dv[di as int]));
                    assert(file_ingested(
                        old(store).images_v(),
                        old(store).masks_v(),
                        dv[di as int].name,
                        fv[fi as int],
                    ));
                }
            }
            match classify(file.as_str()) {
                Kind::OriginalFrame => {
                    match store.process_image(dir.name.as_str(), file.as_str()) {
                        Ok(_) => {},
                        Err(_) => {
                            dir_errors = if dir_errors < usize::MAX {
                                dir_errors + 1
                            } else {
                                dir_errors
                            };
                        },
                    }
                },
                Kind::DerivedMask(t) => {
                    match store.process_mask(dir.name.as_str(), file.as_str(), t) {
                        Ok(_) => {},
                        Err(_) => {
                            dir_errors = if dir_errors < usize::MAX {
                                dir_errors + 1
                            } else {
                                dir_errors
                            };
                        },
                    }
                },
                Kind::Unrecognized => {
                    dir_skipped = if dir_skipped < usize::MAX {
                        dir_skipped + 1
                    } else {
                        dir_skipped
                    };
                },
            }
            proof {
                lemma_prefix_trans(old(store).images_v(), pre_images, store.images_v());
                lemma_prefix_trans(old(store).masks_v(), pre_masks, store.masks_v());
                if store.next_image_id < i32::MAX && store.next_mask_id < i32::MAX {
                    assert forall|k: int| 0 <= k < di implies dir_ingested(
                        store.images_v(),
                        store.masks_v(),
                        #[trigger] dv[k],
                    ) by {
                        lemma_dir_ingested_prefix(
                            pre_images,
                            pre_masks,
                            store.images_v(),
                            store.masks_v(),
                            dv[k],
                        );
                    }
                    assert forall|k: int| 0 <= k < fi + 1 implies file_ingested(
                        store.images_v(),
                        store.masks_v(),
                        dv[di as int].name,
                        #[trigger] fv[k],
                    ) by {
                        if k < fi {
                            lemma_file_ingested_prefix(
                                pre_images,
                                pre_masks,
                                store.images_v(),
                                store.masks_v(),
                                dv[di as int].name,
                                fv[k],
                            );
                        }
                    }
                }
            }
            fi = fi + 1;
        }
        proof {
            assert(fv.subrange(0, fv.len() as int) =~= fv);
            assert(dv.subrange(0, di + 1).drop_last() =~= dv.subrange(0, di as int));
            assert(dv.subrange(0, di + 1).last() == dv[di as int]);
            if store.next_image_id < i32::MAX && store.next_mask_id < i32::MAX {
                assert forall|k: int| 0 <= k < dv[di as int].files.len() implies file_ingested(
                    store.images_v(),
                    store.masks_v(),
                    dv[di as int].name,
                    #[trigger] dv[di as int].files[k],
                ) by {
                    assert(dv[di as int].files[k] == fv[k]);
                }
                assert(dir_ingested(store.images_v(), store.masks_v(), dv[di as int]));
            }
        }
        skipped = if skipped <= usize::MAX - dir_skipped {
            skipped + dir_skipped
        } else {
            usize::MAX
        };
        errors = if errors <= usize::MAX - dir_errors {
            errors + dir_errors
        } else {
            usize::MAX
        };
        di = di + 1;
    }
    proof {
        assert(dv.subrange(0, dv.len() as int) =~= dv);
    }
    let images_created = store.images.len() - initial_images;
    let masks_created = store.masks.len() - initial_masks;
    ProcessingReport { images_created, masks_created, skipped, errors }
}

} // verus!
