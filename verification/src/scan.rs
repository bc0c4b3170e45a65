//! Incremental discovery: which on-disk patient directories are new, judged
//! against the persisted high-water mark. Directory names are compared as
//! strings; zero-padded numeric names make that order coincide with numeric
//! order.
use vstd::prelude::*;
use vstd::string::*;

use crate::error::AppError;
use crate::num::spec_pad3;
use crate::store::{all_patients_numeric, max_patient_val, Store};
use crate::text::{lex_lt, str_lt};

verus! {

/// Whether a directory is due for processing: everything on a cold start, and
/// otherwise only names strictly greater than the high-water mark.
pub open spec fn spec_should_process(latest: Option<Seq<char>>, dir: Seq<char>) -> bool {
    match latest {
        Option::None => true,
        Option::Some(l) => lex_lt(l, dir),
    }
}

/// The directories due for processing, in their given order.
pub open spec fn spec_dirs_to_process(latest: Option<Seq<char>>, dirs: Seq<Seq<char>>) -> Seq<
    Seq<char>,
>
    decreases dirs.len(),
{
    if dirs.len() == 0 {
        Seq::empty()
    } else {
        let rest = spec_dirs_to_process(latest, dirs.drop_last());
        if spec_should_process(latest, dirs.last()) {
            rest.push(dirs.last())
        } else {
            rest
        }
    }
}

/// Cold start: with no high-water mark, every on-disk directory is processed,
/// in order.
pub proof fn lemma_cold_start_processes_all(dirs: Seq<Seq<char>>)
    ensures
        spec_dirs_to_process(Option::None, dirs) == dirs,
    decreases dirs.len(),
{
    if dirs.len() == 0 {
        assert(spec_dirs_to_process(Option::None, dirs) =~= dirs);
    } else {
        lemma_cold_start_processes_all(dirs.drop_last());
        assert(spec_dirs_to_process(Option::None, dirs) =~= dirs);
    }
}

/// Incremental scan is exactly a filter: a name is kept if and only if it is
/// on disk and strictly above the high-water mark; kept names keep their
/// relative order implicitly by construction.
pub proof fn lemma_dirs_to_process_membership(latest: Option<Seq<char>>, dirs: Seq<Seq<char>>)
    ensures
        forall|x: Seq<char>|
            #[trigger] spec_dirs_to_process(latest, dirs).contains(x) <==> (dirs.contains(x)
                && spec_should_process(latest, x)),
    decreases dirs.len(),
{
    if dirs.len() == 0 {
    } else {
        lemma_dirs_to_process_membership(latest, dirs.drop_last());
        let rest = spec_dirs_to_process(latest, dirs.drop_last());
        let full = spec_dirs_to_process(latest, dirs);
        assert forall|x: Seq<char>|
            #[trigger] full.contains(x) <==> (dirs.contains(x) && spec_should_process(
                latest,
                x,
            )) by {
            if full.contains(x) {
                let i = choose|i: int| 0 <= i < full.len() && full[i] == x;
                if spec_should_process(latest, dirs.last()) && i == full.len() - 1 {
                    assert(dirs[dirs.len() - 1] == x);
                } else {
                    assert(rest.contains(x));
                    let k = choose|k: int| 0 <= k < dirs.drop_last().len() && dirs.drop_last()[k]
                        == x;
                    assert(dirs[k] == x);
                }
            }
            if dirs.contains(x) && spec_should_process(latest, x) {
                let i = choose|i: int| 0 <= i < dirs.len() && dirs[i] == x;
                if i == dirs.len() - 1 {
                    assert(full[full.len() - 1] == x);
                } else {
                    assert(dirs.drop_last()[i] == x);
                    assert(rest.contains(x));
                    let k = choose|k: int| 0 <= k < rest.len() && rest[k] == x;
                    if spec_should_process(latest, dirs.last()) {
                        assert(full[k] == x);
                    } else {
                        assert(full[k] == x);
                    }
                }
            }
        }
    }
}

/// Selects, from the given directory names, those strictly above the given
/// high-water mark, or all of them when there is none.
pub fn dirs_to_process(latest: Option<&String>, dir_names: &Vec<String>) -> (r: Vec<String>)
    ensures
        latest is None ==> r.deep_view() == spec_dirs_to_process(
            Option::None,
            dir_names.deep_view(),
        ),
        latest matches Some(l) ==> r.deep_view() == spec_dirs_to_process(
            Option::Some(l@),
            dir_names.deep_view(),
        ),
{
    let ghost lv: Option<Seq<char>> = match latest {
        Option::None => Option::None,
        Option::Some(l) => Option::Some(l@),
    };
    let mut out: Vec<String> = Vec::new();
    let mut i: usize = 0;
    while i < dir_names.len()
        invariant
            i <= dir_names@.len(),
            lv == (match latest {
                Option::None => Option::<Seq<char>>::None,
                Option::Some(l) => Option::Some(l@),
            }),
            out.deep_view() == spec_dirs_to_process(lv, dir_names.deep_view().subrange(0, i as int)),
        decreases dir_names@.len() - i,
    {
        let name = &dir_names[i];
        let take = match latest {
            Option::None => true,
            Option::Some(l) => str_lt(l.as_str(), name.as_str()),
        };
        proof {
            let dv = dir_names.deep_view();
            assert(dv[i as int] == dir_names@[i as int]@);
            assert(dv.subrange(0, i + 1).drop_last() =~= dv.subrange(0, i as int));
            assert(dv.subrange(0, i + 1).last() == dv[i as int]);
        }
        if take {
            out.push(name.clone());
            proof {
                assert(out.deep_view() =~= spec_dirs_to_process(
                    lv,
                    dir_names.deep_view().subrange(0, i + 1),
                ));
            }
        } else {
            proof {
                assert(out.deep_view() =~= spec_dirs_to_process(
                    lv,
                    dir_names.deep_view().subrange(0, i + 1),
                ));
            }
        }
        i = i + 1;
    }
    proof {
        assert(dir_names.deep_view().subrange(0, dir_names.deep_view().len() as int)
            =~= dir_names.deep_view());
    }
    out
}

/// Queries the high-water mark from the store and selects the directory names
/// still to be processed: everything on a cold start, and otherwise the names
/// strictly above the mark.
pub fn get_patient_dirs_to_process(store: &Store, dir_names: &Vec<String>) -> (r: Result<
    Vec<String>,
    AppError,
>)
    ensures
        r is Err <==> !all_patients_numeric(store.images_v()),
        r matches Err(e) ==> e == AppError::StorageError,
        all_patients_numeric(store.images_v()) && store.images_v().len() == 0 ==> (r matches Ok(v)
            && v.deep_view() == spec_dirs_to_process(Option::None, dir_names.deep_view())),
        all_patients_numeric(store.images_v()) && store.images_v().len() > 0 ==> (r matches Ok(v)
            && v.deep_view() == spec_dirs_to_process(
            Option::Some(spec_pad3(max_patient_val(store.images_v()) as nat)),
            dir_names.deep_view(),
        )),
{
    let latest = match store.get_latest_patient_nb() {
        Ok(l) => l,
        Err(e) => {
            return Err(e);
        },
    };
    match latest {
        Option::None => Ok(dirs_to_process(Option::None, dir_names)),
        Option::Some(l) => Ok(dirs_to_process(Option::Some(&l), dir_names)),
    }
}

} // verus!
