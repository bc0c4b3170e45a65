//! Safe resolution of files under the configured data root: a candidate path
//! is joined from segments, canonicalized against the filesystem, and accepted
//! only if the canonical result still lies under the canonical root. The
//! containment check is the sole defense; no segment-level sanitization is
//! relied upon.
use vstd::prelude::*;
use vstd::string::*;

use crate::error::AppError;
use crate::text::{starts_with_seq, starts_with_sub, str_eq};

verus! {

/// Component-wise containment of one canonical absolute path under another:
/// the two are the same path, or the root (with a separator after it, unless
/// it already ends in one) is a proper prefix of the candidate.
pub open spec fn spec_path_within(root: Seq<char>, p: Seq<char>) -> bool {
    ||| p == root
    ||| (starts_with_seq(p, root) && ((root.len() > 0 && root[root.len() - 1] == '/') || (p.len()
        > root.len() && p[root.len() as int] == '/')))
}

/// Checks component-wise path containment on canonical path strings.
pub fn is_path_within(root: &str, p: &str) -> (r: bool)
    ensures
        r == spec_path_within(root@, p@),
{
    if str_eq(p, root) {
        return true;
    }
    if !starts_with_sub(p, root) {
        return false;
    }
    let rn = root.unicode_len();
    let pn = p.unicode_len();
    if rn > 0 && root.get_char(rn - 1) == '/' {
        return true;
    }
    proof {
        if p@.len() == root@.len() {
            assert(p@.subrange(0, root@.len() as int) =~= p@);
        }
    }
    pn > rn && p.get_char(rn) == '/'
}

/// The candidate path named by a root and relative segments, joined with the
/// path separator: each segment is appended after a separator, in order.
pub open spec fn spec_join(root: Seq<char>, segments: Seq<Seq<char>>) -> Seq<char>
    decreases segments.len(),
{
    if segments.len() == 0 {
        root
    } else {
        spec_join(root, segments.drop_last()) + seq!['/'] + segments.last()
    }
}

/// Joins relative segments onto a root path, separator-delimited.
pub fn join_segments(root: &str, segments: &Vec<String>) -> (r: String)
    ensures
        r@ == spec_join(root@, segments.deep_view()),
{
    proof {
        reveal_strlit("/");
    }
    let mut acc = String::from_str(root);
    let mut i: usize = 0;
    while i < segments.len()
        invariant
            i <= segments.len(),
            acc@ == spec_join(root@, segments.deep_view().subrange(0, i as int)),
        decreases segments.len() - i,
    {
        acc.append("/");
        acc.append(segments[i].as_str());
        proof {
            reveal_strlit("/");
            let sv = segments.deep_view();
            assert(sv.subrange(0, i + 1).drop_last() =~= sv.subrange(0, i as int));
            assert(sv.subrange(0, i + 1).last() == sv[i as int]);
            assert("/"@ =~= seq!['/']);
        }
        i = i + 1;
    }
    proof {
        assert(segments.deep_view().subrange(0, segments.deep_view().len() as int)
            =~= segments.deep_view());
    }
    acc
}

/// A candidate path that has been canonicalized and proven to lie under the
/// canonical data root.
pub struct ResolvedPath {
    pub root: String,
    pub path: String,
}

impl ResolvedPath {
    /// The path really is under the root.
    pub open spec fn wf(&self) -> bool {
        spec_path_within(self.root@, self.path@)
    }
}

/// Relies on std::path::Path::canonicalize: resolves a path against the
/// filesystem to its absolute, symlink-free form. It fails when the path does
/// not exist or cannot be resolved; a result that is not valid UTF-8 is
/// treated the same way. The outcome depends on the state of the disk, so
/// nothing is assumed of it.
#[verifier::external_body]
fn canonicalize_str(p: &str) -> (r: Option<String>) {
    match std::path::Path::new(p).canonicalize() {
        Ok(pb) => match pb.to_str() {
            Some(s) => Some(String::from(s)),
            None => None,
        },
        Err(_) => None,
    }
}

/// Decides, from the outcome of canonicalizing a candidate path, whether the
/// candidate may be served: a candidate that could not be canonicalized does
/// not exist, and one that resolved outside the root is rejected.
pub fn resolve_check(canonical_root: &str, canonical_candidate: Option<String>) -> (r: Result<
    String,
    AppError,
>)
    ensures
        r matches Ok(p) ==> canonical_candidate matches Some(c) && p@ == c@ && spec_path_within(
            canonical_root@,
            p@,
        ),
        r matches Err(e) ==> ((canonical_candidate is None && e == AppError::NotFound) || (
        canonical_candidate matches Some(c) && !spec_path_within(canonical_root@, c@) && e
            == AppError::InvalidPath)),
        r is Ok <==> (canonical_candidate matches Some(c) && spec_path_within(
            canonical_root@,
            c@,
        )),
{
    match canonical_candidate {
        None => Err(AppError::NotFound),
        Some(c) => {
            if is_path_within(canonical_root, c.as_str()) {
                Ok(c)
            } else {
                Err(AppError::InvalidPath)
            }
        },
    }
}

/// Resolves `root`/`segments` to a canonical path and accepts it only if it
/// still lies under the canonical root. Canonicalization touches the
/// filesystem, so which paths exist decides the outcome; whatever it returns,
/// an accepted path is contained in the root.
pub fn resolve(root: &str, segments: &Vec<String>) -> (r: Result<ResolvedPath, AppError>)
    ensures
        r matches Ok(rp) ==> rp.wf(),
        r matches Err(e) ==> (e == AppError::NotFound || e == AppError::InvalidPath || e
            == AppError::FilesystemError),
{
    let candidate = join_segments(root, segments);
    let canonical_root = match canonicalize_str(root) {
        Some(s) => s,
        None => {
            return Err(AppError::FilesystemError);
        },
    };
    let canonical_candidate = canonicalize_str(candidate.as_str());
    match resolve_check(canonical_root.as_str(), canonical_candidate) {
        Ok(p) => Ok(ResolvedPath { root: canonical_root, path: p }),
        Err(e) => Err(e),
    }
}

} // verus!
