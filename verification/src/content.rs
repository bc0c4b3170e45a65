//! Loading a resolved file for transport: the content type is read off the
//! file extension through a fixed table, and the bytes are base64-encoded for
//! inline embedding.
use vstd::prelude::*;
use vstd::string::*;

use crate::models::{Image, ImageData};
use crate::text::str_eq;

verus! {

/// `c` occurs in `s` at `i` and nowhere later.
pub open spec fn is_last_occurrence(s: Seq<char>, c: char, i: int) -> bool {
    &&& 0 <= i < s.len()
    &&& s[i] == c
    &&& forall|j: int| i < j < s.len() ==> s[j] != c
}

/// `c` occurs somewhere in `s`.
pub open spec fn has_char(s: Seq<char>, c: char) -> bool {
    exists|i: int| 0 <= i < s.len() && s[i] == c
}

/// The index of the last occurrence of `c` in `s`.
pub open spec fn last_idx_of(s: Seq<char>, c: char) -> int {
    choose|i: int| is_last_occurrence(s, c, i)
}

/// Finds the last occurrence of `c` in `s`.
pub fn find_last_char(s: &str, c: char) -> (r: Option<usize>)
    ensures
        match r {
            Some(i) => is_last_occurrence(s@, c, i as int),
            None => !has_char(s@, c),
        },
{
    let n = s.unicode_len();
    let mut i = n;
    while i > 0
        invariant
            n == s@.len(),
            i <= n,
            forall|j: int| i <= j < n ==> s@[j] != c,
        decreases i,
    {
        i = i - 1;
        if s.get_char(i) == c {
            return Some(i);
        }
    }
    None
}

/// The extension of the file a path names: the suffix after the last dot,
/// provided that dot comes after the last separator and does not begin the
/// final component.
pub open spec fn spec_extension(s: Seq<char>) -> Option<Seq<char>> {
    if !has_char(s, '.') {
        None
    } else {
        let d = last_idx_of(s, '.');
        let start = if has_char(s, '/') {
            last_idx_of(s, '/') + 1
        } else {
            0
        };
        if d <= start {
            None
        } else {
            Some(s.subrange(d + 1, s.len() as int))
        }
    }
}

proof fn lemma_last_occurrence_unique(s: Seq<char>, c: char, i: int, j: int)
    requires
        is_last_occurrence(s, c, i),
        is_last_occurrence(s, c, j),
    ensures
        i == j,
{
}

/// Reads the extension off a path string.
pub fn extension_of(path: &str) -> (r: Option<String>)
    ensures
        match r {
            Some(e) => spec_extension(path@) matches Some(se) && e@ == se,
            None => spec_extension(path@) is None,
        },
{
    let n = path.unicode_len();
    let d = match find_last_char(path, '.') {
        Some(d) => d,
        None => {
            return None;
        },
    };
    proof {
        lemma_last_occurrence_unique(
            path@,
            '.',
            d as int,
            choose|i: int| is_last_occurrence(path@, '.', i),
        );
    }
    let start = match find_last_char(path, '/') {
        Some(sl) => {
            proof {
                lemma_last_occurrence_unique(
                    path@,
                    '/',
                    sl as int,
                    choose|i: int| is_last_occurrence(path@, '/', i),
                );
            }
            sl + 1
        },
        None => 0,
    };
    if d <= start {
        None
    } else {
        Some(String::from_str(path.substring_char(d + 1, n)))
    }
}

/// The content type the serving path answers with for a given extension: the
/// fixed image table, and a binary fallback for everything else.
pub open spec fn spec_content_type(ext: Option<Seq<char>>) -> Seq<char> {
    match ext {
        Some(e) => {
            if e == "jpg"@ || e == "jpeg"@ {
                "image/jpeg"@
            } else if e == "png"@ {
                "image/png"@
            } else if e == "gif"@ {
                "image/gif"@
            } else if e == "svg"@ {
                "image/svg+xml"@
            } else {
                "application/octet-stream"@
            }
        },
        None => "application/octet-stream"@,
    }
}

/// Derives the content type of a file purely from its path's extension.
pub fn content_type_for(path: &str) -> (ct: &'static str)
    ensures
        ct@ == spec_content_type(spec_extension(path@)),
{
    let ext = match extension_of(path) {
        Some(e) => e,
        None => {
            return "application/octet-stream";
        },
    };
    let e = ext.as_str();
    if str_eq(e, "jpg") || str_eq(e, "jpeg") {
        "image/jpeg"
    } else if str_eq(e, "png") {
        "image/png"
    } else if str_eq(e, "gif") {
        "image/gif"
    } else if str_eq(e, "svg") {
        "image/svg+xml"
    } else {
        "application/octet-stream"
    }
}

/// The padded standard-alphabet base64 rendering of a byte sequence; a
/// function of the bytes alone.
pub uninterp spec fn base64_of(bytes: Seq<u8>) -> Seq<char>;

/// Relies on base64's STANDARD engine: encodes bytes as padded base64 over the
/// standard alphabet, four output characters for every three input bytes,
/// rounded up. The encoder panics when that output length overflows usize, so
/// such inputs are excluded.
#[verifier::external_body]
fn base64_encode(bytes: &Vec<u8>) -> (r: String)
    requires
        4 * ((bytes@.len() + 2) / 3) <= usize::MAX,
    ensures
        r@ == base64_of(bytes@),
        r@.len() == 4 * ((bytes@.len() + 2) / 3),
{
    base64::Engine::encode(&base64::engine::general_purpose::STANDARD, bytes)
}

/// Packages an image record with its file's content for inline transport: the
/// content type from the resolved path's extension, and the bytes encoded in
/// base64.
pub fn build_image_data(image: &Image, resolved_path: &str, bytes: &Vec<u8>) -> (d: ImageData)
    requires
        4 * ((bytes@.len() + 2) / 3) <= usize::MAX,
    ensures
        d.image@ == image@,
        d.content_type matches Some(ct) && ct@ == spec_content_type(spec_extension(resolved_path@)),
        d.data matches Some(enc) && enc@ == base64_of(bytes@),
{
    let content_type = content_type_for(resolved_path);
    ImageData {
        image: image.clone(),
        content_type: Some(String::from_str(content_type)),
        data: Some(base64_encode(bytes)),
    }
}

} // verus!
