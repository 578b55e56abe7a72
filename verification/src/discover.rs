use vstd::prelude::*;
use crate::lang::{SupportedLanguage, spec_lang_of_ext};

verus! {

/// Whether the bytes hold a null byte anywhere.
pub open spec fn spec_has_null(b: Seq<u8>) -> bool {
    exists|i: int| 0 <= i < b.len() && b[i] == 0
}

/// The binary-content heuristic: a file is treated as binary exactly when a
/// null byte appears in it (the first kilobyte is only an early exit).
pub fn content_is_binary(content: &Vec<u8>) -> (r: bool)
    ensures
        r == spec_has_null(content@),
{
    let early: usize = if content.len() > 1024 {
        1024
    } else {
        content.len()
    };
    let mut i: usize = 0;
    while i < early
        invariant
            i <= early <= content@.len(),
            forall|j: int| 0 <= j < i ==> content@[j] != 0,
        decreases early - i,
    {
        if content[i] == 0 {
            return true;
        }
        i = i + 1;
    }
    let mut k: usize = 0;
    while k < content.len()
        invariant
            k <= content@.len(),
            forall|j: int| 0 <= j < k ==> content@[j] != 0,
        decreases content@.len() - k,
    {
        if content[k] == 0 {
            return true;
        }
        k = k + 1;
    }
    false
}

/// Whether a file belongs in the scan: its extension selects a language
/// and its content passes the binary heuristic. Returns that language.
pub fn classify_candidate(ext: &str, content: &Vec<u8>) -> (r: Option<SupportedLanguage>)
    ensures
        r is Some <==> (spec_lang_of_ext(ext@) is Some && !spec_has_null(content@)),
        r is Some ==> r == spec_lang_of_ext(ext@),
{
    match SupportedLanguage::from_extension(ext) {
        Some(lang) => {
            if content_is_binary(content) {
                None
            } else {
                Some(lang)
            }
        },
        None => None,
    }
}

} // verus!
