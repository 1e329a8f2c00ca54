//! File name extensions, and the fixed list of those that are copied.

use vstd::prelude::*;
use vstd::slice::slice_subrange;
use vstd::string::StringSliceAdditionalSpecFns;
use crate::bytes::bytes_equal;

verus! {

/// The byte that sets an extension off from the rest of a file name.
pub const DOT: u8 = 0x2e;

/// The extensions of the files that are copied: a closed list, matched to the letter.
pub const ALLOW_LIST: [&'static str; 72] = [
    "aac", "abw", "arc", "avif", "avi", "azw", "bin", "bmp", "bz", "bz2", "cda", "csh",
    "css", "csv", "doc", "docx", "eot", "epub", "gz", "gif", "htm", "ico", "ics", "jar",
    "jpeg", "js", "json", "jsonld", "mid", "mjs", "mp3", "mp4", "mpeg", "mpkg", "odp", "ods",
    "odt", "oga", "ogv", "ogx", "opus", "otf", "png", "pdf", "php", "ppt", "pptx", "rar",
    "rtf", "sh", "svg", "tar", "tif", "ts", "ttf", "txt", "vsd", "wav", "weba", "webm",
    "webp", "woff", "woff2", "xhtml", "xls", "xlsx", "xml", "xul", "zip", "3gp", "3g2", "7z",
];

/// Whether the last dot of `name` stands at `at`.
pub open spec fn is_last_dot(name: Seq<u8>, at: int) -> bool {
    &&& 0 <= at < name.len()
    &&& name[at] == DOT
    &&& forall|k: int| at < k < name.len() ==> name[k] != DOT
}

/// The extension of a file name: what follows its last dot. A name without a
/// dot has none, nor has one whose only dot comes first, nor has `..`.
pub open spec fn extension_of(name: Seq<u8>) -> Option<Seq<u8>> {
    if name != seq![DOT, DOT] && exists|at: int| 0 < at && is_last_dot(name, at) {
        let at = choose|at: int| 0 < at && is_last_dot(name, at);
        Some(name.skip(at + 1))
    } else {
        None
    }
}

/// Whether `extension` is, byte for byte, one of the list.
pub open spec fn is_allowed(extension: Seq<u8>) -> bool {
    exists|i: int| 0 <= i < ALLOW_LIST@.len() && #[trigger] ALLOW_LIST@[i].spec_bytes() == extension
}

/// Whether a file of this name is one to copy: it has an extension, and the list has it.
pub open spec fn is_eligible_name(name: Seq<u8>) -> bool {
    extension_of(name) is Some && is_allowed(extension_of(name)->0)
}

/// A name has one last dot at most.
pub proof fn lemma_last_dot_is_unique(name: Seq<u8>, a: int, b: int)
    requires
        is_last_dot(name, a),
        is_last_dot(name, b),
    ensures
        a == b,
{
}

/// The extension of a name whose last dot is known to stand at `at`.
pub proof fn lemma_extension_at(name: Seq<u8>, at: int)
    requires
        is_last_dot(name, at),
    ensures
        extension_of(name) == if at > 0 && name != seq![DOT, DOT] {
            Some(name.skip(at + 1))
        } else {
            None
        },
{
    if at > 0 && name != seq![DOT, DOT] {
        let chosen = choose|c: int| 0 < c && is_last_dot(name, c);
        lemma_last_dot_is_unique(name, at, chosen);
    } else if at <= 0 {
        assert forall|c: int| 0 < c implies !is_last_dot(name, c) by {
            if is_last_dot(name, c) {
                lemma_last_dot_is_unique(name, at, c);
            }
        }
    }
}

/// The extension of a file name, as `extension_of` defines it.
pub fn extension(name: &[u8]) -> (found: Option<&[u8]>)
    ensures
        found is Some <==> extension_of(name@) is Some,
        found is Some ==> found->0@ == extension_of(name@)->0,
{
    let mut at: usize = name.len();
    while at > 0 && name[at - 1] != DOT
        invariant
            at <= name@.len(),
            forall|k: int| at <= k < name@.len() ==> name@[k] != DOT,
        decreases at,
    {
        at -= 1;
    }
    if at == 0 {
        // no dot anywhere
        assert forall|c: int| 0 < c implies !is_last_dot(name@, c) by {}
        return None;
    }
    proof {
        lemma_extension_at(name@, at - 1);
    }
    if at == 1 {
        return None;
    }
    if name.len() == 2 && name[0] == DOT {
        assert(name@ =~= seq![DOT, DOT]);
        return None;
    }
    assert(name@ != seq![DOT, DOT]) by {
        if name@ == seq![DOT, DOT] {
            assert(name@.len() == 2);
            assert(name@[0] == seq![DOT, DOT][0]);
        }
    }
    let rest = slice_subrange(name, at, name.len());
    assert(rest@ =~= name@.skip(at as int));
    Some(rest)
}

/// Whether `extension` is on the list.
pub fn is_allowed_extension(extension: &[u8]) -> (allowed: bool)
    ensures
        allowed == is_allowed(extension@),
{
    let mut i: usize = 0;
    while i < ALLOW_LIST.len()
        invariant
            i <= ALLOW_LIST@.len(),
            forall|k: int| 0 <= k < i ==> #[trigger] ALLOW_LIST@[k].spec_bytes() != extension@,
        decreases ALLOW_LIST@.len() - i,
    {
        if bytes_equal(ALLOW_LIST[i].as_bytes(), extension) {
            return true;
        }
        i += 1;
    }
    false
}

/// Whether a file of this name is one to copy.
pub fn is_eligible(name: &[u8]) -> (eligible: bool)
    ensures
        eligible == is_eligible_name(name@),
{
    match extension(name) {
        Some(found) => is_allowed_extension(found),
        None => false,
    }
}

} // verus!
