use vstd::prelude::*;

use crate::text::{starts_with, drop_chars};

verus! {

/// The extended-length prefix that Windows puts on canonical paths.
pub open spec fn verbatim_prefix() -> Seq<char> {
    seq!['\\', '\\', '?', '\\']
}

/// A path without the `\\?\` prefix that canonicalization adds on Windows.
pub open spec fn cleaned_path(p: Seq<char>) -> Seq<char> {
    if verbatim_prefix().is_prefix_of(p) {
        p.subrange(4, p.len() as int)
    } else {
        p
    }
}

/// Drops a leading `\\?\` from a path's text.
pub fn clean_path(path: String) -> (r: String)
    ensures
        r@ == cleaned_path(path@),
{
    proof {
        reveal_strlit("\\\\?\\");
        assert("\\\\?\\"@ =~= verbatim_prefix());
    }
    if starts_with(path.as_str(), "\\\\?\\") {
        drop_chars(path.as_str(), 4)
    } else {
        path
    }
}

} // verus!
