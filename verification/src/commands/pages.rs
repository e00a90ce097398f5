//! Which archive a bare path belongs to.
use vstd::prelude::*;

use crate::models::{source_of_url, Source};
use crate::text::{chars_of, has_prefix, starts_with};

verus! {

/// A full URL names its archive; otherwise a path under `/Songs/` is a
/// waterwaysongs.info page and anything else is mainlynorfolk.info.
pub open spec fn source_for_path(path: Seq<char>) -> Source {
    match source_of_url(path) {
        Some(s) => s,
        None => if starts_with(path, "/Songs/"@) {
            Source::Waterways
        } else {
            Source::MainlyNorfolk
        },
    }
}

/// Which archive a path belongs to.
pub fn source_of(path: &str) -> (r: Source)
    ensures
        r == source_for_path(path@),
{
    match Source::of_url(path) {
        Some(s) => s,
        None => {
            if has_prefix(&chars_of(path), &chars_of("/Songs/")) {
                Source::Waterways
            } else {
                Source::MainlyNorfolk
            }
        },
    }
}

} // verus!
