//! Paths that are structural rather than content — the entry points every
//! other lookup starts from.
use vstd::prelude::*;

verus! {

pub const FOLK: &'static str = "/folk/";
pub const SONG_INDEX: &'static str = "/folk/songs/";
pub const CHILD_INDEX: &'static str = "/folk/songs/childindex.html";
pub const LAWS_INDEX: &'static str = "/folk/songs/lawsindex.html";
pub const SONG_SEARCH: &'static str = "/folk/songs/search.php";
pub const RECORDS_INDEX: &'static str = "/folk/records/";
pub const RECORD_SEARCH: &'static str = "/folk/records/search.php";
pub const LATEST_CHANGES: &'static str = "/folk/latestchanges.html";
pub const BOOKS: &'static str = "/folk/books/";
pub const WATERWAYS_MENU: &'static str = "/songmenu.htm";

} // verus!
