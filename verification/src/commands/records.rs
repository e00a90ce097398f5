//! Resolving an artist named in words to the page the archive files them under.
use vstd::prelude::*;

use crate::models::Album;
use crate::text::{chars_of, find_first, lower_chars, lower_seq, same, slice_copy, starts_with, string_of};

verus! {

/// The text of `s` before its first `/`, or all of it.
pub open spec fn first_segment(s: Seq<char>) -> Seq<char> {
    match find_first(s, "/"@) {
        Some(i) => s.take(i),
        None => s,
    }
}

/// The `/<slug>/` a site-absolute path lives under.
pub open spec fn slug_of(path: Seq<char>) -> Option<Seq<char>> {
    if starts_with(path, "/"@) {
        let first = first_segment(path.skip(1));
        if first.len() > 0 {
            Some("/"@ + first + "/"@)
        } else {
            None
        }
    } else {
        None
    }
}

/// The `/<slug>/` an album, song, or any other page lives under.
pub fn artist_slug(path: &str) -> (r: Option<String>)
    ensures
        match r {
            Some(s) => slug_of(path@) == Some(s@),
            None => slug_of(path@) is None,
        },
{
    proof {
        reveal_strlit("/");
    }
    let v = chars_of(path);
    let slash = chars_of("/");
    if !crate::text::has_prefix(&v, &slash) {
        return None;
    }
    let rest = slice_copy(&v, 1, v.len());
    assert(rest@ =~= path@.skip(1));
    let first = match crate::text::find(&rest, slash.as_slice()) {
        Some(i) => {
            let f = slice_copy(&rest, 0, i);
            assert(f@ =~= rest@.take(i as int));
            f
        },
        None => rest,
    };
    if first.len() == 0 {
        return None;
    }
    let mut out = slash.clone();
    out.extend_from_slice(&first);
    out.push('/');
    assert(out@ =~= "/"@ + first@ + "/"@);
    Some(string_of(&out))
}

/// What a record search says about an artist named in words.
#[derive(Debug, Clone, PartialEq, Eq)]
pub enum ArtistLookup {
    /// The artist's page, from the chosen group's first album.
    Found(String),
    /// The search found no group at all.
    NoArtist,
    /// The chosen group, named here, has no releases.
    NoReleases(String),
    /// The chosen group's first album, at this path, lives under no slug.
    NoSlug(String, String),
}

/// The group credited to exactly `name` (ignoring ASCII case), else the first group.
pub open spec fn chosen_group(groups: Seq<(Seq<char>, Seq<Seq<char>>)>, name: Seq<char>) -> Option<int> {
    if exists|i: int| 0 <= i < groups.len() && lower_seq(groups[i].0) == lower_seq(name) {
        Some(choose|i: int| 0 <= i < groups.len() && lower_seq(groups[i].0) == lower_seq(name)
            && forall|j: int| 0 <= j < i ==> lower_seq(groups[j].0) != lower_seq(name))
    } else if groups.len() > 0 {
        Some(0)
    } else {
        None
    }
}

/// A record search's groups as credited names and album paths.
pub open spec fn groups_view(groups: Seq<(String, Vec<Album>)>) -> Seq<(Seq<char>, Seq<Seq<char>>)> {
    groups.map_values(|g: (String, Vec<Album>)| (g.0@, g.1@.map_values(|a: Album| a.path@)))
}

/// How a name resolves against a record search's results.
pub open spec fn lookup_of(groups: Seq<(Seq<char>, Seq<Seq<char>>)>, name: Seq<char>) -> ArtistLookupView {
    match chosen_group(groups, name) {
        None => ArtistLookupView::NoArtist,
        Some(i) => {
            let (matched, albums) = groups[i];
            if albums.len() == 0 {
                ArtistLookupView::NoReleases(matched)
            } else {
                match slug_of(albums[0]) {
                    Some(slug) => ArtistLookupView::Found(slug),
                    None => ArtistLookupView::NoSlug(matched, albums[0]),
                }
            }
        },
    }
}

pub enum ArtistLookupView {
    Found(Seq<char>),
    NoArtist,
    NoReleases(Seq<char>),
    NoSlug(Seq<char>, Seq<char>),
}

impl ArtistLookup {
    pub open spec fn view(&self) -> ArtistLookupView {
        match self {
            ArtistLookup::Found(p) => ArtistLookupView::Found(p@),
            ArtistLookup::NoArtist => ArtistLookupView::NoArtist,
            ArtistLookup::NoReleases(n) => ArtistLookupView::NoReleases(n@),
            ArtistLookup::NoSlug(n, p) => ArtistLookupView::NoSlug(n@, p@),
        }
    }
}

/// The first group credited to exactly `name`, ignoring ASCII case.
fn exact_group(groups: &Vec<(String, Vec<Album>)>, name: &str) -> (r: Option<usize>)
    ensures
        match r {
            Some(k) => k < groups@.len() && lower_seq(groups_view(groups@)[k as int].0)
                == lower_seq(name@) && forall|j: int|
                0 <= j < k ==> lower_seq(#[trigger] groups_view(groups@)[j].0) != lower_seq(name@),
            None => forall|j: int|
                0 <= j < groups@.len() ==> lower_seq(#[trigger] groups_view(groups@)[j].0) != lower_seq(name@),
        },
{
    let wanted = lower_chars(&chars_of(name));
    let mut i: usize = 0;
    while i < groups.len()
        invariant
            i <= groups.len(),
            wanted@ == lower_seq(name@),
            forall|j: int| 0 <= j < i ==> lower_seq(#[trigger] groups_view(groups@)[j].0) != lower_seq(name@),
        decreases groups.len() - i,
    {
        assert(groups_view(groups@)[i as int].0 == groups@[i as int].0@);
        if same(&lower_chars(&chars_of(groups[i].0.as_str())), &wanted) {
            return Some(i);
        }
        i += 1;
    }
    None
}

/// Resolve `name` against the groups a record search returned: the group
/// credited to exactly that name, else the first; its first album's slug is
/// the artist's page.
pub fn lookup_artist(groups: &Vec<(String, Vec<Album>)>, name: &str) -> (r: ArtistLookup)
    ensures
        r.view() == lookup_of(groups_view(groups@), name@),
{
    let ghost gv = groups_view(groups@);
    let idx = match exact_group(groups, name) {
        Some(k) => {
            proof {
                let c = choose|i: int| 0 <= i < gv.len() && lower_seq(gv[i].0) == lower_seq(name@)
                    && forall|j: int| 0 <= j < i ==> lower_seq(gv[j].0) != lower_seq(name@);
                assert(0 <= c < gv.len() && lower_seq(gv[c].0) == lower_seq(name@) && forall|j: int|
                    0 <= j < c ==> lower_seq(gv[j].0) != lower_seq(name@));
                if c < k {
                    assert(lower_seq(gv[c].0) != lower_seq(name@));
                }
                if k < c {
                    assert(lower_seq(gv[k as int].0) != lower_seq(name@));
                }
                assert(chosen_group(gv, name@) == Some(k as int));
            }
            k
        },
        None => {
            if groups.len() == 0 {
                return ArtistLookup::NoArtist;
            }
            0
        },
    };
    assert(chosen_group(gv, name@) == Some(idx as int));
    let matched = &groups[idx].0;
    let albums = &groups[idx].1;
    assert(gv[idx as int].0 == matched@);
    assert(gv[idx as int].1 == albums@.map_values(|a: Album| a.path@));
    if albums.len() == 0 {
        return ArtistLookup::NoReleases(matched.clone());
    }
    let album_path = &albums[0].path;
    assert(gv[idx as int].1[0] == album_path@);
    match artist_slug(album_path.as_str()) {
        Some(slug) => ArtistLookup::Found(slug),
        None => ArtistLookup::NoSlug(matched.clone(), album_path.clone()),
    }
}

} // verus!
