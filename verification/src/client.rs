//! Where pages live, and the rules the fetcher keeps: which URLs it may ask
//! for, how a link found on a page resolves, and how many pages it holds.
use vstd::prelude::*;

use sha2::Digest;
use std::time::SystemTime;

use crate::error::Error;
use crate::json::{json_of_form, law_form_json_is_injective};
use crate::models::{base_url_of, source_of_url, Source};
use crate::text::{
    find_first, occurs_at,
    chars_of, drop_empty, drop_empty_parts, ends_with, has_prefix, has_suffix, join, join_parts,
    same, slice_copy, split, split_on, split_once, starts_with, string_of, views,
};

verus! {

/// Simultaneous in-flight requests, across every source.
pub const MAX_CONCURRENT: usize = 4;

/// How long, in seconds, a cached page is served without asking the archive.
pub const FRESH_FOR_SECS: u64 = 86400;

/// Pages held in memory before the disk cache is consulted.
pub const MEMORY_CACHE_ENTRIES: usize = 512;

pub open spec fn is_full_url(p: Seq<char>) -> bool {
    starts_with(p, "http://"@) || starts_with(p, "https://"@)
}

/// The absolute URL for `path` on `source`, or the refusal of a full URL
/// belonging to neither archive.
pub open spec fn absolute_url_of(source: Source, path: Seq<char>) -> Option<Seq<char>> {
    if is_full_url(path) {
        if source_of_url(path) is Some {
            Some(path)
        } else {
            None
        }
    } else if starts_with(path, "/"@) {
        Some(base_url_of(source) + path)
    } else {
        Some(base_url_of(source) + "/"@ + path)
    }
}

/// Every URL the client will fetch belongs to one of the two archives: a
/// path resolves onto the archive it was asked of, and a full URL is passed
/// through only when its host is one of theirs.
pub proof fn law_fetches_stay_on_the_archives(source: Source, path: Seq<char>)
    ensures
        absolute_url_of(source, path) matches Some(url) ==> source_of_url(url) is Some,
        !is_full_url(path) ==> (absolute_url_of(source, path) matches Some(url) && source_of_url(url)
            == Some(source)),
{
    reveal_strlit("/");
    if !is_full_url(path) {
        if starts_with(path, "/"@) {
            assert(path[0] == "/"@[0]);
            crate::models::law_urls_name_their_archive(source, path);
        } else {
            let p2 = "/"@ + path;
            assert(p2[0] == '/');
            crate::models::law_urls_name_their_archive(source, p2);
            assert(base_url_of(source) + "/"@ + path =~= base_url_of(source) + p2);
        }
    }
}

fn is_full_url_chars(v: &[char]) -> (r: bool)
    ensures
        r == is_full_url(v@),
{
    has_prefix(v, &chars_of("http://")) || has_prefix(v, &chars_of("https://"))
}

/// Resolve `path` against `source` into an absolute URL. A full URL pointing
/// anywhere but the two archives is refused rather than fetched.
pub fn absolute_url(source: Source, path: &str) -> (r: Result<String, Error>)
    ensures
        match r {
            Ok(url) => absolute_url_of(source, path@) == Some(url@),
            Err(e) => absolute_url_of(source, path@) is None && (e matches Error::ForeignPath(p)
                && p@ == path@),
        },
{
    let v = chars_of(path);
    if is_full_url_chars(&v) {
        return match Source::of_url(path) {
            Some(_) => Ok(string_of(&v)),
            None => Err(Error::ForeignPath(string_of(&v))),
        };
    }
    let mut out = chars_of(source.base_url());
    if !has_prefix(&v, &chars_of("/")) {
        out.push('/');
    }
    out.extend_from_slice(&v);
    proof {
        if !starts_with(path@, "/"@) {
            assert(out@ =~= base_url_of(source) + "/"@ + path@) by {
                reveal_strlit("/");
            }
        } else {
            assert(out@ =~= base_url_of(source) + path@);
        }
    }
    Ok(string_of(&out))
}

/// One step of walking a relative path: `.` and empty steps stay, `..`
/// climbs (never above the root), anything else descends.
pub open spec fn walk(segs: Seq<Seq<char>>, parts: Seq<Seq<char>>) -> Seq<Seq<char>>
    decreases parts.len(),
{
    if parts.len() == 0 {
        segs
    } else {
        let prev = walk(segs, parts.drop_last());
        let p = parts.last();
        if p.len() == 0 || p == "."@ {
            prev
        } else if p == ".."@ {
            if prev.len() > 0 {
                prev.drop_last()
            } else {
                prev
            }
        } else {
            prev.push(p)
        }
    }
}

/// Path steps that are neither empty, `.` nor `..`.
pub open spec fn plain_steps(segs: Seq<Seq<char>>) -> bool {
    forall|k: int| 0 <= k < segs.len() ==> (#[trigger] segs[k]).len() > 0 && segs[k] != "."@ && segs[k] != ".."@
}

proof fn lemma_walk_plain(segs: Seq<Seq<char>>, parts: Seq<Seq<char>>)
    requires
        plain_steps(segs),
    ensures
        plain_steps(walk(segs, parts)),
    decreases parts.len(),
{
    if parts.len() > 0 {
        lemma_walk_plain(segs, parts.drop_last());
        let prev = walk(segs, parts.drop_last());
        let p = parts.last();
        if !(p.len() == 0 || p == "."@ || p == ".."@) {
            assert forall|k: int| 0 <= k < prev.push(p).len() implies (#[trigger] prev.push(p)[k]).len() > 0
                && prev.push(p)[k] != "."@ && prev.push(p)[k] != ".."@ by {
                if k < prev.len() {
                    assert(prev.push(p)[k] == prev[k]);
                }
            }
        } else if p == ".."@ && prev.len() > 0 {
            assert forall|k: int| 0 <= k < prev.drop_last().len() implies (#[trigger] prev.drop_last()[k]).len() > 0
                && prev.drop_last()[k] != "."@ && prev.drop_last()[k] != ".."@ by {
                assert(prev.drop_last()[k] == prev[k]);
            }
        }
    }
}

/// The part of a link before its first `#`.
pub open spec fn link_path(href: Seq<char>) -> Seq<char> {
    match split_once(href, "#"@) {
        Some((p, _)) => p,
        None => href,
    }
}

/// Resolving a relative link leaves no `.`, `..` or empty step in the path
/// it builds: each is walked, not kept. The resolved path is `/` and those
/// steps joined, then nothing or the fragment. Stated for a page whose own
/// directory steps are plain, as those of any resolved path are; a base
/// such as `/a/../b.html` keeps its own `..`.
pub proof fn law_no_dot_steps_survive(href: Seq<char>, base: Seq<char>)
    requires
        !is_full_url(href),
        !starts_with(href, "/"@),
        plain_steps(base_dir(base)),
    ensures
        ({
            let segs = walk(base_dir(base), split(link_path(href), "/"@));
            let head = "/"@ + join(segs, "/"@);
            let r = resolved_path(href, base);
            &&& plain_steps(segs)
            &&& starts_with(r, head)
            &&& (r.len() == head.len() || r[head.len() as int] == '#')
        }),
{
    reveal(resolved_path);
    reveal_strlit("#");
    let segs = walk(base_dir(base), split(link_path(href), "/"@));
    lemma_walk_plain(base_dir(base), split(link_path(href), "/"@));
    let head = "/"@ + join(segs, "/"@);
    let r = resolved_path(href, base);
    match split_once(href, "#"@) {
        Some((p, f)) => {
            assert(r == head + "#"@ + f);
            assert(r.take(head.len() as int) =~= head);
            assert(r[head.len() as int] == "#"@[0]);
        },
        None => {
            assert(r == head);
            assert(r.take(head.len() as int) =~= head);
        },
    }
}

/// A resolved link is never relative: a full URL stays as it is, and
/// anything else comes out site-absolute, starting with `/`.
pub proof fn law_resolved_links_are_absolute(href: Seq<char>, base: Seq<char>)
    ensures
        is_full_url(href) ==> resolved_path(href, base) == href,
        starts_with(href, "/"@) ==> resolved_path(href, base) == href,
        !is_full_url(href) ==> starts_with(resolved_path(href, base), "/"@),
{
    reveal(resolved_path);
    reveal_strlit("/");
    reveal_strlit("#");
    if !is_full_url(href) && !starts_with(href, "/"@) {
        let r = resolved_path(href, base);
        assert(r[0] == '/');
        assert(r.take(1) =~= "/"@);
    }
}

pub(crate) proof fn lemma_least_occurrence(s: Seq<char>, p: Seq<char>, w: int)
    requires
        occurs_at(s, p, w),
    ensures
        exists|i: int| occurs_at(s, p, i) && forall|j: int| 0 <= j < i ==> !occurs_at(s, p, j),
    decreases w,
{
    if exists|j: int| 0 <= j < w && occurs_at(s, p, j) {
        let j = choose|j: int| 0 <= j < w && occurs_at(s, p, j);
        lemma_least_occurrence(s, p, j);
    } else {
        assert(occurs_at(s, p, w) && forall|j: int| 0 <= j < w ==> !occurs_at(s, p, j));
    }
}

proof fn lemma_split_once_rejoins(s: Seq<char>, sep: Seq<char>)
    ensures
        split_once(s, sep) matches Some((a, b)) ==> s == a + sep + b,
{
    reveal(find_first);
    if exists|i: int| occurs_at(s, sep, i) {
        let w = choose|i: int| occurs_at(s, sep, i);
        lemma_least_occurrence(s, sep, w);
        let i = find_first(s, sep).unwrap();
        assert(occurs_at(s, sep, i));
        assert(s =~= s.take(i) + sep + s.skip(i + sep.len()));
    }
}

/// A link's fragment survives resolution: one album page documents several
/// releases, and the fragment is what tells them apart. Whatever follows a
/// link's first `#` still follows a `#` at the end of the resolved path.
pub proof fn law_fragments_survive_resolution(href: Seq<char>, base: Seq<char>)
    ensures
        split_once(href, "#"@) matches Some((_, f)) ==> ends_with(resolved_path(href, base), "#"@ + f),
{
    reveal(resolved_path);
    if let Some((p, f)) = split_once(href, "#"@) {
        lemma_split_once_rejoins(href, "#"@);
        let tail = "#"@ + f;
        let r = resolved_path(href, base);
        if is_full_url(href) || starts_with(href, "/"@) {
            assert(href =~= p + tail);
            assert(r.skip(r.len() - tail.len()) =~= tail);
        } else {
            let resolved = "/"@ + join(walk(base_dir(base), split(p, "/"@)), "/"@);
            assert(r == resolved + "#"@ + f);
            assert(r =~= resolved + tail);
            assert(r.skip(r.len() - tail.len()) =~= tail);
        }
    }
}

/// The directory segments of the page at `base`: its path segments, less the
/// file name unless `base` names a directory.
pub open spec fn base_dir(base: Seq<char>) -> Seq<Seq<char>> {
    let segs = drop_empty(split(base, "/"@));
    if ends_with(base, "/"@) || segs.len() == 0 {
        segs
    } else {
        segs.drop_last()
    }
}

/// Where the link `href`, found on the page at `base`, points: a
/// site-absolute path with any fragment kept.
#[verifier::opaque]
pub open spec fn resolved_path(href: Seq<char>, base: Seq<char>) -> Seq<char> {
    if is_full_url(href) || starts_with(href, "/"@) {
        href
    } else {
        let (path, fragment) = match split_once(href, "#"@) {
            Some((p, f)) => (p, Some(f)),
            None => (href, None),
        };
        let resolved = "/"@ + join(walk(base_dir(base), split(path, "/"@)), "/"@);
        match fragment {
            Some(f) => resolved + "#"@ + f,
            None => resolved,
        }
    }
}

/// Resolve a link `href` found on a page at `base` into a site-absolute path.
pub fn resolve_path(href: &str, base: &str) -> (r: String)
    ensures
        r@ == resolved_path(href@, base@),
{
    let h = chars_of(href);
    let r = resolve_chars(&h, &chars_of(base));
    string_of(&r)
}

fn base_segments(b: &[char]) -> (r: Vec<Vec<char>>)
    ensures
        views(r@) == base_dir(b@),
{
    let slash = chars_of("/");
    proof {
        reveal_strlit("/");
    }
    let mut segs = drop_empty_parts(split_on(b, &slash));
    if !has_suffix(b, &slash) && segs.len() > 0 {
        let ghost before = segs@;
        segs.pop();
        assert(views(segs@) =~= views(before).drop_last());
    }
    segs
}

fn walk_parts(segs: Vec<Vec<char>>, parts: &Vec<Vec<char>>) -> (r: Vec<Vec<char>>)
    ensures
        views(r@) == walk(views(segs@), views(parts@)),
{
    let dot = chars_of(".");
    let dotdot = chars_of("..");
    let ghost start = views(segs@);
    let mut segs = segs;
    let mut i: usize = 0;
    while i < parts.len()
        invariant
            i <= parts.len(),
            dot@ == "."@,
            dotdot@ == ".."@,
            views(segs@) == walk(start, views(parts@).take(i as int)),
        decreases parts.len() - i,
    {
        let ghost pre = views(parts@).take(i as int);
        assert(views(parts@).take(i + 1).drop_last() =~= pre);
        assert(views(parts@).take(i + 1).last() == parts@[i as int]@);
        let part = &parts[i];
        if part.len() == 0 || same(part, &dot) {
        } else if same(part, &dotdot) {
            if segs.len() > 0 {
                let ghost before = segs@;
                segs.pop();
                assert(views(segs@) =~= views(before).drop_last());
            }
        } else {
            let ghost before = segs@;
            let copy = slice_copy(part, 0, part.len());
            assert(copy@ =~= part@);
            segs.push(copy);
            assert(views(segs@) =~= views(before).push(part@));
        }
        i += 1;
    }
    assert(views(parts@).take(parts.len() as int) =~= views(parts@));
    segs
}

pub open spec fn opt_chars(o: Option<Vec<char>>) -> Option<Seq<char>> {
    match o {
        Some(v) => Some(v@),
        None => None,
    }
}

/// The relative case of [`resolved_path`], with its pieces named.
proof fn lemma_resolved_relative(h: Seq<char>, b: Seq<char>, path: Seq<char>, frag: Option<Seq<char>>)
    requires
        !(is_full_url(h) || starts_with(h, "/"@)),
        match split_once(h, "#"@) {
            Some((p, f)) => path == p && frag == Some(f),
            None => path == h && frag is None,
        },
    ensures
        resolved_path(h, b) == ({
            let resolved = "/"@ + join(walk(base_dir(b), split(path, "/"@)), "/"@);
            match frag {
                Some(f) => resolved + "#"@ + f,
                None => resolved,
            }
        }),
{
    reveal(resolved_path);
}

/// `href` split at its first `#` into path and fragment.
#[verifier::spinoff_prover]
pub(crate) fn split_fragment(h: &[char]) -> (r: (Vec<char>, Option<Vec<char>>))
    ensures
        match split_once(h@, "#"@) {
            Some((p, f)) => r.0@ == p && opt_chars(r.1) == Some(f),
            None => r.0@ == h@ && r.1 is None,
        },
{
    let hash = chars_of("#");
    proof {
        reveal_strlit("#");
    }
    assert(hash@.len() == 1);
    let found = crate::text::find(h, hash.as_slice());
    match found {
        Some(i) => {
            assert(occurs_at(h@, hash@, i as int));
            assert(i + 1 <= h@.len());
            assert(h@.len() == h.len());
            let p = slice_copy(h, 0, i);
            let f = slice_copy(h, i + 1, h.len());
            proof {
                crate::text::lemma_split_once_at(h@, "#"@, i as int);
            }
            assert(p@ =~= h@.take(i as int));
            assert(f@ =~= h@.skip(i + 1));
            (p, Some(f))
        },
        None => {
            let p = slice_copy(h, 0, h.len());
            assert(p@ =~= h@);
            (p, None)
        },
    }
}

/// `/` + the joined segments, then `#fragment` when there is one.
fn assemble(joined: &[char], fragment: Option<Vec<char>>) -> (r: Vec<char>)
    ensures
        r@ == match opt_chars(fragment) {
            Some(f) => "/"@ + joined@ + "#"@ + f,
            None => "/"@ + joined@,
        },
{
    proof {
        reveal_strlit("/");
        reveal_strlit("#");
    }
    let mut out = chars_of("/");
    out.extend_from_slice(joined);
    assert(out@ =~= "/"@ + joined@);
    match fragment {
        Some(f) => {
            out.push('#');
            out.extend_from_slice(&f);
            assert(out@ =~= "/"@ + joined@ + "#"@ + f@);
        },
        None => {},
    }
    out
}

pub fn resolve_chars(h: &[char], b: &[char]) -> (r: Vec<char>)
    ensures
        r@ == resolved_path(h@, b@),
{
    let slash = chars_of("/");
    proof {
        reveal_strlit("/");
    }
    if is_full_url_chars(h) || has_prefix(h, &slash) {
        let r = slice_copy(h, 0, h.len());
        assert(r@ =~= h@);
        assert(r@ == resolved_path(h@, b@)) by {
            reveal(resolved_path);
        }
        return r;
    }
    let segs = base_segments(b);
    let (path, fragment) = split_fragment(h);
    let parts = split_on(&path, &slash);
    let walked = walk_parts(segs, &parts);
    let joined = join_parts(&walked, &slash);
    let ghost fr = opt_chars(fragment);
    let out = assemble(&joined, fragment);
    proof {
        lemma_resolved_relative(h@, b@, path@, fr);
    }
    out
}

// ============ The memory cache ============

/// The position of `key` among the keys of `entries`, if present.
pub open spec fn key_index<V>(entries: Seq<(Seq<char>, V)>, key: Seq<char>) -> Option<int> {
    if exists|i: int| 0 <= i < entries.len() && entries[i].0 == key {
        Some(choose|i: int| 0 <= i < entries.len() && entries[i].0 == key)
    } else {
        None
    }
}

/// No key occurs twice.
pub open spec fn keys_distinct<V>(entries: Seq<(Seq<char>, V)>) -> bool {
    forall|i: int, j: int|
        0 <= i < entries.len() && 0 <= j < entries.len() && i != j ==> entries[i].0
            != entries[j].0
}

/// What inserting `(key, value)` does: a key already held keeps its place and
/// takes the new value; a new key goes to the back, and once the cache holds
/// more than its bound, the oldest entry leaves.
pub open spec fn inserted<V>(entries: Seq<(Seq<char>, V)>, key: Seq<char>, value: V) -> Seq<(Seq<char>, V)> {
    match key_index(entries, key) {
        Some(i) => entries.update(i, (key, value)),
        None => {
            let grown = entries.push((key, value));
            if grown.len() > MEMORY_CACHE_ENTRIES {
                grown.drop_first()
            } else {
                grown
            }
        },
    }
}

/// The process-wide page cache: URL → body, bounded, oldest evicted first.
///
/// Entries are kept in insertion order. Reads don't promote: the access
/// pattern is "fetch once, read many within one query", where insertion order
/// and recency barely differ.
pub struct MemoryCache<V> {
    entries: Vec<(String, V)>,
}

impl<V> MemoryCache<V> {
    /// The entries, oldest first, as keys and values.
    pub closed spec fn spec_entries(&self) -> Seq<(Seq<char>, V)> {
        self.entries@.map_values(|e: (String, V)| (e.0@, e.1))
    }

    #[verifier::type_invariant]
    spec fn well_formed(&self) -> bool {
        &&& keys_distinct(self.spec_entries())
        &&& self.entries@.len() <= MEMORY_CACHE_ENTRIES
    }

    pub fn new() -> (c: Self)
        ensures
            c.spec_entries() == Seq::<(Seq<char>, V)>::empty(),
    {
        let c = MemoryCache { entries: Vec::new() };
        assert(c.spec_entries() =~= Seq::<(Seq<char>, V)>::empty());
        c
    }

    /// How many pages are held.
    pub fn len(&self) -> (n: usize)
        ensures
            n == self.spec_entries().len(),
            n <= MEMORY_CACHE_ENTRIES,
            keys_distinct(self.spec_entries()),
    {
        proof {
            use_type_invariant(self);
        }
        self.entries.len()
    }

    /// The body held for `url`, if any.
    pub fn get(&self, url: &str) -> (r: Option<V>) where V: Clone
        ensures
            match key_index(self.spec_entries(), url@) {
                Some(i) => r matches Some(v) && cloned(self.spec_entries()[i].1, v),
                None => r is None,
            },
    {
        match self.find(url) {
            Some(i) => Some(self.entries[i].1.clone()),
            None => None,
        }
    }

    fn find(&self, url: &str) -> (r: Option<usize>)
        ensures
            match r {
                Some(i) => key_index(self.spec_entries(), url@) == Some(i as int) && i
                    < self.entries@.len(),
                None => key_index(self.spec_entries(), url@) is None,
            },
    {
        proof {
            use_type_invariant(self);
        }
        let key = chars_of(url);
        let mut i: usize = 0;
        while i < self.entries.len()
            invariant
                i <= self.entries@.len(),
                key@ == url@,
                keys_distinct(self.spec_entries()),
                forall|j: int| 0 <= j < i ==> #[trigger] self.spec_entries()[j].0 != url@,
            decreases self.entries.len() - i,
        {
            if same(&chars_of(self.entries[i].0.as_str()), &key) {
                proof {
                    let es = self.spec_entries();
                    assert(es[i as int].0 == url@);
                    let k = choose|k: int| 0 <= k < es.len() && es[k].0 == url@;
                    assert(0 <= k < es.len() && es[k].0 == url@);
                    assert(k == i);
                }
                return Some(i);
            }
            assert(self.spec_entries()[i as int].0 != url@);
            i += 1;
        }
        None
    }

    /// Hold `body` for `url`. Re-inserting a held page replaces its body
    /// without growing the eviction order; a new page past the bound evicts
    /// the oldest.
    pub fn insert(&mut self, url: String, body: V)
        ensures
            final(self).spec_entries() == inserted(old(self).spec_entries(), url@, body),
            keys_distinct(final(self).spec_entries()),
    {
        proof {
            use_type_invariant(&*self);
        }
        let ghost old_entries = self.spec_entries();
        match self.find(url.as_str()) {
            Some(i) => {
                let mut entries: Vec<(String, V)> = Vec::new();
                std::mem::swap(&mut entries, &mut self.entries);
                entries.set(i, (url, body));
                proof {
                    let es = entries@.map_values(|e: (String, V)| (e.0@, e.1));
                    assert(es =~= old_entries.update(i as int, (url@, body)));
                    assert forall|a: int, b: int|
                        0 <= a < es.len() && 0 <= b < es.len() && a != b implies es[a].0 != es[b].0 by {
                        if a != i && b != i {
                            assert(old_entries[a].0 != old_entries[b].0);
                        } else if a == i {
                            assert(old_entries[a].0 != old_entries[b].0);
                        } else {
                            assert(old_entries[a].0 != old_entries[b].0);
                        }
                    }
                }
                self.entries = entries;
            },
            None => {
                let mut entries: Vec<(String, V)> = Vec::new();
                std::mem::swap(&mut entries, &mut self.entries);
                entries.push((url, body));
                if entries.len() > MEMORY_CACHE_ENTRIES {
                    entries.remove(0);
                }
                proof {
                    let es = entries@.map_values(|e: (String, V)| (e.0@, e.1));
                    let grown = old_entries.push((url@, body));
                    assert(forall|k: int| 0 <= k < old_entries.len() ==> old_entries[k].0 != url@);
                    if grown.len() > MEMORY_CACHE_ENTRIES {
                        assert(es =~= grown.drop_first());
                    } else {
                        assert(es =~= grown);
                    }
                    assert forall|a: int, b: int|
                        0 <= a < es.len() && 0 <= b < es.len() && a != b implies es[a].0 != es[b].0 by {
                        if grown.len() > MEMORY_CACHE_ENTRIES {
                            assert(es[a] == grown[a + 1] && es[b] == grown[b + 1]);
                        }
                    }
                }
                self.entries = entries;
            },
        }
    }
}

/// Reading a page back right after holding it gives the body just held,
/// whatever the cache held before.
pub proof fn law_read_after_insert<V>(entries: Seq<(Seq<char>, V)>, key: Seq<char>, value: V)
    requires
        keys_distinct(entries),
        entries.len() <= MEMORY_CACHE_ENTRIES,
    ensures
        (key_index(inserted(entries, key, value), key) matches Some(i) && inserted(entries, key, value)[i].1
            == value),
{
    let after = inserted(entries, key, value);
    match key_index(entries, key) {
        Some(i) => {
            assert(after[i].0 == key);
            let j = choose|j: int| 0 <= j < after.len() && after[j].0 == key;
            assert(j == i) by {
                if j != i {
                    assert(entries[j].0 == key);
                    assert(entries[i].0 == key);
                }
            }
        },
        None => {
            let last = after.len() - 1;
            assert(after[last] == (key, value));
            let j = choose|j: int| 0 <= j < after.len() && after[j].0 == key;
            assert(j == last) by {
                if j != last {
                    let grown = entries.push((key, value));
                    if grown.len() > MEMORY_CACHE_ENTRIES {
                        assert(after[j] == entries[j + 1]);
                    } else {
                        assert(after[j] == entries[j]);
                    }
                }
            }
        },
    }
}

/// No page is ever held twice: if the keys were distinct before holding a
/// page, they are after.
pub proof fn law_keys_stay_distinct<V>(entries: Seq<(Seq<char>, V)>, key: Seq<char>, value: V)
    requires
        keys_distinct(entries),
    ensures
        keys_distinct(inserted(entries, key, value)),
{
    let after = inserted(entries, key, value);
    match key_index(entries, key) {
        Some(i) => {
            assert(entries[i].0 == key);
            assert forall|a: int, b: int|
                0 <= a < after.len() && 0 <= b < after.len() && a != b implies after[a].0 != after[b].0 by {
                if a == i {
                    assert(after[b] == entries[b]);
                } else if b == i {
                    assert(after[a] == entries[a]);
                } else {
                    assert(after[a] == entries[a] && after[b] == entries[b]);
                }
            }
        },
        None => {
            let grown = entries.push((key, value));
            assert(forall|k: int| 0 <= k < entries.len() ==> entries[k].0 != key);
            assert forall|a: int, b: int|
                0 <= a < grown.len() && 0 <= b < grown.len() && a != b implies grown[a].0 != grown[b].0 by {
                if a < entries.len() && b < entries.len() {
                    assert(grown[a] == entries[a] && grown[b] == entries[b]);
                } else if a < entries.len() {
                    assert(grown[a] == entries[a]);
                } else if b < entries.len() {
                    assert(grown[b] == entries[b]);
                }
            }
            if grown.len() > MEMORY_CACHE_ENTRIES {
                assert forall|a: int, b: int|
                    0 <= a < after.len() && 0 <= b < after.len() && a != b implies after[a].0 != after[b].0 by {
                    assert(after[a] == grown[a + 1] && after[b] == grown[b + 1]);
                }
            }
        },
    }
}

/// Holding a page the cache already holds replaces its body in place: the
/// cache does not grow and no other page moves or leaves.
pub proof fn law_reinsert_does_not_grow<V>(entries: Seq<(Seq<char>, V)>, key: Seq<char>, value: V)
    requires
        key_index(entries, key) is Some,
    ensures
        inserted(entries, key, value).len() == entries.len(),
        forall|k: int|
            0 <= k < entries.len() ==> (#[trigger] inserted(entries, key, value)[k]).0 == entries[k].0,
{
}

/// A cache never holds more than [`MEMORY_CACHE_ENTRIES`] pages, and once
/// full, holding a new page evicts exactly the oldest one.
pub proof fn law_cache_is_bounded<V>(entries: Seq<(Seq<char>, V)>, key: Seq<char>, value: V)
    requires
        entries.len() <= MEMORY_CACHE_ENTRIES,
    ensures
        inserted(entries, key, value).len() <= MEMORY_CACHE_ENTRIES,
        key_index(entries, key) is None && entries.len() == MEMORY_CACHE_ENTRIES ==> inserted(
            entries,
            key,
            value,
        ) == entries.drop_first().push((key, value)),
{
    if key_index(entries, key) is None && entries.len() == MEMORY_CACHE_ENTRIES {
        assert(entries.push((key, value)).drop_first() =~= entries.drop_first().push((key, value)));
    }
}

/// How many pages were held after `key`, the newest last; `-1` when `key`
/// is not held.
pub open spec fn newer_than<V>(entries: Seq<(Seq<char>, V)>, key: Seq<char>) -> int {
    match key_index(entries, key) {
        Some(i) => entries.len() - 1 - i,
        None => -1,
    }
}

/// A page survives as long as fewer than [`MEMORY_CACHE_ENTRIES`] pages
/// arrive after it: holding any other page keeps it, with its body, and
/// puts at most one more page after it, so a page followed by fewer than
/// `MEMORY_CACHE_ENTRIES - 1` newer ones is never the one evicted.
pub proof fn law_pages_outlive_fewer_newer_than_the_bound<V>(
    entries: Seq<(Seq<char>, V)>,
    held: Seq<char>,
    key: Seq<char>,
    value: V,
)
    requires
        keys_distinct(entries),
        entries.len() <= MEMORY_CACHE_ENTRIES,
        key != held,
        0 <= newer_than(entries, held) < MEMORY_CACHE_ENTRIES - 1,
    ensures
        key_index(inserted(entries, key, value), held) matches Some(j) && key_index(entries, held) matches Some(i)
            && inserted(entries, key, value)[j].1 == entries[i].1,
        newer_than(entries, held) <= newer_than(inserted(entries, key, value), held) <= newer_than(entries, held) + 1,
{
    let after = inserted(entries, key, value);
    law_keys_stay_distinct(entries, key, value);
    let i = choose|i: int| 0 <= i < entries.len() && entries[i].0 == held;
    assert(key_index(entries, held) == Some(i));
    // where the held page sits afterwards
    let p: int = match key_index(entries, key) {
        Some(m) => i,
        None => if entries.len() + 1 > MEMORY_CACHE_ENTRIES { i - 1 } else { i },
    };
    match key_index(entries, key) {
        Some(m) => {
            assert(entries[m].0 == key);
            assert(m != i);
            assert(after[p] == entries[i]);
        },
        None => {
            let grown = entries.push((key, value));
            assert(grown[i] == entries[i]);
            if grown.len() > MEMORY_CACHE_ENTRIES {
                assert(i >= 1);
                assert(after[p] == grown[i]);
            } else {
                assert(after[p] == grown[i]);
            }
        },
    }
    assert(0 <= p < after.len() && after[p].0 == held);
    let j = choose|j: int| 0 <= j < after.len() && after[j].0 == held;
    assert(j == p) by {
        if j != p {
            assert(after[j].0 != after[p].0);
        }
    }
}

/// The entries after holding each of `news` in turn.
pub open spec fn inserted_all<V>(entries: Seq<(Seq<char>, V)>, news: Seq<(Seq<char>, V)>) -> Seq<(Seq<char>, V)>
    decreases news.len(),
{
    if news.len() == 0 {
        entries
    } else {
        inserted_all(inserted(entries, news[0].0, news[0].1), news.drop_first())
    }
}

/// A held page is still held, with the same body, after any run of holdings
/// of other pages that, added to the pages already newer than it, stays
/// under [`MEMORY_CACHE_ENTRIES`].
pub proof fn law_pages_outlive_runs_of_newer_pages<V>(
    entries: Seq<(Seq<char>, V)>,
    held: Seq<char>,
    news: Seq<(Seq<char>, V)>,
)
    requires
        keys_distinct(entries),
        entries.len() <= MEMORY_CACHE_ENTRIES,
        key_index(entries, held) is Some,
        newer_than(entries, held) + news.len() < MEMORY_CACHE_ENTRIES,
        forall|k: int| 0 <= k < news.len() ==> (#[trigger] news[k]).0 != held,
    ensures
        key_index(inserted_all(entries, news), held) matches Some(j) && key_index(entries, held) matches Some(i)
            && inserted_all(entries, news)[j].1 == entries[i].1,
    decreases news.len(),
{
    if news.len() > 0 {
        let next = inserted(entries, news[0].0, news[0].1);
        assert(news[0].0 != held);
        law_pages_outlive_fewer_newer_than_the_bound(entries, held, news[0].0, news[0].1);
        law_keys_stay_distinct(entries, news[0].0, news[0].1);
        law_cache_is_bounded(entries, news[0].0, news[0].1);
        let rest = news.drop_first();
        assert forall|k: int| 0 <= k < rest.len() implies (#[trigger] rest[k]).0 != held by {
            assert(rest[k] == news[k + 1]);
        }
        law_pages_outlive_runs_of_newer_pages(next, held, rest);
    }
}

/// A search answered from the archive is answered from memory again as long
/// as at most `MEMORY_CACHE_ENTRIES - 1` holdings of other pages follow: its
/// body is held on arrival as the newest page and survives them.
pub proof fn law_a_new_page_survives_fewer_than_the_bound_of_others<V>(
    entries: Seq<(Seq<char>, V)>,
    key: Seq<char>,
    body: V,
    news: Seq<(Seq<char>, V)>,
)
    requires
        keys_distinct(entries),
        entries.len() <= MEMORY_CACHE_ENTRIES,
        key_index(entries, key) is None,
        news.len() < MEMORY_CACHE_ENTRIES,
        forall|k: int| 0 <= k < news.len() ==> (#[trigger] news[k]).0 != key,
    ensures
        key_index(inserted_all(inserted(entries, key, body), news), key) matches Some(j)
            && inserted_all(inserted(entries, key, body), news)[j].1 == body,
{
    let after = inserted(entries, key, body);
    law_read_after_insert(entries, key, body);
    law_keys_stay_distinct(entries, key, body);
    law_cache_is_bounded(entries, key, body);
    let last = after.len() - 1;
    assert(after[last] == (key, body));
    let j = choose|j: int| 0 <= j < after.len() && after[j].0 == key;
    assert(j == last) by {
        if j != last {
            assert(after[j].0 != after[last].0);
        }
    }
    assert(newer_than(after, key) == 0);
    law_pages_outlive_runs_of_newer_pages(after, key, news);
}

impl<V> Default for MemoryCache<V> {
    fn default() -> (c: Self)
        ensures
            c.spec_entries() == Seq::<(Seq<char>, V)>::empty(),
    {
        MemoryCache::new()
    }
}

// ============ The disk cache ============

#[verifier::external_type_specification]
#[verifier::external_body]
pub struct ExSystemTime(SystemTime);

/// A cached response: the body plus whatever lets it be revalidated cheaply.
pub struct CacheEntry {
    pub url: String,
    pub body: String,
    pub etag: Option<String>,
    pub last_modified: Option<String>,
    /// When this was last confirmed current.
    pub fetched_at: SystemTime,
}

/// `SystemTime::elapsed`, in whole seconds; `None` when `t` lies in the
/// future. Nothing is stated of the result: it depends on the clock.
#[verifier::external_body]
fn elapsed_secs(t: &SystemTime) -> (r: Option<u64>) {
    t.elapsed().ok().map(|d| d.as_secs())
}

/// Fresh while younger than [`FRESH_FOR_SECS`]; a time in the future is not fresh.
pub open spec fn fresh_for_age(age_secs: Option<u64>) -> bool {
    match age_secs {
        Some(s) => s < FRESH_FOR_SECS,
        None => false,
    }
}

/// Whether an entry of the given age may be served without asking the archive.
pub fn is_fresh_at_age(age_secs: Option<u64>) -> (r: bool)
    ensures
        r == fresh_for_age(age_secs),
{
    match age_secs {
        Some(s) => s < FRESH_FOR_SECS,
        None => false,
    }
}

impl CacheEntry {
    /// Fresh when confirmed current less than [`FRESH_FOR_SECS`] ago, by the
    /// clock as read now: [`is_fresh_at_age`] of the age the clock gives,
    /// which nothing here can state.
    pub fn is_fresh(&self) -> (r: bool) {
        let age = elapsed_secs(&self.fetched_at);
        is_fresh_at_age(age)
    }
}

/// What the cache lookup has just learnt: whether memory holds the page, or,
/// after a memory miss, whether the disk holds a copy and whether it is
/// fresh.
#[derive(Debug, Clone, Copy, PartialEq, Eq, Structural)]
pub enum Lookup {
    Memory { hit: bool },
    Disk { cached: bool, fresh: bool },
}

/// The next step of answering a page, tiers tried in order: memory, then a
/// fresh copy on disk, then the archive.
#[derive(Debug, Clone, Copy, PartialEq, Eq, Structural)]
pub enum CacheStep {
    /// Serve the body memory holds; no request.
    ServeMemory,
    /// Memory missed: look on disk.
    ReadDisk,
    /// Serve the fresh copy from disk and hold it in memory; no request.
    ServeDisk,
    /// Nothing fresh is held: ask the archive.
    AskArchive,
}

pub open spec fn cache_step_of(l: Lookup) -> CacheStep {
    match l {
        Lookup::Memory { hit } => if hit {
            CacheStep::ServeMemory
        } else {
            CacheStep::ReadDisk
        },
        Lookup::Disk { cached, fresh } => if cached && fresh {
            CacheStep::ServeDisk
        } else {
            CacheStep::AskArchive
        },
    }
}

/// The order of the cache tiers: a memory hit is served at once, a miss
/// looks on disk, a fresh disk copy is served, and only then is the archive
/// asked.
pub fn cache_step(l: Lookup) -> (r: CacheStep)
    ensures
        r == cache_step_of(l),
{
    match l {
        Lookup::Memory { hit } => if hit {
            CacheStep::ServeMemory
        } else {
            CacheStep::ReadDisk
        },
        Lookup::Disk { cached, fresh } => if cached && fresh {
            CacheStep::ServeDisk
        } else {
            CacheStep::AskArchive
        },
    }
}

/// What the archive's answer to a conditional GET calls for.
#[derive(Debug, Clone, Copy, PartialEq, Eq, Structural)]
pub enum ReplyAction {
    /// `304` over a cached copy: serve that copy and restart its freshness.
    Revalidate,
    /// Any other failure over a cached copy: a stale page beats an error.
    ServeStale,
    /// A failure with nothing cached: the fetch fails with the status.
    Fail,
    /// A success: store the new body and serve it.
    Store,
}

pub open spec fn reply_of(status: u16, have_cached: bool) -> ReplyAction {
    if status == 304 && have_cached {
        ReplyAction::Revalidate
    } else if !(200 <= status < 300) {
        if have_cached {
            ReplyAction::ServeStale
        } else {
            ReplyAction::Fail
        }
    } else {
        ReplyAction::Store
    }
}

/// What to do with a reply of `status`, given whether a cached copy exists.
pub fn reply_action(status: u16, have_cached: bool) -> (r: ReplyAction)
    ensures
        r == reply_of(status, have_cached),
{
    if status == 304 && have_cached {
        ReplyAction::Revalidate
    } else if !(200 <= status && status < 300) {
        if have_cached {
            ReplyAction::ServeStale
        } else {
            ReplyAction::Fail
        }
    } else {
        ReplyAction::Store
    }
}

/// What a fetch that got no reply at all calls for, the archive being
/// unreachable: a stale copy beats an error, so a cached copy is served, and
/// with none the fetch fails.
pub fn unreachable_action(have_cached: bool) -> (r: ReplyAction)
    ensures
        r == if have_cached {
            ReplyAction::ServeStale
        } else {
            ReplyAction::Fail
        },
{
    if have_cached {
        ReplyAction::ServeStale
    } else {
        ReplyAction::Fail
    }
}

/// The validators a revalidating GET sends, `If-None-Match` then
/// `If-Modified-Since`: whatever the cached copy recorded.
pub fn conditional_headers(cached: &Option<CacheEntry>) -> (r: (Option<String>, Option<String>))
    ensures
        match cached {
            Some(e) => r.0 == e.etag && r.1 == e.last_modified,
            None => r.0 is None && r.1 is None,
        },
{
    match cached {
        Some(e) => (copy_opt(&e.etag), copy_opt(&e.last_modified)),
        None => (None, None),
    }
}

fn copy_opt(o: &Option<String>) -> (r: Option<String>)
    ensures
        r == *o,
{
    match o {
        Some(s) => Some(s.clone()),
        None => None,
    }
}

/// The form's fields as pairs of names and values.
pub open spec fn form_pairs(form: Seq<(&str, &str)>) -> Seq<(Seq<char>, Seq<char>)> {
    form.map_values(|p: (&str, &str)| (p.0@, p.1@))
}

/// `serde_json::to_string` of the form. A slice of string pairs is written
/// as a JSON array of two-element arrays with the compact formatter (no
/// spaces), each string quoted and escaped by serde_json's escape table:
/// the text [`json_of_form`] states. It succeeds: serde_json fails only on a
/// failing `Serialize` impl or a map with non-string keys, and a list of
/// string pairs is neither.
#[verifier::external_body]
fn form_json(form: &[(&str, &str)]) -> (r: Result<String, String>)
    ensures
        r is Ok,
        r matches Ok(s) ==> s@ == json_of_form(form_pairs(form@)),
{
    serde_json::to_string(form).map_err(|e| e.to_string())
}

/// The cache key of a form POST: the URL, `#form:`, then the form as JSON,
/// so two different searches never share an entry.
pub fn form_cache_key(url: &str, form: &[(&str, &str)]) -> (r: Result<String, Error>)
    ensures
        r matches Ok(k) && k@ == url@ + "#form:"@ + json_of_form(form_pairs(form@)),
{
    match form_json(form) {
        Ok(json) => {
            let mut key = String::from_str(url);
            key.append("#form:");
            key.append(json.as_str());
            Ok(key)
        },
        Err(e) => Err(Error::Json(e)),
    }
}

/// Two different searches on one page never share a cache entry: the keys
/// of two different forms differ.
pub proof fn law_searches_never_share_an_entry(
    url: Seq<char>,
    form1: Seq<(Seq<char>, Seq<char>)>,
    form2: Seq<(Seq<char>, Seq<char>)>,
)
    requires
        form1 != form2,
    ensures
        url + "#form:"@ + json_of_form(form1) != url + "#form:"@ + json_of_form(form2),
{
    let p = url + "#form:"@;
    if p + json_of_form(form1) == p + json_of_form(form2) {
        assert(json_of_form(form1) =~= (p + json_of_form(form1)).skip(p.len() as int));
        assert(json_of_form(form2) =~= (p + json_of_form(form2)).skip(p.len() as int));
        law_form_json_is_injective(form1, form2);
    }
}

/// The SHA-256 digest of a string's UTF-8 bytes.
pub uninterp spec fn sha256_of(data: Seq<char>) -> Seq<u8>;

/// `Sha256::digest` of `data`'s bytes: 32 bytes, the digest of `data`.
#[verifier::external_body]
fn sha256(data: &str) -> (r: Vec<u8>)
    ensures
        r@ == sha256_of(data@),
        r@.len() == 32,
{
    sha2::Sha256::digest(data.as_bytes()).to_vec()
}

pub open spec fn hex_digit(n: int) -> char {
    if n < 10 {
        ('0' as int + n) as char
    } else {
        ('a' as int + n - 10) as char
    }
}

/// Lower-case hexadecimal, two digits a byte.
pub open spec fn hex_lower(bytes: Seq<u8>) -> Seq<char>
    decreases bytes.len(),
{
    if bytes.len() == 0 {
        Seq::empty()
    } else {
        hex_lower(bytes.drop_last()) + seq![
            hex_digit(bytes.last() as int / 16),
            hex_digit(bytes.last() as int % 16),
        ]
    }
}

fn hex_char(n: u8) -> (c: char)
    requires
        n < 16,
    ensures
        c == hex_digit(n as int),
{
    if n < 10 {
        (48u8 + n) as char
    } else {
        (97u8 + n - 10) as char
    }
}

/// Cache filename for a URL: its SHA-256 in hex, then `.json`.
pub fn cache_key(url: &str) -> (r: String)
    ensures
        r@ == hex_lower(sha256_of(url@)) + ".json"@,
{
    let digest = sha256(url);
    let mut out: Vec<char> = Vec::new();
    let mut i: usize = 0;
    while i < digest.len()
        invariant
            i <= digest.len(),
            out@ == hex_lower(digest@.take(i as int)),
        decreases digest.len() - i,
    {
        let b = digest[i];
        out.push(hex_char(b / 16));
        out.push(hex_char(b % 16));
        assert(digest@.take(i + 1).drop_last() =~= digest@.take(i as int));
        assert(out@ =~= hex_lower(digest@.take(i + 1)));
        i += 1;
    }
    assert(digest@.take(digest.len() as int) =~= digest@);
    let mut r = string_of(&out);
    r.append(".json");
    r
}

} // verus!
