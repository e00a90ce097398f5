//! waterwaysongs.info: the song menu, and the author line of a song page.
use vstd::prelude::*;

use crate::client::{is_full_url, resolve_chars, resolved_path};
use crate::dom::{
    all_matches, as_ints, attr, attr_of, doc_view, end_of, find_match, first_match, inner_text,
    is_elem, is_element, is_named, parent_index, parent_of, parse_html, parsed_document,
    select_all, sel_matches, selects, subtree_end, text_under, DomNode, KindView, NodeKind,
    NodeView, Sel,
};
use crate::error::Error;
use crate::models::{base_url_of, Source, WaterwaysSong};
use crate::parse::book::{opt_view, present};
use crate::text::{
    chars_of, contains, contains_chars, drop_empty, find, find_first, has_prefix, join, join_parts,
    same, slice_copy, squash_chars, squashed, starts_with, string_of, strs, trim, trim_chars,
    views,
};

verus! {

/// `(c)` or `(C)` at `i`.
pub open spec fn paren_c_at(s: Seq<char>, i: int) -> bool {
    0 <= i && i + 3 <= s.len() && s[i] == '(' && (s[i + 1] == 'c' || s[i + 1] == 'C') && s[i + 2] == ')'
}

/// The first `(c)`/`(C)` at or after `i`.
pub open spec fn paren_c_from(s: Seq<char>, i: int) -> Option<int>
    decreases s.len() - i,
{
    if i < 0 || i + 3 > s.len() {
        None
    } else if paren_c_at(s, i) {
        Some(i)
    } else {
        paren_c_from(s, i + 1)
    }
}

/// Where a copyright notice starts: the first `©`, else the first `(c)`.
pub open spec fn copyright_mark(s: Seq<char>) -> Option<int> {
    match find_first(s, seq!['©']) {
        Some(i) => Some(i),
        None => paren_c_from(s, 0),
    }
}

/// An author line without its trailing copyright notice.
pub open spec fn without_copyright(s: Seq<char>) -> Seq<char> {
    match copyright_mark(s) {
        Some(i) => trim(s.take(i)),
        None => s,
    }
}

fn first_paren_c(v: &[char]) -> (r: Option<usize>)
    ensures
        match r {
            Some(i) => paren_c_from(v@, 0) == Some(i as int) && i < v.len(),
            None => paren_c_from(v@, 0) is None,
        },
{
    let mut i: usize = 0;
    while v.len() >= 3 && i <= v.len() - 3
        invariant
            i <= v.len(),
            paren_c_from(v@, 0) == paren_c_from(v@, i as int),
        decreases v.len() - i,
    {
        if v[i] == '(' && (v[i + 1] == 'c' || v[i + 1] == 'C') && v[i + 2] == ')' {
            return Some(i);
        }
        i += 1;
    }
    None
}

/// Drops a trailing copyright notice from an author line: "Peter Clement ©
/// 2019" is "Peter Clement". Real information, but not part of the name.
pub fn strip_copyright(s: &str) -> (r: String)
    ensures
        r@ == without_copyright(s@),
{
    let v = chars_of(s);
    let mark = vec!['©'];
    assert(mark@ =~= seq!['©']);
    let at = match find(&v, mark.as_slice()) {
        Some(i) => Some(i),
        None => first_paren_c(&v),
    };
    match at {
        Some(i) => string_of(&trim_chars(&slice_copy(&v, 0, i))),
        None => string_of(&v),
    }
}

/// The menu entry node `i` gives, as a path and a title: an `a` whose
/// `href` holds `/Songs/` and whose text is not blank, its link resolved
/// against the menu page.
pub open spec fn menu_entry(doc: Seq<NodeView>, i: int) -> Option<(Seq<char>, Seq<char>)> {
    let title = squashed(inner_text(doc, i));
    if is_named(doc[i], "a"@) && (attr_of(doc[i], "href"@) matches Some(h) && contains(h, "/Songs/"@))
        && title.len() > 0 {
        Some((resolved_path(attr_of(doc[i], "href"@).unwrap(), "/songmenu.htm"@), title))
    } else {
        None
    }
}

pub open spec fn holds_path(entries: Seq<(Seq<char>, Seq<char>)>, path: Seq<char>) -> bool {
    exists|k: int| 0 <= k < entries.len() && (#[trigger] entries[k]).0 == path
}

/// The menu's songs among the first `n` nodes: each path once, with the
/// title of its first link, which is the title rather than an author credit.
pub open spec fn menu_from(doc: Seq<NodeView>, n: int) -> Seq<(Seq<char>, Seq<char>)>
    decreases n,
{
    if n <= 0 {
        Seq::empty()
    } else {
        let prev = menu_from(doc, n - 1);
        match menu_entry(doc, n - 1) {
            Some((path, title)) => if holds_path(prev, path) {
                prev
            } else {
                prev.push((path, title))
            },
            None => prev,
        }
    }
}

/// The songs the menu page lists, as paths and titles.
pub open spec fn menu_of(html: Seq<char>) -> Seq<(Seq<char>, Seq<char>)> {
    let doc = parsed_document(html);
    menu_from(doc, doc.len() as int)
}

/// The menu lists each song once: no two entries share a path, and every
/// title is non-blank.
pub proof fn law_menu_lists_each_song_once(doc: Seq<NodeView>, n: int)
    ensures
        forall|i: int, j: int|
            0 <= i < j < menu_from(doc, n).len() ==> (#[trigger] menu_from(doc, n)[i]).0 != (#[trigger] menu_from(doc, n)[j]).0,
        forall|i: int| 0 <= i < menu_from(doc, n).len() ==> (#[trigger] menu_from(doc, n)[i]).1.len() > 0,
    decreases n,
{
    if n > 0 {
        law_menu_lists_each_song_once(doc, n - 1);
        let prev = menu_from(doc, n - 1);
        match menu_entry(doc, n - 1) {
            Some((path, title)) => {
                if !holds_path(prev, path) {
                    let cur = prev.push((path, title));
                    assert forall|i: int, j: int| 0 <= i < j < cur.len() implies (#[trigger] cur[i]).0 != (#[trigger] cur[j]).0 by {
                        if j == cur.len() - 1 {
                            assert(cur[i] == prev[i]);
                            if cur[i].0 == path {
                                assert(holds_path(prev, path));
                            }
                        } else {
                            assert(cur[i] == prev[i] && cur[j] == prev[j]);
                        }
                    }
                    assert forall|i: int| 0 <= i < cur.len() implies (#[trigger] cur[i]).1.len() > 0 by {
                        if i < prev.len() {
                            assert(cur[i] == prev[i]);
                        }
                    }
                }
            },
            None => {},
        }
    }
}

pub open spec fn paths_and_titles(songs: Seq<WaterwaysSong>) -> Seq<(Seq<char>, Seq<char>)> {
    songs.map_values(|s: WaterwaysSong| (s.path@, s.title@))
}

/// Only a path and a title: everything else a song page would give is empty.
pub open spec fn bare(s: WaterwaysSong) -> bool {
    s.author is None && s.lyrics is None && s.notes@.len() == 0 && s.recorded_by@.len() == 0
        && s.audio_url is None
}

fn already_listed(out: &Vec<WaterwaysSong>, p: &Vec<char>) -> (r: bool)
    ensures
        r == holds_path(paths_and_titles(out@), p@),
{
    let ghost pt = paths_and_titles(out@);
    let mut k: usize = 0;
    while k < out.len()
        invariant
            k <= out.len(),
            pt == paths_and_titles(out@),
            forall|j: int| 0 <= j < k ==> (#[trigger] pt[j]).0 != p@,
        decreases out.len() - k,
    {
        assert(pt[k as int].0 == out@[k as int].path@);
        if same(&chars_of(out[k].path.as_str()), p) {
            assert(pt[k as int].0 == p@);
            return true;
        }
        k += 1;
    }
    false
}

fn entry_at(nodes: &Vec<DomNode>, i: usize) -> (r: Option<(Vec<char>, Vec<char>)>)
    requires
        i < nodes.len(),
    ensures
        match r {
            Some((p, t)) => menu_entry(doc_view(nodes@), i as int) == Some((p@, t@)),
            None => menu_entry(doc_view(nodes@), i as int) is None,
        },
{
    let ghost doc = doc_view(nodes@);
    assert(doc[i as int] == nodes@[i as int]@);
    if !is_elem(&nodes[i], "a") {
        return None;
    }
    let href = match attr(&nodes[i], "href") {
        Some(h) => h,
        None => return None,
    };
    let h = chars_of(href.as_str());
    if !contains_chars(&h, &chars_of("/Songs/")) {
        return None;
    }
    let title = squash_chars(&text_under(nodes, i));
    if title.len() == 0 {
        return None;
    }
    let path = resolve_chars(&h, &chars_of("/songmenu.htm"));
    Some((path, title))
}

/// The song menu: every `/Songs/` link is a title, an author credit, or a
/// blank separator, and the whole group repeats across the menu's layout
/// copies. The title link comes first for each song, so the first link to
/// each path is kept and the rest dropped.
pub fn index(html: &str) -> (r: Vec<WaterwaysSong>)
    ensures
        paths_and_titles(r@) == menu_of(html@),
        forall|k: int| 0 <= k < r@.len() ==> bare(#[trigger] r@[k]),
{
    let nodes = parse_html(html);
    let ghost doc = doc_view(nodes@);
    let mut out: Vec<WaterwaysSong> = Vec::new();
    let mut i: usize = 0;
    while i < nodes.len()
        invariant
            i <= nodes.len(),
            doc == doc_view(nodes@),
            paths_and_titles(out@) == menu_from(doc, i as int),
            forall|k: int| 0 <= k < out@.len() ==> bare(#[trigger] out@[k]),
        decreases nodes.len() - i,
    {
        if let Some((path, title)) = entry_at(&nodes, i) {
            if !already_listed(&out, &path) {
                let ghost before = out@;
                out.push(WaterwaysSong {
                    path: string_of(&path),
                    title: string_of(&title),
                    author: None,
                    lyrics: None,
                    notes: Vec::new(),
                    recorded_by: Vec::new(),
                    audio_url: None,
                });
                assert(paths_and_titles(out@) =~= paths_and_titles(before).push((path@, title@)));
            }
        }
        i += 1;
    }
    out
}

// ============ Song pages ============

/// Whether node `k` is an element whose `class` attribute contains
/// `marker` anywhere: Xara writes the whole style cascade into it.
pub open spec fn class_has(doc: Seq<NodeView>, k: int, marker: Seq<char>) -> bool {
    attr_of(doc[k], "class"@) matches Some(c) && contains(c, marker)
}

/// `s` without its spaces.
pub open spec fn without_spaces(s: Seq<char>) -> Seq<char>
    decreases s.len(),
{
    if s.len() == 0 {
        s
    } else if s.last() == ' ' {
        without_spaces(s.drop_last())
    } else {
        without_spaces(s.drop_last()).push(s.last())
    }
}

/// Inline-styled `display: none`: a popup the page's script toggles.
pub open spec fn styled_hidden(doc: Seq<NodeView>, k: int) -> bool {
    attr_of(doc[k], "style"@) matches Some(st) && contains(without_spaces(st), "display:none"@)
}

/// The markers a Xara span is read by.
pub enum Marker {
    /// `display: none`.
    Hidden,
    /// A lyric line: marked as lyrics, not as the recorded-by credit nor the
    /// recordings list, and holding no span marked as notes.
    Lyrics,
    /// A note.
    Notes,
    /// The recorded-by credit or the recordings list.
    Recorded,
}

pub open spec fn notes_inside(doc: Seq<NodeView>, k: int) -> bool {
    exists|m: int| 0 <= m < all_matches(doc, k + 1, subtree_end(doc, k), Sel::Tag("span")).len()
        && class_has(doc, #[trigger] all_matches(doc, k + 1, subtree_end(doc, k), Sel::Tag("span"))[m], "XX-95Notes"@)
}

pub open spec fn marked(doc: Seq<NodeView>, k: int, m: Marker) -> bool {
    match m {
        Marker::Hidden => styled_hidden(doc, k),
        Marker::Lyrics => class_has(doc, k, "XX-95Lyrics"@) && !class_has(doc, k, "XX-95recorded-95by"@)
            && !class_has(doc, k, "XX-95recordings_list"@) && !notes_inside(doc, k),
        Marker::Notes => class_has(doc, k, "XX-95Notes"@),
        Marker::Recorded => class_has(doc, k, "XX-95recorded-95by"@) || class_has(doc, k, "XX-95recordings_list"@),
    }
}

/// Some element between `k` and `scope`, exclusive, carries marker `m`.
pub open spec fn marked_between(doc: Seq<NodeView>, scope: int, k: int, m: Marker) -> bool
    decreases k + 1,
{
    match parent_index(doc, k) {
        Some(p) => if 0 <= p < k && p != scope {
            (is_element(doc[p]) && marked(doc, p, m)) || marked_between(doc, scope, p, m)
        } else {
            false
        },
        None => false,
    }
}

/// The spans of the scope at `scope` that no hidden popup holds.
pub open spec fn visible_spans(doc: Seq<NodeView>, scope: int, ks: Seq<int>) -> Seq<int>
    decreases ks.len(),
{
    if ks.len() == 0 {
        Seq::empty()
    } else {
        let prev = visible_spans(doc, scope, ks.drop_last());
        let k = ks.last();
        if styled_hidden(doc, k) || marked_between(doc, scope, k, Marker::Hidden) {
            prev
        } else {
            prev.push(k)
        }
    }
}

/// The spans carrying `m` that no element carrying it holds: the outermost
/// match, so a line is not counted again as its own bold word.
pub open spec fn outermost(doc: Seq<NodeView>, scope: int, spans: Seq<int>, m: Marker) -> Seq<int>
    decreases spans.len(),
{
    if spans.len() == 0 {
        Seq::empty()
    } else {
        let prev = outermost(doc, scope, spans.drop_last(), m);
        let k = spans.last();
        if marked(doc, k, m) && !marked_between(doc, scope, k, m) {
            prev.push(k)
        } else {
            prev
        }
    }
}

pub open spec fn lines_of(doc: Seq<NodeView>, ks: Seq<int>) -> Seq<Seq<char>> {
    ks.map_values(|k: int| squashed(inner_text(doc, k)))
}

/// The first copy of the article Xara emits per layout: the first `div`
/// whose class holds `xr_xrc`, else the root element.
pub open spec fn first_scope_from(doc: Seq<NodeView>, k: int) -> Option<int>
    decreases doc.len() - k,
{
    if k < 0 || k >= doc.len() {
        None
    } else if is_named(doc[k], "div"@) && class_has(doc, k, "xr_xrc"@) {
        Some(k)
    } else {
        first_scope_from(doc, k + 1)
    }
}

pub open spec fn root_from(doc: Seq<NodeView>, k: int) -> Option<int>
    decreases doc.len() - k,
{
    if k < 0 || k >= doc.len() {
        None
    } else if is_element(doc[k]) && doc[k].depth == 1 {
        Some(k)
    } else {
        root_from(doc, k + 1)
    }
}

pub open spec fn scope_of(doc: Seq<NodeView>) -> Option<int> {
    match first_scope_from(doc, 0) {
        Some(k) => Some(k),
        None => root_from(doc, 0),
    }
}

/// The author line: `by ` dropped, then any copyright notice.
pub open spec fn author_of(line: Seq<char>) -> Seq<char> {
    without_copyright(if starts_with(line, "by "@) { line.skip(3) } else { line })
}

/// The lines that are not blank, do not start `Recorded on`, are not the
/// author and are not lyric lines.
pub open spec fn notes_kept(lines: Seq<Seq<char>>, author: Option<Seq<char>>, lyrics: Seq<Seq<char>>) -> Seq<Seq<char>>
    decreases lines.len(),
{
    if lines.len() == 0 {
        Seq::empty()
    } else {
        let prev = notes_kept(lines.drop_last(), author, lyrics);
        let l = lines.last();
        if l.len() > 0 && !starts_with(l, "Recorded on"@) && author != Some(l) && !lyrics.contains(l) {
            prev.push(l)
        } else {
            prev
        }
    }
}

/// The credits, each once, blanks dropped.
pub open spec fn credits_kept(lines: Seq<Seq<char>>) -> Seq<Seq<char>>
    decreases lines.len(),
{
    if lines.len() == 0 {
        Seq::empty()
    } else {
        let prev = credits_kept(lines.drop_last());
        let l = lines.last();
        if l.len() > 0 && !prev.contains(l) {
            prev.push(l)
        } else {
            prev
        }
    }
}

/// The audio the page embeds: the first `audio` element's `src`, else its
/// first `source`'s, resolved and made a full URL on the site.
pub open spec fn audio_of(doc: Seq<NodeView>, path: Seq<char>) -> Option<Seq<char>> {
    match first_match(doc, 0, doc.len() as int, Sel::Tag("audio")) {
        Some(a) => {
            let src = match attr_of(doc[a], "src"@) {
                Some(s) => Some(s),
                None => match first_match(doc, a + 1, subtree_end(doc, a), Sel::Tag("source")) {
                    Some(so) => attr_of(doc[so], "src"@),
                    None => None,
                },
            };
            match src {
                Some(s) => {
                    let r = resolved_path(s, path);
                    Some(if is_full_url(r) { r } else { base_url_of(Source::Waterways) + r })
                },
                None => None,
            }
        },
        None => None,
    }
}

/// A song page as its parts: the title, and within the scope the author,
/// lyric lines, notes and recorded-by credits.
pub struct WaterwaysView {
    pub path: Seq<char>,
    pub title: Seq<char>,
    pub author: Option<Seq<char>>,
    pub lyrics: Option<Seq<char>>,
    pub notes: Seq<Seq<char>>,
    pub recorded_by: Seq<Seq<char>>,
    pub audio_url: Option<Seq<char>>,
}

pub open spec fn waterways_song_of(doc: Seq<NodeView>, t: int, path: Seq<char>) -> WaterwaysView {
    let spans = match scope_of(doc) {
        Some(sc) => visible_spans(doc, sc, all_matches(doc, sc + 1, subtree_end(doc, sc), Sel::Tag("span"))),
        None => Seq::empty(),
    };
    let sc = match scope_of(doc) {
        Some(sc) => sc,
        None => -1,
    };
    let author_span = first_marked(doc, spans, "XX-95Author"@);
    let author = match author_span {
        Some(k) => present(author_of(squashed(inner_text(doc, k)))),
        None => None,
    };
    let lyric_lines = lines_of(doc, outermost(doc, sc, spans, Marker::Lyrics));
    WaterwaysView {
        path,
        title: squashed(inner_text(doc, t)),
        author,
        lyrics: if lyric_lines.len() > 0 { Some(join(lyric_lines, seq!['\n'])) } else { None },
        notes: notes_kept(lines_of(doc, outermost(doc, sc, spans, Marker::Notes)), author, lyric_lines),
        recorded_by: credits_kept(lines_of(doc, outermost(doc, sc, spans, Marker::Recorded))),
        audio_url: audio_of(doc, path),
    }
}

proof fn lemma_outermost_keeps(doc: Seq<NodeView>, scope: int, spans: Seq<int>, m: Marker, idx: int)
    requires
        0 <= idx < spans.len(),
        marked(doc, spans[idx], m),
        !marked_between(doc, scope, spans[idx], m),
    ensures
        outermost(doc, scope, spans, m).contains(spans[idx]),
    decreases spans.len(),
{
    let prev = outermost(doc, scope, spans.drop_last(), m);
    if idx == spans.len() - 1 {
        assert(outermost(doc, scope, spans, m) == prev.push(spans[idx]));
        assert(prev.push(spans[idx])[prev.len() as int] == spans[idx]);
    } else {
        assert(spans.drop_last()[idx] == spans[idx]);
        lemma_outermost_keeps(doc, scope, spans.drop_last(), m, idx);
        let w = choose|w: int| 0 <= w < prev.len() && prev[w] == spans[idx];
        let out = outermost(doc, scope, spans, m);
        assert(out == prev || out == prev.push(spans.last()));
        assert(out[w] == prev[w]);
    }
}

proof fn lemma_credits_keep(lines: Seq<Seq<char>>, l: Seq<char>)
    requires
        lines.contains(l),
        l.len() > 0,
    ensures
        credits_kept(lines).contains(l),
    decreases lines.len(),
{
    let prev = credits_kept(lines.drop_last());
    let out = credits_kept(lines);
    assert(out == prev || out == prev.push(lines.last()));
    if lines.last() == l {
        if !prev.contains(l) {
            assert(out == prev.push(l));
            assert(out[prev.len() as int] == l);
        } else {
            let w = choose|w: int| 0 <= w < prev.len() && prev[w] == l;
            assert(out[w] == prev[w]);
        }
    } else {
        let i = choose|i: int| 0 <= i < lines.len() && lines[i] == l;
        assert(i < lines.len() - 1);
        assert(lines.drop_last()[i] == l);
        lemma_credits_keep(lines.drop_last(), l);
        let w = choose|w: int| 0 <= w < prev.len() && prev[w] == l;
        assert(out[w] == prev[w]);
    }
}

/// Every recordings list and recorded-by credit on a song page is credited:
/// a visible span of the page's scope whose class holds
/// `XX-95recordings_list` or `XX-95recorded-95by`, held by no other such
/// element below the scope, gives its text, squashed, to `recorded_by`
/// unless that text is blank.
pub proof fn law_recordings_lists_are_credited(doc: Seq<NodeView>, t: int, path: Seq<char>, k: int)
    requires
        scope_of(doc) matches Some(sc) && visible_spans(
            doc,
            sc,
            all_matches(doc, sc + 1, subtree_end(doc, sc), Sel::Tag("span")),
        ).contains(k) && !marked_between(doc, sc, k, Marker::Recorded),
        class_has(doc, k, seq!['X', 'X', '-', '9', '5', 'r', 'e', 'c', 'o', 'r', 'd', 'i', 'n', 'g', 's', '_', 'l', 'i', 's', 't'])
            || class_has(doc, k, seq!['X', 'X', '-', '9', '5', 'r', 'e', 'c', 'o', 'r', 'd', 'e', 'd', '-', '9', '5', 'b', 'y']),
        squashed(inner_text(doc, k)).len() > 0,
    ensures
        waterways_song_of(doc, t, path).recorded_by.contains(squashed(inner_text(doc, k))),
{
    reveal_strlit("XX-95recordings_list");
    reveal_strlit("XX-95recorded-95by");
    assert("XX-95recordings_list"@ =~= seq!['X', 'X', '-', '9', '5', 'r', 'e', 'c', 'o', 'r', 'd', 'i', 'n', 'g', 's', '_', 'l', 'i', 's', 't']);
    assert("XX-95recorded-95by"@ =~= seq!['X', 'X', '-', '9', '5', 'r', 'e', 'c', 'o', 'r', 'd', 'e', 'd', '-', '9', '5', 'b', 'y']);
    let sc = scope_of(doc)->0;
    let spans = visible_spans(doc, sc, all_matches(doc, sc + 1, subtree_end(doc, sc), Sel::Tag("span")));
    assert(marked(doc, k, Marker::Recorded));
    let idx = choose|i: int| 0 <= i < spans.len() && spans[i] == k;
    lemma_outermost_keeps(doc, sc, spans, Marker::Recorded, idx);
    let ks = outermost(doc, sc, spans, Marker::Recorded);
    let w = choose|w: int| 0 <= w < ks.len() && ks[w] == k;
    let lines = lines_of(doc, ks);
    assert(lines[w] == squashed(inner_text(doc, k)));
    lemma_credits_keep(lines, squashed(inner_text(doc, k)));
}

/// The first of `spans` whose class holds `marker`.
pub open spec fn first_marked(doc: Seq<NodeView>, spans: Seq<int>, marker: Seq<char>) -> Option<int>
    decreases spans.len(),
{
    if spans.len() == 0 {
        None
    } else if class_has(doc, spans[0], marker) {
        Some(spans[0])
    } else {
        first_marked(doc, spans.drop_first(), marker)
    }
}

pub open spec fn waterways_view(s: WaterwaysSong) -> WaterwaysView {
    WaterwaysView {
        path: s.path@,
        title: s.title@,
        author: opt_view(s.author),
        lyrics: opt_view(s.lyrics),
        notes: strs(s.notes@),
        recorded_by: strs(s.recorded_by@),
        audio_url: opt_view(s.audio_url),
    }
}

fn class_holds(nodes: &Vec<DomNode>, k: usize, marker: &str) -> (r: bool)
    requires
        k < nodes.len(),
    ensures
        r == class_has(doc_view(nodes@), k as int, marker@),
{
    let ghost doc = doc_view(nodes@);
    assert(doc[k as int] == nodes@[k as int]@);
    match attr(&nodes[k], "class") {
        Some(c) => contains_chars(&chars_of(c.as_str()), &chars_of(marker)),
        None => false,
    }
}

fn strip_spaces(v: &Vec<char>) -> (r: Vec<char>)
    ensures
        r@ == without_spaces(v@),
{
    let mut out: Vec<char> = Vec::new();
    let mut i: usize = 0;
    while i < v.len()
        invariant
            i <= v.len(),
            out@ == without_spaces(v@.take(i as int)),
        decreases v.len() - i,
    {
        assert(v@.take(i + 1).drop_last() =~= v@.take(i as int));
        assert(v@.take(i + 1).last() == v@[i as int]);
        if v[i] != ' ' {
            out.push(v[i]);
        }
        i += 1;
    }
    assert(v@.take(v.len() as int) =~= v@);
    out
}

fn hidden(nodes: &Vec<DomNode>, k: usize) -> (r: bool)
    requires
        k < nodes.len(),
    ensures
        r == styled_hidden(doc_view(nodes@), k as int),
{
    let ghost doc = doc_view(nodes@);
    assert(doc[k as int] == nodes@[k as int]@);
    match attr(&nodes[k], "style") {
        Some(st) => contains_chars(&strip_spaces(&chars_of(st.as_str())), &chars_of("display:none")),
        None => false,
    }
}

fn holds_notes(nodes: &Vec<DomNode>, k: usize) -> (r: bool)
    requires
        k < nodes.len(),
    ensures
        r == notes_inside(doc_view(nodes@), k as int),
{
    let ghost doc = doc_view(nodes@);
    let e = end_of(nodes, k);
    let spans = select_all(nodes, k + 1, e, &Sel::Tag("span"));
    let ghost sv = as_ints(spans@);
    let mut m: usize = 0;
    while m < spans.len()
        invariant
            m <= spans.len(),
            doc == doc_view(nodes@),
            sv == as_ints(spans@),
            sv == all_matches(doc, k + 1, subtree_end(doc, k as int), Sel::Tag("span")),
            forall|x: int| 0 <= x < spans@.len() ==> k + 1 <= #[trigger] spans@[x] < e,
            e <= nodes.len(),
            forall|j: int| 0 <= j < m ==> !class_has(doc, #[trigger] sv[j], "XX-95Notes"@),
        decreases spans.len() - m,
    {
        assert(sv[m as int] == spans@[m as int] as int);
        if class_holds(nodes, spans[m], "XX-95Notes") {
            return true;
        }
        m += 1;
    }
    false
}

fn is_marked(nodes: &Vec<DomNode>, k: usize, m: &Marker) -> (r: bool)
    requires
        k < nodes.len(),
    ensures
        r == marked(doc_view(nodes@), k as int, *m),
{
    match m {
        Marker::Hidden => hidden(nodes, k),
        Marker::Lyrics => class_holds(nodes, k, "XX-95Lyrics") && !class_holds(nodes, k, "XX-95recorded-95by")
            && !class_holds(nodes, k, "XX-95recordings_list") && !holds_notes(nodes, k),
        Marker::Notes => class_holds(nodes, k, "XX-95Notes"),
        Marker::Recorded => class_holds(nodes, k, "XX-95recorded-95by") || class_holds(nodes, k, "XX-95recordings_list"),
    }
}

fn marked_above(nodes: &Vec<DomNode>, scope: usize, k: usize, m: &Marker) -> (r: bool)
    requires
        k < nodes.len(),
    ensures
        r == marked_between(doc_view(nodes@), scope as int, k as int, *m),
{
    let ghost doc = doc_view(nodes@);
    let mut j = k;
    loop
        invariant
            j <= k < nodes.len(),
            doc == doc_view(nodes@),
            marked_between(doc, scope as int, k as int, *m) == marked_between(doc, scope as int, j as int, *m),
        decreases j,
    {
        match parent_of(nodes, j) {
            Some(p) => {
                if p == scope {
                    return false;
                }
                assert(doc[p as int] == nodes@[p as int]@);
                let element = match &nodes[p].kind {
                    NodeKind::Element { .. } => true,
                    _ => false,
                };
                if element && is_marked(nodes, p, m) {
                    return true;
                }
                j = p;
            },
            None => {
                return false;
            },
        }
    }
}

fn spans_shown(nodes: &Vec<DomNode>, scope: usize) -> (r: Vec<usize>)
    requires
        scope < nodes.len(),
    ensures
        as_ints(r@) == visible_spans(doc_view(nodes@), scope as int, all_matches(doc_view(nodes@), scope + 1, subtree_end(doc_view(nodes@), scope as int), Sel::Tag("span"))),
        forall|x: int| 0 <= x < r@.len() ==> #[trigger] r@[x] < nodes@.len(),
{
    let ghost doc = doc_view(nodes@);
    let e = end_of(nodes, scope);
    let spans = select_all(nodes, scope + 1, e, &Sel::Tag("span"));
    let ghost sv = as_ints(spans@);
    let mut out: Vec<usize> = Vec::new();
    let mut q: usize = 0;
    while q < spans.len()
        invariant
            q <= spans.len(),
            doc == doc_view(nodes@),
            sv == as_ints(spans@),
            forall|x: int| 0 <= x < spans@.len() ==> scope + 1 <= #[trigger] spans@[x] < e,
            e <= nodes.len(),
            as_ints(out@) == visible_spans(doc, scope as int, sv.take(q as int)),
            forall|x: int| 0 <= x < out@.len() ==> #[trigger] out@[x] < nodes@.len(),
        decreases spans.len() - q,
    {
        let k = spans[q];
        assert(sv[q as int] == k as int);
        assert(sv.take(q + 1).drop_last() =~= sv.take(q as int));
        assert(sv.take(q + 1).last() == k as int);
        let ghost before = out@;
        if !(hidden(nodes, k) || marked_above(nodes, scope, k, &Marker::Hidden)) {
            out.push(k);
            assert(as_ints(out@) =~= as_ints(before).push(k as int));
        }
        q += 1;
    }
    assert(sv.take(spans.len() as int) =~= sv);
    out
}

fn outermost_of(nodes: &Vec<DomNode>, scope: usize, spans: &Vec<usize>, m: &Marker) -> (r: Vec<Vec<char>>)
    requires
        forall|x: int| 0 <= x < spans@.len() ==> #[trigger] spans@[x] < nodes@.len(),
    ensures
        views(r@) == lines_of(doc_view(nodes@), outermost(doc_view(nodes@), scope as int, as_ints(spans@), *m)),
{
    let ghost doc = doc_view(nodes@);
    let ghost sv = as_ints(spans@);
    let mut out: Vec<Vec<char>> = Vec::new();
    let mut q: usize = 0;
    while q < spans.len()
        invariant
            q <= spans.len(),
            doc == doc_view(nodes@),
            sv == as_ints(spans@),
            forall|x: int| 0 <= x < spans@.len() ==> #[trigger] spans@[x] < nodes@.len(),
            views(out@) == lines_of(doc, outermost(doc, scope as int, sv.take(q as int), *m)),
        decreases spans.len() - q,
    {
        let k = spans[q];
        assert(sv[q as int] == k as int);
        assert(sv.take(q + 1).drop_last() =~= sv.take(q as int));
        assert(sv.take(q + 1).last() == k as int);
        let ghost before = views(out@);
        if is_marked(nodes, k, m) && !marked_above(nodes, scope, k, m) {
            let line = squash_chars(&text_under(nodes, k));
            out.push(line);
            assert(views(out@) =~= before.push(line@));
            assert(lines_of(doc, outermost(doc, scope as int, sv.take(q + 1), *m)) =~= lines_of(doc, outermost(doc, scope as int, sv.take(q as int), *m)).push(line@));
        }
        q += 1;
    }
    assert(sv.take(spans.len() as int) =~= sv);
    out
}

fn first_scope(nodes: &Vec<DomNode>) -> (r: Option<usize>)
    ensures
        match r {
            Some(k) => scope_of(doc_view(nodes@)) == Some(k as int) && k < nodes.len(),
            None => scope_of(doc_view(nodes@)) is None,
        },
{
    let ghost doc = doc_view(nodes@);
    let mut k: usize = 0;
    while k < nodes.len()
        invariant
            k <= nodes.len(),
            doc == doc_view(nodes@),
            first_scope_from(doc, 0) == first_scope_from(doc, k as int),
        decreases nodes.len() - k,
    {
        assert(doc[k as int] == nodes@[k as int]@);
        if is_elem(&nodes[k], "div") && class_holds(nodes, k, "xr_xrc") {
            return Some(k);
        }
        k += 1;
    }
    let mut j: usize = 0;
    while j < nodes.len()
        invariant
            j <= nodes.len(),
            doc == doc_view(nodes@),
            first_scope_from(doc, 0) is None,
            root_from(doc, 0) == root_from(doc, j as int),
        decreases nodes.len() - j,
    {
        assert(doc[j as int] == nodes@[j as int]@);
        let element = match &nodes[j].kind {
            NodeKind::Element { .. } => true,
            _ => false,
        };
        if element && nodes[j].depth == 1 {
            return Some(j);
        }
        j += 1;
    }
    None
}

fn first_with_class(nodes: &Vec<DomNode>, spans: &Vec<usize>, marker: &str) -> (r: Option<usize>)
    requires
        forall|x: int| 0 <= x < spans@.len() ==> #[trigger] spans@[x] < nodes@.len(),
    ensures
        match r {
            Some(k) => first_marked(doc_view(nodes@), as_ints(spans@), marker@) == Some(k as int) && k < nodes.len(),
            None => first_marked(doc_view(nodes@), as_ints(spans@), marker@) is None,
        },
{
    let ghost doc = doc_view(nodes@);
    let ghost sv = as_ints(spans@);
    assert(sv.skip(0) =~= sv);
    let mut q: usize = 0;
    while q < spans.len()
        invariant
            q <= spans.len(),
            doc == doc_view(nodes@),
            sv == as_ints(spans@),
            forall|x: int| 0 <= x < spans@.len() ==> #[trigger] spans@[x] < nodes@.len(),
            first_marked(doc, sv, marker@) == first_marked(doc, sv.skip(q as int), marker@),
        decreases spans.len() - q,
    {
        let k = spans[q];
        assert(sv.skip(q as int)[0] == k as int);
        assert(sv.skip(q as int).drop_first() =~= sv.skip(q + 1));
        if class_holds(nodes, k, marker) {
            return Some(k);
        }
        q += 1;
    }
    assert(sv.skip(q as int) =~= Seq::<int>::empty());
    None
}

fn lines_contain(lines: &Vec<Vec<char>>, l: &Vec<char>) -> (r: bool)
    ensures
        r == views(lines@).contains(l@),
{
    let ghost lv = views(lines@);
    let mut m: usize = 0;
    while m < lines.len()
        invariant
            m <= lines.len(),
            lv == views(lines@),
            forall|j: int| 0 <= j < m ==> lv[j] != l@,
        decreases lines.len() - m,
    {
        assert(lv[m as int] == lines@[m as int]@);
        if crate::text::same(&lines[m], l) {
            return true;
        }
        m += 1;
    }
    false
}

fn keep_notes(lines: &Vec<Vec<char>>, author: &Option<String>, lyrics: &Vec<Vec<char>>) -> (r: Vec<String>)
    ensures
        strs(r@) == notes_kept(views(lines@), opt_view(*author), views(lyrics@)),
{
    let ghost lv = views(lines@);
    let mut out: Vec<String> = Vec::new();
    let mut m: usize = 0;
    while m < lines.len()
        invariant
            m <= lines.len(),
            lv == views(lines@),
            strs(out@) == notes_kept(lv.take(m as int), opt_view(*author), views(lyrics@)),
        decreases lines.len() - m,
    {
        let l = &lines[m];
        assert(lv.take(m + 1).drop_last() =~= lv.take(m as int));
        assert(lv.take(m + 1).last() == l@);
        let is_author = match author {
            Some(a) => crate::text::same(&chars_of(a.as_str()), l),
            None => false,
        };
        let ghost before = out@;
        if l.len() > 0 && !has_prefix(l, &chars_of("Recorded on")) && !is_author && !lines_contain(lyrics, l) {
            let st = string_of(l);
            out.push(st);
            assert(strs(out@) =~= strs(before).push(l@));
        }
        m += 1;
    }
    assert(lv.take(lines.len() as int) =~= lv);
    out
}

fn strings_contain(v: &Vec<String>, l: &Vec<char>) -> (r: bool)
    ensures
        r == strs(v@).contains(l@),
{
    let ghost sv = strs(v@);
    let mut m: usize = 0;
    while m < v.len()
        invariant
            m <= v.len(),
            sv == strs(v@),
            forall|j: int| 0 <= j < m ==> sv[j] != l@,
        decreases v.len() - m,
    {
        assert(sv[m as int] == v@[m as int]@);
        if crate::text::same(&chars_of(v[m].as_str()), l) {
            return true;
        }
        m += 1;
    }
    false
}

fn keep_credits(lines: &Vec<Vec<char>>) -> (r: Vec<String>)
    ensures
        strs(r@) == credits_kept(views(lines@)),
{
    let ghost lv = views(lines@);
    let mut out: Vec<String> = Vec::new();
    let mut m: usize = 0;
    while m < lines.len()
        invariant
            m <= lines.len(),
            lv == views(lines@),
            strs(out@) == credits_kept(lv.take(m as int)),
        decreases lines.len() - m,
    {
        let l = &lines[m];
        assert(lv.take(m + 1).drop_last() =~= lv.take(m as int));
        assert(lv.take(m + 1).last() == l@);
        let ghost before = out@;
        if l.len() > 0 && !strings_contain(&out, l) {
            let st = string_of(l);
            out.push(st);
            assert(strs(out@) =~= strs(before).push(l@));
        }
        m += 1;
    }
    assert(lv.take(lines.len() as int) =~= lv);
    out
}

fn audio(nodes: &Vec<DomNode>, path: &str) -> (r: Option<String>)
    ensures
        opt_view(r) == audio_of(doc_view(nodes@), path@),
{
    let ghost doc = doc_view(nodes@);
    let a = match find_match(nodes, 0, nodes.len(), &Sel::Tag("audio")) {
        Some(a) => a,
        None => return None,
    };
    assert(doc[a as int] == nodes@[a as int]@);
    let src = match attr(&nodes[a], "src") {
        Some(s) => Some(s),
        None => {
            let e = end_of(nodes, a);
            match find_match(nodes, a + 1, e, &Sel::Tag("source")) {
                Some(so) => {
                    assert(doc[so as int] == nodes@[so as int]@);
                    attr(&nodes[so], "src")
                },
                None => None,
            }
        },
    };
    match src {
        Some(s) => {
            let r = resolve_chars(&chars_of(s.as_str()), &chars_of(path));
            if crate::parse::book::is_absolute(string_of(&r).as_str()) {
                Some(string_of(&r))
            } else {
                let mut full = chars_of(Source::Waterways.base_url());
                let mut rest = r;
                full.append(&mut rest);
                Some(string_of(&full))
            }
        },
        None => None,
    }
}

fn author_line(line: Vec<char>) -> (r: Option<String>)
    ensures
        opt_view(r) == present(author_of(line@)),
{
    let by = chars_of("by ");
    proof {
        reveal_strlit("by ");
    }
    let rest = if has_prefix(&line, &by) {
        let r = slice_copy(&line, 3, line.len());
        assert(r@ =~= line@.skip(3));
        r
    } else {
        line
    };
    let a = strip_copyright(string_of(&rest).as_str());
    if a.unicode_len() == 0 {
        None
    } else {
        Some(a)
    }
}

/// A waterwaysongs.info song page: the `title` gives the title; within the
/// first layout copy of the article, visible spans give the author line,
/// the lyric lines, the notes and the recorded-by credits, each counted at
/// its outermost span; the page's audio gives the recording.
pub fn song(html: &str, path: &str) -> (r: Result<WaterwaysSong, Error>)
    ensures
        ({
            let doc = parsed_document(html@);
            match first_match(doc, 0, doc.len() as int, Sel::Tag("title")) {
                Some(t) => r matches Ok(s) && waterways_view(s) == waterways_song_of(doc, t, path@),
                None => r matches Err(Error::Parse { what, url }) && what@ == "waterways song"@ && url@ == path@,
            }
        }),
{
    let nodes = parse_html(html);
    let ghost doc = doc_view(nodes@);
    let t = match find_match(&nodes, 0, nodes.len(), &Sel::Tag("title")) {
        Some(t) => t,
        None => return Err(Error::Parse { what: "waterways song", url: String::from_str(path) }),
    };
    let title = string_of(&squash_chars(&text_under(&nodes, t)));
    let scope = first_scope(&nodes);
    let (sc, spans) = match scope {
        Some(sc) => (sc, spans_shown(&nodes, sc)),
        None => (usize::MAX, Vec::new()),
    };
    proof {
        if scope is None {
            assert(as_ints(spans@) =~= Seq::<int>::empty());
        }
    }
    let ghost scv: int = match scope_of(doc) {
        Some(x) => x,
        None => -1,
    };
    let author = match first_with_class(&nodes, &spans, "XX-95Author") {
        Some(k) => author_line(squash_chars(&text_under(&nodes, k))),
        None => None,
    };
    let lyric_lines = outermost_of(&nodes, sc, &spans, &Marker::Lyrics);
    let note_lines = outermost_of(&nodes, sc, &spans, &Marker::Notes);
    let credit_lines = outermost_of(&nodes, sc, &spans, &Marker::Recorded);
    let lyrics = if lyric_lines.len() > 0 {
        let mut nl: Vec<char> = Vec::new();
        nl.push('\n');
        Some(string_of(&join_parts(&lyric_lines, &nl)))
    } else {
        None
    };
    let notes = keep_notes(&note_lines, &author, &lyric_lines);
    let recorded_by = keep_credits(&credit_lines);
    let audio_url = audio(&nodes, path);
    let s = WaterwaysSong { path: String::from_str(path), title, author, lyrics, notes, recorded_by, audio_url };
    Ok(s)
}

} // verus!
