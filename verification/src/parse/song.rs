//! A song page's text: the bracketed reference line, the breadcrumb's
//! attributions, and the performer and year a prose sentence names.
use vstd::prelude::*;

use crate::client::{lemma_least_occurrence, resolve_chars, resolve_path, resolved_path};
use crate::parse::artist::children_between;
use crate::mcp::graphql::query::digit_run_len;
use crate::dom::{
    all_matches, ancestor_matches, as_ints, attr, attr_of, doc_view, end_of, find_match,
    first_match, has_ancestor, has_class, has_class_attr, inner_text, is_elem, is_element,
    is_named, lemma_all_matches, lemma_first_match, parse_html, parsed_document, select_all,
    sel_matches, selects, subtree_end, text_under, DomNode, KindView, NodeKind, NodeView, Sel,
};
use crate::error::Error;
use crate::models::{Attribution, BookRef, Link, LyricVersion, Note, Recording, Song, SongRefs, Source};
use crate::parse::book::{earlier_siblings, later_siblings, siblings_after, siblings_before};
use crate::parse::title_parts;
use crate::parse::book::{opt_view, present};
use crate::parse::{is_real_reference, is_reference_value, strings_of};
use crate::text::{
    chars_of, contains, contains_chars, drop_empty, drop_empty_parts, ends_with, find, find_first, occurs_at,
    has_prefix, has_suffix, is_ascii_digit, join, join_parts, same, slice_copy, split, split_on, squash_chars,
    squashed, starts_with, string_of, strs, trim, trim_by, trim_chars, trim_each, trim_end_by,
    trim_end_chars, trim_parts, trim_start_by, trim_start_chars, reversed, views, Strip,
};

verus! {

/// A reference clause's value, cut off before a trailing ` / ` aside and
/// trimmed.
pub open spec fn cut_of(value: Seq<char>) -> Seq<char> {
    match find_first(value, " / "@) {
        Some(i) => trim(value.take(i)),
        None => trim(value),
    }
}

fn cut_chars(v: &[char]) -> (r: Vec<char>)
    ensures
        r@ == cut_of(v@),
{
    let sep = chars_of(" / ");
    proof {
        reveal_strlit(" / ");
    }
    match find(v, &sep) {
        Some(i) => trim_chars(&slice_copy(v, 0, i)),
        None => trim_chars(v),
    }
}

/// Cuts a reference clause's value off before a trailing `/ Song Subject
/// ...` aside: the one place the archive appends prose to a value.
pub fn cut_at_slash(value: &str) -> (r: String)
    ensures
        r@ == cut_of(value@),
{
    string_of(&cut_chars(&chars_of(value)))
}

/// The values of `xs` that are real references, in order.
pub open spec fn real_references(xs: Seq<Seq<char>>) -> Seq<Seq<char>>
    decreases xs.len(),
{
    if xs.len() == 0 {
        xs
    } else {
        let prev = real_references(xs.drop_last());
        if is_real_reference(xs.last()) {
            prev.push(xs.last())
        } else {
            prev
        }
    }
}

/// The values a clause lists: cut at ` / `, split on commas, trimmed, and
/// only real references kept, so that a blank or the bare dash the archive
/// writes for "no number" is stored as nothing.
pub open spec fn values_of(value: Seq<char>) -> Seq<Seq<char>> {
    real_references(drop_empty(trim_each(split(cut_of(value), ","@))))
}

fn real_values(xs: Vec<String>) -> (r: Vec<String>)
    ensures
        strs(r@) == real_references(strs(xs@)),
{
    let ghost all = strs(xs@);
    let n = xs.len();
    let mut rest = reversed(xs);
    assert forall|k: int| 0 <= k < rest@.len() implies #[trigger] rest@[k]@ == all[n - 1 - k] by {}
    let mut out: Vec<String> = Vec::new();
    let mut i: usize = 0;
    while i < n
        invariant
            i <= n,
            n == all.len(),
            rest@.len() == n - i,
            forall|k: int| 0 <= k < rest@.len() ==> #[trigger] rest@[k]@ == all[n - 1 - k],
            strs(out@) == real_references(all.take(i as int)),
        decreases n - i,
    {
        let v = rest.pop().unwrap();
        assert(v@ == all[i as int]);
        assert(all.take(i + 1).drop_last() =~= all.take(i as int));
        if is_reference_value(v.as_str()) {
            let ghost before = strs(out@);
            out.push(v);
            assert(strs(out@) =~= before.push(all[i as int]));
        }
        i += 1;
    }
    assert(all.take(n as int) =~= all);
    out
}

fn values_chars(v: &[char]) -> (r: Vec<String>)
    ensures
        strs(r@) == values_of(v@),
{
    let comma = chars_of(",");
    proof {
        reveal_strlit(",");
    }
    assert(comma@.len() == 1);
    let kept = drop_empty_parts(trim_parts(&split_on(&cut_chars(v), &comma)));
    let r = strings_of(&kept);
    assert(strs(r@) =~= views(kept@));
    real_values(r)
}

/// Append the values a clause lists to `target`.
pub fn push_values(target: &mut Vec<String>, value: &str)
    ensures
        strs(final(target)@) == strs(old(target)@) + values_of(value@),
{
    let mut more = values_chars(&chars_of(value));
    let ghost added = strs(more@);
    let ghost before = old(target)@;
    target.append(&mut more);
    assert(strs(target@) =~= strs(before) + added);
}

/// The reference numbers, with every text as characters.
#[verifier::ext_equal]
pub struct RefsView {
    pub roud: Seq<Seq<char>>,
    pub child: Seq<Seq<char>>,
    pub laws: Seq<Seq<char>>,
    pub greig_duncan: Seq<Seq<char>>,
    pub henry: Seq<Seq<char>>,
    pub ballad_index: Option<Seq<char>>,
    pub vwml: Seq<Seq<char>>,
    pub master_title: Option<Seq<char>>,
}

pub open spec fn refs_view(r: SongRefs) -> RefsView {
    RefsView {
        roud: strs(r.roud@),
        child: strs(r.child@),
        laws: strs(r.laws@),
        greig_duncan: strs(r.greig_duncan@),
        henry: strs(r.henry@),
        ballad_index: opt_view(r.ballad_index),
        vwml: strs(r.vwml@),
        master_title: opt_view(r.master_title),
    }
}

pub open spec fn no_refs() -> RefsView {
    RefsView {
        roud: Seq::empty(),
        child: Seq::empty(),
        laws: Seq::empty(),
        greig_duncan: Seq::empty(),
        henry: Seq::empty(),
        ballad_index: None,
        vwml: Seq::empty(),
        master_title: None,
    }
}

/// What one `;`-separated clause adds: `Master title:` sets the master
/// title, `Ballad Index ` the first Ballad Index code, and `G/D `, `Roud `,
/// `Child `, `Laws `, `Henry `, `VWML ` append their values. Anything else
/// adds nothing.
pub open spec fn apply_clause(r: RefsView, raw: Seq<char>) -> RefsView {
    let part = trim(raw);
    if starts_with(part, "Master title:"@) {
        RefsView { master_title: Some(trim(part.skip(13))), ..r }
    } else if starts_with(part, "Ballad Index "@) {
        if r.ballad_index is None {
            RefsView { ballad_index: Some(cut_of(part.skip(13))), ..r }
        } else {
            r
        }
    } else if starts_with(part, "G/D "@) {
        RefsView { greig_duncan: r.greig_duncan + values_of(part.skip(4)), ..r }
    } else if starts_with(part, "Roud "@) {
        RefsView { roud: r.roud + values_of(part.skip(5)), ..r }
    } else if starts_with(part, "Child "@) {
        RefsView { child: r.child + values_of(part.skip(6)), ..r }
    } else if starts_with(part, "Laws "@) {
        RefsView { laws: r.laws + values_of(part.skip(5)), ..r }
    } else if starts_with(part, "Henry "@) {
        RefsView { henry: r.henry + values_of(part.skip(6)), ..r }
    } else if starts_with(part, "VWML "@) {
        RefsView { vwml: r.vwml + values_of(part.skip(5)), ..r }
    } else {
        r
    }
}

/// The references the clauses give, applied in order.
pub open spec fn refs_after(parts: Seq<Seq<char>>) -> RefsView
    decreases parts.len(),
{
    if parts.len() == 0 {
        no_refs()
    } else {
        apply_clause(refs_after(parts.drop_last()), parts.last())
    }
}

/// The reference line's text inside its brackets.
pub open spec fn bracket_inner(text: Seq<char>) -> Seq<char> {
    trim_end_by(trim_start_by(trim(squashed(text)), Strip::Ch('[')), Strip::Ch(']'))
}

fn prefixed(part: &[char], p: &str) -> (r: Option<Vec<char>>)
    ensures
        match r {
            Some(rest) => starts_with(part@, p@) && rest@ == part@.skip(p@.len() as int),
            None => !starts_with(part@, p@),
        },
{
    let pv = chars_of(p);
    if has_prefix(part, &pv) {
        let rest = slice_copy(part, pv.len(), part.len());
        assert(rest@ =~= part@.skip(p@.len() as int));
        Some(rest)
    } else {
        None
    }
}

proof fn reveal_clause_heads()
    ensures
        "Master title:"@.len() == 13,
        "Ballad Index "@.len() == 13,
        "G/D "@.len() == 4,
        "Roud "@.len() == 5,
        "Child "@.len() == 6,
        "Laws "@.len() == 5,
        "Henry "@.len() == 6,
        "VWML "@.len() == 5,
{
    reveal_strlit("Master title:");
    reveal_strlit("Ballad Index ");
    reveal_strlit("G/D ");
    reveal_strlit("Roud ");
    reveal_strlit("Child ");
    reveal_strlit("Laws ");
    reveal_strlit("Henry ");
    reveal_strlit("VWML ");
}

fn apply_list(target: &mut Vec<String>, rest: &Vec<char>)
    ensures
        strs(final(target)@) == strs(old(target)@) + values_of(rest@),
{
    push_values(target, string_of(rest).as_str());
}

/// Apply one clause of the reference line to `refs`.
fn apply(refs: &mut SongRefs, raw: &[char])
    ensures
        refs_view(*final(refs)) == apply_clause(refs_view(*old(refs)), raw@),
{
    proof {
        reveal_clause_heads();
    }
    let part = trim_chars(raw);
    if let Some(rest) = prefixed(&part, "Master title:") {
        refs.master_title = Some(string_of(&trim_chars(&rest)));
    } else if let Some(rest) = prefixed(&part, "Ballad Index ") {
        if refs.ballad_index.is_none() {
            refs.ballad_index = Some(string_of(&cut_chars(&rest)));
        }
    } else if let Some(rest) = prefixed(&part, "G/D ") {
        apply_list(&mut refs.greig_duncan, &rest);
    } else if let Some(rest) = prefixed(&part, "Roud ") {
        apply_list(&mut refs.roud, &rest);
    } else if let Some(rest) = prefixed(&part, "Child ") {
        apply_list(&mut refs.child, &rest);
    } else if let Some(rest) = prefixed(&part, "Laws ") {
        apply_list(&mut refs.laws, &rest);
    } else if let Some(rest) = prefixed(&part, "Henry ") {
        apply_list(&mut refs.henry, &rest);
    } else if let Some(rest) = prefixed(&part, "VWML ") {
        apply_list(&mut refs.vwml, &rest);
    }
    assert(refs_view(*refs) =~= apply_clause(refs_view(*old(refs)), raw@));
}

/// The references a song's bracketed reference line gives, and whether it
/// says `trad.`: the text squashed, trimmed, the brackets stripped, then
/// read clause by clause on `;`.
pub open spec fn reference_line_of(text: Seq<char>) -> (RefsView, bool) {
    let inner = bracket_inner(text);
    (refs_after(split(inner, ";"@)), contains(inner, "trad."@))
}

/// Every value of `xs` is a real reference.
pub open spec fn all_real(xs: Seq<Seq<char>>) -> bool {
    forall|k: int| 0 <= k < xs.len() ==> is_real_reference(#[trigger] xs[k])
}

proof fn lemma_real_references(xs: Seq<Seq<char>>)
    ensures
        all_real(real_references(xs)),
    decreases xs.len(),
{
    if xs.len() > 0 {
        lemma_real_references(xs.drop_last());
        let prev = real_references(xs.drop_last());
        if is_real_reference(xs.last()) {
            assert forall|k: int| 0 <= k < prev.push(xs.last()).len() implies is_real_reference(
                #[trigger] prev.push(xs.last())[k],
            ) by {
                if k < prev.len() {
                    assert(prev.push(xs.last())[k] == prev[k]);
                }
            }
        }
    }
}

proof fn lemma_real_concat(a: Seq<Seq<char>>, value: Seq<char>)
    requires
        all_real(a),
    ensures
        all_real(a + values_of(value)),
{
    let b = values_of(value);
    lemma_real_references(drop_empty(trim_each(split(cut_of(value), ","@))));
    assert forall|k: int| 0 <= k < (a + b).len() implies is_real_reference(#[trigger] (a + b)[k]) by {
        if k < a.len() {
            assert((a + b)[k] == a[k]);
        } else {
            assert((a + b)[k] == b[k - a.len()]);
        }
    }
}

proof fn lemma_refs_real(parts: Seq<Seq<char>>)
    ensures
        ({
            let r = refs_after(parts);
            &&& all_real(r.roud)
            &&& all_real(r.child)
            &&& all_real(r.laws)
            &&& all_real(r.greig_duncan)
            &&& all_real(r.henry)
            &&& all_real(r.vwml)
        }),
    decreases parts.len(),
{
    if parts.len() > 0 {
        lemma_refs_real(parts.drop_last());
        let r = refs_after(parts.drop_last());
        let part = trim(parts.last());
        lemma_real_concat(r.greig_duncan, part.skip(4));
        lemma_real_concat(r.roud, part.skip(5));
        lemma_real_concat(r.child, part.skip(6));
        lemma_real_concat(r.laws, part.skip(5));
        lemma_real_concat(r.henry, part.skip(6));
        lemma_real_concat(r.vwml, part.skip(5));
    }
}

/// Every reference number a song's reference line gives carries a digit or
/// a letter: the bare dash the archive writes for "no number" is never
/// stored as one, in any scheme.
pub proof fn law_reference_numbers_are_real(text: Seq<char>)
    ensures
        ({
            let r = reference_line_of(text).0;
            &&& all_real(r.roud)
            &&& all_real(r.child)
            &&& all_real(r.laws)
            &&& all_real(r.greig_duncan)
            &&& all_real(r.henry)
            &&& all_real(r.vwml)
        }),
{
    lemma_refs_real(split(bracket_inner(text), ";"@));
}

/// Read a reference line's text: Roud, Child, Laws and the rest as
/// `Scheme Value` clauses separated by `;`, with `trad.` when the song is
/// traditional.
pub fn parse_reference_line(text: &str) -> (r: (SongRefs, bool))
    ensures
        (refs_view(r.0), r.1) == reference_line_of(text@),
{
    let squashed_text = squash_chars(&chars_of(text));
    let inner = trim_end_chars(
        &trim_start_chars(&trim_chars(&squashed_text), &Strip::Ch('[')),
        &Strip::Ch(']'),
    );
    let traditional = contains_chars(&inner, &chars_of("trad."));
    let semi = chars_of(";");
    proof {
        reveal_strlit(";");
    }
    assert(semi@.len() == 1);
    let parts = split_on(&inner, &semi);
    let ghost pv = views(parts@);
    let mut refs = SongRefs::new();
    assert(refs_view(refs) =~= no_refs());
    let mut i: usize = 0;
    while i < parts.len()
        invariant
            i <= parts.len(),
            pv == views(parts@),
            refs_view(refs) == refs_after(pv.take(i as int)),
        decreases parts.len() - i,
    {
        apply(&mut refs, &parts[i]);
        assert(pv.take(i + 1).drop_last() =~= pv.take(i as int));
        assert(pv.take(i + 1).last() == parts@[i as int]@);
        i += 1;
    }
    assert(pv.take(parts.len() as int) =~= pv);
    (refs, traditional)
}

/// Where the earliest of ` sang `, ` sings `, ` sing ` starts.
pub open spec fn verb_pos(text: Seq<char>) -> Option<int> {
    let a = find_first(text, " sang "@);
    let b = find_first(text, " sings "@);
    let c = find_first(text, " sing "@);
    let ab = match (a, b) {
        (Some(x), Some(y)) => Some(if x <= y { x } else { y }),
        (Some(x), None) => Some(x),
        (None, y) => y,
    };
    match (ab, c) {
        (Some(x), Some(y)) => Some(if x <= y { x } else { y }),
        (Some(x), None) => Some(x),
        (None, y) => y,
    }
}

/// The text before the first verb of singing, squashed, if any is left.
pub open spec fn before_verb_of(text: Seq<char>) -> Option<Seq<char>> {
    match verb_pos(text) {
        Some(i) => present(squashed(text.take(i))),
        None => None,
    }
}

/// A verb of singing that starts in `p` cannot reach into the verb written
/// after it, whose first character is a space and whose inner ones are not.
proof fn lemma_no_verb_in(p: Seq<char>, rest: Seq<char>, verb: Seq<char>, j: int)
    requires
        verb.len() >= 2,
        verb[0] == ' ',
        forall|d: int| 1 <= d < verb.len() - 1 ==> verb[d] != ' ',
        rest.len() > 0,
        rest[0] == ' ',
        !contains(p + seq![' '], verb),
        0 <= j < p.len(),
    ensures
        !occurs_at(p + rest, verb, j),
{
    let t = p + rest;
    let n = p.len() as int;
    if occurs_at(t, verb, j) {
        assert(t.subrange(j, j + verb.len())[0] == verb[0]);
        if j + verb.len() <= n + 1 {
            let ps = p + seq![' '];
            assert forall|k: int| 0 <= k < verb.len() implies ps.subrange(j, j + verb.len())[k] == verb[k] by {
                assert(t.subrange(j, j + verb.len())[k] == verb[k]);
                assert(t[j + k] == verb[k]);
                if j + k < n {
                    assert(ps[j + k] == t[j + k]);
                } else {
                    assert(j + k == n);
                    assert(t[n] == rest[0]);
                }
            }
            assert(ps.subrange(j, j + verb.len()) =~= verb);
            assert(occurs_at(ps, verb, j));
        } else {
            let d = n - j;
            assert(1 <= d < verb.len() - 1);
            assert(t.subrange(j, j + verb.len())[d] == verb[d]);
            assert(t[n] == rest[0]);
        }
    }
}

/// The first occurrence of `v` in `t`, when nothing occurs before `n`: at
/// `n` or later, and exactly `n` when it occurs there.
proof fn lemma_first_from(t: Seq<char>, v: Seq<char>, n: int)
    requires
        forall|j: int| 0 <= j < n ==> !occurs_at(t, v, j),
    ensures
        find_first(t, v) matches Some(x) ==> x >= n,
        occurs_at(t, v, n) ==> find_first(t, v) == Some(n),
{
    reveal(find_first);
    if exists|i: int| occurs_at(t, v, i) {
        let w = choose|i: int| occurs_at(t, v, i);
        lemma_least_occurrence(t, v, w);
        let x = choose|i: int| occurs_at(t, v, i) && forall|j: int| 0 <= j < i ==> !occurs_at(t, v, j);
        assert(occurs_at(t, v, x));
        if occurs_at(t, v, n) {
            assert(!(n < x));
        }
    }
}

/// A verb of singing never occurs in `p + rest` before `p` ends.
proof fn lemma_no_verb_before(p: Seq<char>, rest: Seq<char>, verb: Seq<char>)
    requires
        verb.len() >= 2,
        verb[0] == ' ',
        forall|d: int| 1 <= d < verb.len() - 1 ==> verb[d] != ' ',
        rest.len() > 0,
        rest[0] == ' ',
        !contains(p + seq![' '], verb),
    ensures
        forall|j: int| 0 <= j < p.len() ==> !occurs_at(p + rest, verb, j),
{
    assert forall|j: int| 0 <= j < p.len() implies !occurs_at(p + rest, verb, j) by {
        lemma_no_verb_in(p, rest, verb, j);
    }
}

/// Where one verb of singing (` sang `, ` sings ` or ` sing `) follows a
/// performer's name `p` in which no such verb occurs, even up to the space
/// the verb starts with, the performer read is `p`, squashed: the text
/// before the verb, whatever follows it.
pub proof fn law_the_performer_is_named_before_the_verb(p: Seq<char>, verb: Seq<char>, q: Seq<char>)
    requires
        verb == seq![' ', 's', 'a', 'n', 'g', ' '] || verb == seq![' ', 's', 'i', 'n', 'g', 's', ' ']
            || verb == seq![' ', 's', 'i', 'n', 'g', ' '],
        squashed(p).len() > 0,
        !contains(p + seq![' '], seq![' ', 's', 'a', 'n', 'g', ' ']),
        !contains(p + seq![' '], seq![' ', 's', 'i', 'n', 'g', 's', ' ']),
        !contains(p + seq![' '], seq![' ', 's', 'i', 'n', 'g', ' ']),
    ensures
        before_verb_of(p + verb + q) == Some(squashed(p)),
{
    reveal_strlit(" sang ");
    reveal_strlit(" sings ");
    reveal_strlit(" sing ");
    let t = p + verb + q;
    let n = p.len() as int;
    let rest = verb + q;
    assert(t =~= p + rest);
    assert(rest[0] == verb[0]);
    let va = " sang "@;
    let vb = " sings "@;
    let vc = " sing "@;
    assert(va =~= seq![' ', 's', 'a', 'n', 'g', ' ']);
    assert(vb =~= seq![' ', 's', 'i', 'n', 'g', 's', ' ']);
    assert(vc =~= seq![' ', 's', 'i', 'n', 'g', ' ']);
    lemma_no_verb_before(p, rest, va);
    lemma_no_verb_before(p, rest, vb);
    lemma_no_verb_before(p, rest, vc);
    lemma_first_from(t, va, n);
    lemma_first_from(t, vb, n);
    lemma_first_from(t, vc, n);
    assert(t.subrange(n, n + verb.len()) =~= verb);
    assert(occurs_at(t, verb, n));
    assert(verb_pos(t) == Some(n));
    assert(t.take(n) =~= p);
}

fn earlier(a: Option<usize>, b: Option<usize>) -> (r: Option<usize>)
    ensures
        r == match (a, b) {
            (Some(x), Some(y)) => Some(if x <= y { x } else { y }),
            (Some(x), None) => Some(x),
            (None, y) => y,
        },
{
    match (a, b) {
        (Some(x), Some(y)) => Some(if x <= y { x } else { y }),
        (Some(x), None) => Some(x),
        (None, y) => y,
    }
}

/// Text up to the first "sang"/"sings"/"sing", squashed: how the archive's
/// prose names a performer before saying what they did.
pub fn split_before_verb(text: &str) -> (r: Option<String>)
    ensures
        opt_view(r) == before_verb_of(text@),
{
    let v = chars_of(text);
    let a = find(&v, &chars_of(" sang "));
    let b = find(&v, &chars_of(" sings "));
    let c = find(&v, &chars_of(" sing "));
    let ghost fa = find_first(v@, " sang "@);
    let ghost fb = find_first(v@, " sings "@);
    let ghost fc = find_first(v@, " sing "@);
    let at = earlier(earlier(a, b), c);
    match at {
        Some(i) => {
            assert(i <= v.len());
            let s = squash_chars(&slice_copy(&v, 0, i));
            assert(s@ == squashed(v@.take(i as int)));
            if s.len() == 0 {
                None
            } else {
                Some(string_of(&s))
            }
        },
        None => None,
    }
}

/// The first standalone run of ASCII digits at or after `i` that is four
/// long and starts 19 or 20.
pub open spec fn year_run_from(s: Seq<char>, i: int) -> Option<Seq<char>>
    decreases s.len() - i,
{
    if i < 0 || i >= s.len() {
        None
    } else if !is_ascii_digit(s[i]) {
        year_run_from(s, i + 1)
    } else {
        let n = digit_run_len(s.skip(i)) as int;
        if n < 1 || i + n > s.len() {
            None
        } else {
            let run = s.subrange(i, i + n);
            if n == 4 && (s[i] == '1' && s[i + 1] == '9' || s[i] == '2' && s[i + 1] == '0') {
                Some(run)
            } else {
                year_run_from(s, i + n)
            }
        }
    }
}

proof fn lemma_digit_run_is(s: Seq<char>, n: int)
    requires
        0 <= n <= s.len(),
        forall|j: int| 0 <= j < n ==> is_ascii_digit(#[trigger] s[j]),
        n == s.len() || !is_ascii_digit(s[n]),
    ensures
        digit_run_len(s) == n,
    decreases n,
{
    if n > 0 {
        assert forall|j: int| 0 <= j < n - 1 implies is_ascii_digit(#[trigger] s.drop_first()[j]) by {
            assert(s.drop_first()[j] == s[j + 1]);
        }
        if n < s.len() {
            assert(s.drop_first()[n - 1] == s[n]);
        }
        lemma_digit_run_is(s.drop_first(), n - 1);
    }
}

/// The first standalone `19xx`/`20xx` run in `text`: standalone, so a
/// catalogue number or track count is never taken for a year.
pub fn find_year(text: &str) -> (r: Option<String>)
    ensures
        opt_view(r) == year_run_from(text@, 0),
{
    let v = chars_of(text);
    let mut i: usize = 0;
    while i < v.len()
        invariant
            i <= v.len(),
            v@ == text@,
            year_run_from(v@, 0) == year_run_from(v@, i as int),
        decreases v.len() - i,
    {
        if !('0' <= v[i] && v[i] <= '9') {
            i += 1;
            continue;
        }
        let start = i;
        while i < v.len() && '0' <= v[i] && v[i] <= '9'
            invariant
                start < v.len(),
                start <= i <= v.len(),
                forall|k: int| start <= k < i ==> is_ascii_digit(#[trigger] v@[k]),
            decreases v.len() - i,
        {
            i += 1;
        }
        proof {
            let s = v@.skip(start as int);
            assert forall|k: int| 0 <= k < i - start implies is_ascii_digit(#[trigger] s[k]) by {
                assert(s[k] == v@[start + k]);
            }
            if i < v.len() {
                assert(s[i - start] == v@[i as int]);
            }
            lemma_digit_run_is(s, i - start);
        }
        if i - start == 4 && ((v[start] == '1' && v[start + 1] == '9') || (v[start] == '2' && v[start
            + 1] == '0')) {
            return Some(string_of(&slice_copy(&v, start, i)));
        }
    }
    None
}

/// Record one breadcrumb line's claim: the line's first link names the
/// artist, its bold text the song's title there. A line lacking either
/// claims nothing, and the `Folk Music` crumb is the site's, not an
/// artist's.
pub fn push_attribution(
    out: &mut Vec<Attribution>,
    first_link: Option<(String, String)>,
    strong_text: Option<String>,
    base: &str,
)
    ensures
        match (first_link, strong_text) {
            (Some((artist, href)), Some(title)) => if artist@ == "Folk Music"@ {
                final(out)@ == old(out)@
            } else {
                &&& final(out)@.len() == old(out)@.len() + 1
                &&& final(out)@.take(old(out)@.len() as int) == old(out)@
                &&& final(out)@.last().artist == artist
                &&& final(out)@.last().title == title
                &&& final(out)@.last().artist_path@ == resolved_path(href@, base@)
            },
            _ => final(out)@ == old(out)@,
        },
{
    let (Some((artist, href)), Some(title)) = (first_link, strong_text) else {
        return;
    };
    if same(&chars_of(artist.as_str()), &chars_of("Folk Music")) {
        return;
    }
    let artist_path = resolve_path(href.as_str(), base);
    out.push(Attribution { artist, artist_path, title });
    assert(out@.take(old(out)@.len() as int) =~= old(out)@);
}

/// Whether a sentence ends as an introduction to a quotation does:
/// `noted:`, `wrote:`, `commented:`, `said:` or `notes:`.
pub open spec fn introduces_quote(text: Seq<char>) -> bool {
    ||| ends_with(text, "noted:"@)
    ||| ends_with(text, "wrote:"@)
    ||| ends_with(text, "commented:"@)
    ||| ends_with(text, "said:"@)
    ||| ends_with(text, "notes:"@)
}

/// Whether `text` ends in one of the archive's verbs of attribution.
pub fn ends_with_attribution_verb(text: &str) -> (r: bool)
    ensures
        r == introduces_quote(text@),
{
    let v = chars_of(text);
    has_suffix(&v, &chars_of("noted:")) || has_suffix(&v, &chars_of("wrote:")) || has_suffix(
        &v,
        &chars_of("commented:"),
    ) || has_suffix(&v, &chars_of("said:")) || has_suffix(&v, &chars_of("notes:"))
}

// ============ Paragraphs ============

/// Walking `[a, b)`: the lines closed so far by `<br>`s, each squashed,
/// and the text of the line still open.
pub open spec fn para_walk(doc: Seq<NodeView>, a: int, b: int) -> (Seq<Seq<char>>, Seq<char>)
    decreases b - a,
{
    if b <= a || b - 1 < 0 || b - 1 >= doc.len() {
        (Seq::empty(), Seq::empty())
    } else {
        let (lines, current) = para_walk(doc, a, b - 1);
        match doc[b - 1].kind {
            KindView::Text(t) => (lines, current + t),
            KindView::Element { name, .. } => if name == "br"@ {
                (lines.push(squashed(current)), Seq::empty())
            } else {
                (lines, current)
            },
            KindView::Other => (lines, current),
        }
    }
}

/// A `<p>`'s text with each `<br>` a line break: every line squashed,
/// blank lines dropped, the rest joined with `\n`.
pub open spec fn paragraph_text_of(doc: Seq<NodeView>, p: int) -> Seq<char> {
    let (lines, current) = para_walk(doc, p + 1, subtree_end(doc, p));
    join(drop_empty(lines.push(squashed(current))), seq!['\n'])
}

fn paragraph_text(nodes: &Vec<DomNode>, p: usize) -> (r: Vec<char>)
    requires
        p < nodes.len(),
    ensures
        r@ == paragraph_text_of(doc_view(nodes@), p as int),
{
    let ghost doc = doc_view(nodes@);
    let e = end_of(nodes, p);
    let mut lines: Vec<Vec<char>> = Vec::new();
    let mut current: Vec<char> = Vec::new();
    let mut k = p + 1;
    while k < e
        invariant
            p < k <= e <= nodes.len(),
            doc == doc_view(nodes@),
            (views(lines@), current@) == para_walk(doc, p + 1, k as int),
        decreases e - k,
    {
        assert(doc[k as int] == nodes@[k as int]@);
        let ghost before = views(lines@);
        match &nodes[k].kind {
            NodeKind::Text(t) => {
                let mut more = chars_of(t.as_str());
                current.append(&mut more);
            },
            NodeKind::Element { .. } => {
                if is_elem(&nodes[k], "br") {
                    lines.push(squash_chars(&current));
                    current = Vec::new();
                    assert(views(lines@) =~= before.push(squashed(para_walk(doc, p + 1, k as int).1)));
                }
            },
            NodeKind::Other => {},
        }
        k += 1;
    }
    let ghost before = views(lines@);
    lines.push(squash_chars(&current));
    assert(views(lines@) =~= before.push(squashed(current@)));
    let kept = drop_empty_parts(lines);
    let mut nl: Vec<char> = Vec::new();
    nl.push('\n');
    join_parts(&kept, &nl)
}

// ============ Lyrics ============

/// The paragraphs of a lyrics block: the `<p>` siblings after its heading,
/// up to the next `<h3>`.
pub open spec fn lyric_paragraphs(doc: Seq<NodeView>, sibs: Seq<int>) -> Seq<Seq<char>>
    decreases sibs.len(),
{
    if sibs.len() == 0 || is_named(doc[sibs[0]], "h3"@) {
        Seq::empty()
    } else if is_named(doc[sibs[0]], "p"@) {
        seq![paragraph_text_of(doc, sibs[0])] + lyric_paragraphs(doc, sibs.drop_first())
    } else {
        lyric_paragraphs(doc, sibs.drop_first())
    }
}

/// A lyrics version as anchor, performer and text.
pub struct LyricView {
    pub anchor: Seq<char>,
    pub performer: Option<Seq<char>>,
    pub text: Seq<char>,
}

pub open spec fn lyric_view(l: LyricVersion) -> LyricView {
    LyricView { anchor: l.anchor@, performer: opt_view(l.performer), text: l.text@ }
}

/// The lyrics block an `<h3 id>` starts: its performer is the heading up to
/// the verb of singing, or the whole heading; none when no paragraph follows.
pub open spec fn lyric_block(doc: Seq<NodeView>, h: int) -> Option<LyricView> {
    let header = squashed(inner_text(doc, h));
    let paras = lyric_paragraphs(doc, siblings_after(doc, doc[h].depth, h + 1));
    if paras.len() == 0 {
        None
    } else {
        Some(LyricView {
            anchor: attr_of(doc[h], "id"@).unwrap(),
            performer: match before_verb_of(header) {
                Some(p) => Some(p),
                None => Some(header),
            },
            text: join(paras, "\n\n"@),
        })
    }
}

pub open spec fn lyric_blocks(doc: Seq<NodeView>, hs: Seq<int>) -> Seq<LyricView>
    decreases hs.len(),
{
    if hs.len() == 0 {
        Seq::empty()
    } else {
        let prev = lyric_blocks(doc, hs.drop_last());
        match lyric_block(doc, hs.last()) {
            Some(l) => prev.push(l),
            None => prev,
        }
    }
}

/// Every lyrics block of the article at `art`.
pub open spec fn lyrics_of(doc: Seq<NodeView>, art: int) -> Seq<LyricView> {
    lyric_blocks(doc, all_matches(doc, art + 1, subtree_end(doc, art), Sel::Attr("h3", "id")))
}

fn lyric_paragraphs_of(nodes: &Vec<DomNode>, h: usize) -> (r: Vec<Vec<char>>)
    requires
        h < nodes.len(),
    ensures
        views(r@) == lyric_paragraphs(doc_view(nodes@), siblings_after(doc_view(nodes@), nodes@[h as int].depth as nat, h + 1)),
{
    let ghost doc = doc_view(nodes@);
    let sibs = later_siblings(nodes, h);
    let ghost ss = as_ints(sibs@);
    assert(ss.skip(0) =~= ss);
    let mut out: Vec<Vec<char>> = Vec::new();
    let mut q: usize = 0;
    while q < sibs.len()
        invariant
            q <= sibs.len(),
            doc == doc_view(nodes@),
            ss == as_ints(sibs@),
            h < nodes@.len(),
            ss == siblings_after(doc, nodes@[h as int].depth as nat, h + 1),
            forall|x: int| 0 <= x < sibs@.len() ==> #[trigger] sibs@[x] < nodes@.len(),
            views(out@) + lyric_paragraphs(doc, ss.skip(q as int)) == lyric_paragraphs(doc, ss),
        decreases sibs.len() - q,
    {
        let k = sibs[q];
        assert(ss.skip(q as int)[0] == k as int);
        assert(ss.skip(q as int).drop_first() =~= ss.skip(q + 1));
        assert(doc[k as int] == nodes@[k as int]@);
        if is_elem(&nodes[k], "h3") {
            assert(views(out@) + lyric_paragraphs(doc, ss.skip(q as int)) =~= views(out@));
            return out;
        }
        if is_elem(&nodes[k], "p") {
            let ghost before = views(out@);
            let t = paragraph_text(nodes, k);
            out.push(t);
            assert(views(out@) =~= before.push(t@));
            assert(before + lyric_paragraphs(doc, ss.skip(q as int)) =~= views(out@) + lyric_paragraphs(doc, ss.skip(q + 1)));
        }
        q += 1;
    }
    assert(ss.skip(q as int) =~= Seq::<int>::empty());
    assert(views(out@) + lyric_paragraphs(doc, ss.skip(q as int)) =~= views(out@));
    out
}

fn lyrics(nodes: &Vec<DomNode>, art: usize) -> (r: Vec<LyricVersion>)
    requires
        art < nodes.len(),
    ensures
        r@.map_values(|l: LyricVersion| lyric_view(l)) == lyrics_of(doc_view(nodes@), art as int),
{
    let ghost doc = doc_view(nodes@);
    let e = end_of(nodes, art);
    let hs = select_all(nodes, art + 1, e, &Sel::Attr("h3", "id"));
    let ghost hv = as_ints(hs@);
    proof {
        assert forall|x: int| 0 <= x < hv.len() implies #[trigger] sel_matches(doc[hv[x]], Sel::Attr("h3", "id")) by {
            lemma_all_matches(doc, art + 1, e as int, Sel::Attr("h3", "id"), x);
        }
    }
    let mut out: Vec<LyricVersion> = Vec::new();
    let mut q: usize = 0;
    while q < hs.len()
        invariant
            q <= hs.len(),
            doc == doc_view(nodes@),
            hv == as_ints(hs@),
            forall|x: int| 0 <= x < hs@.len() ==> art + 1 <= #[trigger] hs@[x] < e,
            e <= nodes.len(),
            forall|x: int| 0 <= x < hv.len() ==> #[trigger] sel_matches(doc[hv[x]], Sel::Attr("h3", "id")),
            out@.map_values(|l: LyricVersion| lyric_view(l)) == lyric_blocks(doc, hv.take(q as int)),
        decreases hs.len() - q,
    {
        let h = hs[q];
        assert(hv[q as int] == h as int);
        assert(hv.take(q + 1).drop_last() =~= hv.take(q as int));
        assert(hv.take(q + 1).last() == h as int);
        assert(doc[h as int] == nodes@[h as int]@);
        assert(sel_matches(doc[hv[q as int]], Sel::Attr("h3", "id")));
        let ghost before = out@;
        let paras = lyric_paragraphs_of(nodes, h);
        if paras.len() > 0 {
            let anchor = attr(&nodes[h], "id").unwrap();
            let header = squash_chars(&text_under(nodes, h));
            let hs_str = string_of(&header);
            let performer = match split_before_verb(hs_str.as_str()) {
                Some(p) => Some(p),
                None => Some(string_of(&header)),
            };
            let l = LyricVersion { anchor, performer, text: string_of(&join_parts(&paras, &chars_of("\n\n"))) };
            out.push(l);
            assert(out@.map_values(|l: LyricVersion| lyric_view(l)) =~= before.map_values(|l: LyricVersion| lyric_view(l)).push(lyric_view(l)));
        }
        q += 1;
    }
    assert(hv.take(hs.len() as int) =~= hv);
    out
}

// ============ Notes ============

/// The last element among `sibs`.
pub open spec fn last_element(doc: Seq<NodeView>, sibs: Seq<int>) -> Option<int>
    decreases sibs.len(),
{
    if sibs.len() == 0 {
        None
    } else if is_element(doc[sibs.last()]) {
        Some(sibs.last())
    } else {
        last_element(doc, sibs.drop_last())
    }
}

/// Who a quotation is attributed to: the sentence of the element just
/// before it, when that is a `<p>` ending in a verb of attribution.
pub open spec fn quote_attribution(doc: Seq<NodeView>, bq: int) -> Option<Seq<char>> {
    match last_element(doc, siblings_before(doc, doc[bq].depth, bq - 1)) {
        Some(k) => {
            let t = squashed(inner_text(doc, k));
            if is_named(doc[k], "p"@) && introduces_quote(t) {
                Some(t)
            } else {
                None
            }
        },
        None => None,
    }
}

pub open spec fn paragraph_texts(doc: Seq<NodeView>, ps: Seq<int>) -> Seq<Seq<char>> {
    ps.map_values(|k: int| paragraph_text_of(doc, k))
}

pub struct NoteView {
    pub attribution: Option<Seq<char>>,
    pub text: Seq<char>,
}

pub open spec fn note_view(n: Note) -> NoteView {
    NoteView { attribution: opt_view(n.attribution), text: n.text@ }
}

/// The note a `<blockquote>` is: its paragraphs, none when it has none.
pub open spec fn note_of(doc: Seq<NodeView>, bq: int) -> Option<NoteView> {
    let paras = paragraph_texts(doc, all_matches(doc, bq + 1, subtree_end(doc, bq), Sel::Tag("p")));
    if paras.len() == 0 {
        None
    } else {
        Some(NoteView { attribution: quote_attribution(doc, bq), text: join(paras, "\n\n"@) })
    }
}

pub open spec fn notes_from(doc: Seq<NodeView>, bqs: Seq<int>) -> Seq<NoteView>
    decreases bqs.len(),
{
    if bqs.len() == 0 {
        Seq::empty()
    } else {
        let prev = notes_from(doc, bqs.drop_last());
        match note_of(doc, bqs.last()) {
            Some(n) => prev.push(n),
            None => prev,
        }
    }
}

/// Every quotation of the article at `art`.
pub open spec fn notes_of(doc: Seq<NodeView>, art: int) -> Seq<NoteView> {
    notes_from(doc, all_matches(doc, art + 1, subtree_end(doc, art), Sel::Tag("blockquote")))
}

fn attribution_before(nodes: &Vec<DomNode>, bq: usize) -> (r: Option<String>)
    requires
        bq < nodes.len(),
    ensures
        opt_view(r) == quote_attribution(doc_view(nodes@), bq as int),
{
    let ghost doc = doc_view(nodes@);
    assert(doc[bq as int] == nodes@[bq as int]@);
    let sibs = earlier_siblings(nodes, bq);
    let ghost ss = as_ints(sibs@);
    assert(ss.take(ss.len() as int) =~= ss);
    let mut q = sibs.len();
    while q > 0
        invariant
            q <= sibs.len(),
            doc == doc_view(nodes@),
            ss == as_ints(sibs@),
            ss == siblings_before(doc, doc[bq as int].depth, bq - 1),
            forall|x: int| 0 <= x < sibs@.len() ==> #[trigger] sibs@[x] < bq,
            bq < nodes@.len(),
            last_element(doc, ss) == last_element(doc, ss.take(q as int)),
        decreases q,
    {
        let k = sibs[q - 1];
        assert(ss[q - 1] == k as int);
        assert(ss.take(q as int).last() == k as int);
        assert(ss.take(q as int).drop_last() =~= ss.take(q - 1));
        assert(doc[k as int] == nodes@[k as int]@);
        match &nodes[k].kind {
            NodeKind::Element { .. } => {
                let t = squash_chars(&text_under(nodes, k));
                let ts = string_of(&t);
                if is_elem(&nodes[k], "p") && ends_with_attribution_verb(ts.as_str()) {
                    return Some(ts);
                }
                return None;
            },
            _ => {},
        }
        q -= 1;
    }
    None
}

fn paragraphs_of(nodes: &Vec<DomNode>, ps: &Vec<usize>) -> (r: Vec<Vec<char>>)
    requires
        forall|x: int| 0 <= x < ps@.len() ==> #[trigger] ps@[x] < nodes@.len(),
    ensures
        views(r@) == paragraph_texts(doc_view(nodes@), as_ints(ps@)),
{
    let ghost doc = doc_view(nodes@);
    let mut out: Vec<Vec<char>> = Vec::new();
    let mut q: usize = 0;
    while q < ps.len()
        invariant
            q <= ps.len(),
            doc == doc_view(nodes@),
            forall|x: int| 0 <= x < ps@.len() ==> #[trigger] ps@[x] < nodes@.len(),
            out@.len() == q,
            forall|j: int| 0 <= j < q ==> #[trigger] out@[j]@ == paragraph_text_of(doc, ps@[j] as int),
        decreases ps.len() - q,
    {
        let t = paragraph_text(nodes, ps[q]);
        out.push(t);
        q += 1;
    }
    assert(views(out@) =~= paragraph_texts(doc, as_ints(ps@)));
    out
}

fn note_at(nodes: &Vec<DomNode>, bq: usize) -> (r: Option<Note>)
    requires
        bq < nodes.len(),
    ensures
        match r {
            Some(n) => note_of(doc_view(nodes@), bq as int) == Some(note_view(n)),
            None => note_of(doc_view(nodes@), bq as int) is None,
        },
{
    let be = end_of(nodes, bq);
    let ps = select_all(nodes, bq + 1, be, &Sel::Tag("p"));
    let paras = paragraphs_of(nodes, &ps);
    if paras.len() > 0 {
        Some(Note {
            attribution: attribution_before(nodes, bq),
            text: string_of(&join_parts(&paras, &chars_of("\n\n"))),
        })
    } else {
        None
    }
}

fn notes(nodes: &Vec<DomNode>, art: usize) -> (r: Vec<Note>)
    requires
        art < nodes.len(),
    ensures
        r@.map_values(|n: Note| note_view(n)) == notes_of(doc_view(nodes@), art as int),
{
    let ghost doc = doc_view(nodes@);
    let e = end_of(nodes, art);
    let bqs = select_all(nodes, art + 1, e, &Sel::Tag("blockquote"));
    let ghost bv = as_ints(bqs@);
    let mut out: Vec<Note> = Vec::new();
    let mut q: usize = 0;
    while q < bqs.len()
        invariant
            q <= bqs.len(),
            doc == doc_view(nodes@),
            bv == as_ints(bqs@),
            forall|x: int| 0 <= x < bqs@.len() ==> art + 1 <= #[trigger] bqs@[x] < e,
            e <= nodes.len(),
            out@.map_values(|n: Note| note_view(n)) == notes_from(doc, bv.take(q as int)),
        decreases bqs.len() - q,
    {
        let bq = bqs[q];
        assert(bv[q as int] == bq as int);
        assert(bv.take(q + 1).drop_last() =~= bv.take(q as int));
        assert(bv.take(q + 1).last() == bq as int);
        let ghost before = out@;
        if let Some(n) = note_at(nodes, bq) {
            out.push(n);
            assert(out@.map_values(|n: Note| note_view(n)) =~= before.map_values(|n: Note| note_view(n)).push(note_view(n)));
        }
        q += 1;
    }
    assert(bv.take(bqs.len() as int) =~= bv);
    out
}

// ============ The reference line ============

/// A paragraph whose text, leading whitespace aside, opens with `[`.
pub open spec fn opens_bracket(doc: Seq<NodeView>, k: int) -> bool {
    starts_with(trim_start_by(inner_text(doc, k), Strip::Space), "["@)
}

/// The first `<p>` in `[k, e)` that opens with `[`: the reference line.
pub open spec fn reference_p_from(doc: Seq<NodeView>, k: int, e: int) -> Option<int>
    decreases e - k,
{
    if k < 0 || k >= e || k >= doc.len() {
        None
    } else if is_named(doc[k], "p"@) && opens_bracket(doc, k) {
        Some(k)
    } else {
        reference_p_from(doc, k + 1, e)
    }
}

pub open spec fn holds_url(links: Seq<(Seq<char>, Seq<char>)>, url: Seq<char>) -> bool {
    exists|m: int| 0 <= m < links.len() && (#[trigger] links[m]).1 == url
}

/// The off-archive links among `anchors`, each URL once: an `href` starting
/// `http`, or a link of class `external`.
pub open spec fn external_links_of(doc: Seq<NodeView>, anchors: Seq<int>) -> Seq<(Seq<char>, Seq<char>)>
    decreases anchors.len(),
{
    if anchors.len() == 0 {
        Seq::empty()
    } else {
        let prev = external_links_of(doc, anchors.drop_last());
        let a = anchors.last();
        match attr_of(doc[a], "href"@) {
            Some(h) => if (starts_with(h, "http"@) || has_class(doc[a], "external"@)) && !holds_url(prev, h) {
                prev.push((squashed(inner_text(doc, a)), h))
            } else {
                prev
            },
            None => prev,
        }
    }
}

/// What the reference line of the article at `art` gives: the references,
/// its off-archive links, and whether it says `trad.`.
pub open spec fn reference_part_of(doc: Seq<NodeView>, art: int) -> (RefsView, Seq<(Seq<char>, Seq<char>)>, bool) {
    match reference_p_from(doc, art + 1, subtree_end(doc, art)) {
        None => (no_refs(), Seq::empty(), false),
        Some(rp) => {
            let (refs, trad) = reference_line_of(inner_text(doc, rp));
            (refs, external_links_of(doc, all_matches(doc, rp + 1, subtree_end(doc, rp), Sel::Tag("a"))), trad)
        },
    }
}

pub open spec fn links_view(v: Seq<Link>) -> Seq<(Seq<char>, Seq<char>)> {
    v.map_values(|l: Link| (l.text@, l.url@))
}

fn opens_with_bracket(nodes: &Vec<DomNode>, k: usize) -> (r: bool)
    requires
        k < nodes.len(),
    ensures
        r == opens_bracket(doc_view(nodes@), k as int),
{
    let t = trim_start_chars(&text_under(nodes, k), &Strip::Space);
    has_prefix(&t, &chars_of("["))
}

fn reference_p(nodes: &Vec<DomNode>, a: usize, e: usize) -> (r: Option<usize>)
    requires
        a <= e <= nodes.len(),
    ensures
        match r {
            Some(k) => reference_p_from(doc_view(nodes@), a as int, e as int) == Some(k as int) && k < e,
            None => reference_p_from(doc_view(nodes@), a as int, e as int) is None,
        },
{
    let ghost doc = doc_view(nodes@);
    let mut k = a;
    while k < e
        invariant
            a <= k <= e <= nodes.len(),
            doc == doc_view(nodes@),
            reference_p_from(doc, a as int, e as int) == reference_p_from(doc, k as int, e as int),
        decreases e - k,
    {
        assert(doc[k as int] == nodes@[k as int]@);
        if is_elem(&nodes[k], "p") && opens_with_bracket(nodes, k) {
            return Some(k);
        }
        k += 1;
    }
    None
}

fn url_listed(links: &Vec<Link>, h: &Vec<char>) -> (r: bool)
    ensures
        r == holds_url(links_view(links@), h@),
{
    let ghost lv = links_view(links@);
    let mut m: usize = 0;
    while m < links.len()
        invariant
            m <= links.len(),
            lv == links_view(links@),
            forall|j: int| 0 <= j < m ==> (#[trigger] lv[j]).1 != h@,
        decreases links.len() - m,
    {
        assert(lv[m as int].1 == links@[m as int].url@);
        if same(&chars_of(links[m].url.as_str()), h) {
            return true;
        }
        m += 1;
    }
    false
}

fn external_links(nodes: &Vec<DomNode>, rp: usize) -> (r: Vec<Link>)
    requires
        rp < nodes.len(),
    ensures
        links_view(r@) == external_links_of(doc_view(nodes@), all_matches(doc_view(nodes@), rp + 1, subtree_end(doc_view(nodes@), rp as int), Sel::Tag("a"))),
{
    let ghost doc = doc_view(nodes@);
    let e = end_of(nodes, rp);
    let anchors = select_all(nodes, rp + 1, e, &Sel::Tag("a"));
    let ghost av = as_ints(anchors@);
    let mut out: Vec<Link> = Vec::new();
    let mut q: usize = 0;
    while q < anchors.len()
        invariant
            q <= anchors.len(),
            doc == doc_view(nodes@),
            av == as_ints(anchors@),
            forall|x: int| 0 <= x < anchors@.len() ==> rp + 1 <= #[trigger] anchors@[x] < e,
            e <= nodes.len(),
            links_view(out@) == external_links_of(doc, av.take(q as int)),
        decreases anchors.len() - q,
    {
        let a = anchors[q];
        assert(av[q as int] == a as int);
        assert(av.take(q + 1).drop_last() =~= av.take(q as int));
        assert(av.take(q + 1).last() == a as int);
        assert(doc[a as int] == nodes@[a as int]@);
        let ghost before = out@;
        if let Some(href) = attr(&nodes[a], "href") {
            let h = chars_of(href.as_str());
            let external = has_prefix(&h, &chars_of("http")) || has_class_attr(&nodes[a], "external");
            if external && !url_listed(&out, &h) {
                let l = Link { text: string_of(&squash_chars(&text_under(nodes, a))), url: href };
                out.push(l);
                assert(links_view(out@) =~= links_view(before).push((l.text@, l.url@)));
            }
        }
        q += 1;
    }
    assert(av.take(anchors.len() as int) =~= av);
    out
}

fn reference_part(nodes: &Vec<DomNode>, art: usize) -> (r: (SongRefs, Vec<Link>, bool))
    requires
        art < nodes.len(),
    ensures
        (refs_view(r.0), links_view(r.1@), r.2) == reference_part_of(doc_view(nodes@), art as int),
{
    let e = end_of(nodes, art);
    match reference_p(nodes, art + 1, e) {
        None => {
            let refs = SongRefs::new();
            assert(refs_view(refs) =~= no_refs());
            let links: Vec<Link> = Vec::new();
            assert(links_view(links@) =~= Seq::<(Seq<char>, Seq<char>)>::empty());
            (refs, links, false)
        },
        Some(rp) => {
            let text = string_of(&text_under(nodes, rp));
            let (refs, trad) = parse_reference_line(text.as_str());
            (refs, external_links(nodes, rp), trad)
        },
    }
}

// ============ Attributions ============

pub struct AttributionView {
    pub artist: Seq<char>,
    pub artist_path: Seq<char>,
    pub title: Seq<char>,
}

pub open spec fn attribution_view(a: Attribution) -> AttributionView {
    AttributionView { artist: a.artist@, artist_path: a.artist_path@, title: a.title@ }
}

pub open spec fn attributions_view(v: Seq<Attribution>) -> Seq<AttributionView> {
    v.map_values(|a: Attribution| attribution_view(a))
}

/// Closing one breadcrumb line: its first link and its bold text make an
/// attribution, unless either is missing or the link is the site's own
/// `Folk Music` crumb.
pub open spec fn close_line(
    out: Seq<AttributionView>,
    first: Option<(Seq<char>, Seq<char>)>,
    strong: Option<Seq<char>>,
    base: Seq<char>,
) -> Seq<AttributionView> {
    match (first, strong) {
        (Some((artist, href)), Some(title)) => if artist == "Folk Music"@ {
            out
        } else {
            out.push(AttributionView { artist, artist_path: resolved_path(href, base), title })
        },
        _ => out,
    }
}

/// Walking the breadcrumb's children: the attributions of the lines closed
/// by `<br>` so far, and the open line's first link and bold text.
pub open spec fn crumb_walk(doc: Seq<NodeView>, base: Seq<char>, cs: Seq<int>) -> (
    Seq<AttributionView>,
    Option<(Seq<char>, Seq<char>)>,
    Option<Seq<char>>,
)
    decreases cs.len(),
{
    if cs.len() == 0 {
        (Seq::empty(), None, None)
    } else {
        let (out, first, strong) = crumb_walk(doc, base, cs.drop_last());
        let c = cs.last();
        if is_named(doc[c], "br"@) {
            (close_line(out, first, strong, base), None, None)
        } else if is_named(doc[c], "a"@) && first is None {
            (out, Some((squashed(inner_text(doc, c)), match attr_of(doc[c], "href"@) {
                Some(h) => h,
                None => Seq::empty(),
            })), strong)
        } else if is_named(doc[c], "strong"@) {
            (out, first, Some(squashed(inner_text(doc, c))))
        } else {
            (out, first, strong)
        }
    }
}

/// Every artist's claim on the page, from the breadcrumb in `p.reference`:
/// one line per artist, `<br>`-separated.
pub open spec fn attributions_of(doc: Seq<NodeView>, art: int, base: Seq<char>) -> Seq<AttributionView> {
    match first_match(doc, art + 1, subtree_end(doc, art), Sel::Class("p", "reference")) {
        None => Seq::empty(),
        Some(rp) => {
            let (out, first, strong) = crumb_walk(doc, base, children_between(doc, doc[rp].depth, rp + 1, subtree_end(doc, rp)));
            close_line(out, first, strong, base)
        },
    }
}

proof fn lemma_close_line(out: Seq<AttributionView>, first: Option<(Seq<char>, Seq<char>)>, strong: Option<Seq<char>>, base: Seq<char>)
    requires
        forall|i: int| 0 <= i < out.len() ==> (#[trigger] out[i]).artist != "Folk Music"@,
    ensures
        forall|i: int| 0 <= i < close_line(out, first, strong, base).len() ==> (#[trigger] close_line(out, first, strong, base)[i]).artist
            != "Folk Music"@,
{
    let r = close_line(out, first, strong, base);
    assert forall|i: int| 0 <= i < r.len() implies (#[trigger] r[i]).artist != "Folk Music"@ by {
        if i < out.len() {
            assert(r[i] == out[i]);
        }
    }
}

proof fn lemma_crumbs(doc: Seq<NodeView>, base: Seq<char>, cs: Seq<int>)
    ensures
        forall|i: int| 0 <= i < crumb_walk(doc, base, cs).0.len() ==> (#[trigger] crumb_walk(doc, base, cs).0[i]).artist
            != "Folk Music"@,
    decreases cs.len(),
{
    if cs.len() > 0 {
        lemma_crumbs(doc, base, cs.drop_last());
        let (out, first, strong) = crumb_walk(doc, base, cs.drop_last());
        lemma_close_line(out, first, strong, base);
    }
}

/// The site's own `Folk Music` crumb is never taken for an artist.
pub proof fn law_no_folk_music_artist(doc: Seq<NodeView>, art: int, base: Seq<char>)
    ensures
        forall|i: int| 0 <= i < attributions_of(doc, art, base).len() ==> (#[trigger] attributions_of(doc, art, base)[i]).artist
            != "Folk Music"@,
{
    if let Some(rp) = first_match(doc, art + 1, subtree_end(doc, art), Sel::Class("p", "reference")) {
        let cs = children_between(doc, doc[rp].depth, rp + 1, subtree_end(doc, rp));
        lemma_crumbs(doc, base, cs);
        let (out, first, strong) = crumb_walk(doc, base, cs);
        lemma_close_line(out, first, strong, base);
    }
}

pub open spec fn pair_view(o: Option<(String, String)>) -> Option<(Seq<char>, Seq<char>)> {
    match o {
        Some((a, b)) => Some((a@, b@)),
        None => None,
    }
}

fn close(out: &mut Vec<Attribution>, first: Option<(String, String)>, strong: Option<String>, base: &str)
    ensures
        attributions_view(final(out)@) == close_line(attributions_view(old(out)@), pair_view(first), opt_view(strong), base@),
{
    let ghost before = out@;
    let ghost f = pair_view(first);
    let ghost st = opt_view(strong);
    push_attribution(out, first, strong, base);
    proof {
        if let (Some((artist, href)), Some(title)) = (f, st) {
            if artist != "Folk Music"@ {
                assert(out@ =~= before.push(out@.last()));
                assert(attributions_view(out@) =~= attributions_view(before).push(attribution_view(out@.last())));
            }
        }
    }
}

fn attributions(nodes: &Vec<DomNode>, art: usize, base: &str) -> (r: Vec<Attribution>)
    requires
        art < nodes.len(),
    ensures
        attributions_view(r@) == attributions_of(doc_view(nodes@), art as int, base@),
{
    let ghost doc = doc_view(nodes@);
    let e = end_of(nodes, art);
    let rp = match find_match(nodes, art + 1, e, &Sel::Class("p", "reference")) {
        Some(rp) => rp,
        None => return Vec::new(),
    };
    let re = end_of(nodes, rp);
    assert(doc[rp as int] == nodes@[rp as int]@);
    let kids = crate::parse::artist::children_of(nodes, rp, re);
    let ghost cs = as_ints(kids@);
    let mut out: Vec<Attribution> = Vec::new();
    let mut first: Option<(String, String)> = None;
    let mut strong: Option<String> = None;
    let mut q: usize = 0;
    while q < kids.len()
        invariant
            q <= kids.len(),
            doc == doc_view(nodes@),
            cs == as_ints(kids@),
            forall|x: int| 0 <= x < kids@.len() ==> rp < #[trigger] kids@[x] < re,
            re <= nodes.len(),
            (attributions_view(out@), pair_view(first), opt_view(strong)) == crumb_walk(doc, base@, cs.take(q as int)),
        decreases kids.len() - q,
    {
        let c = kids[q];
        assert(cs[q as int] == c as int);
        assert(cs.take(q + 1).drop_last() =~= cs.take(q as int));
        assert(cs.take(q + 1).last() == c as int);
        assert(doc[c as int] == nodes@[c as int]@);
        if is_elem(&nodes[c], "br") {
            let mut f: Option<(String, String)> = None;
            let mut st: Option<String> = None;
            std::mem::swap(&mut f, &mut first);
            std::mem::swap(&mut st, &mut strong);
            close(&mut out, f, st, base);
        } else if is_elem(&nodes[c], "a") && first.is_none() {
            let href = match attr(&nodes[c], "href") {
                Some(h) => h,
                None => String::new(),
            };
            first = Some((string_of(&squash_chars(&text_under(nodes, c))), href));
        } else if is_elem(&nodes[c], "strong") {
            strong = Some(string_of(&squash_chars(&text_under(nodes, c))));
        }
        q += 1;
    }
    assert(cs.take(kids.len() as int) =~= cs);
    close(&mut out, first, strong, base);
    out
}

// ============ Bibliography ============

pub struct BookRefView {
    pub author: Option<Seq<char>>,
    pub title: Seq<char>,
    pub path: Option<Seq<char>>,
}

pub open spec fn book_ref_view(b: BookRef) -> BookRefView {
    BookRefView { author: opt_view(b.author), title: b.title@, path: opt_view(b.path) }
}

/// Walking the bibliography's children: the books cited so far, the author
/// carried forward, and the text since the last citation. An author with
/// several books has several `<cite>`s in a row with no author text between.
pub open spec fn bib_walk(doc: Seq<NodeView>, base: Seq<char>, cs: Seq<int>) -> (
    Seq<BookRefView>,
    Option<Seq<char>>,
    Seq<char>,
)
    decreases cs.len(),
{
    if cs.len() == 0 {
        (Seq::empty(), None, Seq::empty())
    } else {
        let (out, author, pending) = bib_walk(doc, base, cs.drop_last());
        let c = cs.last();
        match doc[c].kind {
            KindView::Text(t) => (out, author, pending + t),
            KindView::Element { name, .. } => if name == "cite"@ {
                let at = squashed(pending);
                let author2 = if at.len() > 0 {
                    Some(trim(trim_end_by(at, Strip::Ch(':'))))
                } else {
                    author
                };
                let path = match first_match(doc, c + 1, subtree_end(doc, c), Sel::Tag("a")) {
                    Some(a) => match attr_of(doc[a], "href"@) {
                        Some(h) => Some(resolved_path(h, base)),
                        None => None,
                    },
                    None => None,
                };
                (out.push(BookRefView { author: author2, title: squashed(inner_text(doc, c)), path }), author2, Seq::empty())
            } else {
                (out, author, pending)
            },
            KindView::Other => (out, author, pending),
        }
    }
}

/// The books the page's `p.hiddenbibliography` cites.
pub open spec fn bibliography_of(doc: Seq<NodeView>, art: int, base: Seq<char>) -> Seq<BookRefView> {
    match first_match(doc, art + 1, subtree_end(doc, art), Sel::Class("p", "hiddenbibliography")) {
        None => Seq::empty(),
        Some(bp) => bib_walk(doc, base, children_between(doc, doc[bp].depth, bp + 1, subtree_end(doc, bp))).0,
    }
}

fn copy_opt(o: &Option<String>) -> (r: Option<String>)
    ensures
        r == *o,
{
    match o {
        Some(s) => Some(s.clone()),
        None => None,
    }
}

fn cite_ref(nodes: &Vec<DomNode>, c: usize, base: &Vec<char>, author: &Option<String>) -> (r: BookRef)
    requires
        c < nodes.len(),
    ensures
        book_ref_view(r) == (BookRefView {
            author: opt_view(*author),
            title: squashed(inner_text(doc_view(nodes@), c as int)),
            path: match first_match(doc_view(nodes@), c + 1, subtree_end(doc_view(nodes@), c as int), Sel::Tag("a")) {
                Some(a) => match attr_of(doc_view(nodes@)[a], "href"@) {
                    Some(h) => Some(resolved_path(h, base@)),
                    None => None,
                },
                None => None,
            },
        }),
{
    let ghost doc = doc_view(nodes@);
    let ce = end_of(nodes, c);
    let path = match find_match(nodes, c + 1, ce, &Sel::Tag("a")) {
        Some(a) => {
            assert(doc[a as int] == nodes@[a as int]@);
            match attr(&nodes[a], "href") {
                Some(h) => Some(string_of(&resolve_chars(&chars_of(h.as_str()), base))),
                None => None,
            }
        },
        None => None,
    };
    BookRef { author: copy_opt(author), title: string_of(&squash_chars(&text_under(nodes, c))), path }
}

fn bibliography(nodes: &Vec<DomNode>, art: usize, base: &str) -> (r: Vec<BookRef>)
    requires
        art < nodes.len(),
    ensures
        r@.map_values(|b: BookRef| book_ref_view(b)) == bibliography_of(doc_view(nodes@), art as int, base@),
{
    let ghost doc = doc_view(nodes@);
    let b = chars_of(base);
    let e = end_of(nodes, art);
    let bp = match find_match(nodes, art + 1, e, &Sel::Class("p", "hiddenbibliography")) {
        Some(bp) => bp,
        None => return Vec::new(),
    };
    let be = end_of(nodes, bp);
    assert(doc[bp as int] == nodes@[bp as int]@);
    let kids = crate::parse::artist::children_of(nodes, bp, be);
    let ghost cs = as_ints(kids@);
    let mut out: Vec<BookRef> = Vec::new();
    let mut author: Option<String> = None;
    let mut pending: Vec<char> = Vec::new();
    let mut q: usize = 0;
    while q < kids.len()
        invariant
            q <= kids.len(),
            doc == doc_view(nodes@),
            b@ == base@,
            cs == as_ints(kids@),
            forall|x: int| 0 <= x < kids@.len() ==> bp < #[trigger] kids@[x] < be,
            be <= nodes.len(),
            (out@.map_values(|b: BookRef| book_ref_view(b)), opt_view(author), pending@) == bib_walk(doc, base@, cs.take(q as int)),
        decreases kids.len() - q,
    {
        let c = kids[q];
        assert(cs[q as int] == c as int);
        assert(cs.take(q + 1).drop_last() =~= cs.take(q as int));
        assert(cs.take(q + 1).last() == c as int);
        assert(doc[c as int] == nodes@[c as int]@);
        let ghost before = out@;
        match &nodes[c].kind {
            NodeKind::Text(t) => {
                let mut more = chars_of(t.as_str());
                pending.append(&mut more);
            },
            NodeKind::Element { .. } => {
                if is_elem(&nodes[c], "cite") {
                    let at = squash_chars(&pending);
                    if at.len() > 0 {
                        author = Some(string_of(&trim_chars(&trim_end_chars(&at, &Strip::Ch(':')))));
                    }
                    let r = cite_ref(nodes, c, &b, &author);
                    out.push(r);
                    pending = Vec::new();
                    assert(out@.map_values(|b: BookRef| book_ref_view(b)) =~= before.map_values(|b: BookRef| book_ref_view(b)).push(book_ref_view(r)));
                }
            },
            NodeKind::Other => {},
        }
        q += 1;
    }
    assert(cs.take(kids.len() as int) =~= cs);
    out
}

// ============ Recordings ============

pub struct RecordingView {
    pub performer: Option<Seq<char>>,
    pub album_title: Option<Seq<char>>,
    pub album_path: Option<Seq<char>>,
    pub year: Option<Seq<char>>,
    pub context: Seq<char>,
}

pub open spec fn recording_view(r: Recording) -> RecordingView {
    RecordingView {
        performer: opt_view(r.performer),
        album_title: opt_view(r.album_title),
        album_path: opt_view(r.album_path),
        year: opt_view(r.year),
        context: r.context@,
    }
}

pub open spec fn recordings_view(v: Seq<Recording>) -> Seq<RecordingView> {
    v.map_values(|r: Recording| recording_view(r))
}

/// Recording citations live in prose: not in a quotation, the breadcrumb,
/// the bibliography, or the bracketed reference line.
pub open spec fn excluded_from_prose(doc: Seq<NodeView>, p: int) -> bool {
    ||| has_ancestor(doc, p, Sel::Tag("blockquote"))
    ||| has_class(doc[p], "reference"@)
    ||| has_class(doc[p], "hiddenbibliography"@)
    ||| opens_bracket(doc, p)
}

pub open spec fn cites_path(out: Seq<RecordingView>, path: Seq<char>) -> bool {
    exists|m: int| 0 <= m < out.len() && (#[trigger] out[m]).album_path == Some(path)
}

/// What one `<cite>` adds: a recording of the album it links, when the link
/// is to a `/records/` page not already cited anywhere on the page.
pub open spec fn cite_step(doc: Seq<NodeView>, base: Seq<char>, out: Seq<RecordingView>, c: int, context: Seq<char>) -> Seq<RecordingView> {
    match first_match(doc, c + 1, subtree_end(doc, c), Sel::Attr("a", "href")) {
        Some(a) => {
            let h = attr_of(doc[a], "href"@).unwrap();
            let path = resolved_path(h, base);
            if contains(h, "/records/"@) && !cites_path(out, path) {
                out.push(RecordingView {
                    performer: before_verb_of(context),
                    album_title: Some(squashed(inner_text(doc, c))),
                    album_path: Some(path),
                    year: year_run_from(context, 0),
                    context,
                })
            } else {
                out
            }
        },
        None => out,
    }
}

pub open spec fn cites_walk(doc: Seq<NodeView>, base: Seq<char>, out: Seq<RecordingView>, cs: Seq<int>, context: Seq<char>) -> Seq<RecordingView>
    decreases cs.len(),
{
    if cs.len() == 0 {
        out
    } else {
        cite_step(doc, base, cites_walk(doc, base, out, cs.drop_last(), context), cs.last(), context)
    }
}

/// What one prose paragraph adds: a recording per album it cites, all
/// sharing the paragraph as context, its performer and its year.
pub open spec fn paragraph_recordings(doc: Seq<NodeView>, base: Seq<char>, out: Seq<RecordingView>, p: int) -> Seq<RecordingView> {
    if excluded_from_prose(doc, p) {
        out
    } else {
        cites_walk(doc, base, out, all_matches(doc, p + 1, subtree_end(doc, p), Sel::Tag("cite")), squashed(inner_text(doc, p)))
    }
}

pub open spec fn recordings_walk(doc: Seq<NodeView>, base: Seq<char>, ps: Seq<int>) -> Seq<RecordingView>
    decreases ps.len(),
{
    if ps.len() == 0 {
        Seq::empty()
    } else {
        paragraph_recordings(doc, base, recordings_walk(doc, base, ps.drop_last()), ps.last())
    }
}

/// Every recording the article's prose cites, each album once.
pub open spec fn recordings_of(doc: Seq<NodeView>, art: int, base: Seq<char>) -> Seq<RecordingView> {
    recordings_walk(doc, base, all_matches(doc, art + 1, subtree_end(doc, art), Sel::Tag("p")))
}

proof fn lemma_cites_distinct(doc: Seq<NodeView>, base: Seq<char>, out: Seq<RecordingView>, cs: Seq<int>, context: Seq<char>)
    requires
        forall|i: int, j: int| 0 <= i < j < out.len() ==> (#[trigger] out[i]).album_path != (#[trigger] out[j]).album_path,
    ensures
        ({
            let r = cites_walk(doc, base, out, cs, context);
            forall|i: int, j: int| 0 <= i < j < r.len() ==> (#[trigger] r[i]).album_path != (#[trigger] r[j]).album_path
        }),
    decreases cs.len(),
{
    if cs.len() > 0 {
        lemma_cites_distinct(doc, base, out, cs.drop_last(), context);
        let prev = cites_walk(doc, base, out, cs.drop_last(), context);
        let cur = cites_walk(doc, base, out, cs, context);
        let c = cs.last();
        if let Some(a) = first_match(doc, c + 1, subtree_end(doc, c), Sel::Attr("a", "href")) {
            let h = attr_of(doc[a], "href"@).unwrap();
            let path = resolved_path(h, base);
            if contains(h, "/records/"@) && !cites_path(prev, path) {
                assert forall|i: int, j: int| 0 <= i < j < cur.len() implies (#[trigger] cur[i]).album_path != (#[trigger] cur[j]).album_path by {
                    if j == cur.len() - 1 {
                        assert(cur[i] == prev[i]);
                        if cur[i].album_path == Some(path) {
                            assert(cites_path(prev, path));
                        }
                    } else {
                        assert(cur[i] == prev[i] && cur[j] == prev[j]);
                    }
                }
            }
        }
    }
}

/// A page's recordings cite each album once: no two share an album path,
/// however many paragraphs cite it.
pub proof fn law_each_album_cited_once(doc: Seq<NodeView>, base: Seq<char>, ps: Seq<int>)
    ensures
        forall|i: int, j: int|
            0 <= i < j < recordings_walk(doc, base, ps).len() ==> (#[trigger] recordings_walk(doc, base, ps)[i]).album_path
                != (#[trigger] recordings_walk(doc, base, ps)[j]).album_path,
    decreases ps.len(),
{
    if ps.len() > 0 {
        law_each_album_cited_once(doc, base, ps.drop_last());
        let prev = recordings_walk(doc, base, ps.drop_last());
        let p = ps.last();
        if !excluded_from_prose(doc, p) {
            lemma_cites_distinct(doc, base, prev, all_matches(doc, p + 1, subtree_end(doc, p), Sel::Tag("cite")), squashed(inner_text(doc, p)));
        }
    }
}

/// A reference line's off-archive links name each URL once.
pub proof fn law_each_link_once(doc: Seq<NodeView>, anchors: Seq<int>)
    ensures
        forall|i: int, j: int|
            0 <= i < j < external_links_of(doc, anchors).len() ==> (#[trigger] external_links_of(doc, anchors)[i]).1
                != (#[trigger] external_links_of(doc, anchors)[j]).1,
    decreases anchors.len(),
{
    if anchors.len() > 0 {
        law_each_link_once(doc, anchors.drop_last());
        let prev = external_links_of(doc, anchors.drop_last());
        let cur = external_links_of(doc, anchors);
        let a = anchors.last();
        if let Some(h) = attr_of(doc[a], "href"@) {
            if (starts_with(h, "http"@) || has_class(doc[a], "external"@)) && !holds_url(prev, h) {
                assert forall|i: int, j: int| 0 <= i < j < cur.len() implies (#[trigger] cur[i]).1 != (#[trigger] cur[j]).1 by {
                    if j == cur.len() - 1 {
                        assert(cur[i] == prev[i]);
                        if cur[i].1 == h {
                            assert(holds_url(prev, h));
                        }
                    } else {
                        assert(cur[i] == prev[i] && cur[j] == prev[j]);
                    }
                }
            }
        }
    }
}

fn excluded(nodes: &Vec<DomNode>, p: usize) -> (r: bool)
    requires
        p < nodes.len(),
    ensures
        r == excluded_from_prose(doc_view(nodes@), p as int),
{
    let ghost doc = doc_view(nodes@);
    assert(doc[p as int] == nodes@[p as int]@);
    ancestor_matches(nodes, p, &Sel::Tag("blockquote")) || has_class_attr(&nodes[p], "reference")
        || has_class_attr(&nodes[p], "hiddenbibliography") || opens_with_bracket(nodes, p)
}

fn path_cited(out: &Vec<Recording>, path: &Vec<char>) -> (r: bool)
    ensures
        r == cites_path(recordings_view(out@), path@),
{
    let ghost rv = recordings_view(out@);
    let mut m: usize = 0;
    while m < out.len()
        invariant
            m <= out.len(),
            rv == recordings_view(out@),
            forall|j: int| 0 <= j < m ==> (#[trigger] rv[j]).album_path != Some(path@),
        decreases out.len() - m,
    {
        assert(rv[m as int].album_path == opt_view(out@[m as int].album_path));
        if let Some(p) = &out[m].album_path {
            if same(&chars_of(p.as_str()), path) {
                return true;
            }
        }
        m += 1;
    }
    false
}

fn cite_recording(nodes: &Vec<DomNode>, base: &Vec<char>, out: &mut Vec<Recording>, c: usize, context: &Vec<char>)
    requires
        c < nodes.len(),
    ensures
        recordings_view(final(out)@) == cite_step(doc_view(nodes@), base@, recordings_view(old(out)@), c as int, context@),
{
    let ghost doc = doc_view(nodes@);
    let ce = end_of(nodes, c);
    let a = match find_match(nodes, c + 1, ce, &Sel::Attr("a", "href")) {
        Some(a) => a,
        None => return,
    };
    proof {
        lemma_first_match(doc, c + 1, ce as int, Sel::Attr("a", "href"));
    }
    assert(doc[a as int] == nodes@[a as int]@);
    let href = attr(&nodes[a], "href").unwrap();
    let h = chars_of(href.as_str());
    let path = resolve_chars(&h, base);
    if contains_chars(&h, &chars_of("/records/")) && !path_cited(out, &path) {
        let cs = string_of(context);
        let r = Recording {
            performer: split_before_verb(cs.as_str()),
            album_title: Some(string_of(&squash_chars(&text_under(nodes, c)))),
            album_path: Some(string_of(&path)),
            year: find_year(cs.as_str()),
            context: cs,
        };
        let ghost before = out@;
        out.push(r);
        assert(recordings_view(out@) =~= recordings_view(before).push(recording_view(r)));
    }
}

fn paragraph_recordings_into(nodes: &Vec<DomNode>, base: &Vec<char>, out: &mut Vec<Recording>, p: usize)
    requires
        p < nodes.len(),
    ensures
        recordings_view(final(out)@) == paragraph_recordings(doc_view(nodes@), base@, recordings_view(old(out)@), p as int),
{
    let ghost doc = doc_view(nodes@);
    if excluded(nodes, p) {
        return;
    }
    let context = squash_chars(&text_under(nodes, p));
    let pe = end_of(nodes, p);
    let cites = select_all(nodes, p + 1, pe, &Sel::Tag("cite"));
    let ghost cv = as_ints(cites@);
    let ghost start = recordings_view(out@);
    let mut q: usize = 0;
    while q < cites.len()
        invariant
            q <= cites.len(),
            doc == doc_view(nodes@),
            cv == as_ints(cites@),
            forall|x: int| 0 <= x < cites@.len() ==> p + 1 <= #[trigger] cites@[x] < pe,
            pe <= nodes.len(),
            recordings_view(out@) == cites_walk(doc, base@, start, cv.take(q as int), context@),
        decreases cites.len() - q,
    {
        let c = cites[q];
        assert(cv[q as int] == c as int);
        assert(cv.take(q + 1).drop_last() =~= cv.take(q as int));
        assert(cv.take(q + 1).last() == c as int);
        cite_recording(nodes, base, out, c, &context);
        q += 1;
    }
    assert(cv.take(cites.len() as int) =~= cv);
}

fn recordings(nodes: &Vec<DomNode>, art: usize, base: &str) -> (r: Vec<Recording>)
    requires
        art < nodes.len(),
    ensures
        recordings_view(r@) == recordings_of(doc_view(nodes@), art as int, base@),
{
    let ghost doc = doc_view(nodes@);
    let b = chars_of(base);
    let e = end_of(nodes, art);
    let ps = select_all(nodes, art + 1, e, &Sel::Tag("p"));
    let ghost pv = as_ints(ps@);
    let mut out: Vec<Recording> = Vec::new();
    let mut q: usize = 0;
    while q < ps.len()
        invariant
            q <= ps.len(),
            doc == doc_view(nodes@),
            b@ == base@,
            pv == as_ints(ps@),
            forall|x: int| 0 <= x < ps@.len() ==> art + 1 <= #[trigger] ps@[x] < e,
            e <= nodes.len(),
            recordings_view(out@) == recordings_walk(doc, base@, pv.take(q as int)),
        decreases ps.len() - q,
    {
        let p = ps[q];
        assert(pv[q as int] == p as int);
        assert(pv.take(q + 1).drop_last() =~= pv.take(q as int));
        assert(pv.take(q + 1).last() == p as int);
        paragraph_recordings_into(nodes, &b, &mut out, p);
        q += 1;
    }
    assert(pv.take(ps.len() as int) =~= pv);
    out
}

// ============ The song page ============

/// What a song page holds, once its main article and heading are found.
pub open spec fn song_parts_ok(s: Song, doc: Seq<NodeView>, art: int, h1: int, path: Seq<char>) -> bool {
    let title = squashed(inner_text(doc, h1));
    let (refs, links, trad) = reference_part_of(doc, art);
    &&& s.path@ == path
    &&& s.title@ == title
    &&& strs(s.titles@) == title_parts(title)
    &&& refs_view(s.refs) == refs
    &&& links_view(s.external_links@) == links
    &&& s.traditional == trad
    &&& attributions_view(s.attributions@) == attributions_of(doc, art, path)
    &&& s.lyrics@.map_values(|l: LyricVersion| lyric_view(l)) == lyrics_of(doc, art)
    &&& s.notes@.map_values(|n: Note| note_view(n)) == notes_of(doc, art)
    &&& recordings_view(s.recordings@) == recordings_of(doc, art, path)
    &&& s.bibliography@.map_values(|b: BookRef| book_ref_view(b)) == bibliography_of(doc, art, path)
    &&& s.source == Source::MainlyNorfolk
}

/// A song page: the main article and its heading, or else no song. From
/// them, the titles, references, attributions, lyrics, notes, recordings and
/// bibliography, each block found and read on its own, since the archive
/// writes them as siblings rather than sections.
pub fn parse(html: &str, path: &str) -> (r: Result<Song, Error>)
    ensures
        ({
            let doc = parsed_document(html@);
            match first_match(doc, 0, doc.len() as int, Sel::Id("article", "mainArticle")) {
                Some(art) => match first_match(doc, art + 1, subtree_end(doc, art), Sel::Tag("h1")) {
                    Some(h1) => r matches Ok(s) && song_parts_ok(s, doc, art, h1, path@),
                    None => r matches Err(Error::Parse { what, url }) && what@ == "song"@ && url@ == path@,
                },
                None => r matches Err(Error::Parse { what, url }) && what@ == "song"@ && url@ == path@,
            }
        }),
{
    let nodes = parse_html(html);
    let ghost doc = doc_view(nodes@);
    let art = match find_match(&nodes, 0, nodes.len(), &Sel::Id("article", "mainArticle")) {
        Some(a) => a,
        None => return Err(Error::Parse { what: "song", url: String::from_str(path) }),
    };
    let e = end_of(&nodes, art);
    let h1 = match find_match(&nodes, art + 1, e, &Sel::Tag("h1")) {
        Some(h) => h,
        None => return Err(Error::Parse { what: "song", url: String::from_str(path) }),
    };
    let title = string_of(&squash_chars(&text_under(&nodes, h1)));
    let titles = crate::parse::split_titles(title.as_str());
    assert(strs(titles@) =~= title_parts(title@));
    let (refs, external_links, traditional) = reference_part(&nodes, art);
    let s = Song {
        path: String::from_str(path),
        titles,
        title,
        refs,
        attributions: attributions(&nodes, art, path),
        lyrics: lyrics(&nodes, art),
        notes: notes(&nodes, art),
        recordings: recordings(&nodes, art, path),
        bibliography: bibliography(&nodes, art, path),
        external_links,
        traditional,
        source: Source::MainlyNorfolk,
    };
    Ok(s)
}

} // verus!
