//! A parsed page as the parsers read it: every node of the document tree in
//! document order, each with its depth below the root.
//!
//! In that order a node's subtree is the run of nodes after it that sit
//! deeper than it, its children are those of that run exactly one level
//! down, and its siblings are the nodes at its own depth on either side,
//! up to the first node shallower than it.
use vstd::prelude::*;

use crate::text::{chars_of, same, string_of};

verus! {

/// What a node of a parsed page is.
pub enum NodeKind {
    /// An element: its tag name and its attributes, each as its namespace
    /// (empty for a plain HTML attribute), its local name and its value.
    Element { name: String, attrs: Vec<(String, String, String)> },
    /// A run of text.
    Text(String),
    /// The document itself, a doctype, a comment or an instruction.
    Other,
}

/// One node of a parsed page.
pub struct DomNode {
    /// How many ancestors the node has: the document root is at 0.
    pub depth: usize,
    pub kind: NodeKind,
}

/// A [`NodeKind`] with its text as characters.
pub enum KindView {
    Element { name: Seq<char>, attrs: Seq<(Seq<char>, Seq<char>, Seq<char>)> },
    Text(Seq<char>),
    Other,
}

pub struct NodeView {
    pub depth: nat,
    pub kind: KindView,
}

pub open spec fn attrs_view(attrs: Seq<(String, String, String)>) -> Seq<(Seq<char>, Seq<char>, Seq<char>)> {
    attrs.map_values(|p: (String, String, String)| (p.0@, p.1@, p.2@))
}

impl View for DomNode {
    type V = NodeView;

    open spec fn view(&self) -> NodeView {
        NodeView {
            depth: self.depth as nat,
            kind: match self.kind {
                NodeKind::Element { name, attrs } => KindView::Element { name: name@, attrs: attrs_view(attrs@) },
                NodeKind::Text(t) => KindView::Text(t@),
                NodeKind::Other => KindView::Other,
            },
        }
    }
}

pub open spec fn doc_view(nodes: Seq<DomNode>) -> Seq<NodeView> {
    nodes.map_values(|n: DomNode| n@)
}

/// The nodes `scraper` parses an HTML document into, in document order.
pub uninterp spec fn parsed_document(html: Seq<char>) -> Seq<NodeView>;

/// `scraper::Html::parse_document`, its tree walked from the root in
/// document order, each node with the number of its ancestors: a function
/// of the text alone.
#[verifier::external_body]
pub(crate) fn parse_html(html: &str) -> (r: Vec<DomNode>)
    ensures
        doc_view(r@) == parsed_document(html@),
{
    let doc = scraper::Html::parse_document(html);
    doc.tree.root().descendants().map(|n| DomNode {
        depth: n.ancestors().count(),
        kind: match n.value() {
            scraper::Node::Element(e) => NodeKind::Element {
                name: e.name().to_string(),
                attrs: e.attrs.iter().map(|(k, v)| (k.ns.to_string(), k.local.to_string(), v.to_string())).collect(),
            },
            scraper::Node::Text(t) => NodeKind::Text(t.to_string()),
            _ => NodeKind::Other,
        },
    }).collect()
}

// ============ Tree shape ============

/// The first node at or after `j` no deeper than `d`, or the end.
pub open spec fn end_from(doc: Seq<NodeView>, d: nat, j: int) -> int
    decreases doc.len() - j,
{
    if j < 0 || j >= doc.len() {
        doc.len() as int
    } else if doc[j].depth <= d {
        j
    } else {
        end_from(doc, d, j + 1)
    }
}

/// Where the subtree of node `i` ends: its descendants are `(i, end)`.
pub open spec fn subtree_end(doc: Seq<NodeView>, i: int) -> int {
    end_from(doc, doc[i].depth, i + 1)
}

pub proof fn lemma_end_from(doc: Seq<NodeView>, d: nat, j: int)
    requires
        0 <= j <= doc.len(),
    ensures
        j <= end_from(doc, d, j) <= doc.len(),
        forall|k: int| j <= k < end_from(doc, d, j) ==> #[trigger] doc[k].depth > d,
        end_from(doc, d, j) < doc.len() ==> doc[end_from(doc, d, j)].depth <= d,
    decreases doc.len() - j,
{
    if j < doc.len() && doc[j].depth > d {
        lemma_end_from(doc, d, j + 1);
    }
}

/// Whether `j` lies in the subtree of `i`, below it.
pub open spec fn within(doc: Seq<NodeView>, i: int, j: int) -> bool {
    i < j < subtree_end(doc, i)
}

/// Where the subtree of node `i` ends.
pub fn end_of(nodes: &Vec<DomNode>, i: usize) -> (e: usize)
    requires
        i < nodes.len(),
    ensures
        e == subtree_end(doc_view(nodes@), i as int),
        i < e <= nodes.len(),
{
    let ghost doc = doc_view(nodes@);
    let d = nodes[i].depth;
    let mut j = i + 1;
    while j < nodes.len() && nodes[j].depth > d
        invariant
            i < j <= nodes.len(),
            doc == doc_view(nodes@),
            d == doc[i as int].depth,
            end_from(doc, d as nat, i + 1) == end_from(doc, d as nat, j as int),
        decreases nodes.len() - j,
    {
        assert(doc[j as int] == nodes@[j as int]@);
        j += 1;
    }
    if j < nodes.len() {
        assert(doc[j as int] == nodes@[j as int]@);
    }
    j
}

// ============ Elements ============

pub open spec fn is_named(n: NodeView, name: Seq<char>) -> bool {
    n.kind matches KindView::Element { name: m, .. } && m == name
}

pub open spec fn is_element(n: NodeView) -> bool {
    n.kind is Element
}

/// The value of the first attribute in no namespace called `name`.
pub open spec fn attr_in(attrs: Seq<(Seq<char>, Seq<char>, Seq<char>)>, name: Seq<char>) -> Option<Seq<char>>
    decreases attrs.len(),
{
    if attrs.len() == 0 {
        None
    } else if attrs[0].0.len() == 0 && attrs[0].1 == name {
        Some(attrs[0].2)
    } else {
        attr_in(attrs.drop_first(), name)
    }
}

/// The value of attribute `name` on node `n`, if it is an element that has
/// one.
pub open spec fn attr_of(n: NodeView, name: Seq<char>) -> Option<Seq<char>> {
    match n.kind {
        KindView::Element { attrs, .. } => attr_in(attrs, name),
        _ => None,
    }
}

pub fn is_elem(n: &DomNode, name: &str) -> (r: bool)
    ensures
        r == is_named(n@, name@),
{
    match &n.kind {
        NodeKind::Element { name: m, .. } => same(&chars_of(m.as_str()), &chars_of(name)),
        _ => false,
    }
}

/// The value of attribute `name` on `n`.
pub fn attr(n: &DomNode, name: &str) -> (r: Option<String>)
    ensures
        match r {
            Some(v) => attr_of(n@, name@) == Some(v@),
            None => attr_of(n@, name@) is None,
        },
{
    match &n.kind {
        NodeKind::Element { attrs, .. } => {
            let ghost av = attrs_view(attrs@);
            let want = chars_of(name);
            assert(av.skip(0) =~= av);
            let mut k: usize = 0;
            while k < attrs.len()
                invariant
                    k <= attrs.len(),
                    av == attrs_view(attrs@),
                    attr_of(n@, name@) == attr_in(av, name@),
                    want@ == name@,
                    attr_in(av, name@) == attr_in(av.skip(k as int), name@),
                decreases attrs.len() - k,
            {
                assert(av.skip(k as int)[0] == av[k as int]);
                assert(av.skip(k as int).drop_first() =~= av.skip(k + 1));
                assert(av[k as int] == (attrs@[k as int].0@, attrs@[k as int].1@, attrs@[k as int].2@));
                if chars_of(attrs[k].0.as_str()).len() == 0 && same(&chars_of(attrs[k].1.as_str()), &want) {
                    let v = attrs[k].2.clone();
                    assert(attr_in(av.skip(k as int), name@) == Some(v@));
                    return Some(v);
                }
                k += 1;
            }
            assert(av.skip(k as int) =~= Seq::<(Seq<char>, Seq<char>, Seq<char>)>::empty());
            None
        },
        _ => None,
    }
}

/// The characters HTML counts as whitespace between class names.
pub open spec fn is_html_space(c: char) -> bool {
    c == ' ' || c == '\t' || c == '\n' || c == '\u{c}' || c == '\r'
}

/// `class` appears in `value` at `i`, with whitespace or an end either side.
pub open spec fn listed_at(value: Seq<char>, class: Seq<char>, i: int) -> bool {
    &&& 0 <= i && i + class.len() <= value.len()
    &&& value.subrange(i, i + class.len()) == class
    &&& i == 0 || is_html_space(value[i - 1])
    &&& i + class.len() == value.len() || is_html_space(value[i + class.len()])
}

/// `class` appears in `value` as a whole whitespace-separated word.
pub open spec fn class_listed(value: Seq<char>, class: Seq<char>) -> bool {
    exists|i: int| listed_at(value, class, i)
}

/// Whether node `n` is an element whose `class` attribute lists `class`.
pub open spec fn has_class(n: NodeView, class: Seq<char>) -> bool {
    attr_of(n, "class"@) matches Some(v) && class_listed(v, class)
}

fn space(c: char) -> (r: bool)
    ensures
        r == is_html_space(c),
{
    c == ' ' || c == '\t' || c == '\n' || c == '\u{c}' || c == '\r'
}

fn listed(v: &[char], class: &[char]) -> (r: bool)
    ensures
        r == class_listed(v@, class@),
{
    if class.len() > v.len() {
        return false;
    }
    let n = v.len() - class.len();
    let mut i: usize = 0;
    loop
        invariant
            class@.len() <= v@.len(),
            n == v@.len() - class@.len(),
            i <= n,
            forall|j: int| 0 <= j < i ==> !listed_at(v@, class@, j),
        ensures
            forall|j: int| 0 <= j <= n ==> !listed_at(v@, class@, j),
        decreases n - i,
    {
        let at = crate::text::starts_with_at(v, class, i);
        let before = i == 0 || space(v[i - 1]);
        let after = i + class.len() == v.len() || space(v[i + class.len()]);
        proof {
            if at {
                assert(v@.subrange(i as int, i + class@.len()) == class@);
            } else {
                assert(v@.subrange(i as int, i + class@.len()) != class@);
            }
        }
        if at && before && after {
            assert(listed_at(v@, class@, i as int));
            return true;
        }
        assert(!listed_at(v@, class@, i as int));
        if i == n {
            break;
        }
        i += 1;
    }
    assert forall|j: int| !listed_at(v@, class@, j) by {
        if listed_at(v@, class@, j) {
            assert(j <= n);
        }
    }
    false
}

/// Whether `n` is an element whose classes include `class`.
pub fn has_class_attr(n: &DomNode, class: &str) -> (r: bool)
    ensures
        r == has_class(n@, class@),
{
    match attr(n, "class") {
        Some(v) => listed(&chars_of(v.as_str()), &chars_of(class)),
        None => false,
    }
}

// ============ Text ============

pub open spec fn text_of(n: NodeView) -> Seq<char> {
    match n.kind {
        KindView::Text(t) => t,
        _ => Seq::empty(),
    }
}

/// The text of the nodes in `[a, b)`, concatenated.
pub open spec fn text_in(doc: Seq<NodeView>, a: int, b: int) -> Seq<char>
    decreases b - a,
{
    if b <= a {
        Seq::empty()
    } else {
        text_in(doc, a, b - 1) + text_of(doc[b - 1])
    }
}

/// The text under node `i`: what `ElementRef::text` yields, concatenated.
pub open spec fn inner_text(doc: Seq<NodeView>, i: int) -> Seq<char> {
    text_in(doc, i + 1, subtree_end(doc, i))
}

/// The text of the nodes in `[a, b)`.
pub fn text_between(nodes: &Vec<DomNode>, a: usize, b: usize) -> (r: Vec<char>)
    requires
        a <= b <= nodes.len(),
    ensures
        r@ == text_in(doc_view(nodes@), a as int, b as int),
{
    let ghost doc = doc_view(nodes@);
    let mut out: Vec<char> = Vec::new();
    let mut k = a;
    while k < b
        invariant
            a <= k <= b <= nodes.len(),
            doc == doc_view(nodes@),
            out@ == text_in(doc, a as int, k as int),
        decreases b - k,
    {
        assert(doc[k as int] == nodes@[k as int]@);
        if let NodeKind::Text(t) = &nodes[k].kind {
            let mut more = chars_of(t.as_str());
            out.append(&mut more);
        }
        k += 1;
    }
    out
}

/// The text under node `i`.
pub fn text_under(nodes: &Vec<DomNode>, i: usize) -> (r: Vec<char>)
    requires
        i < nodes.len(),
    ensures
        r@ == inner_text(doc_view(nodes@), i as int),
{
    let e = end_of(nodes, i);
    text_between(nodes, i + 1, e)
}

// ============ Selecting ============

/// The simple selectors the parsers use: a tag, a tag with an id, a tag
/// with a class, a tag bearing an attribute.
pub enum Sel {
    Tag(&'static str),
    Id(&'static str, &'static str),
    Class(&'static str, &'static str),
    Attr(&'static str, &'static str),
}

pub open spec fn sel_matches(n: NodeView, s: Sel) -> bool {
    match s {
        Sel::Tag(t) => is_named(n, t@),
        Sel::Id(t, id) => is_named(n, t@) && attr_of(n, "id"@) == Some(id@),
        Sel::Class(t, c) => is_named(n, t@) && has_class(n, c@),
        Sel::Attr(t, a) => is_named(n, t@) && attr_of(n, a@) is Some,
    }
}

pub fn selects(n: &DomNode, s: &Sel) -> (r: bool)
    ensures
        r == sel_matches(n@, *s),
{
    match s {
        Sel::Tag(t) => is_elem(n, t),
        Sel::Id(t, id) => is_elem(n, t) && match attr(n, "id") {
            Some(v) => same(&chars_of(v.as_str()), &chars_of(id)),
            None => false,
        },
        Sel::Class(t, c) => is_elem(n, t) && has_class_attr(n, c),
        Sel::Attr(t, a) => is_elem(n, t) && attr(n, a).is_some(),
    }
}

/// The first node in `[a, b)` matching `s`.
pub open spec fn first_match(doc: Seq<NodeView>, a: int, b: int, s: Sel) -> Option<int>
    decreases b - a,
{
    if a >= b || a < 0 || a >= doc.len() {
        None
    } else if sel_matches(doc[a], s) {
        Some(a)
    } else {
        first_match(doc, a + 1, b, s)
    }
}

pub proof fn lemma_first_match(doc: Seq<NodeView>, a: int, b: int, s: Sel)
    requires
        0 <= a,
        b <= doc.len(),
    ensures
        first_match(doc, a, b, s) matches Some(i) ==> a <= i < b && sel_matches(doc[i], s),
    decreases b - a,
{
    if a < b && !sel_matches(doc[a], s) {
        lemma_first_match(doc, a + 1, b, s);
    }
}

/// The first node in `[a, b)` matching `s`.
pub fn find_match(nodes: &Vec<DomNode>, a: usize, b: usize, s: &Sel) -> (r: Option<usize>)
    requires
        a <= b <= nodes.len(),
    ensures
        match r {
            Some(i) => first_match(doc_view(nodes@), a as int, b as int, *s) == Some(i as int) && a <= i < b,
            None => first_match(doc_view(nodes@), a as int, b as int, *s) is None,
        },
{
    let ghost doc = doc_view(nodes@);
    let mut k = a;
    while k < b
        invariant
            a <= k <= b <= nodes.len(),
            doc == doc_view(nodes@),
            first_match(doc, a as int, b as int, *s) == first_match(doc, k as int, b as int, *s),
        decreases b - k,
    {
        assert(doc[k as int] == nodes@[k as int]@);
        if selects(&nodes[k], s) {
            return Some(k);
        }
        k += 1;
    }
    None
}

/// Every node in `[a, b)` matching `s`, in order.
pub open spec fn all_matches(doc: Seq<NodeView>, a: int, b: int, s: Sel) -> Seq<int>
    decreases b - a,
{
    if b <= a {
        Seq::empty()
    } else {
        let prev = all_matches(doc, a, b - 1, s);
        if sel_matches(doc[b - 1], s) {
            prev.push(b - 1)
        } else {
            prev
        }
    }
}

pub proof fn lemma_all_matches(doc: Seq<NodeView>, a: int, b: int, s: Sel, m: int)
    requires
        0 <= m < all_matches(doc, a, b, s).len(),
    ensures
        a <= all_matches(doc, a, b, s)[m] < b,
        sel_matches(doc[all_matches(doc, a, b, s)[m]], s),
    decreases b - a,
{
    if b > a {
        let prev = all_matches(doc, a, b - 1, s);
        if m < prev.len() {
            lemma_all_matches(doc, a, b - 1, s, m);
        }
    }
}

pub open spec fn as_ints(v: Seq<usize>) -> Seq<int> {
    v.map_values(|k: usize| k as int)
}

/// Every node in `[a, b)` matching `s`, in order.
pub fn select_all(nodes: &Vec<DomNode>, a: usize, b: usize, s: &Sel) -> (r: Vec<usize>)
    requires
        a <= b <= nodes.len(),
    ensures
        as_ints(r@) == all_matches(doc_view(nodes@), a as int, b as int, *s),
        forall|m: int| 0 <= m < r@.len() ==> a <= #[trigger] r@[m] < b,
{
    let ghost doc = doc_view(nodes@);
    let mut out: Vec<usize> = Vec::new();
    let mut k = a;
    while k < b
        invariant
            a <= k <= b <= nodes.len(),
            doc == doc_view(nodes@),
            as_ints(out@) == all_matches(doc, a as int, k as int, *s),
            forall|m: int| 0 <= m < out@.len() ==> a <= #[trigger] out@[m] < k,
        decreases b - k,
    {
        assert(doc[k as int] == nodes@[k as int]@);
        let ghost before = out@;
        if selects(&nodes[k], s) {
            out.push(k);
            assert(as_ints(out@) =~= as_ints(before).push(k as int));
        }
        k += 1;
    }
    out
}

/// The parent of node `i`: the nearest node before it that sits higher.
pub open spec fn parent_from(doc: Seq<NodeView>, i: int, j: int) -> Option<int>
    decreases j + 1,
{
    if j < 0 || i < 0 || i >= doc.len() || j >= doc.len() {
        None
    } else if doc[j].depth < doc[i].depth {
        Some(j)
    } else {
        parent_from(doc, i, j - 1)
    }
}

pub open spec fn parent_index(doc: Seq<NodeView>, i: int) -> Option<int> {
    parent_from(doc, i, i - 1)
}

/// The parent of node `i`.
pub fn parent_of(nodes: &Vec<DomNode>, i: usize) -> (r: Option<usize>)
    requires
        i < nodes.len(),
    ensures
        match r {
            Some(p) => parent_index(doc_view(nodes@), i as int) == Some(p as int) && p < i,
            None => parent_index(doc_view(nodes@), i as int) is None,
        },
{
    let ghost doc = doc_view(nodes@);
    assert(doc[i as int] == nodes@[i as int]@);
    let d = nodes[i].depth;
    let mut j = i;
    while j > 0
        invariant
            j <= i < nodes.len(),
            doc == doc_view(nodes@),
            d == doc[i as int].depth,
            parent_index(doc, i as int) == parent_from(doc, i as int, j - 1),
        decreases j,
    {
        assert(doc[j - 1] == nodes@[j - 1]@);
        if nodes[j - 1].depth < d {
            return Some(j - 1);
        }
        j -= 1;
    }
    None
}

/// Some ancestor of node `i` matches `s`.
pub open spec fn has_ancestor(doc: Seq<NodeView>, i: int, s: Sel) -> bool
    decreases i + 1,
{
    match parent_index(doc, i) {
        Some(p) => if 0 <= p < i {
            sel_matches(doc[p], s) || has_ancestor(doc, p, s)
        } else {
            false
        },
        None => false,
    }
}

/// Whether an ancestor of node `i` matches `s`.
pub fn ancestor_matches(nodes: &Vec<DomNode>, i: usize, s: &Sel) -> (r: bool)
    requires
        i < nodes.len(),
    ensures
        r == has_ancestor(doc_view(nodes@), i as int, *s),
{
    let ghost doc = doc_view(nodes@);
    let mut k = i;
    loop
        invariant
            k <= i < nodes.len(),
            doc == doc_view(nodes@),
            has_ancestor(doc, i as int, *s) == has_ancestor(doc, k as int, *s),
        decreases k,
    {
        match parent_of(nodes, k) {
            Some(p) => {
                assert(doc[p as int] == nodes@[p as int]@);
                if selects(&nodes[p], s) {
                    return true;
                }
                k = p;
            },
            None => {
                return false;
            },
        }
    }
}

pub fn node_string(s: &Vec<char>) -> (r: String)
    ensures
        r@ == s@,
{
    string_of(s)
}

} // verus!
