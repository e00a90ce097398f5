//! Relay-style paging over a list already in hand.
//!
//! The archive publishes whole pages, so paging is slicing: `first`/`after`
//! decide what of the list is served. A cursor is an item's path, or its
//! position where it has none.
use vstd::prelude::*;

use crate::commands::songs::opt_str;
use crate::text::{debug_quoted, quoted, reversed, strs};

verus! {

/// Page size used when a connection names no `first`/`last`.
pub const DEFAULT_PAGE: u32 = 25;
/// Hard cap on a single page.
pub const MAX_PAGE: u32 = 100;

pub open spec fn clamp_of(size: Option<u32>) -> u32 {
    let s = match size {
        Some(s) => s,
        None => DEFAULT_PAGE,
    };
    if s < MAX_PAGE {
        s
    } else {
        MAX_PAGE
    }
}

/// The page size asked for, or the default, capped.
pub fn clamp_page(size: Option<u32>) -> (r: u32)
    ensures
        r == clamp_of(size),
{
    let s = match size {
        Some(s) => s,
        None => DEFAULT_PAGE,
    };
    if s < MAX_PAGE {
        s
    } else {
        MAX_PAGE
    }
}

/// A requested count, negative read as nothing.
pub open spec fn nonneg(n: i32) -> u32 {
    if n < 0 {
        0
    } else {
        n as u32
    }
}

/// The page size a `first` or else `last` asks for.
pub open spec fn requested_of(first: Option<i32>, last: Option<i32>) -> Option<u32> {
    match first {
        Some(n) => Some(nonneg(n)),
        None => match last {
            Some(n) => Some(nonneg(n)),
            None => None,
        },
    }
}

/// Cost of a connection field: the page size asked for, times the cost of a node.
pub fn page_complexity(first: Option<i32>, last: Option<i32>, child_complexity: usize) -> (r: usize)
    requires
        clamp_of(requested_of(first, last)) * child_complexity <= usize::MAX,
    ensures
        r == clamp_of(requested_of(first, last)) * child_complexity,
{
    let requested = match first {
        Some(n) => Some(if n < 0 { 0 } else { n as u32 }),
        None => match last {
            Some(n) => Some(if n < 0 { 0 } else { n as u32 }),
            None => None,
        },
    };
    clamp_page(requested) as usize * child_complexity
}

/// Arguments every connection accepts.
pub struct PageArgs {
    pub after: Option<String>,
    pub before: Option<String>,
    pub first: Option<i32>,
    pub last: Option<i32>,
}

/// The extra field on a connection built from a list already in hand.
pub struct CountFields {
    /// How many items match, before paging: the length of a list in hand.
    pub total_count: u64,
}

/// Where a page sits in a list, with its items already paired with cursors.
#[derive(Debug)]
pub struct Page<T> {
    pub items: Vec<(String, T)>,
    pub start: usize,
    pub total: usize,
    pub has_previous: bool,
    pub has_next: bool,
}

/// Why a page could not be cut.
#[derive(Debug, PartialEq, Eq)]
pub enum PageError {
    /// Both `first` and `last` were given.
    FirstAndLast,
    /// Both `after` and `before` were given.
    AfterAndBefore,
    /// A cursor names no item of the list as it stands now.
    StaleCursor(String),
}

/// A [`PageError`] with its cursor as characters.
pub enum PageErrorView {
    FirstAndLast,
    AfterAndBefore,
    StaleCursor(Seq<char>),
}

impl View for PageError {
    type V = PageErrorView;

    open spec fn view(&self) -> PageErrorView {
        match self {
            PageError::FirstAndLast => PageErrorView::FirstAndLast,
            PageError::AfterAndBefore => PageErrorView::AfterAndBefore,
            PageError::StaleCursor(c) => PageErrorView::StaleCursor(c@),
        }
    }
}

pub open spec fn page_message_of(e: PageErrorView) -> Seq<char> {
    match e {
        PageErrorView::FirstAndLast => "Pass `first` or `last`, not both."@,
        PageErrorView::AfterAndBefore => "Pass `after` or `before`, not both."@,
        PageErrorView::StaleCursor(c) => "Cursor "@ + debug_quoted(c) + STALE_TAIL@,
    }
}

/// What follows the quoted cursor in a stale-cursor message.
pub const STALE_TAIL: &'static str = " is no longer in this list \u{2014} the archive page it came from has changed, or a different filter is in play, since the cursor was issued. Restart pagination without `after`/`before`.";

impl PageError {
    /// The message a client is shown; a stale cursor's says how to recover.
    pub fn message(&self) -> (r: String)
        ensures
            r@ == page_message_of(self@),
    {
        match self {
            PageError::FirstAndLast => String::from_str("Pass `first` or `last`, not both."),
            PageError::AfterAndBefore => String::from_str("Pass `after` or `before`, not both."),
            PageError::StaleCursor(c) => {
                let mut m = String::from_str("Cursor ");
                m.append(quoted(c.as_str()).as_str());
                m.append(STALE_TAIL);
                m
            },
        }
    }
}

/// The first position at or after `k` holding `c`.
pub open spec fn position_from(cursors: Seq<Seq<char>>, c: Seq<char>, k: int) -> Option<int>
    decreases cursors.len() - k,
{
    if k < 0 || k >= cursors.len() {
        None
    } else if cursors[k] == c {
        Some(k)
    } else {
        position_from(cursors, c, k + 1)
    }
}

/// The first position of `c` among `cursors`.
pub open spec fn position_of(cursors: Seq<Seq<char>>, c: Seq<char>) -> Option<int> {
    position_from(cursors, c, 0)
}

proof fn lemma_position_from(cursors: Seq<Seq<char>>, c: Seq<char>, k: int)
    requires
        0 <= k,
    ensures
        position_from(cursors, c, k) matches Some(i) ==> k <= i < cursors.len() && cursors[i] == c
            && forall|j: int| k <= j < i ==> cursors[j] != c,
        position_from(cursors, c, k) is None ==> forall|j: int| k <= j < cursors.len() ==> cursors[j] != c,
    decreases cursors.len() - k,
{
    if k < cursors.len() && cursors[k] != c {
        lemma_position_from(cursors, c, k + 1);
    }
}

/// Where a cursor bound puts an end of the slice: `absent` with no cursor,
/// else the cursor's position, plus one when the slice starts past it.
pub open spec fn bound_of(cursors: Seq<Seq<char>>, c: Option<Seq<char>>, absent: int, past: bool) -> Result<int, PageErrorView> {
    match c {
        Some(c) => match position_of(cursors, c) {
            Some(i) => Ok(if past { i + 1 } else { i }),
            None => Err(PageErrorView::StaleCursor(c)),
        },
        None => Ok(absent),
    }
}

/// The slice once the cursors have placed it: `first` keeps at most that
/// many from the start, `last` at most that many before the end but never
/// reaching back past the start, and neither the default page.
pub open spec fn cut_of(start: int, end0: int, first: Option<i32>, last: Option<i32>) -> (int, int) {
    let end = if end0 < start { start } else { end0 };
    match (first, last) {
        (Some(f), _) => {
            let n = clamp_of(Some(nonneg(f))) as int;
            (start, if end < start + n { end } else { start + n })
        },
        (_, Some(l)) => {
            let n = clamp_of(Some(nonneg(l))) as int;
            (if end - start > n { end - n } else { start }, end)
        },
        _ => {
            let n = clamp_of(None) as int;
            (start, if end < start + n { end } else { start + n })
        },
    }
}

/// The slice `[start, end)` of a list with these cursors that a page asks
/// for, or why there is none.
pub open spec fn window_of(
    cursors: Seq<Seq<char>>,
    after: Option<Seq<char>>,
    before: Option<Seq<char>>,
    first: Option<i32>,
    last: Option<i32>,
) -> Result<(int, int), PageErrorView> {
    if first is Some && last is Some {
        Err(PageErrorView::FirstAndLast)
    } else if after is Some && before is Some {
        Err(PageErrorView::AfterAndBefore)
    } else {
        match bound_of(cursors, after, 0, true) {
            Err(e) => Err(e),
            Ok(start) => match bound_of(cursors, before, cursors.len() as int, false) {
                Err(e) => Err(e),
                Ok(end) => Ok(cut_of(start, end, first, last)),
            },
        }
    }
}

/// A page is a slice of the list: it starts and ends inside it, and never
/// holds more than [`MAX_PAGE`] items, whatever was asked for.
pub proof fn law_pages_are_bounded_slices(
    cursors: Seq<Seq<char>>,
    after: Option<Seq<char>>,
    before: Option<Seq<char>>,
    first: Option<i32>,
    last: Option<i32>,
)
    ensures
        window_of(cursors, after, before, first, last) matches Ok((s, e)) ==> 0 <= s <= e
            <= cursors.len() && e - s <= MAX_PAGE,
{
    if let Some(c) = after {
        lemma_position_from(cursors, c, 0);
    }
    if let Some(c) = before {
        lemma_position_from(cursors, c, 0);
    }
}

/// A cursor resumes after the item it names: with `after` naming the item
/// at `i`, nothing at or before `i` is served, whether the page counts
/// forward with `first` or back from the end with `last`; a forward page
/// starts at `i + 1`.
pub proof fn law_after_resumes_past_its_item(
    cursors: Seq<Seq<char>>,
    i: int,
    first: Option<i32>,
    last: Option<i32>,
)
    requires
        0 <= i < cursors.len(),
        forall|j: int| 0 <= j < i ==> cursors[j] != cursors[i],
        !(first is Some && last is Some),
    ensures
        window_of(cursors, Some(cursors[i]), None, first, last) matches Ok((s, _)) && s >= i + 1,
        last is None ==> (window_of(cursors, Some(cursors[i]), None, first, last) matches Ok((s, _))
            && s == i + 1),
{
    let c = cursors[i];
    lemma_position_from(cursors, c, 0);
    if let Some(k) = position_of(cursors, c) {
        assert(k == i) by {
            if k > i {
                assert(cursors[i] != c);
            }
        }
    }
}

/// A cursor that names no item of the list is refused, naming the cursor,
/// whether it was passed as `after` or `before`: a stale cursor restarts
/// paging rather than quietly serving a different page.
pub proof fn law_stale_cursors_are_refused(
    cursors: Seq<Seq<char>>,
    c: Seq<char>,
    first: Option<i32>,
    last: Option<i32>,
)
    requires
        !cursors.contains(c),
        !(first is Some && last is Some),
    ensures
        window_of(cursors, Some(c), None, first, last) == Err::<(int, int), PageErrorView>(
            PageErrorView::StaleCursor(c),
        ),
        window_of(cursors, None, Some(c), first, last) == Err::<(int, int), PageErrorView>(
            PageErrorView::StaleCursor(c),
        ),
{
    lemma_position_from(cursors, c, 0);
    if let Some(i) = position_of(cursors, c) {
        assert(cursors.contains(c));
    }
}

pub open spec fn window_for(cursors: Seq<Seq<char>>, args: PageArgs) -> Result<(int, int), PageErrorView> {
    window_of(cursors, opt_str(args.after), opt_str(args.before), args.first, args.last)
}

fn same_string(a: &String, b: &String) -> (r: bool)
    ensures
        r == (a@ == b@),
{
    crate::text::same(&crate::text::chars_of(a.as_str()), &crate::text::chars_of(b.as_str()))
}

fn locate(cursors: &Vec<String>, c: &String) -> (r: Option<usize>)
    ensures
        match r {
            Some(i) => position_of(strs(cursors@), c@) == Some(i as int) && i < cursors.len(),
            None => position_of(strs(cursors@), c@) is None,
        },
{
    let ghost cs = strs(cursors@);
    let mut i: usize = 0;
    while i < cursors.len()
        invariant
            i <= cursors.len(),
            cs == strs(cursors@),
            position_from(cs, c@, 0) == position_from(cs, c@, i as int),
        decreases cursors.len() - i,
    {
        assert(cs[i as int] == cursors@[i as int]@);
        if same_string(&cursors[i], c) {
            return Some(i);
        }
        i += 1;
    }
    None
}

fn page_size(n: Option<i32>) -> (r: usize)
    ensures
        r == clamp_of(match n {
            Some(v) => Some(nonneg(v)),
            None => None,
        }),
{
    let requested = match n {
        Some(v) => Some(if v < 0 { 0u32 } else { v as u32 }),
        None => None,
    };
    clamp_page(requested) as usize
}

fn bound(cursors: &Vec<String>, c: &Option<String>, absent: usize, past: bool) -> (r: Result<usize, PageError>)
    requires
        absent <= cursors.len(),
    ensures
        match r {
            Ok(i) => bound_of(strs(cursors@), opt_str(*c), absent as int, past) == Ok::<int, PageErrorView>(i as int)
                && i <= cursors.len(),
            Err(e) => bound_of(strs(cursors@), opt_str(*c), absent as int, past) == Err::<int, PageErrorView>(e@),
        },
{
    match c {
        Some(c) => match locate(cursors, c) {
            Some(i) => Ok(if past { i + 1 } else { i }),
            None => Err(PageError::StaleCursor(c.clone())),
        },
        None => Ok(absent),
    }
}

fn cut(start: usize, end0: usize, first: Option<i32>, last: Option<i32>) -> (r: (usize, usize))
    ensures
        (r.0 as int, r.1 as int) == cut_of(start as int, end0 as int, first, last),
        r.0 <= r.1,
        r.1 <= if end0 < start { start } else { end0 },
{
    let end = if end0 < start { start } else { end0 };
    if first.is_some() {
        let n = page_size(first);
        (start, if end - start > n { start + n } else { end })
    } else if last.is_some() {
        let n = page_size(last);
        (if end - start > n { end - n } else { start }, end)
    } else {
        let n = page_size(None);
        (start, if end - start > n { start + n } else { end })
    }
}

/// Which slice of a list with these cursors a page covers.
pub fn page_window(cursors: &Vec<String>, args: &PageArgs) -> (r: Result<(usize, usize), PageError>)
    ensures
        match r {
            Ok((s, e)) => window_for(strs(cursors@), *args) == Ok::<(int, int), PageErrorView>((s as int, e as int))
                && s <= e <= cursors.len(),
            Err(err) => window_for(strs(cursors@), *args) == Err::<(int, int), PageErrorView>(err@),
        },
{
    if args.first.is_some() && args.last.is_some() {
        return Err(PageError::FirstAndLast);
    }
    if args.after.is_some() && args.before.is_some() {
        return Err(PageError::AfterAndBefore);
    }
    let start = match bound(cursors, &args.after, 0, true) {
        Ok(s) => s,
        Err(e) => return Err(e),
    };
    let end = match bound(cursors, &args.before, cursors.len(), false) {
        Ok(e) => e,
        Err(e) => return Err(e),
    };
    Ok(cut(start, end, args.first, args.last))
}

/// Work out which slice of a list a page refers to, pairing each item kept
/// with its cursor.
pub fn page_of<T, F: Fn(&T) -> String>(items: Vec<T>, args: PageArgs, cursor_of: F) -> (r: Result<Page<T>, PageError>)
    requires
        forall|t: &T| cursor_of.requires((t,)),
    ensures
        exists|cs: Seq<String>| {
            &&& cs.len() == items@.len()
            &&& forall|i: int| 0 <= i < cs.len() ==> cursor_of.ensures((&items@[i],), #[trigger] cs[i])
            &&& match r {
                Ok(p) => {
                    &&& window_for(strs(cs), args) == Ok::<(int, int), PageErrorView>((p.start as int, p.start + p.items@.len()))
                    &&& p.total == items@.len()
                    &&& p.has_previous == (p.start > 0)
                    &&& p.has_next == (p.start + p.items@.len() < items@.len())
                    &&& forall|k: int| 0 <= k < p.items@.len() ==> #[trigger] p.items@[k] == (cs[p.start + k], items@[p.start + k])
                },
                Err(e) => window_for(strs(cs), args) == Err::<(int, int), PageErrorView>(e@),
            }
        },
{
    let mut cursors: Vec<String> = Vec::new();
    let mut i: usize = 0;
    while i < items.len()
        invariant
            i <= items.len(),
            cursors@.len() == i,
            forall|t: &T| cursor_of.requires((t,)),
            forall|j: int| 0 <= j < i ==> cursor_of.ensures((&items@[j],), #[trigger] cursors@[j]),
        decreases items.len() - i,
    {
        let c = cursor_of(&items[i]);
        cursors.push(c);
        i += 1;
    }
    let ghost cs = cursors@;
    let (start, end) = match page_window(&cursors, &args) {
        Ok(w) => w,
        Err(e) => return Err(e),
    };
    let total = items.len();
    let ghost all = items@;
    let mut rest_items = reversed(items);
    let mut rest_cursors = reversed(cursors);
    let mut out: Vec<(String, T)> = Vec::new();
    let mut k: usize = 0;
    while k < end
        invariant
            start <= end <= total,
            k <= end,
            all.len() == total,
            cs.len() == total,
            rest_items@.len() == total - k,
            rest_cursors@.len() == total - k,
            forall|m: int| 0 <= m < rest_items@.len() ==> #[trigger] rest_items@[m] == all[total - 1 - m],
            forall|m: int| 0 <= m < rest_cursors@.len() ==> #[trigger] rest_cursors@[m] == cs[total - 1 - m],
            out@.len() == if k < start { 0 } else { k - start },
            forall|m: int| 0 <= m < out@.len() ==> #[trigger] out@[m] == (cs[start + m], all[start + m]),
        decreases end - k,
    {
        let item = rest_items.pop().unwrap();
        let c = rest_cursors.pop().unwrap();
        assert(item == all[k as int]);
        assert(c == cs[k as int]);
        if k >= start {
            out.push((c, item));
        }
        k += 1;
    }
    Ok(Page { items: out, start, total, has_previous: start > 0, has_next: end < total })
}

} // verus!
