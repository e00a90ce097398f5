//! The bibliography filter.
use vstd::prelude::*;

use crate::models::Book;
use crate::text::{chars_of, contains, contains_chars, lower_chars, lower_seq, reversed, strs};

verus! {

/// A hit on the section, any author, or the title, ignoring ASCII case;
/// `needle` is already lower-cased.
pub open spec fn book_matches(b: Book, needle: Seq<char>) -> bool {
    ||| (b.section matches Some(s) && contains(lower_seq(s@), needle))
    ||| (exists|i: int| 0 <= i < b.authors@.len() && contains(lower_seq(#[trigger] strs(b.authors@)[i]), needle))
    ||| contains(lower_seq(b.title@), needle)
}

/// The books a filter keeps, in their original order.
pub open spec fn books_kept(index: Seq<Book>, needle: Seq<char>) -> Seq<Book>
    decreases index.len(),
{
    if index.len() == 0 {
        index
    } else {
        let prev = books_kept(index.drop_last(), needle);
        if book_matches(index.last(), needle) {
            prev.push(index.last())
        } else {
            prev
        }
    }
}

/// Whether `book` matches an already lower-cased `needle` on its section,
/// any author, or its title.
pub fn matches_filter(book: &Book, needle: &str) -> (r: bool)
    ensures
        r == book_matches(*book, needle@),
{
    let n = chars_of(needle);
    if let Some(s) = &book.section {
        if contains_chars(&lower_chars(&chars_of(s.as_str())), &n) {
            return true;
        }
    }
    let mut i: usize = 0;
    while i < book.authors.len()
        invariant
            i <= book.authors@.len(),
            n@ == needle@,
            forall|j: int| 0 <= j < i ==> !contains(lower_seq(#[trigger] strs(book.authors@)[j]), needle@),
        decreases book.authors.len() - i,
    {
        let a = chars_of(book.authors[i].as_str());
        assert(strs(book.authors@)[i as int] == a@);
        if contains_chars(&lower_chars(&a), &n) {
            return true;
        }
        i += 1;
    }
    contains_chars(&lower_chars(&chars_of(book.title.as_str())), &n)
}

/// No filter lists the whole bibliography; a filter keeps the books it hits,
/// matched case-insensitively against section, authors and title.
pub fn filter_books(index: Vec<Book>, filter: Option<&str>) -> (r: Vec<Book>)
    ensures
        match filter {
            None => r@ == index@,
            Some(f) => r@ == books_kept(index@, lower_seq(f@)),
        },
{
    let filter = match filter {
        None => return index,
        Some(f) => f,
    };
    let needle = crate::text::string_of(&lower_chars(&chars_of(filter)));
    let ghost all = index@;
    let mut rest = reversed(index);
    let mut out: Vec<Book> = Vec::new();
    let n = rest.len();
    let mut i: usize = 0;
    while i < n
        invariant
            i <= n,
            n == all.len(),
            needle@ == lower_seq(filter@),
            rest@.len() == n - i,
            forall|k: int| 0 <= k < rest@.len() ==> #[trigger] rest@[k] == all[n - 1 - k],
            out@ == books_kept(all.take(i as int), lower_seq(filter@)),
        decreases n - i,
    {
        let b = rest.pop().unwrap();
        assert(b == all[i as int]);
        assert(all.take(i + 1).drop_last() =~= all.take(i as int));
        if matches_filter(&b, needle.as_str()) {
            out.push(b);
        }
        i += 1;
    }
    assert(all.take(n as int) =~= all);
    out
}

} // verus!
