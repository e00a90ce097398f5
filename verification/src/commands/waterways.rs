//! Canal and inland-waterways songs: the title filter the command applies.
use vstd::prelude::*;

use crate::models::WaterwaysSong;
use crate::text::{chars_of, contains, contains_chars, lower_chars, lower_seq, reversed};

verus! {

pub open spec fn titled(songs: Seq<WaterwaysSong>, needle: Seq<char>) -> Seq<WaterwaysSong>
    decreases songs.len(),
{
    if songs.len() == 0 {
        songs
    } else {
        let prev = titled(songs.drop_last(), needle);
        if contains(lower_seq(songs.last().title@), needle) {
            prev.push(songs.last())
        } else {
            prev
        }
    }
}

/// The songs whose title contains `query`, ignoring ASCII case, in menu
/// order.
pub fn matching(index: Vec<WaterwaysSong>, query: &str) -> (r: Vec<WaterwaysSong>)
    ensures
        r@ == titled(index@, lower_seq(query@)),
{
    let needle = lower_chars(&chars_of(query));
    let ghost all = index@;
    let mut rest = reversed(index);
    let mut out: Vec<WaterwaysSong> = Vec::new();
    let n = rest.len();
    let mut i: usize = 0;
    while i < n
        invariant
            i <= n,
            n == all.len(),
            rest@.len() == n - i,
            forall|k: int| 0 <= k < rest@.len() ==> #[trigger] rest@[k] == all[n - 1 - k],
            out@ == titled(all.take(i as int), needle@),
        decreases n - i,
    {
        let s = rest.pop().unwrap();
        assert(s == all[i as int]);
        assert(all.take(i + 1).drop_last() =~= all.take(i as int));
        if contains_chars(&lower_chars(&chars_of(s.title.as_str())), &needle) {
            out.push(s);
        }
        i += 1;
    }
    assert(all.take(n as int) =~= all);
    out
}

} // verus!
