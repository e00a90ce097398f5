//! What an archive request is: the `search.php` forms and the paths
//! everything else is fetched from.
use vstd::prelude::*;

use crate::error::Error;
use crate::text::{chars_of, trim, trim_chars};

pub mod paths;

verus! {

/// Which reference scheme a numeric song search is against. Mirrors the
/// `key` select on the archive's own search form.
#[derive(Debug, Clone, Copy, PartialEq, Eq, Hash, Structural)]
pub enum RefKey {
    Roud,
    Child,
    Laws,
    GreigDuncan,
    Henry,
}

pub open spec fn form_value_of(k: RefKey) -> Seq<char> {
    match k {
        RefKey::Roud => "roud"@,
        RefKey::Child => "child"@,
        RefKey::Laws => "laws"@,
        RefKey::GreigDuncan => "gd"@,
        RefKey::Henry => "henry"@,
    }
}

impl RefKey {
    /// The value the archive's form expects.
    pub fn as_form_value(self) -> (r: &'static str)
        ensures
            r@ == form_value_of(self),
    {
        match self {
            RefKey::Roud => "roud",
            RefKey::Child => "child",
            RefKey::Laws => "laws",
            RefKey::GreigDuncan => "gd",
            RefKey::Henry => "henry",
        }
    }
}

/// A song search, as the archive's `search.php` accepts it.
#[derive(Debug, Clone)]
pub struct SongQuery {
    /// Title or part of one. A trailing `*` is a wildcard, server-side.
    pub title: Option<String>,
    /// Author/performer name or part of one.
    pub author: Option<String>,
    /// Reference scheme to match `keyval` against.
    pub key: Option<RefKey>,
    /// The reference number.
    pub keyval: Option<String>,
}

/// Unset, or nothing but whitespace.
pub open spec fn blank(o: Option<String>) -> bool {
    match o {
        Some(s) => trim(s@).len() == 0,
        None => true,
    }
}

/// The form fields as pairs of names and values.
pub open spec fn form_view(v: Seq<(&'static str, String)>) -> Seq<(Seq<char>, Seq<char>)> {
    v.map_values(|p: (&'static str, String)| (p.0@, p.1@))
}

impl SongQuery {
    pub open spec fn spec_is_empty(&self) -> bool {
        blank(self.title) && blank(self.author) && blank(self.keyval)
    }

    /// The form `search.php` is sent: `song`, `author`, then `key` and
    /// `keyval` together, each only when set; the scheme defaults to Roud.
    pub open spec fn spec_form(&self) -> Seq<(Seq<char>, Seq<char>)> {
        let t = match self.title {
            Some(t) => seq![("song"@, t@)],
            None => Seq::empty(),
        };
        let a = match self.author {
            Some(a) => seq![("author"@, a@)],
            None => Seq::empty(),
        };
        let k = match self.keyval {
            Some(v) => {
                let key = match self.key {
                    Some(k) => k,
                    None => RefKey::Roud,
                };
                seq![("key"@, form_value_of(key)), ("keyval"@, v@)]
            },
            None => Seq::empty(),
        };
        t + a + k
    }

    /// All of title, author and reference number unset or blank.
    pub fn is_empty(&self) -> (r: bool)
        ensures
            r == self.spec_is_empty(),
    {
        is_blank(&self.title) && is_blank(&self.author) && is_blank(&self.keyval)
    }

    /// Form fields for `search.php`, omitting anything unset.
    pub fn to_form(&self) -> (form: Vec<(&'static str, String)>)
        ensures
            form_view(form@) == self.spec_form(),
    {
        let mut form: Vec<(&'static str, String)> = Vec::new();
        if let Some(title) = &self.title {
            form.push(("song", title.clone()));
        }
        if let Some(author) = &self.author {
            form.push(("author", author.clone()));
        }
        if let Some(keyval) = &self.keyval {
            let key = match self.key {
                Some(k) => k,
                None => RefKey::Roud,
            };
            form.push(("key", String::from_str(key.as_form_value())));
            form.push(("keyval", keyval.clone()));
        }
        assert(form_view(form@) =~= self.spec_form());
        form
    }
}

impl Default for SongQuery {
    fn default() -> (q: SongQuery)
        ensures
            q.title is None && q.author is None && q.key is None && q.keyval is None,
    {
        SongQuery { title: None, author: None, key: None, keyval: None }
    }
}

fn is_blank(o: &Option<String>) -> (r: bool)
    ensures
        r == blank(*o),
{
    match o {
        Some(s) => trim_chars(&chars_of(s.as_str())).len() == 0,
        None => true,
    }
}

/// A reference number is never sent without its scheme: the endpoint reads
/// `keyval` only alongside a `key`, and answers a lone one with the whole
/// index. A search form holds a `keyval` field exactly when it holds a `key`
/// field, and the `key` comes right before it.
pub proof fn law_numbers_travel_with_their_scheme(q: SongQuery)
    ensures
        (exists|i: int| 0 <= i < q.spec_form().len() && #[trigger] q.spec_form()[i].0 == "keyval"@)
            <==> (exists|i: int| 0 <= i < q.spec_form().len() && #[trigger] q.spec_form()[i].0 == "key"@),
        forall|i: int|
            0 <= i < q.spec_form().len() && #[trigger] q.spec_form()[i].0 == "keyval"@ ==> i > 0
                && q.spec_form()[i - 1].0 == "key"@,
{
    reveal_strlit("song");
    reveal_strlit("author");
    reveal_strlit("key");
    reveal_strlit("keyval");
    let f = q.spec_form();
    let t = match q.title {
        Some(t) => seq![("song"@, t@)],
        None => Seq::<(Seq<char>, Seq<char>)>::empty(),
    };
    let a = match q.author {
        Some(a) => seq![("author"@, a@)],
        None => Seq::<(Seq<char>, Seq<char>)>::empty(),
    };
    let n: int = (t.len() + a.len()) as int;
    assert forall|i: int| 0 <= i < n implies f[i].0 != "keyval"@ && f[i].0 != "key"@ by {
        if i < t.len() {
            assert(f[i] == t[i]);
            assert(f[i].0 =~= "song"@);
        } else {
            assert(f[i] == a[i - t.len()]);
            assert(f[i].0 =~= "author"@);
            assert("author"@[0] != "keyval"@[0]);
        }
    }
    match q.keyval {
        Some(v) => {
            assert(f.len() == n + 2);
            assert(f[n].0 == "key"@);
            assert(f[n + 1].0 == "keyval"@);
            assert("key"@.len() != "keyval"@.len());
        },
        None => {
            assert(f.len() == n);
        },
    }
}

/// Why an all-blank song search is refused rather than sent.
pub const EMPTY_SONG_SEARCH: &'static str = "A song search needs a title, an author, or a reference number.";

/// Why a blank record search is refused rather than sent.
pub const EMPTY_RECORD_SEARCH: &'static str = "A record search needs an artist or album name.";

/// The form a song search posts to `search.php`, or its refusal. An all-blank
/// search is refused: the endpoint answers it with the entire index.
pub fn song_search_form(query: &SongQuery) -> (r: Result<Vec<(&'static str, String)>, Error>)
    ensures
        r is Err <==> query.spec_is_empty(),
        match r {
            Ok(form) => form_view(form@) == query.spec_form(),
            Err(e) => e matches Error::InvalidArgument(m) && m@ == EMPTY_SONG_SEARCH@,
        },
{
    if query.is_empty() {
        return Err(Error::InvalidArgument(String::from_str(EMPTY_SONG_SEARCH)));
    }
    Ok(query.to_form())
}

/// The form a record search posts to `search.php`, the query as the
/// `artist` field, or its refusal when the query is blank.
pub fn record_search_form(query: &str) -> (r: Result<Vec<(&'static str, String)>, Error>)
    ensures
        r is Err <==> trim(query@).len() == 0,
        match r {
            Ok(form) => form_view(form@) == seq![("artist"@, query@)],
            Err(e) => e matches Error::InvalidArgument(m) && m@ == EMPTY_RECORD_SEARCH@,
        },
{
    if trim_chars(&chars_of(query)).len() == 0 {
        return Err(Error::InvalidArgument(String::from_str(EMPTY_RECORD_SEARCH)));
    }
    let mut form: Vec<(&'static str, String)> = Vec::new();
    form.push(("artist", String::from_str(query)));
    assert(form_view(form@) =~= seq![("artist"@, query@)]);
    Ok(form)
}

} // verus!
