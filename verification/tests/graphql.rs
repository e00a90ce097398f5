use std::sync::Arc;

use mainlynorfolk_mcp::mcp::graphql::connection::{
    clamp_page, page_complexity, page_of, page_window, Page, PageArgs, PageError, DEFAULT_PAGE,
    MAX_PAGE,
};
use mainlynorfolk_mcp::mcp::graphql::loaders::{artist_key, Index, IndexKind, PageKey, SongSearch};
use mainlynorfolk_mcp::mcp::graphql::query::{
    ballad_matches, books_in_section, code_number, filter_ballads, non_empty,
    parse_ballad_filter, waterways_matching, BalladFilter,
};
use mainlynorfolk_mcp::mcp::graphql::types::{
    cited_book, others_than, GqlPage, GqlRecording, GqlSong, GqlSource, RefScheme,
};
use mainlynorfolk_mcp::text::decimal_string;
use mainlynorfolk_mcp::archive::RefKey;
use mainlynorfolk_mcp::models::{
    Book, BookRef, Link, Page as ArchivePage, Recording, Song, SongRefs, SongSummary, Source,
    WaterwaysSong,
};

fn page(items: &[&str], args: PageArgs) -> Result<Page<String>, PageError> {
    page_of(items.iter().map(|s| s.to_string()).collect(), args, |s: &String| s.clone())
}

fn args(after: Option<&str>, first: Option<i32>) -> PageArgs {
    PageArgs {
        after: after.map(str::to_string),
        before: None,
        first,
        last: None,
    }
}

#[test]
fn a_cursor_resumes_after_the_item_it_names() {
    let p = page(&["a", "b", "c", "d"], args(Some("b"), Some(2))).unwrap();
    let got: Vec<_> = p.items.iter().map(|(_, v)| v.as_str()).collect();
    assert_eq!(got, ["c", "d"]);
    assert_eq!(p.total, 4);
    assert!(p.has_previous);
    assert!(!p.has_next);
}

#[test]
fn a_stale_cursor_says_how_to_recover() {
    let err = page(&["a", "b"], args(Some("gone"), None)).unwrap_err();
    assert!(err.message().contains("Restart pagination"), "{err:?}");
    assert!(err.message().starts_with("Cursor \"gone\" is no longer in this list"));
}

#[test]
fn first_and_last_together_are_rejected() {
    let err = page(
        &["a"],
        PageArgs {
            after: None,
            before: None,
            first: Some(1),
            last: Some(1),
        },
    )
    .unwrap_err();
    assert!(err.message().contains("not both"));
    assert_eq!(err, PageError::FirstAndLast);
}

#[test]
fn after_and_before_together_are_rejected() {
    let err = page(
        &["a", "b"],
        PageArgs {
            after: Some("a".into()),
            before: Some("b".into()),
            first: None,
            last: None,
        },
    )
    .unwrap_err();
    assert_eq!(err, PageError::AfterAndBefore);
    assert_eq!(err.message(), "Pass `after` or `before`, not both.");
}

#[test]
fn last_takes_from_the_end() {
    let p = page(
        &["a", "b", "c"],
        PageArgs {
            after: None,
            before: None,
            first: None,
            last: Some(2),
        },
    )
    .unwrap();
    let got: Vec<_> = p.items.iter().map(|(_, v)| v.as_str()).collect();
    assert_eq!(got, ["b", "c"]);
    assert!(p.has_previous);
}

#[test]
fn before_ends_the_page_at_its_item() {
    let p = page(
        &["a", "b", "c", "d"],
        PageArgs {
            after: None,
            before: Some("c".into()),
            first: None,
            last: Some(1),
        },
    )
    .unwrap();
    let got: Vec<_> = p.items.iter().map(|(c, v)| (c.as_str(), v.as_str())).collect();
    assert_eq!(got, [("b", "b")]);
    assert!(p.has_previous && p.has_next);
}

#[test]
fn page_size_is_capped() {
    let items: Vec<String> = (0..500).map(|i| i.to_string()).collect();
    let p = page_of(items, args(None, Some(9999)), |s: &String| s.clone()).unwrap();
    assert_eq!(p.items.len(), MAX_PAGE as usize);
    assert!(p.has_next);
}

#[test]
fn no_page_size_takes_the_default() {
    let items: Vec<String> = (0..500).map(|i| i.to_string()).collect();
    let p = page_of(items, args(None, None), |s: &String| s.clone()).unwrap();
    assert_eq!(p.items.len(), DEFAULT_PAGE as usize);
}

#[test]
fn a_negative_page_size_is_an_empty_page() {
    let p = page(&["a", "b"], args(None, Some(-3))).unwrap();
    assert!(p.items.is_empty());
    assert!(p.has_next);
}

#[test]
fn a_page_window_is_where_the_cursors_put_it() {
    let cursors: Vec<String> = ["a", "b", "c"].iter().map(|s| s.to_string()).collect();
    assert_eq!(page_window(&cursors, &args(Some("a"), None)), Ok((1, 3)));
    assert_eq!(
        page_window(&cursors, &args(Some("z"), None)),
        Err(PageError::StaleCursor("z".into()))
    );
}

#[test]
fn a_page_costs_its_size_times_the_node() {
    assert_eq!(page_complexity(Some(10), None, 3), 30);
    assert_eq!(page_complexity(None, None, 1), DEFAULT_PAGE as usize);
    assert_eq!(page_complexity(Some(9999), None, 1), MAX_PAGE as usize);
    assert_eq!(page_complexity(None, Some(-5), 7), 0);
}

#[test]
fn clamp_page_caps_and_defaults() {
    assert_eq!(clamp_page(None), DEFAULT_PAGE);
    assert_eq!(clamp_page(Some(7)), 7);
    assert_eq!(clamp_page(Some(100_000)), MAX_PAGE);
}

#[test]
fn a_fragment_does_not_make_a_second_fetch() {
    let a = PageKey::new(Source::MainlyNorfolk, "/folk/records/redrice.html#rice");
    let b = PageKey::new(Source::MainlyNorfolk, "/folk/records/redrice.html#carthy");
    assert_eq!(a, b);
    assert_eq!(a.path, "/folk/records/redrice.html");
}

#[test]
fn every_spelling_of_an_artist_path_is_one_key() {
    for spelling in [
        "/martin.carthy/",
        "/martin.carthy",
        "/martin.carthy/index.html",
        "/martin.carthy/index.htm",
        "/martin.carthy/#top",
    ] {
        assert_eq!(artist_key(spelling), "/martin.carthy/", "{spelling}");
    }
}

#[test]
fn the_same_path_on_two_archives_is_two_keys() {
    assert_ne!(
        PageKey::new(Source::MainlyNorfolk, "/index.html"),
        PageKey::new(Source::Waterways, "/index.html")
    );
}

#[test]
fn a_search_key_carries_every_field_into_the_form() {
    let form = SongSearch {
        title: Some("reynardine".into()),
        scheme: Some(RefScheme::Child),
        number: Some("2".into()),
        ..Default::default()
    }
    .to_query()
    .to_form();
    assert!(form.contains(&("song", "reynardine".to_string())));
    assert!(form.contains(&("key", "child".to_string())));
    assert!(form.contains(&("keyval", "2".to_string())));
}

#[test]
fn searches_differing_only_by_scheme_are_different_keys() {
    let roud = SongSearch {
        number: Some("12".into()),
        scheme: Some(RefScheme::Roud),
        ..Default::default()
    };
    let child = SongSearch {
        scheme: Some(RefScheme::Child),
        ..roud.clone()
    };
    assert_ne!(roud, child);
}

#[test]
fn each_scheme_maps_to_its_form_key() {
    assert_eq!(RefKey::from(RefScheme::Roud), RefKey::Roud);
    assert_eq!(RefKey::from(RefScheme::GreigDuncan), RefKey::GreigDuncan);
    assert_eq!(RefKey::from(RefScheme::Henry), RefKey::Henry);
}

#[test]
fn index_pages_are_the_archives_own_lists() {
    assert_eq!(IndexKind::Child.path(), "/folk/songs/childindex.html");
    assert_eq!(IndexKind::Laws.path(), "/folk/songs/lawsindex.html");
    assert_eq!(IndexKind::Songs.path(), "/folk/songs/");
    assert_eq!(IndexKind::Labels.path(), "/folk/");
    assert_eq!(IndexKind::Books.path(), "/folk/books/");
}

#[test]
fn an_index_hands_out_only_its_own_kind() {
    let songs = Arc::new(vec![summary("The Elfin Knight", &["2"], &[])]);
    let index = Index::Songs(songs.clone());
    let got = index.songs().unwrap();
    assert!(Arc::ptr_eq(&got, &songs));
    assert!(index.labels().is_none());
    assert!(index.books().is_none());
    assert!(Index::Books(Arc::new(Vec::new())).books().unwrap().is_empty());
}

fn summary(title: &str, child: &[&str], laws: &[&str]) -> SongSummary {
    SongSummary {
        path: format!("/folk/songs/{title}.html"),
        title: title.into(),
        titles: vec![title.into()],
        refs: SongRefs {
            child: child.iter().map(|s| s.to_string()).collect(),
            laws: laws.iter().map(|s| s.to_string()).collect(),
            ..Default::default()
        },
        source: Source::MainlyNorfolk,
    }
}

#[test]
fn a_bare_number_is_a_reference_not_a_title() {
    assert_eq!(parse_ballad_filter("84"), BalladFilter::Number(84));
    assert_eq!(parse_ballad_filter(" 84 "), BalladFilter::Number(84));
}

#[test]
fn ranges_are_inclusive_and_order_insensitive() {
    assert_eq!(parse_ballad_filter("1-50"), BalladFilter::Range(1, 50));
    assert_eq!(parse_ballad_filter("50-1"), BalladFilter::Range(1, 50));

    let filter = parse_ballad_filter("1-50");
    assert!(ballad_matches(&filter, &["1".into()], &summary("x", &[], &[])));
    assert!(ballad_matches(&filter, &["50".into()], &summary("x", &[], &[])));
    assert!(!ballad_matches(&filter, &["51".into()], &summary("x", &[], &[])));
}

#[test]
fn a_letter_is_a_laws_series() {
    assert_eq!(parse_ballad_filter("P"), BalladFilter::Prefix("P".into()));
    assert_eq!(parse_ballad_filter("p"), BalladFilter::Prefix("P".into()));

    let filter = parse_ballad_filter("P");
    let song = summary("The Rambling Boy", &[], &["P15"]);
    assert!(ballad_matches(&filter, &song.refs.laws, &song));

    let other = summary("Young Beichan", &[], &["M20"]);
    assert!(!ballad_matches(&filter, &other.refs.laws, &other));
}

#[test]
fn a_number_matches_the_numeric_part_of_a_code() {
    let song = summary("The Rambling Boy", &[], &["P15"]);
    assert!(ballad_matches(&BalladFilter::Number(15), &song.refs.laws, &song));
    assert!(!ballad_matches(&BalladFilter::Number(1), &song.refs.laws, &song));
}

#[test]
fn anything_else_matches_the_titles() {
    let filter = parse_ballad_filter("elfin");
    assert_eq!(filter, BalladFilter::Text("elfin".into()));

    let song = summary("The Elfin Knight", &["2"], &[]);
    assert!(ballad_matches(&filter, &song.refs.child, &song));
    let mut alternates = summary("Whittingham Fair", &["2"], &[]);
    alternates.titles.push("Scarborough Fair".into());
    assert!(ballad_matches(
        &parse_ballad_filter("SCARBOROUGH"),
        &alternates.refs.child,
        &alternates
    ));
}

#[test]
fn text_filters_lower_case_beyond_ascii() {
    assert_eq!(parse_ballad_filter("ÉLFIN Knight"), BalladFilter::Text("élfin knight".into()));
    let song = summary("Ça Ira", &[], &[]);
    assert!(ballad_matches(&parse_ballad_filter("ÇA"), &song.refs.child, &song));
    assert_eq!(parse_ballad_filter("Pq7"), BalladFilter::Text("pq7".into()));
    assert_eq!(parse_ballad_filter("abc"), BalladFilter::Text("abc".into()));
}

#[test]
fn a_prefix_is_matched_against_upper_cased_codes() {
    let song = summary("x", &[], &["p15"]);
    assert!(ballad_matches(&BalladFilter::Prefix("P".into()), &song.refs.laws, &song));
}

#[test]
fn a_blank_argument_is_not_a_narrowing() {
    assert_eq!(non_empty(Some("   ".into())), None);
    assert_eq!(non_empty(Some(" carthy ".into())), Some("carthy".into()));
    assert_eq!(non_empty(None), None);
}

#[test]
fn codes_without_digits_never_match_a_number() {
    assert_eq!(code_number("P15"), Some(15));
    assert_eq!(code_number("84"), Some(84));
    assert_eq!(code_number("trad"), None);
    assert_eq!(code_number("84A2"), Some(84));
    assert_eq!(code_number("99999999999"), None);
}

#[test]
fn a_ballad_index_is_filtered_on_its_own_scheme() {
    let index = vec![
        summary("The Elfin Knight", &["2"], &["P15"]),
        summary("Lord Randal", &["12"], &["Q2"]),
    ];
    let child = filter_ballads(index.clone(), IndexKind::Child, Some("12".into()));
    assert_eq!(child.len(), 1);
    assert_eq!(child[0].title, "Lord Randal");
    let laws = filter_ballads(index.clone(), IndexKind::Laws, Some("P".into()));
    assert_eq!(laws.len(), 1);
    assert_eq!(laws[0].title, "The Elfin Knight");
    assert_eq!(filter_ballads(index, IndexKind::Laws, Some("  ".into())).len(), 2);
}

#[test]
fn a_section_filter_ignores_case() {
    let book = |title: &str, section: Option<&str>| Book {
        id: title.into(),
        path: "/folk/books/".into(),
        title: title.into(),
        authors: Vec::new(),
        publisher: None,
        year: None,
        section: section.map(String::from),
        online_url: None,
        cover_url: None,
    };
    let books = vec![
        book("A", Some("Ballads and Songs")),
        book("B", Some("Biographies")),
        book("C", None),
    ];
    let kept = books_in_section(books.clone(), Some(" BALLADS ".into()));
    assert_eq!(kept.len(), 1);
    assert_eq!(kept[0].title, "A");
    assert_eq!(books_in_section(books, None).len(), 3);
}

#[test]
fn canal_songs_filter_by_title() {
    let song = |title: &str| WaterwaysSong {
        path: format!("/Songs/{title}.htm"),
        title: title.into(),
        author: None,
        lyrics: None,
        notes: Vec::new(),
        recorded_by: Vec::new(),
        audio_url: None,
    };
    let songs = vec![song("Hard Working Boater"), song("Alice White")];
    let found = waterways_matching(songs.clone(), Some("alice".into()));
    assert_eq!(found.len(), 1);
    assert_eq!(found[0].title, "Alice White");
    assert_eq!(waterways_matching(songs, Some("".into())).len(), 2);
}

#[test]
fn a_recordings_cursor_is_its_position() {
    let recording = Recording {
        performer: Some("A.L. Lloyd".into()),
        album_title: None,
        album_path: None,
        year: Some("1956".into()),
        context: "A.L. Lloyd sang it".into(),
    };
    let r = GqlRecording::at(42, recording.clone());
    assert_eq!(r.cursor(), "42");
    assert_eq!(r.recording(), &recording);
    assert_eq!(decimal_string(0), "0");
    assert_eq!(decimal_string(1907), "1907");
    assert_eq!(decimal_string(usize::MAX), usize::MAX.to_string());
}

#[test]
fn a_page_converts_with_its_links() {
    let p = ArchivePage {
        path: "/folk/".into(),
        title: "Folk".into(),
        text: "text".into(),
        links: vec![
            Link { text: "a".into(), url: "/a".into() },
            Link { text: "b".into(), url: "/b".into() },
        ],
        source: Source::Waterways,
    };
    let g = GqlPage::of(p);
    assert_eq!(g.links.len(), 2);
    assert_eq!(g.links[1].url, "/b");
    assert_eq!(g.source, GqlSource::Waterways);
    assert_eq!(Source::from(GqlSource::MainlyNorfolk), Source::MainlyNorfolk);
    assert_eq!(GqlSource::from(Source::MainlyNorfolk), GqlSource::MainlyNorfolk);
}

use mainlynorfolk_mcp::mcp::{resolve_surfaces, DEFAULT_HTTP_ADDR};

#[test]
fn no_flags_is_stdio_and_nothing_else() {
    let (addr, s) = resolve_surfaces(None, false, false, false);
    assert_eq!(addr, None);
    assert!(!s.mcp && !s.graphql && !s.graphiql && !s.browser);
}

#[test]
fn browser_implies_the_ide_and_its_endpoint_but_not_mcp() {
    let (addr, s) = resolve_surfaces(None, false, false, true);
    assert_eq!(addr.as_deref(), Some(DEFAULT_HTTP_ADDR));
    assert!(s.browser && s.graphiql && s.graphql);
    assert!(!s.mcp, "--browser must not mount MCP over HTTP");
}

#[test]
fn graphiql_with_http_serves_both_and_opens_nothing() {
    let (addr, s) = resolve_surfaces(Some(DEFAULT_HTTP_ADDR.to_string()), false, true, false);
    assert_eq!(addr.as_deref(), Some(DEFAULT_HTTP_ADDR));
    assert!(s.graphiql && s.graphql, "--graphiql implies --graphql");
    assert!(s.mcp, "--http mounts MCP");
    assert!(!s.browser, "nothing asked for a browser");
}

#[test]
fn http_alone_is_mcp_only() {
    let (addr, s) = resolve_surfaces(Some(DEFAULT_HTTP_ADDR.to_string()), false, false, false);
    assert_eq!(addr.as_deref(), Some(DEFAULT_HTTP_ADDR));
    assert!(s.mcp);
    assert!(!s.graphql && !s.graphiql);
}

#[test]
fn an_explicit_address_is_honoured() {
    let (addr, _) = resolve_surfaces(Some("0.0.0.0:9000".to_string()), false, false, false);
    assert_eq!(addr.as_deref(), Some("0.0.0.0:9000"));
}

#[test]
fn graphql_alone_binds_a_listener_without_mcp_or_the_ide() {
    let (addr, s) = resolve_surfaces(None, true, false, false);
    assert!(addr.is_some(), "there is nowhere to mount a route over stdio");
    assert!(s.graphql && !s.graphiql && !s.mcp);
}

#[test]
fn a_stale_before_cursor_is_refused_too() {
    let err = page(
        &["a", "b"],
        PageArgs {
            after: None,
            before: Some("gone".into()),
            first: None,
            last: None,
        },
    )
    .unwrap_err();
    assert_eq!(err, PageError::StaleCursor("gone".into()));
    assert!(err.message().contains("Restart pagination"));
}

fn song_with_roud(path: &str, roud: &[&str]) -> GqlSong {
    GqlSong(Song {
        path: path.into(),
        title: "Young Sailor Cut Down in His Prime".into(),
        titles: vec!["Young Sailor Cut Down in His Prime".into()],
        refs: SongRefs {
            roud: roud.iter().map(|s| s.to_string()).collect(),
            ..SongRefs::default()
        },
        attributions: Vec::new(),
        lyrics: Vec::new(),
        notes: Vec::new(),
        recordings: Vec::new(),
        bibliography: Vec::new(),
        external_links: Vec::new(),
        traditional: true,
        source: Source::MainlyNorfolk,
    })
}

#[test]
fn same_roud_searches_the_first_roud_number() {
    let song = song_with_roud("/lloyd/songs/sailorcutdowninhisprime.html", &["2", "3"]);
    let search = song.same_roud_search().expect("a Roud number to search by");
    assert_eq!(search.number.as_deref(), Some("2"));
    assert_eq!(search.scheme, Some(RefScheme::Roud));
    assert!(search.title.is_none() && search.author.is_none());
    let form = search.to_query().to_form();
    assert_eq!(form, [("key", "roud".to_string()), ("keyval", "2".to_string())]);
}

#[test]
fn a_song_without_a_roud_number_has_no_family_search() {
    assert!(song_with_roud("/x.html", &[]).same_roud_search().is_none());
}

#[test]
fn a_family_leaves_out_the_song_itself() {
    let mut own = summary("Young Sailor Cut Down in His Prime", &[], &[]);
    own.path = "/lloyd/songs/sailorcutdowninhisprime.html".into();
    let mut laredo = summary("Streets of Laredo", &[], &[]);
    laredo.path = "/folk/songs/streetsoflaredo.html".into();
    let mut morning = summary("Bright Shiny Morning", &[], &[]);
    morning.path = "/folk/songs/brightshinymorning.html".into();
    let kept = others_than(
        vec![laredo.clone(), own.clone(), morning.clone()],
        "/lloyd/songs/sailorcutdowninhisprime.html",
    );
    assert_eq!(kept, vec![laredo, morning]);
}

fn listed(id: &str, path: &str) -> Book {
    Book {
        id: id.into(),
        path: path.into(),
        title: id.into(),
        authors: Vec::new(),
        publisher: None,
        year: None,
        section: None,
        online_url: None,
        cover_url: None,
    }
}

#[test]
fn a_citation_resolves_to_the_bibliography_entry_at_its_path() {
    let books = vec![
        listed("ashton", "/folk/books/#ashton"),
        listed("bronson", "/folk/books/#bronson"),
        listed("songsofthewest", "/folk/books/songsofthewest.html"),
    ];
    let cite = |path: Option<&str>| BookRef {
        author: Some("Bertrand Bronson".into()),
        title: "The Traditional Tunes".into(),
        path: path.map(String::from),
    };
    assert_eq!(cited_book(&books, &cite(Some("/folk/books/#bronson"))), Some(1));
    assert_eq!(
        cited_book(&books, &cite(Some("/folk/books/songsofthewest.html"))),
        Some(2)
    );
    assert_eq!(cited_book(&books, &cite(Some("/folk/books/#missing"))), None);
    assert_eq!(cited_book(&books, &cite(None)), None);
}

#[test]
fn last_never_reaches_back_past_the_after_cursor() {
    let p = page(
        &["a", "b", "c", "d"],
        PageArgs {
            after: Some("b".into()),
            before: None,
            first: None,
            last: Some(10),
        },
    )
    .unwrap();
    let got: Vec<_> = p.items.iter().map(|(c, v)| (c.as_str(), v.as_str())).collect();
    assert_eq!(got, [("c", "c"), ("d", "d")]);
    assert_eq!(p.start, 2);
    assert!(p.has_previous);
    assert!(!p.has_next);
}

#[test]
fn an_artist_key_is_canonical() {
    for spelling in ["/a.b", "/a.b/#x", "/a.b/index.html#y", "", "#", "/a#b/c"] {
        let k = artist_key(spelling);
        assert!(k.ends_with('/'), "{spelling}");
        assert!(!k.contains('#'), "{spelling}");
        assert_eq!(artist_key(&k), k, "{spelling}");
    }
}
