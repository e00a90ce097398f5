use mainlynorfolk_mcp::archive::RefKey;
use mainlynorfolk_mcp::commands::books::filter_books;
use mainlynorfolk_mcp::commands::pages::source_of;
use mainlynorfolk_mcp::commands::records::artist_slug;
use mainlynorfolk_mcp::commands::songs::{
    build_song_query, filter_index, is_reference_code, matches_filter, numeric_part, parse_range,
    CodeField,
};
use mainlynorfolk_mcp::commands::waterways::matching;
use mainlynorfolk_mcp::models::{Book, SongRefs, SongSummary, Source, WaterwaysSong};

fn book(title: &str, authors: &[&str], section: Option<&str>) -> Book {
    Book {
        id: title.to_lowercase().replace(' ', ""),
        path: "/folk/books/".into(),
        title: title.into(),
        authors: authors.iter().map(|s| s.to_string()).collect(),
        publisher: None,
        year: None,
        section: section.map(String::from),
        online_url: None,
        cover_url: None,
    }
}

fn summary(titles: &[&str], child: &[&str], laws: &[&str]) -> SongSummary {
    SongSummary {
        path: "/x".into(),
        title: titles.join(" / "),
        titles: titles.iter().map(|s| s.to_string()).collect(),
        refs: SongRefs {
            child: child.iter().map(|s| s.to_string()).collect(),
            laws: laws.iter().map(|s| s.to_string()).collect(),
            ..Default::default()
        },
        source: Source::MainlyNorfolk,
    }
}

#[test]
fn a_filter_matching_the_section_returns_that_whole_section() {
    let index = vec![
        book("Songs of the West", &["Sabine Baring-Gould"], Some("Ballads and Songs")),
        book("English Folk Song and Dance", &["Cecil Sharp"], Some("Folk Song and Music")),
    ];
    let filtered = filter_books(index, Some("ballads and songs"));
    assert_eq!(filtered.len(), 1);
    assert_eq!(filtered[0].title, "Songs of the West");
}

#[test]
fn a_filter_matching_one_author_does_not_return_books_by_others() {
    let index = vec![
        book("Songs of the West", &["Sabine Baring-Gould"], None),
        book("English Folk Song and Dance", &["Cecil Sharp"], None),
    ];
    let filtered = filter_books(index, Some("sharp"));
    assert_eq!(filtered.len(), 1);
    assert_eq!(filtered[0].title, "English Folk Song and Dance");
}

#[test]
fn books_a_filter_matching_nothing_yields_an_empty_list_not_an_error() {
    let index = vec![book("Songs of the West", &["Sabine Baring-Gould"], None)];
    assert!(filter_books(index, Some("nonexistent")).is_empty());
}

#[test]
fn a_filter_matches_the_title_too() {
    let index = vec![book("Songs of the West", &["Sabine Baring-Gould"], None)];
    assert_eq!(filter_books(index, Some("west")).len(), 1);
}

#[test]
fn no_filter_returns_everything() {
    let index = vec![
        book("Songs of the West", &["Sabine Baring-Gould"], None),
        book("English Folk Song and Dance", &["Cecil Sharp"], None),
    ];
    assert_eq!(filter_books(index, None).len(), 2);
}

#[test]
fn a_waterways_url_selects_waterways() {
    assert_eq!(
        source_of("https://www.waterwaysongs.info/Songs/H/hard.htm"),
        Source::Waterways
    );
}

#[test]
fn a_waterways_path_selects_waterways() {
    assert_eq!(source_of("/Songs/H/hard.htm"), Source::Waterways);
}

#[test]
fn a_mainlynorfolk_path_selects_mainlynorfolk() {
    assert_eq!(
        source_of("/martin.carthy/songs/theelfinknight.html"),
        Source::MainlyNorfolk
    );
}

#[test]
fn a_mainlynorfolk_url_selects_mainlynorfolk() {
    assert_eq!(
        source_of("https://www.mainlynorfolk.info/folk/"),
        Source::MainlyNorfolk
    );
}

#[test]
fn artist_slug_is_the_first_path_segment() {
    assert_eq!(
        artist_slug("/martin.carthy/records/whatnews.html"),
        Some("/martin.carthy/".to_string())
    );
}

#[test]
fn a_path_with_no_segment_has_no_slug() {
    assert_eq!(artist_slug("/"), None);
}

#[test]
fn build_song_query_maps_every_argument() {
    let q = build_song_query(Some("reynardine"), Some("carthy"), Some(RefKey::Child), Some("2"));
    assert_eq!(q.title.as_deref(), Some("reynardine"));
    assert_eq!(q.author.as_deref(), Some("carthy"));
    assert_eq!(q.key, Some(RefKey::Child));
    assert_eq!(q.keyval.as_deref(), Some("2"));
}

#[test]
fn build_song_query_with_only_a_title() {
    let q = build_song_query(Some("reynardine"), None, None, None);
    assert_eq!(q.title.as_deref(), Some("reynardine"));
    assert!(q.author.is_none() && q.key.is_none() && q.keyval.is_none());
}

#[test]
fn build_song_query_with_nothing_is_empty() {
    assert!(build_song_query(None, None, None, None).is_empty());
}

#[test]
fn a_bare_number_matches_the_exact_child_ballad_only() {
    let s84 = summary(&["Ballad 84"], &["84"], &[]);
    let s8 = summary(&["Ballad 8"], &["8"], &[]);
    let s840 = summary(&["Ballad 840"], &["840"], &[]);
    assert!(matches_filter(&s84.refs.child, &s84.titles, "84"));
    assert!(!matches_filter(&s8.refs.child, &s8.titles, "84"));
    assert!(!matches_filter(&s840.refs.child, &s840.titles, "84"));
}

#[test]
fn a_range_is_inclusive_at_both_ends() {
    let matches_at = |n: &str| {
        let s = summary(&["x"], &[n], &[]);
        matches_filter(&s.refs.child, &s.titles, "1-50")
    };
    assert!(matches_at("1"));
    assert!(matches_at("50"));
    assert!(!matches_at("51"));
}

#[test]
fn a_letter_prefix_matches_laws_codes_under_it() {
    let p15 = summary(&["x"], &[], &["P15"]);
    let q1 = summary(&["x"], &[], &["Q1"]);
    assert!(matches_filter(&p15.refs.laws, &p15.titles, "P"));
    assert!(!matches_filter(&q1.refs.laws, &q1.titles, "P"));
}

#[test]
fn a_full_laws_code_matches_the_exact_entry_not_the_whole_prefix_set() {
    let p15 = summary(
        &["The Mountains High / Upon the Mountains High / Reynardine"],
        &[],
        &["P15"],
    );
    let p16 = summary(&["Some Other Ballad"], &[], &["P16"]);
    assert!(matches_filter(&p15.refs.laws, &p15.titles, "P15"));
    assert!(!matches_filter(&p16.refs.laws, &p16.titles, "P15"));
}

#[test]
fn a_letter_prefix_still_returns_the_whole_set_not_just_one_code() {
    let p15 = summary(&["x"], &[], &["P15"]);
    let p16 = summary(&["y"], &[], &["P16"]);
    assert!(matches_filter(&p15.refs.laws, &p15.titles, "P"));
    assert!(matches_filter(&p16.refs.laws, &p16.titles, "P"));
}

#[test]
fn a_full_reference_code_matches_regardless_of_case() {
    let p15 = summary(&["x"], &[], &["P15"]);
    assert!(matches_filter(&p15.refs.laws, &p15.titles, "p15"));
}

#[test]
fn a_child_number_with_a_letter_suffix_matches_exactly() {
    let s84a = summary(&["x"], &["84A"], &[]);
    let s84b = summary(&["y"], &["84B"], &[]);
    assert!(matches_filter(&s84a.refs.child, &s84a.titles, "84A"));
    assert!(!matches_filter(&s84b.refs.child, &s84b.titles, "84A"));
}

#[test]
fn a_reference_code_matching_no_entry_stays_empty_rather_than_falling_back_to_text() {
    let s = summary(&["Ballad P99 Blues"], &[], &["P15"]);
    assert!(!matches_filter(&s.refs.laws, &s.titles, "P99"));
}

#[test]
fn free_text_matches_an_alternate_title_not_just_the_first() {
    let s = summary(&["The Elfin Knight", "Scarborough Fair"], &[], &[]);
    assert!(matches_filter(&s.refs.child, &s.titles, "scarborough"));
}

#[test]
fn songs_a_filter_matching_nothing_yields_an_empty_list_not_an_error() {
    let index = vec![summary(&["Ballad 84"], &["84"], &[])];
    assert!(filter_index(index, Some("nonexistent"), CodeField::Child).is_empty());
}

#[test]
fn a_filter_keeps_matches_in_index_order() {
    let index = vec![
        summary(&["a"], &["2"], &[]),
        summary(&["b"], &["60"], &[]),
        summary(&["c"], &["3"], &[]),
    ];
    let kept = filter_index(index.clone(), Some("1-10"), CodeField::Child);
    let titles: Vec<&str> = kept.iter().map(|s| s.title.as_str()).collect();
    assert_eq!(titles, ["a", "c"]);
    assert_eq!(filter_index(index, None, CodeField::Laws).len(), 3);
}

#[test]
fn ranges_and_numeric_parts_read_as_written() {
    assert_eq!(parse_range("1-50"), Some((1, 50)));
    assert_eq!(parse_range(" 3 - 7 "), Some((3, 7)));
    assert_eq!(parse_range("a-7"), None);
    assert_eq!(parse_range("12"), None);
    assert_eq!(numeric_part("P15"), Some("15"));
    assert_eq!(numeric_part("84"), Some("84"));
    assert_eq!(numeric_part("trad"), None);
    assert!(is_reference_code("P15"));
    assert!(!is_reference_code("P"));
    assert!(!is_reference_code("15"));
}

#[test]
fn a_waterways_query_matches_titles_ignoring_case() {
    let song = |title: &str| WaterwaysSong {
        path: format!("/Songs/{title}.htm"),
        title: title.into(),
        author: None,
        lyrics: None,
        notes: Vec::new(),
        recorded_by: Vec::new(),
        audio_url: None,
    };
    let index = vec![song("Hard Working Boater"), song("Alice White"), song("The Boatman")];
    let found = matching(index, "BOAT");
    let titles: Vec<&str> = found.iter().map(|s| s.title.as_str()).collect();
    assert_eq!(titles, ["Hard Working Boater", "The Boatman"]);
}
