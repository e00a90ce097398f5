use mainlynorfolk_mcp::error::Error;
use mainlynorfolk_mcp::models::{Attribution, Source};
use mainlynorfolk_mcp::parse::artist::{
    find_format, find_year as release_year, parse_release_tail, split_label_and_catalogue,
    strip_site_suffix,
};
use mainlynorfolk_mcp::parse::book::{
    clean_publisher, find_year as book_year, is_absolute, split_authors, split_publisher_and_year,
};
use mainlynorfolk_mcp::parse::song::{
    cut_at_slash, ends_with_attribution_verb, find_year as prose_year, parse_reference_line,
    push_attribution, push_values, split_before_verb,
};
use mainlynorfolk_mcp::parse::waterways::strip_copyright;
use mainlynorfolk_mcp::parse::{album, is_reference_value, labels, page, song_list, split_titles, squash};

#[test]
fn squash_collapses_the_archives_indentation() {
    assert_eq!(squash("  The Elfin\n   Knight  "), "The Elfin Knight");
}

#[test]
fn squash_of_blank_text_is_empty() {
    assert_eq!(squash(" \t\n "), "");
    assert_eq!(squash("a\u{a0}b"), "a b");
}

#[test]
fn a_dash_is_not_a_reference_number() {
    assert!(!is_reference_value("-"));
    assert!(!is_reference_value(" — "));
    assert!(is_reference_value("12"));
    assert!(is_reference_value("P15"));
    assert!(is_reference_value("2:329"));
}

#[test]
fn titles_split_on_the_separator_not_on_every_slash() {
    assert_eq!(
        split_titles("The Elfin Knight / Scarborough Fair"),
        ["The Elfin Knight", "Scarborough Fair"]
    );
    assert_eq!(split_titles("Sound/Track"), ["Sound/Track"]);
}

#[test]
fn empty_alternates_are_dropped() {
    assert_eq!(split_titles(" / A /  / B"), ["A", "B"]);
    assert!(split_titles("   ").is_empty());
}

#[test]
fn strip_copyright_recognises_both_notice_forms() {
    assert_eq!(strip_copyright("Jane Doe © 2020"), "Jane Doe");
    assert_eq!(strip_copyright("Jane Doe (c) 2020"), "Jane Doe");
    assert_eq!(strip_copyright("Jane Doe (C) 2020"), "Jane Doe");
    assert_eq!(strip_copyright("Jane Doe"), "Jane Doe");
}

#[test]
fn the_copyright_sign_wins_over_an_earlier_paren_c() {
    assert_eq!(strip_copyright("A (c) B © 2020"), "A (c) B");
}

#[test]
fn a_site_suffix_is_dropped_from_a_title() {
    assert_eq!(strip_site_suffix("Martin Carthy - Mainly Norfolk"), "Martin Carthy");
    assert_eq!(strip_site_suffix("Martin Carthy | MAINLY NORFOLK: Folk"), "Martin Carthy");
    assert_eq!(strip_site_suffix("A - B :: Mainly Norfolk"), "A");
    assert_eq!(strip_site_suffix("A - B :: Mainly Norfolk - Topic"), "A - B");
    assert_eq!(strip_site_suffix("Martin Carthy - Topic"), "Martin Carthy - Topic");
}

#[test]
fn a_format_is_kept_as_written() {
    assert_eq!(find_format("LP, Topic").as_deref(), Some("LP"));
    assert_eq!(find_format("(cd) Topic").as_deref(), Some("cd"));
    assert_eq!(find_format("Topic Records"), None);
    assert_eq!(find_format("Cassette").as_deref(), Some("Cassette"));
    assert_eq!(find_format("«DVD»").as_deref(), Some("DVD"));
}

#[test]
fn the_last_release_year_wins() {
    assert_eq!(release_year("1965 reissued 1972").as_deref(), Some("1972"));
    assert_eq!(release_year("Topic 12TS2015"), Some("2015".into()));
    assert_eq!(release_year("no year"), None);
    assert_eq!(release_year("19651"), Some("1965".into()));
}

#[test]
fn label_and_catalogue_split_at_the_trailing_code() {
    assert_eq!(
        split_label_and_catalogue("Topic Records TSCD340"),
        (Some("Topic Records".into()), Some("TSCD340".into()))
    );
    assert_eq!(
        split_label_and_catalogue("Decca LK 4545"),
        (Some("Decca".into()), Some("LK 4545".into()))
    );
    assert_eq!(split_label_and_catalogue("Topic UK"), (Some("Topic UK".into()), None));
    assert_eq!(split_label_and_catalogue("TSCD340"), (Some("TSCD340".into()), None));
    assert_eq!(split_label_and_catalogue("   "), (None, None));
}

#[test]
fn a_release_tail_gives_format_label_catalogue_and_year() {
    let m = parse_release_tail("LP, Topic 12TS340, 1965", None);
    assert_eq!(m.format.as_deref(), Some("LP"));
    assert_eq!(m.label.as_deref(), Some("Topic"));
    assert_eq!(m.catalogue_number.as_deref(), Some("12TS340"));
    assert_eq!(m.year.as_deref(), Some("1965"));

    let m = parse_release_tail("Decca, LK 4844", Some("1966"));
    assert_eq!(m.format, None);
    assert_eq!(m.label.as_deref(), Some("Decca"));
    assert_eq!(m.catalogue_number.as_deref(), Some("LK 4844"));
    assert_eq!(m.year.as_deref(), Some("1966"));

    let m = parse_release_tail("CD", Some("2001"));
    assert_eq!(m.format.as_deref(), Some("CD"));
    assert_eq!(m.year.as_deref(), Some("2001"));
    assert_eq!(m.label, None);

    let m = parse_release_tail("", None);
    assert!(m.format.is_none() && m.year.is_none() && m.label.is_none());
}

#[test]
fn authors_split_on_commas_and_and() {
    assert_eq!(
        split_authors("Sabine Baring-Gould and H. Fleetwood Sheppard:"),
        ["Sabine Baring-Gould", "H. Fleetwood Sheppard"]
    );
    assert_eq!(split_authors("A, B and C,"), ["A", "B", "C"]);
    assert!(split_authors(" : ").is_empty());
}

#[test]
fn publisher_and_year_come_apart() {
    assert_eq!(
        split_publisher_and_year("London: Methuen, 1889; reprinted 1974."),
        (Some("London: Methuen, 1889; reprinted".into()), Some("1974".into()))
    );
    assert_eq!(
        split_publisher_and_year(", Oxford University Press."),
        (Some("Oxford University Press".into()), None)
    );
    assert_eq!(split_publisher_and_year(" 1905 "), (None, Some("1905".into())));
    assert_eq!(book_year("12345 18991"), None);
    assert_eq!(book_year("12345 1899x"), Some(("1899".into(), 6, 10)));
    assert_eq!(book_year("in 1899, "), Some(("1899".into(), 3, 7)));
    assert_eq!(clean_publisher(" ;Novello,  Ewer . "), "Novello, Ewer");
}

#[test]
fn only_full_urls_are_absolute() {
    assert!(is_absolute("https://archive.org/x"));
    assert!(is_absolute("http://archive.org/x"));
    assert!(!is_absolute("/folk/books/"));
    assert!(!is_absolute("#ashton"));
}

#[test]
fn a_reference_line_gives_every_scheme() {
    let (refs, trad) = parse_reference_line(
        " [ Roud 12 ; Master title: The Elfin Knight ; Child 2 ; G/D 2:329, 2:330 ; Laws P15 / Song Subject x ; Henry H163 ; Ballad Index C002 ; Ballad Index C003 ; VWML RoudFS/S123 ; trad.] ",
    );
    assert_eq!(refs.roud, ["12"]);
    assert_eq!(refs.child, ["2"]);
    assert_eq!(refs.greig_duncan, ["2:329", "2:330"]);
    assert_eq!(refs.laws, ["P15"]);
    assert_eq!(refs.henry, ["H163"]);
    assert_eq!(refs.ballad_index.as_deref(), Some("C002"));
    assert_eq!(refs.vwml, ["RoudFS/S123"]);
    assert_eq!(refs.master_title.as_deref(), Some("The Elfin Knight"));
    assert!(trad);
    let (none, trad) = parse_reference_line("[Roud -]");
    assert!(none.roud.is_empty());
    assert!(!trad);
}

#[test]
fn a_clause_value_is_cut_at_a_slash_aside() {
    assert_eq!(cut_at_slash(" C002 / Song Subject X "), "C002");
    assert_eq!(cut_at_slash(" 12 "), "12");
    let mut values = vec!["1".to_string()];
    push_values(&mut values, " 2, ,3 / aside");
    assert_eq!(values, ["1", "2", "3"]);
}

#[test]
fn a_performer_is_the_text_before_the_verb() {
    assert_eq!(
        split_before_verb("A.L.   Lloyd sang The Elfin Knight in 1956").as_deref(),
        Some("A.L. Lloyd")
    );
    assert_eq!(
        split_before_verb("Martin Carthy sings it and Shirley Collins sang it").as_deref(),
        Some("Martin Carthy")
    );
    assert_eq!(split_before_verb(" sang it"), None);
    assert_eq!(split_before_verb("nothing here"), None);
}

#[test]
fn a_prose_year_is_the_first_standalone_one() {
    assert_eq!(prose_year("recorded 12TS340 in 1965 and 1972").as_deref(), Some("1965"));
    assert_eq!(prose_year("19651 1850 2003").as_deref(), Some("2003"));
    assert_eq!(prose_year("none"), None);
}

#[test]
fn the_folk_music_crumb_is_not_an_attribution() {
    let mut out: Vec<Attribution> = Vec::new();
    push_attribution(
        &mut out,
        Some(("Folk Music".into(), "/folk/".into())),
        Some("Title".into()),
        "/x/songs/y.html",
    );
    assert!(out.is_empty());
    push_attribution(&mut out, Some(("Martin Carthy".into(), "../".into())), None, "/x/songs/y.html");
    assert!(out.is_empty());
    push_attribution(
        &mut out,
        Some(("Martin Carthy".into(), "../index.html".into())),
        Some("Scarborough Fair".into()),
        "/martin.carthy/songs/x.html",
    );
    assert_eq!(
        out,
        [Attribution {
            artist: "Martin Carthy".into(),
            artist_path: "/martin.carthy/index.html".into(),
            title: "Scarborough Fair".into(),
        }]
    );
}

#[test]
fn quotations_are_introduced_by_a_verb() {
    assert!(ends_with_attribution_verb("the booklet noted:"));
    assert!(ends_with_attribution_verb("Lloyd wrote:"));
    assert!(!ends_with_attribution_verb("noted: then more"));
}

#[test]
fn empty_documents_are_refused_as_the_kind_asked_for() {
    assert!(matches!(
        album("<html></html>", "/folk/records/x.html"),
        Err(Error::Parse { what: "album", ref url }) if url == "/folk/records/x.html"
    ));
    assert!(matches!(
        page("<html></html>", "/folk/x.html", Source::MainlyNorfolk),
        Err(Error::Parse { what: "page", .. })
    ));
    assert!(song_list("<html></html>", "/folk/songs/").is_empty());
    assert!(labels("<html></html>").is_empty());
}

#[test]
fn squashing_twice_is_squashing_once() {
    for text in ["  The Elfin\n   Knight  ", " \t\n ", "a\u{a0} b", "already tidy"] {
        let once = squash(text);
        assert_eq!(squash(&once), once);
    }
}

#[test]
fn an_all_caps_label_keeps_its_catalogue_number() {
    assert_eq!(
        split_label_and_catalogue("HMV DLP 1143"),
        (Some("HMV".into()), Some("DLP 1143".into()))
    );
    assert_eq!(
        split_label_and_catalogue("EMI CLP 1234/5"),
        (Some("EMI".into()), Some("CLP 1234/5".into()))
    );
    // Nothing with a digit after the first word: still one label.
    assert_eq!(split_label_and_catalogue("EMI UK"), (Some("EMI UK".into()), None));
    let m = parse_release_tail("LP, HMV DLP 1143, 1960", None);
    assert_eq!(m.label.as_deref(), Some("HMV"));
    assert_eq!(m.catalogue_number.as_deref(), Some("DLP 1143"));
}

#[test]
fn a_bare_dash_is_no_reference_number() {
    let (refs, _) = parse_reference_line("[ Roud - ; Child 2 ; Laws P15, - ]");
    assert!(refs.roud.is_empty());
    assert_eq!(refs.child, ["2"]);
    assert_eq!(refs.laws, ["P15"]);
    let mut values: Vec<String> = Vec::new();
    push_values(&mut values, " - , 12 ");
    assert_eq!(values, ["12"]);
}

#[test]
fn squash_keeps_the_words_of_its_text() {
    let text = " \tThe  Trees\nThey Do\u{a0}Grow High  ";
    let s = squash(text);
    assert!(s.split_whitespace().eq(text.split_whitespace()));
    assert!(s.split(' ').all(|w| !w.is_empty()));
    assert_eq!(squash(&s), s);
}

#[test]
fn only_plain_attributes_are_read_as_links() {
    let html = "<body><h1>T</h1><svg><a xlink:href='/folk/x.html'>X</a></svg><p><a href='/folk/y.html'>Y</a></p></body>";
    let p = page(html, "/folk/t.html", Source::MainlyNorfolk).unwrap();
    let links: Vec<_> = p.links.iter().map(|l| l.url.as_str()).collect();
    assert_eq!(links, ["/folk/y.html"]);
}
