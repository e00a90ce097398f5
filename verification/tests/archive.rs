use mainlynorfolk_mcp::archive::{record_search_form, song_search_form, RefKey, SongQuery};
use mainlynorfolk_mcp::error::Error;

#[test]
fn an_empty_query_is_rejected_before_it_reaches_the_archive() {
    assert!(SongQuery::default().is_empty());
    assert!(SongQuery {
        title: Some("   ".into()),
        ..Default::default()
    }
    .is_empty());
    assert!(!SongQuery {
        title: Some("reynardine".into()),
        ..Default::default()
    }
    .is_empty());
}

#[test]
fn a_reference_search_always_sends_the_scheme_with_the_number() {
    let form = SongQuery {
        keyval: Some("2".into()),
        key: Some(RefKey::Child),
        ..Default::default()
    }
    .to_form();
    assert!(form.contains(&("key", "child".to_string())));
    assert!(form.contains(&("keyval", "2".to_string())));
}

#[test]
fn a_bare_number_defaults_to_roud() {
    let form = SongQuery {
        keyval: Some("12".into()),
        ..Default::default()
    }
    .to_form();
    assert!(form.contains(&("key", "roud".to_string())));
}

#[test]
fn unset_fields_are_omitted_rather_than_sent_blank() {
    let form = SongQuery {
        title: Some("reynardine".into()),
        ..Default::default()
    }
    .to_form();
    assert_eq!(form, [("song", "reynardine".to_string())]);
}

#[test]
fn every_field_goes_into_the_form_in_order() {
    let form = SongQuery {
        title: Some("reynardine".into()),
        author: Some("carthy".into()),
        key: Some(RefKey::GreigDuncan),
        keyval: Some("2:329".into()),
    }
    .to_form();
    assert_eq!(
        form,
        [
            ("song", "reynardine".to_string()),
            ("author", "carthy".to_string()),
            ("key", "gd".to_string()),
            ("keyval", "2:329".to_string()),
        ]
    );
}

#[test]
fn a_scheme_without_a_number_is_not_sent() {
    let form = SongQuery {
        key: Some(RefKey::Laws),
        ..Default::default()
    }
    .to_form();
    assert!(form.is_empty());
}

#[test]
fn form_values_name_each_scheme() {
    assert_eq!(RefKey::Roud.as_form_value(), "roud");
    assert_eq!(RefKey::Child.as_form_value(), "child");
    assert_eq!(RefKey::Laws.as_form_value(), "laws");
    assert_eq!(RefKey::GreigDuncan.as_form_value(), "gd");
    assert_eq!(RefKey::Henry.as_form_value(), "henry");
}

#[test]
fn an_empty_search_is_refused_locally() {
    let err = song_search_form(&SongQuery::default()).expect_err("empty query must be refused");
    assert!(err.message().contains("needs a title"), "{}", err.message());
    assert_eq!(
        err.message(),
        "Invalid argument: A song search needs a title, an author, or a reference number."
    );
}

#[test]
fn a_search_with_a_title_sends_its_form() {
    let form = song_search_form(&SongQuery {
        title: Some("reynardine".into()),
        ..Default::default()
    })
    .unwrap();
    assert_eq!(form, [("song", "reynardine".to_string())]);
}

#[test]
fn a_blank_record_search_is_refused_and_a_real_one_names_the_artist_field() {
    let err = record_search_form("   ").unwrap_err();
    assert!(matches!(&err, Error::InvalidArgument(m) if m == "A record search needs an artist or album name."));
    assert_eq!(
        record_search_form("carthy").unwrap(),
        [("artist", "carthy".to_string())]
    );
}

#[test]
fn every_error_reads_as_a_sentence() {
    let fetch = Error::Fetch { url: "https://www.mainlynorfolk.info/x".into(), status: 404 };
    assert_eq!(fetch.message(), "Fetch failed: https://www.mainlynorfolk.info/x returned 404");
    let parse = Error::Parse { what: "song", url: "/x.html".into() };
    assert_eq!(parse.message(), "Could not parse song from /x.html");
    assert_eq!(Error::NotFound("Reynardine".into()).message(), "Not found: Reynardine");
    assert_eq!(
        Error::ForeignPath("https://evil.example.com/".into()).message(),
        "\"https://evil.example.com/\" is not a path on any archive this tool knows about"
    );
    assert_eq!(Error::Cache("closed".into()).message(), "Cache error: closed");
    assert_eq!(Error::Json("bad".into()).message(), "JSON error: bad");
}
