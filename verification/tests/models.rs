use mainlynorfolk_mcp::models::{SongRefs, Source};

#[test]
fn source_is_recognised_from_a_url() {
    assert_eq!(
        Source::of_url("https://www.mainlynorfolk.info/folk/"),
        Some(Source::MainlyNorfolk)
    );
    assert_eq!(
        Source::of_url("https://www.waterwaysongs.info/Songs/A/alice_white.htm"),
        Some(Source::Waterways)
    );
    assert_eq!(Source::of_url("https://example.com/folk/"), None);
}

#[test]
fn refs_with_only_a_master_title_are_empty() {
    let refs = SongRefs {
        master_title: Some("The Elfin Knight".into()),
        ..Default::default()
    };
    assert!(refs.is_empty());
}

#[test]
fn any_reference_makes_refs_non_empty() {
    let refs = SongRefs {
        henry: vec!["H163".into()],
        ..Default::default()
    };
    assert!(!refs.is_empty());
    assert!(!SongRefs {
        ballad_index: Some("C002".into()),
        ..Default::default()
    }
    .is_empty());
}

#[test]
fn each_archive_has_its_origin() {
    assert_eq!(Source::MainlyNorfolk.base_url(), "https://www.mainlynorfolk.info");
    assert_eq!(Source::Waterways.base_url(), "https://www.waterwaysongs.info");
    assert_eq!(
        Source::of_url(&format!("{}/x", Source::Waterways.base_url())),
        Some(Source::Waterways)
    );
}
