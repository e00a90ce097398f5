use std::sync::Arc;
use std::time::{Duration, SystemTime};

use mainlynorfolk_mcp::client::{
    absolute_url, cache_key, cache_step, conditional_headers, form_cache_key, is_fresh_at_age, reply_action,
    unreachable_action,
    resolve_path, CacheEntry, CacheStep, Lookup, MemoryCache, ReplyAction, FRESH_FOR_SECS, MEMORY_CACHE_ENTRIES,
};
use mainlynorfolk_mcp::error::Error;
use mainlynorfolk_mcp::models::Source;

#[test]
fn absolute_url_accepts_paths_with_or_without_a_leading_slash() {
    let mn = Source::MainlyNorfolk;
    assert_eq!(
        absolute_url(mn, "/folk/songs/").unwrap(),
        "https://www.mainlynorfolk.info/folk/songs/"
    );
    assert_eq!(
        absolute_url(mn, "folk/songs/").unwrap(),
        "https://www.mainlynorfolk.info/folk/songs/"
    );
}

#[test]
fn absolute_url_passes_through_known_hosts_and_refuses_others() {
    let mn = Source::MainlyNorfolk;
    let ours = "https://www.waterwaysongs.info/Songs/A/alice_white.htm";
    assert_eq!(absolute_url(mn, ours).unwrap(), ours);
    assert!(matches!(
        absolute_url(mn, "https://evil.example.com/"),
        Err(Error::ForeignPath(_))
    ));
}

#[test]
fn a_waterways_path_resolves_onto_waterways() {
    assert_eq!(
        absolute_url(Source::Waterways, "/songmenu.htm").unwrap(),
        "https://www.waterwaysongs.info/songmenu.htm"
    );
}

#[test]
fn relative_links_resolve_against_the_page_that_held_them() {
    let base = "/martin.carthy/songs/theelfinknight.html";
    assert_eq!(
        resolve_path("../../lloyd/songs/themountainshigh.html", base),
        "/lloyd/songs/themountainshigh.html"
    );
    assert_eq!(
        resolve_path("gilbrenton.html", "/folk/songs/childindex.html"),
        "/folk/songs/gilbrenton.html"
    );
    assert_eq!(
        resolve_path("childindex.html", "/folk/songs/"),
        "/folk/songs/childindex.html"
    );
}

#[test]
fn fragments_survive_resolution() {
    assert_eq!(
        resolve_path(
            "../../folk/records/redrice.html#rice",
            "/eliza.carthy/songs/x.html"
        ),
        "/folk/records/redrice.html#rice"
    );
    assert_eq!(
        resolve_path("x.html#a..b", "/folk/songs/"),
        "/folk/songs/x.html#a..b"
    );
}

#[test]
fn absolute_and_scheme_relative_hrefs_are_left_alone() {
    assert_eq!(
        resolve_path("/folk/", "/martin.carthy/songs/x.html"),
        "/folk/"
    );
    let ext = "https://mudcat.org/thread.cfm?threadid=1";
    assert_eq!(resolve_path(ext, "/folk/songs/"), ext);
}

#[test]
fn climbing_above_the_root_stops_at_the_root() {
    assert_eq!(resolve_path("../../../x.html", "/a/b.html"), "/x.html");
    assert!(resolve_path("x.html", "").starts_with('/'));
}

#[test]
fn the_memory_cache_evicts_oldest_first_and_stays_bounded() {
    let mut cache = MemoryCache::default();
    for i in 0..MEMORY_CACHE_ENTRIES + 10 {
        cache.insert(format!("/page/{i}"), Arc::new(String::new()));
    }
    assert_eq!(cache.len(), MEMORY_CACHE_ENTRIES);
    assert!(cache.get("/page/0").is_none(), "oldest should have gone");
    assert!(cache.get("/page/511").is_some(), "newest should be held");
}

#[test]
fn re_inserting_a_page_does_not_grow_the_eviction_queue() {
    let mut cache = MemoryCache::default();
    for _ in 0..50 {
        cache.insert("/folk/songs/".into(), Arc::new(String::new()));
    }
    assert_eq!(cache.len(), 1);
}

#[test]
fn a_read_after_a_write_gives_the_latest_body() {
    let mut cache = MemoryCache::new();
    cache.insert("/a".to_string(), Arc::new("first".to_string()));
    cache.insert("/b".to_string(), Arc::new("other".to_string()));
    cache.insert("/a".to_string(), Arc::new("second".to_string()));
    assert_eq!(cache.get("/a").unwrap().as_str(), "second");
    assert_eq!(cache.get("/b").unwrap().as_str(), "other");
    assert!(cache.get("/c").is_none());
    assert_eq!(cache.len(), 2);
}

#[test]
fn a_fresh_entry_is_served_without_asking_the_archive() {
    let fresh = CacheEntry {
        url: "u".into(),
        body: "b".into(),
        etag: None,
        last_modified: None,
        fetched_at: SystemTime::now(),
    };
    assert!(fresh.is_fresh());

    let stale = CacheEntry {
        fetched_at: SystemTime::now() - Duration::from_secs(FRESH_FOR_SECS) - Duration::from_secs(1),
        ..fresh
    };
    assert!(!stale.is_fresh());
}

#[test]
fn freshness_ends_at_one_day() {
    assert!(is_fresh_at_age(Some(0)));
    assert!(is_fresh_at_age(Some(FRESH_FOR_SECS - 1)));
    assert!(!is_fresh_at_age(Some(FRESH_FOR_SECS)));
    assert!(!is_fresh_at_age(None));
}

#[test]
fn a_reply_is_acted_on_by_its_status() {
    assert_eq!(reply_action(304, true), ReplyAction::Revalidate);
    assert_eq!(reply_action(304, false), ReplyAction::Fail);
    assert_eq!(reply_action(503, true), ReplyAction::ServeStale);
    assert_eq!(reply_action(404, false), ReplyAction::Fail);
    assert_eq!(reply_action(200, true), ReplyAction::Store);
    assert_eq!(reply_action(204, false), ReplyAction::Store);
    assert_eq!(reply_action(199, true), ReplyAction::ServeStale);
    assert_eq!(reply_action(300, false), ReplyAction::Fail);
}

#[test]
fn revalidation_sends_the_cached_validators() {
    let entry = CacheEntry {
        url: "u".into(),
        body: "b".into(),
        etag: Some("\"abc\"".into()),
        last_modified: Some("Tue, 01 Jan 2019 00:00:00 GMT".into()),
        fetched_at: SystemTime::now(),
    };
    let (etag, modified) = conditional_headers(&Some(entry));
    assert_eq!(etag.as_deref(), Some("\"abc\""));
    assert_eq!(modified.as_deref(), Some("Tue, 01 Jan 2019 00:00:00 GMT"));
    assert_eq!(conditional_headers(&None), (None, None));
}

#[test]
fn a_cache_key_is_the_sha256_in_hex() {
    assert_eq!(
        cache_key(""),
        "e3b0c44298fc1c149afbf4c8996fb92427ae41e4649b934ca495991b7852b855.json"
    );
    assert_eq!(
        cache_key("abc"),
        "ba7816bf8f01cfea414140de5dae2223b00361a396177a9cb410ff61f20015ad.json"
    );
    assert_ne!(cache_key("/a"), cache_key("/b"));
}

#[test]
fn a_form_post_is_keyed_by_its_fields() {
    let url = "https://www.mainlynorfolk.info/folk/songs/search.php";
    let key = form_cache_key(url, &[("song", "reynardine"), ("author", "carthy")]).unwrap();
    assert_eq!(
        key,
        format!("{url}#form:[[\"song\",\"reynardine\"],[\"author\",\"carthy\"]]")
    );
    let other = form_cache_key(url, &[("song", "reynardine")]).unwrap();
    assert_ne!(key, other);
}

#[test]
fn foreign_hosts_are_refused_without_a_request() {
    let err = absolute_url(Source::MainlyNorfolk, "https://example.com/")
        .expect_err("foreign host must be refused");
    assert!(
        err.message().contains("not a path on any archive"),
        "{}",
        err.message()
    );
}

#[test]
fn a_host_that_only_begins_like_an_archive_is_refused() {
    let evil = "https://www.mainlynorfolk.info.evil.example/x";
    assert!(matches!(
        absolute_url(Source::MainlyNorfolk, evil),
        Err(Error::ForeignPath(p)) if p == evil
    ));
    assert_eq!(Source::of_url("https://www.waterwaysongs.info.evil.example/Songs/"), None);
    assert_eq!(Source::of_url("https://www.mainlynorfolk.info"), Some(Source::MainlyNorfolk));
    assert_eq!(Source::of_url("https://www.mainlynorfolk.info?q=1"), Some(Source::MainlyNorfolk));
    assert_eq!(Source::of_url("https://www.waterwaysongs.info#top"), Some(Source::Waterways));
}

#[test]
fn an_unreachable_archive_serves_the_stale_copy() {
    assert_eq!(unreachable_action(true), ReplyAction::ServeStale);
    assert_eq!(unreachable_action(false), ReplyAction::Fail);
}

#[test]
fn a_form_key_writes_its_fields_as_escaped_json() {
    let key = form_cache_key("u", &[("a\"b", "c\\d\n\u{1}\t\u{7f}é")]).unwrap();
    assert_eq!(key, "u#form:[[\"a\\\"b\",\"c\\\\d\\n\\u0001\\t\u{7f}é\"]]");
    assert_eq!(form_cache_key("u", &[]).unwrap(), "u#form:[]");
}

#[test]
fn forms_that_differ_only_in_how_they_split_get_different_keys() {
    let one = form_cache_key("u", &[("a", "b\",\"c")]).unwrap();
    let two = form_cache_key("u", &[("a", "b"), ("c", "")]).unwrap();
    assert_ne!(one, two);
}

#[test]
fn a_page_outlives_fewer_newer_pages_than_the_bound() {
    let mut cache = MemoryCache::new();
    cache.insert("/kept".to_string(), Arc::new("body".to_string()));
    for i in 0..MEMORY_CACHE_ENTRIES - 1 {
        cache.insert(format!("/newer/{i}"), Arc::new(String::new()));
    }
    assert_eq!(cache.get("/kept").unwrap().as_str(), "body");
    cache.insert("/one/more".to_string(), Arc::new(String::new()));
    assert!(cache.get("/kept").is_none());
}

#[test]
fn no_dot_step_survives_resolution() {
    assert_eq!(
        resolve_path("./a/../b/./c.html", "/folk/songs/x.html"),
        "/folk/songs/b/c.html"
    );
    let r = resolve_path("../.././x/../y.html", "/a/b/c/d.html");
    assert_eq!(r, "/a/y.html");
    assert!(r.split('/').all(|s| s != "." && s != ".."));
}

#[test]
fn the_cache_tiers_are_tried_in_order() {
    assert_eq!(cache_step(Lookup::Memory { hit: true }), CacheStep::ServeMemory);
    assert_eq!(cache_step(Lookup::Memory { hit: false }), CacheStep::ReadDisk);
    assert_eq!(cache_step(Lookup::Disk { cached: true, fresh: true }), CacheStep::ServeDisk);
    assert_eq!(cache_step(Lookup::Disk { cached: true, fresh: false }), CacheStep::AskArchive);
    assert_eq!(cache_step(Lookup::Disk { cached: false, fresh: false }), CacheStep::AskArchive);
}
