use mainlynorfolk_mcp::error::Error;
use mainlynorfolk_mcp::mcp::graphql::loaders::{parse_index, IndexKind};
use mainlynorfolk_mcp::models::Source;
use mainlynorfolk_mcp::parse::{album, labels, page, song_list};
use mainlynorfolk_mcp::parse::{
    artist, books, discography, records_search, song, waterways_index, waterways_song,
};

const SONG: &str = r#"<!DOCTYPE html><html><head><title>The Elfin Knight</title></head><body>
<article id="mainArticle">
<h1>The Elfin Knight / Scarborough Fair</h1>
<p class="reference">&gt; <a href="../index.html">Martin Carthy</a> &gt; <a href="../songs.html">Songs</a> &gt; <strong>Scarborough Fair</strong><br>
&gt; <a href="/folk/">Folk Music</a> &gt; <strong>The Elfin Knight</strong><br>
&gt; <a href="../../shirley.collins/index.html">Shirley Collins</a> &gt; <strong>The Lover's Tasks</strong></p>
<p>[ Roud 12 ; Master title: The Elfin Knight ; Child 2 ; <a href="https://www.vwml.org/roudnumber/12">VWML RoudFS/S123</a> ; Ballad Index C002 ; <a class="external" href="/x/mudcat">Mudcat</a> ; trad.]</p>
<p class="hiddenbibliography">Francis James Child: <cite>The English and Scottish Popular Ballads</cite> <cite><a href="../../folk/books/#bronson">Bronson</a></cite> Bertrand Bronson: <cite>The Traditional Tunes</cite></p>
<p>A.L. Lloyd sang <em>The Elfin Knight</em> in 1956 on <cite><a href="../../folk/records/english.html#lloyd">English Drinking Songs</a></cite>, reissued on <cite><a href="../../folk/records/english.html#lloyd">the same</a></cite>.</p>
<p>The booklet noted:</p>
<blockquote><p>A riddle song<br>of great age</p></blockquote>
<h3 id="allloyd">A.L. Lloyd sings <i>The Elfin Knight</i></h3>
<p>My plaid awa'<br>Savoury, sage, rosemary and thyme</p>
<p>Second verse</p>
<h3 id="empty">Nobody</h3>
</article></body></html>"#;

#[test]
fn a_page_with_no_h1_is_a_parse_error() {
    let html =
        "<html><body><article id=\"mainArticle\"><p>Nothing here.</p></article></body></html>";
    let err = song(html, "/nowhere.html").unwrap_err();
    assert!(matches!(err, Error::Parse { what: "song", .. }));
}

#[test]
fn a_song_page_carries_every_block() {
    let s = song(SONG, "/martin.carthy/songs/theelfinknight.html").unwrap();
    assert_eq!(s.title, "The Elfin Knight / Scarborough Fair");
    assert_eq!(s.titles, ["The Elfin Knight", "Scarborough Fair"]);
    assert_eq!(s.refs.roud, ["12"]);
    assert_eq!(s.refs.child, ["2"]);
    assert_eq!(s.refs.vwml, ["RoudFS/S123"]);
    assert_eq!(s.refs.ballad_index.as_deref(), Some("C002"));
    assert_eq!(s.refs.master_title.as_deref(), Some("The Elfin Knight"));
    assert!(s.traditional);
    let urls: Vec<&str> = s.external_links.iter().map(|l| l.url.as_str()).collect();
    assert_eq!(urls, ["https://www.vwml.org/roudnumber/12", "/x/mudcat"]);

    let artists: Vec<(&str, &str, &str)> = s
        .attributions
        .iter()
        .map(|a| (a.artist.as_str(), a.artist_path.as_str(), a.title.as_str()))
        .collect();
    assert_eq!(
        artists,
        [
            ("Martin Carthy", "/martin.carthy/index.html", "Scarborough Fair"),
            ("Shirley Collins", "/shirley.collins/index.html", "The Lover's Tasks"),
        ]
    );

    assert_eq!(s.bibliography.len(), 3);
    assert_eq!(s.bibliography[0].author.as_deref(), Some("Francis James Child"));
    assert_eq!(s.bibliography[1].author.as_deref(), Some("Francis James Child"));
    assert_eq!(s.bibliography[1].path.as_deref(), Some("/folk/books#bronson"));
    assert_eq!(s.bibliography[2].author.as_deref(), Some("Bertrand Bronson"));
    assert_eq!(s.bibliography[2].title, "The Traditional Tunes");

    assert_eq!(s.recordings.len(), 1);
    let r = &s.recordings[0];
    assert_eq!(r.performer.as_deref(), Some("A.L. Lloyd"));
    assert_eq!(r.year.as_deref(), Some("1956"));
    assert_eq!(r.album_path.as_deref(), Some("/folk/records/english.html#lloyd"));
    assert_eq!(r.album_title.as_deref(), Some("English Drinking Songs"));

    assert_eq!(s.notes.len(), 1);
    assert_eq!(s.notes[0].attribution.as_deref(), Some("The booklet noted:"));
    assert_eq!(s.notes[0].text, "A riddle song\nof great age");

    assert_eq!(s.lyrics.len(), 1);
    assert_eq!(s.lyrics[0].anchor, "allloyd");
    assert_eq!(s.lyrics[0].performer.as_deref(), Some("A.L. Lloyd"));
    assert_eq!(
        s.lyrics[0].text,
        "My plaid awa'\nSavoury, sage, rosemary and thyme\n\nSecond verse"
    );
    assert_eq!(s.source, Source::MainlyNorfolk);
}

#[test]
fn an_artist_page_gives_name_and_nav_paths() {
    let html = r#"<html><head><title>Martin Carthy - Mainly Norfolk</title></head><body>
<h1>Mainly Norfolk: English Folk and Other Good Music</h1>
<nav id="mainNav"><div id="folk"><a class="records" href="/folk/records/">Records</a></div>
<div id="carthy"><a class="biography" href="biography.html">Bio</a><a class="records" href="records.html">Records</a><a class="songs" href="songs.html">Songs</a></div></nav>
<article id="mainArticle"><h1>Martin Carthy</h1></article></body></html>"#;
    let a = artist(html, "/martin.carthy/").unwrap();
    assert_eq!(a.name, "Martin Carthy");
    assert_eq!(a.biography_path.as_deref(), Some("/martin.carthy/biography.html"));
    assert_eq!(a.discography_path.as_deref(), Some("/martin.carthy/records.html"));
    assert_eq!(a.songs_path.as_deref(), Some("/martin.carthy/songs.html"));
}

#[test]
fn an_artist_page_without_a_heading_falls_back_to_the_title() {
    let html = "<html><head><title>Martin Carthy - Mainly Norfolk</title></head><body></body></html>";
    let a = artist(html, "/martin.carthy/").unwrap();
    assert_eq!(a.name, "Martin Carthy");
    assert!(a.biography_path.is_none());
    assert!(matches!(
        artist("", "/x/"),
        Ok(_) | Err(Error::Parse { what: "artist", .. })
    ));
}

#[test]
fn a_discography_dates_entries_by_their_heading() {
    let html = r#"<html><body><article id="mainArticle">
<h2>1965</h2>
<p>Martin Carthy: <cite><a href="martin.carthy.html">Martin Carthy</a></cite> LP, Fontana STL 5269</p>
<h2>Reissues</h2>
<p><cite>Unlinked</cite> CD, Topic TSCD340, 2003</p>
<p>Various Artists: <cite><a href="a.html#x">First</a></cite> (reissue of <cite><a href="b.html">Second</a></cite>) CD, Topic TSCD340, 2003<img src="covers/x.jpg"></p>
</article></body></html>"#;
    let albums = discography(html, "/folk/records/");
    assert_eq!(albums.len(), 3);
    assert_eq!(albums[0].path, "/folk/records/martin.carthy.html");
    assert_eq!(albums[0].artist.as_deref(), Some("Martin Carthy"));
    assert_eq!(albums[0].year.as_deref(), Some("1965"));
    assert_eq!(albums[0].format.as_deref(), Some("LP"));
    assert_eq!(albums[0].label.as_deref(), Some("Fontana"));
    assert_eq!(albums[0].catalogue_number.as_deref(), Some("STL 5269"));
    assert_eq!(albums[1].path, "/folk/records/a.html#x");
    assert_eq!(albums[2].title, "Second");
    assert_eq!(albums[2].year.as_deref(), Some("2003"));
    assert_eq!(albums[2].cover_url.as_deref(), Some("/folk/records/covers/x.jpg"));
    assert_eq!(albums[2].artist.as_deref(), Some("Various Artists"));
    assert!(discography("<html><body><p>x</p></body></html>", "/").is_empty());
}

#[test]
fn record_search_results_group_by_credited_artist() {
    let html = r#"<html><body><ul class="plain">
<li>Martin Carthy: <a href="../../martin.carthy/records/a.html">Byker Hill</a>, <a href="../../martin.carthy/records/b.html">Crown of Horn</a></li>
<li>No links here</li>
</ul><ul><li>Elsewhere: <a href="x.html">X</a></li></ul></body></html>"#;
    let groups = records_search(html, "/folk/records/search.php");
    assert_eq!(groups.len(), 1);
    assert_eq!(groups[0].0, "Martin Carthy:");
    let titles: Vec<&str> = groups[0].1.iter().map(|a| a.title.as_str()).collect();
    assert_eq!(titles, ["Byker Hill", "Crown of Horn"]);
    assert_eq!(groups[0].1[0].path, "/martin.carthy/records/a.html");
    assert_eq!(groups[0].1[0].artist.as_deref(), Some("Martin Carthy:"));
}

#[test]
fn the_bibliography_reads_sections_and_entries() {
    let html = r#"<html><body><article id="mainArticle">
<article id="intro"><table class="album" id="toc"><tr><td><cite>Contents</cite></td></tr></table></article>
<article id="ballads"><p class="reference"><strong>Ballads and Songs</strong></p>
<table class="album" id="baringgould"><tr><td>Sabine Baring-Gould and H. Fleetwood Sheppard: <cite><a href="baringgould.html">Songs of the West</a>.</cite> London: Methuen, 1889; 1905<a href="https://archive.org/details/x">online</a><img src="covers/sotw.jpg"></td></tr></table>
<table class="album" id="ashton"><tr><td>John Ashton: <strong>Modern Street Ballads</strong> Chatto, 1888</td></tr></table>
<table class="album"><tr><td><cite>No id</cite></td></tr></table>
</article></article></body></html>"#;
    let list = books(html, "/folk/books/");
    assert_eq!(list.len(), 2);
    let b = &list[0];
    assert_eq!(b.id, "baringgould");
    assert_eq!(b.title, "Songs of the West");
    assert_eq!(b.authors, ["Sabine Baring-Gould", "H. Fleetwood Sheppard"]);
    assert_eq!(b.publisher.as_deref(), Some("London: Methuen, 1889; online"));
    assert_eq!(b.year.as_deref(), Some("1905"));
    assert_eq!(b.section.as_deref(), Some("Ballads and Songs"));
    assert_eq!(b.path, "/folk/books/baringgould.html");
    assert_eq!(b.online_url.as_deref(), Some("https://archive.org/details/x"));
    assert_eq!(b.cover_url.as_deref(), Some("/folk/books/covers/sotw.jpg"));
    let a = &list[1];
    assert_eq!(a.path, "/folk/books/#ashton");
    assert_eq!(a.title, "Modern Street Ballads");
    assert_eq!(a.authors, ["John Ashton"]);
    assert_eq!(a.year.as_deref(), Some("1888"));
}

#[test]
fn song_without_a_title_is_a_parse_error() {
    let err = waterways_song("<html><body>no title here</body></html>", "/Songs/X/x.htm").unwrap_err();
    assert!(matches!(err, Error::Parse { what: "waterways song", .. }));
}

#[test]
fn a_canal_song_page_separates_its_parts() {
    let html = r#"<html><head><title>Lucy Megan</title></head><body>
<div class="xr_xrc">
<span class="XX-95Author">by Peter Clement &#169; 2019</span>
<span class="XX-95Lyrics">You slip your morning mooring</span>
<span class="XX-95Lyrics">as the mist begins <span class="XX-95Lyrics">to</span> lift</span>
<span class="XX-95Lyrics XX-95recorded-95by">Recorded by The Boatmen</span>
<span class="XX-95Lyrics"><span class="XX-95Notes">Notes from the song writer :</span></span>
<span class="XX-95Notes">At lock 46</span>
<span class="XX-95Notes">Recorded on :</span>
<div style="display: none"><span class="XX-95Lyrics">[D] You slip</span></div>
<audio><source src="../../sounds/lucy.mp3"></audio>
</div>
<div class="xr_xrc"><span class="XX-95Lyrics">You slip your morning mooring</span></div>
</body></html>"#;
    let s = waterways_song(html, "/Songs/L/lucy_megan.htm").unwrap();
    assert_eq!(s.title, "Lucy Megan");
    assert_eq!(s.author.as_deref(), Some("Peter Clement"));
    assert_eq!(
        s.lyrics.as_deref(),
        Some("You slip your morning mooring\nas the mist begins to lift")
    );
    assert_eq!(s.notes, ["Notes from the song writer :", "At lock 46"]);
    assert_eq!(s.recorded_by, ["Recorded by The Boatmen"]);
    assert_eq!(
        s.audio_url.as_deref(),
        Some("https://www.waterwaysongs.info/sounds/lucy.mp3")
    );
}

#[test]
fn indexes_the_song_menu() {
    let html = r#"<html><body>
<a href="../Songs/H/hard_working.htm">Hard Working Boater</a>
<a href="/Songs/H/hard_working.htm">David Blagrove</a>
<a href="Songs/X/relative.htm">Relative</a>
<a href="/Songs/A/alice_white.htm"> </a>
<a href="/Songs/A/alice_white.htm">Alice White</a>
<a href="/about.htm">About</a>
</body></html>"#;
    let songs = waterways_index(html);
    let got: Vec<(&str, &str)> = songs.iter().map(|s| (s.path.as_str(), s.title.as_str())).collect();
    assert_eq!(
        got,
        [
            ("/Songs/H/hard_working.htm", "Hard Working Boater"),
            ("/Songs/A/alice_white.htm", "Alice White"),
        ]
    );
    assert!(songs.iter().all(|s| s.author.is_none() && s.notes.is_empty()));
}

#[test]
fn an_index_page_parses_as_its_kind() {
    let html = r#"<html><body><article id="mainArticle">
<article id="ballads"><p class="reference"><strong>Ballads and Songs</strong></p>
<table class="album" id="ashton"><tr><td>John Ashton: <strong>Modern Street Ballads</strong> Chatto, 1888</td></tr></table>
</article></article></body></html>"#;
    let books = parse_index(IndexKind::Books, html).books().expect("the bibliography");
    assert_eq!(books.len(), 1);
    assert_eq!(books[0].path, "/folk/books/#ashton");
    assert!(parse_index(IndexKind::Books, html).songs().is_none());
    assert!(parse_index(IndexKind::Labels, html).labels().unwrap().is_empty());
    assert!(parse_index(IndexKind::Child, html).songs().unwrap().is_empty());
    assert!(parse_index(IndexKind::Songs, html).songs().unwrap().is_empty());
}

#[test]
fn an_artists_life_dates_are_not_part_of_the_name() {
    let html = r#"<html><head><title>Ewan MacColl</title></head><body>
<article id="mainArticle"><h1>Ewan MacColl<br>(25 January 1915 - 22 October 1989)</h1></article></body></html>"#;
    let a = artist(html, "/ewan.maccoll/").unwrap();
    assert_eq!(a.name, "Ewan MacColl");
}

#[test]
fn a_song_list_gives_one_summary_per_item() {
    let html = "<ul class='plain'><li><a href='gilbrenton.html'>Gil Brenton</a> <span class='comment'>Child 5</span></li></ul>";
    let list = song_list(html, "/folk/songs/childindex.html");
    assert_eq!(list.len(), 1);
    assert_eq!(list[0].path, "/folk/songs/gilbrenton.html");
    assert_eq!(list[0].title, "Gil Brenton");
    assert_eq!(list[0].titles, ["Gil Brenton"]);
    assert_eq!(list[0].refs.child, ["5"]);
    assert_eq!(list[0].source, Source::MainlyNorfolk);

    let html = r#"<ul class="plain">
<li><a href="../../lloyd/songs/themountainshigh.html">The Mountains High / Reynardine</a> <span class="comment">[Roud 397; Laws P15]</span></li>
<li>No link here</li>
<li><a href="x.html">X</a></li>
</ul><ul><li><a href="elsewhere.html">Not a song list</a></li></ul>"#;
    let list = song_list(html, "/folk/songs/search.php");
    assert_eq!(list.len(), 2);
    assert_eq!(list[0].path, "/lloyd/songs/themountainshigh.html");
    assert_eq!(list[0].titles, ["The Mountains High", "Reynardine"]);
    assert_eq!(list[0].refs.roud, ["397"]);
    assert_eq!(list[0].refs.laws, ["P15"]);
    assert_eq!(list[1].path, "/folk/songs/x.html");
    assert!(list[1].refs.is_empty());
}

#[test]
fn any_page_reads_as_title_text_and_links() {
    let html = "<article id='mainArticle'><h1>Latest Changes</h1><p>Some text.</p></article>";
    let p = page(html, "/folk/latestchanges.html", Source::MainlyNorfolk).unwrap();
    assert_eq!(p.path, "/folk/latestchanges.html");
    assert_eq!(p.title, "Latest Changes");
    // Text nodes are joined as they stand, as an element's text is.
    assert_eq!(p.text, "Latest ChangesSome text.");
    assert!(p.links.is_empty());
    assert_eq!(p.source, Source::MainlyNorfolk);

    let html = r##"<html><head><title>Essay</title></head><body><p>See <a href="songs/x.html">a song</a>,
<a href="https://www.waterwaysongs.info/Songs/A/a.htm">a canal song</a>,
<a href="https://mudcat.org/">elsewhere</a>, <a href="#top">top</a> and <a href="mailto:x@y">mail</a>.</p></body></html>"##;
    let p = page(html, "/folk/essay.html", Source::MainlyNorfolk).unwrap();
    assert_eq!(p.title, "Essay");
    let links: Vec<_> = p.links.iter().map(|l| (l.text.as_str(), l.url.as_str())).collect();
    assert_eq!(
        links,
        [
            ("a song", "/folk/songs/x.html"),
            ("a canal song", "https://www.waterwaysongs.info/Songs/A/a.htm"),
        ]
    );
}

#[test]
fn a_release_page_gives_the_release_its_fragment_names() {
    let html = r#"<html><body><article id="mainArticle"><h1>Red Rice</h1>
<p>Eliza Carthy: <cite><a href="redrice.html#red">Red</a></cite> CD, Topic TSCD 2001, 1998</p>
<p>Eliza Carthy: <cite><a href="redrice.html#rice">Rice</a></cite> CD, Topic TSCD 2002, 1998</p>
<ol><li><a href="../../eliza.carthy/songs/x.html">Greasy Coat</a> 3:42</li><li>Unlinked</li></ol>
</article></body></html>"#;
    let (a, tracks) = album(html, "/folk/records/redrice.html#rice").unwrap();
    assert_eq!(a.path, "/folk/records/redrice.html#rice");
    assert_eq!(a.title, "Rice");
    assert_eq!(a.catalogue_number.as_deref(), Some("TSCD 2002"));
    assert_eq!(a.source, Source::MainlyNorfolk);
    assert_eq!(tracks.len(), 2);
    assert_eq!(tracks[0].song_path.as_deref(), Some("/eliza.carthy/songs/x.html"));
    assert_eq!(tracks[0].title, "Greasy Coat 3:42");
    assert!(tracks[1].song_path.is_none());
    // No fragment: the page's first release.
    let (a, _) = album(html, "/folk/records/redrice.html").unwrap();
    assert_eq!(a.title, "Red");
    assert_eq!(a.path, "/folk/records/redrice.html");
    // A fragment the page does not document: the heading names the release.
    let (a, _) = album(html, "/folk/records/redrice.html#gone").unwrap();
    assert_eq!(a.title, "Red Rice");
    assert!(a.label.is_none());
}

#[test]
fn labels_come_from_the_navigation() {
    let html = r#"<html><body><nav id="mainNav"><div id="folk">
<a href="records/topic.html">Topic Discography: Records</a>
<a href="records/topic.html">Topic again</a>
<a href="/folk/records/fellside.html">Fellside</a>
<a href="records/">Records</a><a href="records/index.html">Index</a><a href="songs/">Songs</a>
</div></nav><article id="mainArticle"><a href="records/elsewhere.html">Not in the nav</a></article></body></html>"#;
    let list = labels(html);
    let got: Vec<_> = list.iter().map(|l| (l.id.as_str(), l.path.as_str(), l.name.as_str())).collect();
    assert_eq!(
        got,
        [
            ("topic", "/folk/records/topic.html", "Topic Discography: Records"),
            ("fellside", "/folk/records/fellside.html", "Fellside"),
        ]
    );
}
