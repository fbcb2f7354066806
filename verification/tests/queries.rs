use gatefold::queries::{bundle, parse};

const HASH_A: &str = "0123456789abcdef0123456789abcdef0123456789abcdef0123456789abcdef";
const HASH_B: &str = "ABCDEF0123456789ABCDEF0123456789ABCDEF0123456789ABCDEF0123456789";

#[test]
fn persisted_queries_are_read_from_the_bundle() {
    let script = format!(
        r#"x("getAlbum","query","{HASH_A}"),y("queryArtistOverview","query","{HASH_B}"),z("short","query","abc"),w("","query","{HASH_A}")"#
    );
    let mut found = parse(&script);
    found.sort();
    assert_eq!(
        found,
        vec![
            ("getAlbum".to_owned(), HASH_A.to_owned()),
            ("queryArtistOverview".to_owned(), HASH_B.to_owned()),
        ]
    );
}

#[test]
fn a_later_registration_replaces_an_earlier_one() {
    let script = format!(r#""op","query","{HASH_A}";"op","query","{HASH_B}""#);
    assert_eq!(parse(&script), vec![("op".to_owned(), HASH_B.to_owned())]);
    assert!(parse("nothing here").is_empty());
}

#[test]
fn the_bundle_url_is_found_in_the_page() {
    let page = r#"<link href="https://open.spotifycdn.com/cdn/build/web-player/vendor.js"><script src="https://open.spotifycdn.com/cdn/build/web-player/web-player.8a7b6c.js"></script>"#;
    assert_eq!(
        bundle(page).as_deref(),
        Some("https://open.spotifycdn.com/cdn/build/web-player/web-player.8a7b6c.js")
    );
    assert_eq!(bundle("<html>no scripts</html>"), None);
    assert_eq!(bundle(r#"https://x/web-player/web-player.css""#), None);
}
