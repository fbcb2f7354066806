use gatefold::catalog::{album_url, CatalogError};
use gatefold::lyrics::Request;
use gatefold::pathfinder::{album_query_variables, overview_query_variables, query_url};
use gatefold::search::{search_url, SearchError, SearchOptions, SearchType};
use gatefold::sources::lrclib_url;
use gatefold::urls::{callback, value_of, with_query};

#[test]
fn search_urls_encode_their_query() {
    let options = SearchOptions {
        types: vec![SearchType::Track, SearchType::Album],
        limit: 5,
        offset: 10,
        market: Some("SE".into()),
        include_external_audio: true,
    };
    assert_eq!(
        search_url("  abba gold  ", &options).unwrap(),
        "https://api.spotify.com/v1/search?q=abba+gold&type=track%2Calbum&limit=5&offset=10&market=SE&include_external=audio"
    );
    assert_eq!(search_url(" ", &options), Err(SearchError::EmptyQuery));
}

#[test]
fn lrclib_urls() {
    let request = Request {
        uri: "spotify:track:x".into(),
        title: "Hello World".into(),
        artists: vec!["Band & Co".into()],
        duration_ms: 181_900,
    };
    assert_eq!(
        lrclib_url(&request).unwrap().unwrap(),
        "https://lrclib.net/api/get?track_name=Hello+World&artist_name=Band+%26+Co&duration=181"
    );
    let untimed = Request {
        duration_ms: 0,
        ..request.clone()
    };
    assert_eq!(
        lrclib_url(&untimed).unwrap().unwrap(),
        "https://lrclib.net/api/get?track_name=Hello+World&artist_name=Band+%26+Co"
    );
    let nobody = Request {
        artists: Vec::new(),
        ..request
    };
    assert_eq!(lrclib_url(&nobody), Ok(None));
}

#[test]
fn album_urls() {
    assert_eq!(
        album_url("spotify:album:abc", "SE").unwrap(),
        "https://api.spotify.com/v1/albums/abc?market=SE"
    );
    assert_eq!(
        album_url("spotify:track:abc", "SE"),
        Err(CatalogError::InvalidUri {
            kind: "album".into()
        })
    );
}

#[test]
fn persisted_query_urls() {
    assert_eq!(
        overview_query_variables("spotify:artist:x"),
        r#"{"includePrerelease":true,"locale":"","uri":"spotify:artist:x"}"#
    );
    assert_eq!(
        album_query_variables("spotify:album:\"q\"", 50),
        r#"{"limit":50,"locale":"","offset":50,"uri":"spotify:album:\"q\""}"#
    );
    assert_eq!(
        query_url("getAlbum", "{}", "ab").unwrap(),
        "https://api-partner.spotify.com/pathfinder/v1/query?operationName=getAlbum&variables=%7B%7D&extensions=%7B%22persistedQuery%22%3A%7B%22sha256Hash%22%3A%22ab%22%2C%22version%22%3A1%7D%7D"
    );
}

#[test]
fn login_callbacks_carry_code_and_state() {
    assert_eq!(
        callback("GET /login?code=abc&state=x%20y HTTP/1.1"),
        Some(("abc".to_owned(), "x y".to_owned()))
    );
    assert_eq!(callback("GET /login?code=abc HTTP/1.1"), None);
    assert_eq!(callback("GET"), None);
    assert_eq!(callback(""), None);
}

#[test]
fn queries_built_and_read() {
    let pairs = vec![("a".to_owned(), "1 2".to_owned()), ("b".to_owned(), "ü".to_owned())];
    assert_eq!(
        with_query("https://example.org/x", &pairs).unwrap(),
        "https://example.org/x?a=1+2&b=%C3%BC"
    );
    assert!(with_query("not a url", &pairs).is_err());
    assert_eq!(value_of(&pairs, "b").as_deref(), Some("ü"));
    assert_eq!(value_of(&pairs, "c"), None);
}

#[test]
fn query_variables_escape_the_uri_as_json() {
    assert_eq!(
        overview_query_variables("a\\b\n\t\u{1}\u{1f}é"),
        "{\"includePrerelease\":true,\"locale\":\"\",\"uri\":\"a\\\\b\\n\\t\\u0001\\u001fé\"}"
    );
}
