use gatefold::pathfinder::{
    album_plays_page, apply_plays, overview, profile, query_outcome, take_data, Json,
    OverviewError, QueryOutcome,
};
use gatefold::model::TrackInfo;

fn s(text: &str) -> Json {
    Json::Str(text.into())
}

fn n(value: u64) -> Json {
    Json::Number {
        as_u64: Some(value),
        as_i64: Some(value as i64),
    }
}

fn obj(entries: Vec<(&str, Json)>) -> Json {
    Json::Object(entries.into_iter().map(|(k, v)| (k.to_owned(), v)).collect())
}

fn items(values: Vec<Json>) -> Json {
    obj(vec![("items", Json::Array(values))])
}

fn image(url: &str) -> Json {
    obj(vec![("sources", Json::Array(vec![obj(vec![("url", s(url))])]))])
}

fn release(uri: &str, name: &str, year: u64) -> Json {
    obj(vec![(
        "releases",
        items(vec![obj(vec![
            ("uri", s(uri)),
            ("name", s(name)),
            ("date", obj(vec![("year", n(year))])),
            ("coverArt", image("https://cover")),
        ])]),
    )])
}

fn artist_data() -> Json {
    obj(vec![(
        "artistUnion",
        obj(vec![
            (
                "profile",
                obj(vec![
                    ("name", s("Band")),
                    ("biography", obj(vec![("text", s(""))])),
                ]),
            ),
            (
                "visuals",
                obj(vec![
                    ("avatarImage", image("https://avatar")),
                    ("headerImage", image("https://header")),
                    ("gallery", items(Vec::new())),
                ]),
            ),
            ("stats", obj(vec![("monthlyListeners", n(1234))])),
            (
                "discography",
                obj(vec![
                    (
                        "topTracks",
                        items(vec![obj(vec![(
                            "track",
                            obj(vec![
                                ("uri", s("spotify:track:1")),
                                ("name", s("Hit")),
                                ("playcount", s("987654321")),
                                ("discNumber", n(2)),
                                ("duration", obj(vec![("totalMilliseconds", n(200_000))])),
                                ("contentRating", obj(vec![("label", s("EXPLICIT"))])),
                                (
                                    "artists",
                                    items(vec![obj(vec![
                                        ("uri", s("spotify:artist:1")),
                                        ("profile", obj(vec![("name", s("Band"))])),
                                    ])]),
                                ),
                            ]),
                        )])]),
                    ),
                    ("albums", items(vec![release("spotify:album:1", "First", 2001)])),
                    (
                        "singles",
                        obj(vec![
                            ("items", Json::Array(vec![release("spotify:album:2", "One", 2003)])),
                            ("totalCount", n(7)),
                        ]),
                    ),
                ]),
            ),
            (
                "relatedContent",
                obj(vec![(
                    "relatedArtists",
                    items(vec![
                        obj(vec![
                            ("uri", s("spotify:artist:2")),
                            ("profile", obj(vec![("name", s("Friends"))])),
                        ]),
                        obj(vec![("uri", s("spotify:artist:3"))]),
                    ]),
                )]),
            ),
        ]),
    )])
}

#[test]
fn artist_overviews_become_artist_info() {
    let info = overview("spotify:artist:0", &artist_data()).unwrap();
    assert_eq!(info.uri, "spotify:artist:0");
    assert_eq!(info.name, "Band");
    assert_eq!(info.portrait_id.as_deref(), Some("https://avatar"));
    assert_eq!(info.banner.as_deref(), Some("https://header"));
    assert_eq!(info.biography, None);
    assert_eq!(info.monthly_listeners, Some(1234));
    assert_eq!(info.top_tracks.len(), 1);
    let hit = &info.top_tracks[0];
    assert_eq!(hit.plays, Some(987_654_321));
    assert_eq!(hit.disc, 2);
    assert_eq!(hit.number, 0);
    assert_eq!(hit.duration_ms, 200_000);
    assert!(hit.is_explicit);
    assert_eq!(hit.artists.len(), 1);
    assert_eq!(info.albums.len(), 1);
    assert_eq!(info.albums[0].year, 2001);
    assert_eq!(info.albums[0].cover_id.as_deref(), Some("https://cover"));
    assert_eq!(info.singles.len(), 1);
    assert_eq!(info.singles_total, 7);
    assert!(info.compilations.is_empty());
    assert_eq!(info.related.len(), 1);
    assert_eq!(info.related[0].name, "Friends");
}

#[test]
fn an_overview_without_a_name_is_refused() {
    assert!(matches!(
        overview("spotify:artist:0", &obj(Vec::new())),
        Err(OverviewError::Nameless)
    ));
}

fn album_page_data(tracks_key: &str, plays: Vec<(&str, Json)>, total: Option<u64>) -> Json {
    let list: Vec<Json> = plays
        .into_iter()
        .map(|(uri, count)| obj(vec![("track", obj(vec![("uri", s(uri)), ("playcount", count)]))]))
        .collect();
    let mut tracks = vec![("items", Json::Array(list))];
    if let Some(t) = total {
        tracks.push(("totalCount", n(t)));
    }
    obj(vec![("albumUnion", obj(vec![(tracks_key, obj(tracks))]))])
}

#[test]
fn album_plays_page_by_page() {
    let data = album_page_data("tracksV2", vec![("a", n(5)), ("b", s("12")), ("c", Json::Null)], Some(5));
    let (plays, next) = album_plays_page(&data, 0);
    assert_eq!(plays, vec![("a".to_owned(), 5), ("b".to_owned(), 12)]);
    assert_eq!(next, Some(3));
    let last = album_page_data("tracks", vec![("d", n(1)), ("e", n(2))], Some(5));
    assert_eq!(album_plays_page(&last, 3).1, None);
    let empty = album_page_data("tracks", Vec::new(), None);
    assert_eq!(album_plays_page(&empty, 7), (Vec::new(), None));
}

#[test]
fn plays_are_given_to_tracks_by_uri() {
    let track = |uri: &str| TrackInfo {
        uri: uri.into(),
        name: uri.into(),
        artists: Vec::new(),
        cover_id: None,
        number: 1,
        disc: 1,
        duration_ms: 1,
        is_explicit: false,
        plays: Some(99),
    };
    let mut tracks = vec![track("a"), track("b")];
    apply_plays(&mut tracks, &vec![("a".to_owned(), 1), ("a".to_owned(), 2)]);
    assert_eq!(tracks[0].plays, Some(2));
    assert_eq!(tracks[1].plays, None);
}

#[test]
fn stale_hashes_are_refreshed_once() {
    let stale = obj(vec![(
        "errors",
        Json::Array(vec![obj(vec![("message", s("PersistedQueryNotFound"))])]),
    )]);
    assert_eq!(query_outcome(&stale, false), QueryOutcome::Stale);
    assert_eq!(query_outcome(&stale, true), QueryOutcome::Failed);
    let nulled = obj(vec![("errors", Json::Null), ("data", n(1))]);
    assert_eq!(query_outcome(&nulled, false), QueryOutcome::Failed);
    let fine = obj(vec![("data", s("payload"))]);
    assert_eq!(query_outcome(&fine, false), QueryOutcome::Data);
    assert!(matches!(take_data(fine), Json::Str(text) if text == "payload"));
    assert!(matches!(take_data(Json::Bool(true)), Json::Null));
}

#[test]
fn profiles_fall_back_to_the_username() {
    let named = obj(vec![("name", s("Display")), ("image_url", s("https://me"))]);
    let p = profile("user", &named);
    assert_eq!(p.name, "Display");
    assert_eq!(p.avatar.as_deref(), Some("https://me"));
    let bare = profile("user", &obj(Vec::new()));
    assert_eq!(bare.name, "user");
    assert_eq!(bare.avatar, None);
}

#[test]
fn a_nameless_overview_says_so() {
    assert_eq!(OverviewError::Nameless.message(), "artist overview without a name");
}
