use gatefold::display::{
    biography, clock, is_album, is_album_uri, latest_release, release_heading, skeleton_rows, mixed_artists, names, next_from,
    playlist_summary, release_label, same_queue, score, score_lowered, span_at, strip_tags,
};
use gatefold::model::{AlbumRef, ArtistRef, TrackInfo};

fn album(uri: &str, name: &str, year: i32, cover: Option<&str>) -> AlbumRef {
    AlbumRef {
        uri: uri.into(),
        name: name.into(),
        year,
        cover_id: cover.map(|c| c.to_owned()),
        artists: Vec::new(),
    }
}

#[test]
fn clocks_show_minutes_and_two_digit_seconds() {
    assert_eq!(clock(0), "0:00");
    assert_eq!(clock(61_999), "1:01");
    assert_eq!(clock(3_725_000), "62:05");
}

#[test]
fn queue_headings() {
    assert_eq!(next_from(""), "Next up");
    assert_eq!(next_from("Road trip"), "Next from Road trip");
}

#[test]
fn queues_match_as_multisets() {
    let a: Vec<String> = vec!["x".into(), "y".into(), "x".into()];
    let b: Vec<String> = vec!["x".into(), "x".into(), "y".into()];
    let c: Vec<String> = vec!["x".into(), "y".into(), "y".into()];
    assert!(same_queue(&a, &b));
    assert!(!same_queue(&a, &c));
    assert!(!same_queue(&a, &vec!["x".into()]));
}

#[test]
fn artist_names_join_with_commas() {
    let artists = vec![
        ArtistRef {
            uri: String::new(),
            name: "A".into(),
        },
        ArtistRef {
            uri: "u".into(),
            name: "B".into(),
        },
    ];
    assert_eq!(names(&artists), "A, B");
    assert_eq!(names(&Vec::new()), "");
}

#[test]
fn biographies_split_into_blurb_and_credit() {
    assert_eq!(strip_tags("a <b>bold</b> move"), "a bold move");
    let (blurb, credit) = biography("First <a href=\"x\">line</a>\nSecond line ~ Someone");
    assert_eq!(blurb, "First line");
    assert_eq!(credit, "Notes by Someone");
    let (blurb, credit) = biography("Only text");
    assert_eq!(blurb, "Only text");
    assert_eq!(credit, "");
}

#[test]
fn the_latest_release_is_the_last_of_the_newest() {
    let albums = vec![album("a1", "Old", 2001, None), album("a2", "New", 2020, None)];
    let singles = vec![album("s1", "Single", 2020, None), album("s2", "Older", 1999, None)];
    assert_eq!(latest_release(&albums, &singles), Some(2));
    assert_eq!(latest_release(&Vec::new(), &Vec::new()), None);
    assert!(is_album(&albums, &"a2".to_owned()));
    assert!(!is_album(&albums, &"s1".to_owned()));
}

#[test]
fn top_tracks_show_their_release() {
    let albums = vec![album("a1", "Record", 2001, Some("c1"))];
    let singles = vec![album("s1", "Hit", 2002, Some("c2"))];
    assert_eq!(release_label(&albums, &singles, &Some("c1".into()), "Song"), "Record");
    assert_eq!(release_label(&albums, &singles, &Some("c2".into()), "Hit"), "Single");
    assert_eq!(release_label(&albums, &singles, &None, "Song"), "Single");
    assert_eq!(release_label(&albums, &singles, &Some("zz".into()), "Song"), "Single");
}

#[test]
fn spans_hold_indices() {
    let spans = vec![(0, 5), (5, 9), (12, 20)];
    assert_eq!(span_at(&spans, 5), Some(1));
    assert_eq!(span_at(&spans, 10), None);
}

#[test]
fn names_score_by_how_they_match() {
    assert_eq!(score("ABBA", "abba"), 60);
    assert_eq!(score("Abbacadabra", "abba"), 40);
    assert_eq!(score("The ABBA Story", "abba"), 20);
    assert_eq!(score("Queen", "abba"), 0);
    assert_eq!(score_lowered("Queen", "queen"), 0);
}

fn track(artist: Option<&str>, duration_ms: u32) -> TrackInfo {
    TrackInfo {
        uri: "spotify:track:x".into(),
        name: "x".into(),
        artists: artist
            .map(|a| {
                vec![ArtistRef {
                    uri: String::new(),
                    name: a.into(),
                }]
            })
            .unwrap_or_default(),
        cover_id: None,
        number: 1,
        disc: 1,
        duration_ms,
        is_explicit: false,
        plays: None,
    }
}

#[test]
fn playlist_headers_count_songs_and_minutes() {
    let tracks = vec![track(Some("A"), 200_000), track(Some("A"), 100_000), track(None, 59_999)];
    assert_eq!(playlist_summary(&tracks), " · 3 songs · 5 min");
    assert_eq!(playlist_summary(&Vec::new()), " · 0 songs · 0 min");
}

#[test]
fn mixed_artists_compare_first_artists() {
    assert!(!mixed_artists(&vec![track(Some("A"), 1), track(Some("A"), 2)]));
    assert!(mixed_artists(&vec![track(Some("A"), 1), track(Some("B"), 2)]));
    assert!(mixed_artists(&vec![track(Some("A"), 1), track(None, 2)]));
    assert!(!mixed_artists(&Vec::new()));
}

#[test]
fn playlist_pages_tell_albums_from_playlists() {
    assert!(is_album_uri("spotify:album:abc"));
    assert!(!is_album_uri("spotify:playlist:abc"));
    assert!(!is_album_uri("spotify:album"));
    assert_eq!(release_heading(true, Some("Billie Eilish")), "Album by Billie Eilish");
    assert_eq!(release_heading(false, Some("me")), "Playlist by me");
    assert_eq!(release_heading(false, None), "Playlist by \u{2026}");
    assert_eq!(skeleton_rows(0), 1);
    assert_eq!(skeleton_rows(5), 5);
    assert_eq!(skeleton_rows(40), 12);
}
