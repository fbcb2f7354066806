use gatefold::catalog::{
    album_info, artist_ref, largest_image, spotify_id, year, ApiAlbum, ApiArtist, ApiCopyright, ApiImage,
    ApiPage, ApiTrack, CatalogError,
};

fn image(url: &str, width: Option<u32>) -> ApiImage {
    ApiImage {
        url: url.to_owned(),
        width,
    }
}

#[test]
fn parses_documented_simplified_album() {
    let album = ApiAlbum {
        uri: "spotify:album:one".into(),
        name: "Album".into(),
        release_date: "2026-08-28".into(),
        artists: vec![ApiArtist {
            uri: "spotify:artist:one".into(),
            name: "Artist".into(),
        }],
        images: vec![image("small", Some(64)), image("large", Some(640))],
        label: None,
        copyrights: Vec::new(),
        tracks: None,
    };
    assert_eq!(year(&album.release_date), 2026);
    assert_eq!(largest_image(&album.images).as_deref(), Some("large"));
}

#[test]
fn extracts_typed_spotify_id() {
    assert_eq!(spotify_id("spotify:artist:abc", "artist").expect("id"), "abc");
    assert!(spotify_id("spotify:album:abc", "artist").is_err());
}

#[test]
fn spotify_id_refusals_name_the_kind() {
    assert_eq!(
        spotify_id("spotify:artist:", "artist"),
        Err(CatalogError::InvalidUri {
            kind: "artist".into()
        })
    );
    assert!(spotify_id("spotify:artist:a:b", "artist").is_err());
    assert!(spotify_id("artist:abc", "artist").is_err());
}

#[test]
fn years_of_partial_and_odd_dates() {
    assert_eq!(year("1999"), 1999);
    assert_eq!(year("2001-05"), 2001);
    assert_eq!(year(""), 0);
    assert_eq!(year("abcd-01-01"), 0);
}

#[test]
fn largest_image_takes_the_last_of_equal_widths() {
    let images = vec![image("a", Some(300)), image("b", None), image("c", Some(300))];
    assert_eq!(largest_image(&images).as_deref(), Some("c"));
    assert_eq!(largest_image(&[]), None);
}

fn track(uri: &str, number: u32) -> ApiTrack {
    ApiTrack {
        uri: uri.into(),
        name: uri.into(),
        artists: vec![ApiArtist {
            uri: "spotify:artist:x".into(),
            name: "X".into(),
        }],
        track_number: number,
        disc_number: 1,
        duration_ms: 1000,
        explicit: false,
    }
}

#[test]
fn album_info_joins_pages_and_refuses_a_missing_first_page() {
    let album = ApiAlbum {
        uri: "spotify:album:a".into(),
        name: "A".into(),
        release_date: "2010-01-01".into(),
        artists: Vec::new(),
        images: vec![image("cover", Some(10))],
        label: Some("Label".into()),
        copyrights: vec![ApiCopyright { text: "(c) someone".into() }],
        tracks: Some(ApiPage {
            items: vec![track("spotify:track:1", 1)],
            next: Some("more".into()),
        }),
    };
    let info = album_info(album.clone(), vec![track("spotify:track:2", 2)]).unwrap();
    assert_eq!(info.tracks.len(), 2);
    assert_eq!(info.year, 2010);
    assert_eq!(info.label, "Label");
    assert_eq!(info.cover_id.as_deref(), Some("cover"));
    assert_eq!(info.tracks[1].cover_id.as_deref(), Some("cover"));
    let bare = ApiAlbum {
        tracks: None,
        ..album
    };
    assert_eq!(album_info(bare, Vec::new()).err(), Some(CatalogError::MissingTracks));
}

#[test]
fn an_artist_reference_keeps_uri_and_name() {
    let r = artist_ref(ApiArtist {
        uri: "spotify:artist:two".into(),
        name: "Two".into(),
    });
    assert_eq!(r.uri, "spotify:artist:two");
    assert_eq!(r.name, "Two");
}

#[test]
fn a_wrong_uri_is_reported_with_its_kind() {
    let error = spotify_id("spotify:album:abc", "artist").unwrap_err();
    assert_eq!(error.message(), "invalid Spotify artist uri");
    assert_eq!(CatalogError::MissingTracks.message(), "album response without tracks");
}
