use gatefold::metadata::{
    album_info, album_ref, artist_info, group_heads, largest_image, top_tracks, track_cover,
    track_info, MetaAlbum, MetaArtist, MetaArtistPage, MetaImage, MetaTrack,
};

fn img(width: i32, id: Option<&str>) -> MetaImage {
    MetaImage {
        width,
        id: id.map(|s| s.to_owned()),
    }
}

fn artist(uri: Option<&str>, name: &str) -> MetaArtist {
    MetaArtist {
        uri: uri.map(|s| s.to_owned()),
        name: name.into(),
    }
}

fn album(uri: Option<&str>) -> MetaAlbum {
    MetaAlbum {
        uri: uri.map(|s| s.to_owned()),
        name: "Record".into(),
        year: 1999,
        artists: vec![artist(Some("spotify:artist:1"), "A"), artist(None, "Ghost")],
        label: "Label".into(),
        copyrights: vec!["(c) 1999".into()],
        covers: Vec::new(),
        cover_group: vec![img(300, Some("aa")), img(640, Some("bb")), img(640, None)],
    }
}

#[test]
fn the_widest_image_wins_and_may_lack_an_id() {
    assert_eq!(largest_image(&vec![img(300, Some("aa")), img(640, Some("bb"))]).as_deref(), Some("bb"));
    assert_eq!(largest_image(&vec![img(640, Some("aa")), img(640, None)]), None);
    assert_eq!(largest_image(&Vec::new()), None);
}

#[test]
fn albums_need_a_uri_and_use_the_cover_group_without_covers() {
    let a = album(Some("spotify:album:1"));
    let r = album_ref(&a).unwrap();
    assert_eq!(r.year, 1999);
    assert_eq!(r.cover_id, None);
    assert_eq!(r.artists.len(), 1);
    let mut with_covers = a.clone();
    with_covers.covers = vec![img(64, Some("cc"))];
    assert_eq!(album_ref(&with_covers).unwrap().cover_id.as_deref(), Some("cc"));
    assert!(album_ref(&album(None)).is_none());
    let info = album_info(&with_covers, Vec::new()).unwrap();
    assert_eq!(info.label, "Label");
    assert_eq!(info.copyrights, vec!["(c) 1999".to_owned()]);
    assert!(album_info(&album(None), Vec::new()).is_none());
}

#[test]
fn tracks_clamp_negative_numbers() {
    let track = MetaTrack {
        uri: Some("spotify:track:1".into()),
        name: "Song".into(),
        artists: vec![artist(Some("spotify:artist:1"), "A")],
        number: -1,
        disc_number: 2,
        duration: 180_000,
        is_explicit: true,
        album_covers: vec![img(10, Some("dd"))],
        album_cover_group: Vec::new(),
    };
    let info = track_info(&track).unwrap();
    assert_eq!(info.number, 0);
    assert_eq!(info.disc, 2);
    assert_eq!(info.cover_id.as_deref(), Some("dd"));
    assert_eq!(info.plays, None);
    assert!(track_info(&MetaTrack { uri: None, ..track }).is_none());
}

#[test]
fn artists_from_metadata() {
    let page = MetaArtistPage {
        uri: Some("spotify:artist:9".into()),
        name: "Nine".into(),
        portraits: Vec::new(),
        portrait_group: vec![img(100, Some("ee"))],
        biographies: vec!["First".into(), "Second".into()],
        related: vec![artist(Some("spotify:artist:2"), "Two"), artist(None, "None")],
    };
    let info = artist_info(&page, Vec::new(), Vec::new(), Vec::new(), Vec::new()).unwrap();
    assert_eq!(info.portrait_id.as_deref(), Some("ee"));
    assert_eq!(info.biography.as_deref(), Some("First"));
    assert_eq!(info.related.len(), 1);
    assert_eq!(info.singles_total, 0);
}

#[test]
fn top_tracks_prefer_the_country_and_keep_ten() {
    let many: Vec<String> = (0..12).map(|i| format!("t{i}")).collect();
    let lists = vec![
        ("US".to_owned(), vec!["us1".to_owned()]),
        ("SE".to_owned(), many.clone()),
    ];
    assert_eq!(top_tracks(&lists, &"SE".to_owned()), many[..10].to_vec());
    assert_eq!(top_tracks(&lists, &"DE".to_owned()), vec!["us1".to_owned()]);
    assert!(top_tracks(&Vec::new(), &"DE".to_owned()).is_empty());
}

#[test]
fn group_heads_take_the_first_of_each_group() {
    let groups = vec![
        vec!["a1".to_owned(), "a2".to_owned()],
        Vec::new(),
        vec!["b1".to_owned()],
    ];
    assert_eq!(group_heads(&groups), vec!["a1".to_owned(), "b1".to_owned()]);
}

#[test]
fn a_tracks_cover_is_the_widest_of_both_lists() {
    let covers = vec![img(300, Some("a")), img(640, Some("b"))];
    let group = vec![img(640, Some("c")), img(100, Some("d"))];
    assert_eq!(track_cover(&covers, &group), Some(2));
    assert_eq!(track_cover(&Vec::new(), &Vec::new()), None);
}
