use gatefold::local_search::{rank_scores, ranked_indices, SearchDocument};
use gatefold::model::{AlbumRef, ArtistRef, TrackInfo};

#[test]
fn words_match_in_any_order_and_ignore_accents() {
    let items = [
        "Happier Than Ever Billie Eilish 2021",
        "Renaissance Beyoncé 2022",
    ];
    assert_eq!(ranked_indices(&items, "eilish happier"), vec![0]);
    assert_eq!(ranked_indices(&items, "beyonce"), vec![1]);
}

#[test]
fn scattered_letters_do_not_match() {
    let items = ["Blood on the Dance Floor"];
    assert!(ranked_indices(&items, "bad").is_empty());
}

#[test]
fn ranks_stronger_matches_first() {
    let items = [
        "Bury a Friend Billie Eilish",
        "Bad Guy Billie Eilish",
        "Blue Billie Eilish",
    ];
    let matches = ranked_indices(&items, "bad guy");
    assert_eq!(matches.first(), Some(&1));
}

#[test]
fn empty_query_preserves_source_order() {
    let items = ["Third", "First", "Second"];
    assert_eq!(ranked_indices(&items, "  "), vec![0, 1, 2]);
}

#[test]
fn documents_of_tracks_and_albums() {
    let artist = ArtistRef {
        uri: "spotify:artist:1".into(),
        name: "Billie Eilish".into(),
    };
    let track = TrackInfo {
        uri: "spotify:track:1".into(),
        name: "Bad Guy".into(),
        artists: vec![artist.clone()],
        cover_id: None,
        number: 1,
        disc: 1,
        duration_ms: 194_000,
        is_explicit: false,
        plays: None,
    };
    assert_eq!(track.search_document(), "Bad Guy Billie Eilish");
    let album = AlbumRef {
        uri: "spotify:album:1".into(),
        name: "When We All Fall Asleep".into(),
        year: 2019,
        cover_id: None,
        artists: vec![artist],
    };
    assert_eq!(album.search_document(), "When We All Fall Asleep Billie Eilish 2019");
    assert_eq!(ranked_indices(&[album], "2019"), vec![0]);
}

#[test]
fn scores_rank_highest_first_ties_in_order() {
    let scores = vec![Some(10), None, Some(30), Some(10), Some(30)];
    assert_eq!(rank_scores(&scores), vec![2, 4, 0, 3]);
    assert!(rank_scores(&vec![None, None]).is_empty());
}
