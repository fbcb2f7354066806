use gatefold::search::{largest_image, search_request, SearchError, SearchImage, SearchOptions, SearchType};
use gatefold::search_results::{
    playlist_page, search_audiobook, search_playlist, search_results, ApiAudiobook, ApiName,
    ApiOwner, ApiPage, ApiPlaylist, ApiResults, ApiTotal,
};

fn options(types: Vec<SearchType>, limit: u32, offset: u32) -> SearchOptions {
    SearchOptions {
        types,
        limit,
        offset,
        market: None,
        include_external_audio: false,
    }
}

fn image(url: &str, width: Option<u32>, height: Option<u32>) -> SearchImage {
    SearchImage {
        url: url.into(),
        width,
        height,
    }
}

#[test]
fn search_requests_carry_the_trimmed_query_and_options() {
    let mut opts = options(vec![SearchType::Track, SearchType::Album], 5, 10);
    opts.market = Some("SE".into());
    opts.include_external_audio = true;
    let params = search_request("  abba  ", &opts).unwrap();
    let expected: Vec<(String, String)> = [
        ("q", "abba"),
        ("type", "track,album"),
        ("limit", "5"),
        ("offset", "10"),
        ("market", "SE"),
        ("include_external", "audio"),
    ]
    .iter()
    .map(|(k, v)| (k.to_string(), v.to_string()))
    .collect();
    assert_eq!(params, expected);
}

#[test]
fn invalid_searches_are_refused_in_order() {
    let good = options(vec![SearchType::Artist], 10, 1000);
    assert_eq!(search_request("   ", &good).err(), Some(SearchError::EmptyQuery));
    assert_eq!(search_request("x", &options(Vec::new(), 1, 0)).err(), Some(SearchError::NoTypes));
    assert_eq!(
        search_request("x", &options(vec![SearchType::Show], 11, 0)).err(),
        Some(SearchError::LimitTooLarge)
    );
    assert_eq!(
        search_request("x", &options(vec![SearchType::Show], 1, 1001)).err(),
        Some(SearchError::OffsetTooLarge)
    );
    assert!(search_request("x", &good).is_ok());
    assert_eq!(SearchType::Audiobook.as_str(), "audiobook");
}

#[test]
fn the_largest_image_by_area_wins() {
    let images = vec![
        image("wide", Some(640), Some(10)),
        image("square", Some(300), Some(300)),
        image("unknown", None, Some(1000)),
        image("tie", Some(300), Some(300)),
    ];
    assert_eq!(largest_image(images).as_deref(), Some("tie"));
    assert_eq!(largest_image(Vec::new()), None);
}

fn playlist(name: &str) -> ApiPlaylist {
    ApiPlaylist {
        uri: format!("spotify:playlist:{name}"),
        name: name.into(),
        description: None,
        owner: ApiOwner {
            uri: "spotify:user:o".into(),
            display_name: None,
        },
        images: Vec::new(),
        items: None,
        tracks: Some(ApiTotal { total: 12 }),
        collaborative: false,
        public: Some(true),
    }
}

#[test]
fn playlist_results_fill_in_missing_fields() {
    let result = search_playlist(playlist("mix"));
    assert_eq!(result.description, "");
    assert_eq!(result.owner.name, "");
    assert_eq!(result.total_tracks, 12);
    assert_eq!(result.picture, None);
    let page = playlist_page(ApiPage {
        href: "h".into(),
        items: vec![Some(playlist("a")), None, Some(playlist("b"))],
        total: 3,
        limit: 3,
        offset: 0,
        next: None,
        previous: None,
    });
    assert_eq!(page.items.len(), 2);
    assert_eq!(page.items[1].name, "b");
    assert_eq!(page.total, 3);
}

#[test]
fn audiobooks_list_people_by_name() {
    let book = ApiAudiobook {
        uri: "spotify:audiobook:1".into(),
        name: "Book".into(),
        authors: vec![ApiName { name: "Ann".into() }, ApiName { name: "Bo".into() }],
        narrators: vec![ApiName { name: "Cy".into() }],
        description: String::new(),
        edition: String::new(),
        images: vec![image("cover", Some(1), Some(1))],
        total_chapters: 9,
        explicit: false,
        media_type: "audio".into(),
        languages: vec!["en".into()],
        publisher: "P".into(),
    };
    let result = search_audiobook(book);
    assert_eq!(result.authors, vec!["Ann".to_owned(), "Bo".to_owned()]);
    assert_eq!(result.narrators, vec!["Cy".to_owned()]);
    assert_eq!(result.picture.as_deref(), Some("cover"));
}

#[test]
fn results_keep_the_kinds_asked_for() {
    let results = search_results(ApiResults {
        albums: None,
        artists: None,
        playlists: Some(ApiPage {
            href: "h".into(),
            items: vec![None],
            total: 1,
            limit: 1,
            offset: 0,
            next: Some("n".into()),
            previous: None,
        }),
        tracks: None,
        shows: None,
        episodes: None,
        audiobooks: None,
    });
    assert!(results.albums.is_none());
    let playlists = results.playlists.unwrap();
    assert!(playlists.items.is_empty());
    assert_eq!(playlists.next.as_deref(), Some("n"));
}

#[test]
fn refused_searches_say_why() {
    assert_eq!(SearchError::EmptyQuery.message(), "search query cannot be empty");
    assert_eq!(SearchError::NoTypes.message(), "search must request at least one result type");
    assert_eq!(SearchError::LimitTooLarge.message(), "search limit cannot exceed 10");
    assert_eq!(SearchError::OffsetTooLarge.message(), "search offset cannot exceed 1000");
}
