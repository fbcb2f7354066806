use crate::model::ArtistRef;
use crate::search::{largest_image, spec_largest_image, SearchImage};
use vstd::prelude::*;

verus! {

/// An artist as a search result lists it.
#[derive(Debug, Clone)]
pub struct ApiArtistRef {
    pub uri: String,
    pub name: String,
}

#[derive(Debug, Clone)]
pub struct ApiAlbum {
    pub uri: String,
    pub name: String,
    pub artists: Vec<ApiArtistRef>,
    pub images: Vec<SearchImage>,
    pub release_date: String,
    pub total_tracks: u32,
    pub album_type: String,
}

#[derive(Debug, Clone)]
pub struct ApiFollowers {
    pub total: u64,
}

#[derive(Debug, Clone)]
pub struct ApiArtist {
    pub uri: String,
    pub name: String,
    pub images: Vec<SearchImage>,
    pub followers: Option<ApiFollowers>,
    pub popularity: u32,
    pub genres: Vec<String>,
}

#[derive(Debug, Clone)]
pub struct ApiOwner {
    pub uri: String,
    pub display_name: Option<String>,
}

#[derive(Debug, Clone)]
pub struct ApiTotal {
    pub total: u32,
}

#[derive(Debug, Clone)]
pub struct ApiPlaylist {
    pub uri: String,
    pub name: String,
    pub description: Option<String>,
    pub owner: ApiOwner,
    pub images: Vec<SearchImage>,
    pub items: Option<ApiTotal>,
    pub tracks: Option<ApiTotal>,
    pub collaborative: bool,
    pub public: Option<bool>,
}

#[derive(Debug, Clone)]
pub struct ApiTrack {
    pub uri: String,
    pub name: String,
    pub artists: Vec<ApiArtistRef>,
    pub album: ApiAlbum,
    pub duration_ms: u32,
    pub explicit: bool,
    pub is_playable: Option<bool>,
    pub popularity: u32,
    pub disc_number: u32,
    pub track_number: u32,
}

#[derive(Debug, Clone)]
pub struct ApiShow {
    pub uri: String,
    pub name: String,
    pub publisher: String,
    pub description: String,
    pub images: Vec<SearchImage>,
    pub total_episodes: u32,
    pub explicit: bool,
    pub media_type: String,
    pub languages: Vec<String>,
}

#[derive(Debug, Clone)]
pub struct ApiEpisode {
    pub uri: String,
    pub name: String,
    pub description: String,
    pub images: Vec<SearchImage>,
    pub duration_ms: u32,
    pub release_date: String,
    pub explicit: bool,
    pub is_playable: Option<bool>,
    pub languages: Vec<String>,
    pub audio_preview_url: Option<String>,
}

#[derive(Debug, Clone)]
pub struct ApiName {
    pub name: String,
}

#[derive(Debug, Clone)]
pub struct ApiAudiobook {
    pub uri: String,
    pub name: String,
    pub authors: Vec<ApiName>,
    pub narrators: Vec<ApiName>,
    pub description: String,
    pub edition: String,
    pub images: Vec<SearchImage>,
    pub total_chapters: u32,
    pub explicit: bool,
    pub media_type: String,
    pub languages: Vec<String>,
    pub publisher: String,
}

/// One page of results of one kind, as the Web API sends it.
#[derive(Debug, Clone)]
pub struct ApiPage<T> {
    pub href: String,
    pub items: Vec<T>,
    pub total: u32,
    pub limit: u32,
    pub offset: u32,
    pub next: Option<String>,
    pub previous: Option<String>,
}

/// What a search answers, per kind that was asked for.
#[derive(Debug, Clone)]
pub struct ApiResults {
    pub albums: Option<ApiPage<ApiAlbum>>,
    pub artists: Option<ApiPage<ApiArtist>>,
    pub playlists: Option<ApiPage<Option<ApiPlaylist>>>,
    pub tracks: Option<ApiPage<ApiTrack>>,
    pub shows: Option<ApiPage<ApiShow>>,
    pub episodes: Option<ApiPage<ApiEpisode>>,
    pub audiobooks: Option<ApiPage<ApiAudiobook>>,
}

#[derive(Debug, Clone)]
pub struct SearchAlbum {
    pub uri: String,
    pub name: String,
    pub artists: Vec<ArtistRef>,
    pub cover: Option<String>,
    pub release_date: String,
    pub total_tracks: u32,
    pub album_type: String,
}

#[derive(Debug, Clone)]
pub struct SearchArtist {
    pub uri: String,
    pub name: String,
    pub portrait: Option<String>,
    pub followers: u64,
    pub popularity: u32,
    pub genres: Vec<String>,
}

#[derive(Debug, Clone)]
pub struct SearchOwner {
    pub uri: String,
    pub name: String,
}

#[derive(Debug, Clone)]
pub struct SearchPlaylist {
    pub uri: String,
    pub name: String,
    pub description: String,
    pub owner: SearchOwner,
    pub picture: Option<String>,
    pub total_tracks: u32,
    pub collaborative: bool,
    pub public: Option<bool>,
}

#[derive(Debug, Clone)]
pub struct SearchTrack {
    pub uri: String,
    pub name: String,
    pub artists: Vec<ArtistRef>,
    pub album: SearchAlbum,
    pub duration_ms: u32,
    pub is_explicit: bool,
    pub is_playable: Option<bool>,
    pub popularity: u32,
    pub disc: u32,
    pub number: u32,
}

#[derive(Debug, Clone)]
pub struct SearchShow {
    pub uri: String,
    pub name: String,
    pub publisher: String,
    pub description: String,
    pub picture: Option<String>,
    pub total_episodes: u32,
    pub is_explicit: bool,
    pub media_type: String,
    pub languages: Vec<String>,
}

#[derive(Debug, Clone)]
pub struct SearchEpisode {
    pub uri: String,
    pub name: String,
    pub description: String,
    pub picture: Option<String>,
    pub duration_ms: u32,
    pub release_date: String,
    pub is_explicit: bool,
    pub is_playable: Option<bool>,
    pub languages: Vec<String>,
    pub audio_preview_url: Option<String>,
}

#[derive(Debug, Clone)]
pub struct SearchAudiobook {
    pub uri: String,
    pub name: String,
    pub authors: Vec<String>,
    pub narrators: Vec<String>,
    pub description: String,
    pub edition: String,
    pub picture: Option<String>,
    pub total_chapters: u32,
    pub is_explicit: bool,
    pub media_type: String,
    pub languages: Vec<String>,
    pub publisher: String,
}

/// One page of results of one kind.
#[derive(Debug, Clone)]
pub struct SearchPage<T> {
    pub href: String,
    pub items: Vec<T>,
    pub total: u32,
    pub limit: u32,
    pub offset: u32,
    pub next: Option<String>,
    pub previous: Option<String>,
}

/// The results of a search, per kind that was asked for.
#[derive(Debug, Clone)]
pub struct SearchResults {
    pub albums: Option<SearchPage<SearchAlbum>>,
    pub artists: Option<SearchPage<SearchArtist>>,
    pub playlists: Option<SearchPage<SearchPlaylist>>,
    pub tracks: Option<SearchPage<SearchTrack>>,
    pub shows: Option<SearchPage<SearchShow>>,
    pub episodes: Option<SearchPage<SearchEpisode>>,
    pub audiobooks: Option<SearchPage<SearchAudiobook>>,
}

pub open spec fn artist_of(a: ApiArtistRef) -> ArtistRef {
    ArtistRef { uri: a.uri, name: a.name }
}

pub open spec fn artists_of(s: Seq<ApiArtistRef>) -> Seq<ArtistRef> {
    s.map_values(|a: ApiArtistRef| artist_of(a))
}

fn artist_refs(artists: Vec<ApiArtistRef>) -> (r: Vec<ArtistRef>)
    ensures
        r@ == artists_of(artists@),
{
    let mut out: Vec<ArtistRef> = Vec::new();
    let n = artists.len();
    for i in 0..n
        invariant
            n == artists@.len(),
            out@ == artists_of(artists@.take(i as int)),
    {
        let a = &artists[i];
        out.push(ArtistRef { uri: a.uri.clone(), name: a.name.clone() });
        assert(artists_of(artists@.take(i + 1)) =~= artists_of(artists@.take(i as int)).push(
            artist_of(artists@[i as int]),
        ));
    }
    assert(artists@.take(n as int) =~= artists@);
    out
}

/// An album result: its cover is its largest image.
pub open spec fn album_converted(api: ApiAlbum, r: SearchAlbum) -> bool {
    &&& r.uri == api.uri
    &&& r.name == api.name
    &&& r.artists@ == artists_of(api.artists@)
    &&& spec_largest_image(api.images@, r.cover)
    &&& r.release_date == api.release_date
    &&& r.total_tracks == api.total_tracks
    &&& r.album_type == api.album_type
}

pub fn search_album(api: ApiAlbum) -> (r: SearchAlbum)
    ensures
        album_converted(api, r),
{
    SearchAlbum {
        uri: api.uri,
        name: api.name,
        artists: artist_refs(api.artists),
        cover: largest_image(api.images),
        release_date: api.release_date,
        total_tracks: api.total_tracks,
        album_type: api.album_type,
    }
}

/// An artist result: its portrait is its largest image; unknown followers count 0.
pub open spec fn artist_converted(api: ApiArtist, r: SearchArtist) -> bool {
    &&& r.uri == api.uri
    &&& r.name == api.name
    &&& spec_largest_image(api.images@, r.portrait)
    &&& r.followers == match api.followers {
        Some(f) => f.total,
        None => 0,
    }
    &&& r.popularity == api.popularity
    &&& r.genres == api.genres
}

pub fn search_artist(api: ApiArtist) -> (r: SearchArtist)
    ensures
        artist_converted(api, r),
{
    SearchArtist {
        uri: api.uri,
        name: api.name,
        portrait: largest_image(api.images),
        followers: match api.followers {
            Some(f) => f.total,
            None => 0,
        },
        popularity: api.popularity,
        genres: api.genres,
    }
}

/// A playlist result: a missing description or owner name reads as empty; the track
/// count comes from `items`, else `tracks`, else 0.
pub open spec fn playlist_converted(api: ApiPlaylist, r: SearchPlaylist) -> bool {
    &&& r.uri == api.uri
    &&& r.name == api.name
    &&& r.description@ == match api.description {
        Some(d) => d@,
        None => Seq::empty(),
    }
    &&& r.owner.uri == api.owner.uri
    &&& r.owner.name@ == match api.owner.display_name {
        Some(n) => n@,
        None => Seq::empty(),
    }
    &&& spec_largest_image(api.images@, r.picture)
    &&& r.total_tracks == match api.items {
        Some(t) => t.total,
        None => match api.tracks {
            Some(t) => t.total,
            None => 0,
        },
    }
    &&& r.collaborative == api.collaborative
    &&& r.public == api.public
}

pub fn search_playlist(api: ApiPlaylist) -> (r: SearchPlaylist)
    ensures
        playlist_converted(api, r),
{
    SearchPlaylist {
        uri: api.uri,
        name: api.name,
        description: match api.description {
            Some(d) => d,
            None => String::new(),
        },
        owner: SearchOwner {
            uri: api.owner.uri,
            name: match api.owner.display_name {
                Some(n) => n,
                None => String::new(),
            },
        },
        picture: largest_image(api.images),
        total_tracks: match api.items {
            Some(t) => t.total,
            None => match api.tracks {
                Some(t) => t.total,
                None => 0,
            },
        },
        collaborative: api.collaborative,
        public: api.public,
    }
}

pub open spec fn track_converted(api: ApiTrack, r: SearchTrack) -> bool {
    &&& r.uri == api.uri
    &&& r.name == api.name
    &&& r.artists@ == artists_of(api.artists@)
    &&& album_converted(api.album, r.album)
    &&& r.duration_ms == api.duration_ms
    &&& r.is_explicit == api.explicit
    &&& r.is_playable == api.is_playable
    &&& r.popularity == api.popularity
    &&& r.disc == api.disc_number
    &&& r.number == api.track_number
}

pub fn search_track(api: ApiTrack) -> (r: SearchTrack)
    ensures
        track_converted(api, r),
{
    SearchTrack {
        uri: api.uri,
        name: api.name,
        artists: artist_refs(api.artists),
        album: search_album(api.album),
        duration_ms: api.duration_ms,
        is_explicit: api.explicit,
        is_playable: api.is_playable,
        popularity: api.popularity,
        disc: api.disc_number,
        number: api.track_number,
    }
}

pub open spec fn show_converted(api: ApiShow, r: SearchShow) -> bool {
    &&& r.uri == api.uri
    &&& r.name == api.name
    &&& r.publisher == api.publisher
    &&& r.description == api.description
    &&& spec_largest_image(api.images@, r.picture)
    &&& r.total_episodes == api.total_episodes
    &&& r.is_explicit == api.explicit
    &&& r.media_type == api.media_type
    &&& r.languages == api.languages
}

pub fn search_show(api: ApiShow) -> (r: SearchShow)
    ensures
        show_converted(api, r),
{
    SearchShow {
        uri: api.uri,
        name: api.name,
        publisher: api.publisher,
        description: api.description,
        picture: largest_image(api.images),
        total_episodes: api.total_episodes,
        is_explicit: api.explicit,
        media_type: api.media_type,
        languages: api.languages,
    }
}

pub open spec fn episode_converted(api: ApiEpisode, r: SearchEpisode) -> bool {
    &&& r.uri == api.uri
    &&& r.name == api.name
    &&& r.description == api.description
    &&& spec_largest_image(api.images@, r.picture)
    &&& r.duration_ms == api.duration_ms
    &&& r.release_date == api.release_date
    &&& r.is_explicit == api.explicit
    &&& r.is_playable == api.is_playable
    &&& r.languages == api.languages
    &&& r.audio_preview_url == api.audio_preview_url
}

pub fn search_episode(api: ApiEpisode) -> (r: SearchEpisode)
    ensures
        episode_converted(api, r),
{
    SearchEpisode {
        uri: api.uri,
        name: api.name,
        description: api.description,
        picture: largest_image(api.images),
        duration_ms: api.duration_ms,
        release_date: api.release_date,
        is_explicit: api.explicit,
        is_playable: api.is_playable,
        languages: api.languages,
        audio_preview_url: api.audio_preview_url,
    }
}

pub open spec fn names_of(s: Seq<ApiName>) -> Seq<String> {
    s.map_values(|n: ApiName| n.name)
}

fn names(list: Vec<ApiName>) -> (r: Vec<String>)
    ensures
        r@ == names_of(list@),
{
    let mut out: Vec<String> = Vec::new();
    let n = list.len();
    for i in 0..n
        invariant
            n == list@.len(),
            out@ == names_of(list@.take(i as int)),
    {
        out.push(list[i].name.clone());
        assert(names_of(list@.take(i + 1)) =~= names_of(list@.take(i as int)).push(list@[i as int].name));
    }
    assert(list@.take(n as int) =~= list@);
    out
}

/// An audiobook result: its authors and narrators by name.
pub open spec fn audiobook_converted(api: ApiAudiobook, r: SearchAudiobook) -> bool {
    &&& r.uri == api.uri
    &&& r.name == api.name
    &&& r.authors@ == names_of(api.authors@)
    &&& r.narrators@ == names_of(api.narrators@)
    &&& r.description == api.description
    &&& r.edition == api.edition
    &&& spec_largest_image(api.images@, r.picture)
    &&& r.total_chapters == api.total_chapters
    &&& r.is_explicit == api.explicit
    &&& r.media_type == api.media_type
    &&& r.languages == api.languages
    &&& r.publisher == api.publisher
}

pub fn search_audiobook(api: ApiAudiobook) -> (r: SearchAudiobook)
    ensures
        audiobook_converted(api, r),
{
    SearchAudiobook {
        uri: api.uri,
        name: api.name,
        authors: names(api.authors),
        narrators: names(api.narrators),
        description: api.description,
        edition: api.edition,
        picture: largest_image(api.images),
        total_chapters: api.total_chapters,
        is_explicit: api.explicit,
        media_type: api.media_type,
        languages: api.languages,
        publisher: api.publisher,
    }
}

/// The page keeps the Web API's paging fields.
pub open spec fn paging_kept<T, U>(api: ApiPage<T>, r: SearchPage<U>) -> bool {
    &&& r.href == api.href
    &&& r.total == api.total
    &&& r.limit == api.limit
    &&& r.offset == api.offset
    &&& r.next == api.next
    &&& r.previous == api.previous
}

pub fn album_page(api: ApiPage<ApiAlbum>) -> (r: SearchPage<SearchAlbum>)
    ensures
        paging_kept(api, r),
        r.items@.len() == api.items@.len(),
        forall|i: int| 0 <= i < r.items@.len() ==> album_converted(api.items@[i], #[trigger] r.items@[i]),
{
    let ghost all = api.items@;
    let mut items: Vec<SearchAlbum> = Vec::new();
    for a in it: api.items.into_iter()
        invariant
            it.seq() == all,
            items@.len() == it.index(),
            forall|i: int| 0 <= i < items@.len() ==> album_converted(all[i], #[trigger] items@[i]),
    {
        items.push(search_album(a));
    }
    SearchPage {
        href: api.href,
        items,
        total: api.total,
        limit: api.limit,
        offset: api.offset,
        next: api.next,
        previous: api.previous,
    }
}


pub fn artist_page(api: ApiPage<ApiArtist>) -> (r: SearchPage<SearchArtist>)
    ensures
        paging_kept(api, r),
        r.items@.len() == api.items@.len(),
        forall|i: int| 0 <= i < r.items@.len() ==> artist_converted(api.items@[i], #[trigger] r.items@[i]),
{
    let ghost all = api.items@;
    let mut items: Vec<SearchArtist> = Vec::new();
    for a in it: api.items.into_iter()
        invariant
            it.seq() == all,
            items@.len() == it.index(),
            forall|i: int| 0 <= i < items@.len() ==> artist_converted(all[i], #[trigger] items@[i]),
    {
        items.push(search_artist(a));
    }
    SearchPage {
        href: api.href,
        items,
        total: api.total,
        limit: api.limit,
        offset: api.offset,
        next: api.next,
        previous: api.previous,
    }
}

pub fn track_page(api: ApiPage<ApiTrack>) -> (r: SearchPage<SearchTrack>)
    ensures
        paging_kept(api, r),
        r.items@.len() == api.items@.len(),
        forall|i: int| 0 <= i < r.items@.len() ==> track_converted(api.items@[i], #[trigger] r.items@[i]),
{
    let ghost all = api.items@;
    let mut items: Vec<SearchTrack> = Vec::new();
    for a in it: api.items.into_iter()
        invariant
            it.seq() == all,
            items@.len() == it.index(),
            forall|i: int| 0 <= i < items@.len() ==> track_converted(all[i], #[trigger] items@[i]),
    {
        items.push(search_track(a));
    }
    SearchPage {
        href: api.href,
        items,
        total: api.total,
        limit: api.limit,
        offset: api.offset,
        next: api.next,
        previous: api.previous,
    }
}

pub fn show_page(api: ApiPage<ApiShow>) -> (r: SearchPage<SearchShow>)
    ensures
        paging_kept(api, r),
        r.items@.len() == api.items@.len(),
        forall|i: int| 0 <= i < r.items@.len() ==> show_converted(api.items@[i], #[trigger] r.items@[i]),
{
    let ghost all = api.items@;
    let mut items: Vec<SearchShow> = Vec::new();
    for a in it: api.items.into_iter()
        invariant
            it.seq() == all,
            items@.len() == it.index(),
            forall|i: int| 0 <= i < items@.len() ==> show_converted(all[i], #[trigger] items@[i]),
    {
        items.push(search_show(a));
    }
    SearchPage {
        href: api.href,
        items,
        total: api.total,
        limit: api.limit,
        offset: api.offset,
        next: api.next,
        previous: api.previous,
    }
}

pub fn episode_page(api: ApiPage<ApiEpisode>) -> (r: SearchPage<SearchEpisode>)
    ensures
        paging_kept(api, r),
        r.items@.len() == api.items@.len(),
        forall|i: int| 0 <= i < r.items@.len() ==> episode_converted(api.items@[i], #[trigger] r.items@[i]),
{
    let ghost all = api.items@;
    let mut items: Vec<SearchEpisode> = Vec::new();
    for a in it: api.items.into_iter()
        invariant
            it.seq() == all,
            items@.len() == it.index(),
            forall|i: int| 0 <= i < items@.len() ==> episode_converted(all[i], #[trigger] items@[i]),
    {
        items.push(search_episode(a));
    }
    SearchPage {
        href: api.href,
        items,
        total: api.total,
        limit: api.limit,
        offset: api.offset,
        next: api.next,
        previous: api.previous,
    }
}

pub fn audiobook_page(api: ApiPage<ApiAudiobook>) -> (r: SearchPage<SearchAudiobook>)
    ensures
        paging_kept(api, r),
        r.items@.len() == api.items@.len(),
        forall|i: int| 0 <= i < r.items@.len() ==> audiobook_converted(api.items@[i], #[trigger] r.items@[i]),
{
    let ghost all = api.items@;
    let mut items: Vec<SearchAudiobook> = Vec::new();
    for a in it: api.items.into_iter()
        invariant
            it.seq() == all,
            items@.len() == it.index(),
            forall|i: int| 0 <= i < items@.len() ==> audiobook_converted(all[i], #[trigger] items@[i]),
    {
        items.push(search_audiobook(a));
    }
    SearchPage {
        href: api.href,
        items,
        total: api.total,
        limit: api.limit,
        offset: api.offset,
        next: api.next,
        previous: api.previous,
    }
}

/// The playlists that a page holds, leaving out the empty entries.
pub open spec fn present(s: Seq<Option<ApiPlaylist>>) -> Seq<ApiPlaylist>
    decreases s.len(),
{
    if s.len() == 0 {
        Seq::empty()
    } else {
        match s.last() {
            Some(p) => present(s.drop_last()).push(p),
            None => present(s.drop_last()),
        }
    }
}

/// A page of playlists, without the entries the Web API left empty.
pub fn playlist_page(api: ApiPage<Option<ApiPlaylist>>) -> (r: SearchPage<SearchPlaylist>)
    ensures
        paging_kept(api, r),
        r.items@.len() == present(api.items@).len(),
        forall|i: int|
            0 <= i < r.items@.len() ==> playlist_converted(present(api.items@)[i], #[trigger] r.items@[i]),
{
    let ghost all = api.items@;
    let mut items: Vec<SearchPlaylist> = Vec::new();
    for a in it: api.items.into_iter()
        invariant
            it.seq() == all,
            items@.len() == present(all.take(it.index() as int)).len(),
            forall|i: int|
                0 <= i < items@.len() ==> playlist_converted(
                    present(all.take(it.index() as int))[i],
                    #[trigger] items@[i],
                ),
    {
        let ghost k = it.index();
        proof {
            assert(all.take(k + 1).drop_last() =~= all.take(k as int));
            assert(all.take(k + 1).last() == a);
        }
        match a {
            Some(p) => {
                items.push(search_playlist(p));
            },
            None => {},
        }
    }
    assert(all.take(all.len() as int) =~= all);
    SearchPage {
        href: api.href,
        items,
        total: api.total,
        limit: api.limit,
        offset: api.offset,
        next: api.next,
        previous: api.previous,
    }
}

/// The results of a search, kind by kind.
pub fn search_results(api: ApiResults) -> (r: SearchResults)
    ensures
        api.albums is Some <==> r.albums is Some,
        api.artists is Some <==> r.artists is Some,
        api.playlists is Some <==> r.playlists is Some,
        api.tracks is Some <==> r.tracks is Some,
        api.shows is Some <==> r.shows is Some,
        api.episodes is Some <==> r.episodes is Some,
        api.audiobooks is Some <==> r.audiobooks is Some,
        api.albums matches Some(p) ==> paging_kept(p, r.albums->0) && r.albums->0.items@.len()
            == p.items@.len() && forall|i: int|
            0 <= i < p.items@.len() ==> album_converted(p.items@[i], #[trigger] r.albums->0.items@[i]),
        api.artists matches Some(p) ==> paging_kept(p, r.artists->0) && r.artists->0.items@.len()
            == p.items@.len() && forall|i: int|
            0 <= i < p.items@.len() ==> artist_converted(p.items@[i], #[trigger] r.artists->0.items@[i]),
        api.playlists matches Some(p) ==> paging_kept(p, r.playlists->0)
            && r.playlists->0.items@.len() == present(p.items@).len() && forall|i: int|
            0 <= i < r.playlists->0.items@.len() ==> playlist_converted(
                present(p.items@)[i],
                #[trigger] r.playlists->0.items@[i],
            ),
        api.tracks matches Some(p) ==> paging_kept(p, r.tracks->0) && r.tracks->0.items@.len()
            == p.items@.len() && forall|i: int|
            0 <= i < p.items@.len() ==> track_converted(p.items@[i], #[trigger] r.tracks->0.items@[i]),
        api.shows matches Some(p) ==> paging_kept(p, r.shows->0) && r.shows->0.items@.len()
            == p.items@.len() && forall|i: int|
            0 <= i < p.items@.len() ==> show_converted(p.items@[i], #[trigger] r.shows->0.items@[i]),
        api.episodes matches Some(p) ==> paging_kept(p, r.episodes->0) && r.episodes->0.items@.len()
            == p.items@.len() && forall|i: int|
            0 <= i < p.items@.len() ==> episode_converted(
                p.items@[i],
                #[trigger] r.episodes->0.items@[i],
            ),
        api.audiobooks matches Some(p) ==> paging_kept(p, r.audiobooks->0)
            && r.audiobooks->0.items@.len() == p.items@.len() && forall|i: int|
            0 <= i < p.items@.len() ==> audiobook_converted(
                p.items@[i],
                #[trigger] r.audiobooks->0.items@[i],
            ),
{
    SearchResults {
        albums: match api.albums {
            Some(p) => Some(album_page(p)),
            None => None,
        },
        artists: match api.artists {
            Some(p) => Some(artist_page(p)),
            None => None,
        },
        playlists: match api.playlists {
            Some(p) => Some(playlist_page(p)),
            None => None,
        },
        tracks: match api.tracks {
            Some(p) => Some(track_page(p)),
            None => None,
        },
        shows: match api.shows {
            Some(p) => Some(show_page(p)),
            None => None,
        },
        episodes: match api.episodes {
            Some(p) => Some(episode_page(p)),
            None => None,
        },
        audiobooks: match api.audiobooks {
            Some(p) => Some(audiobook_page(p)),
            None => None,
        },
    }
}

} // verus!
