use crate::model::{AlbumRef, ArtistCard, ArtistInfo, ArtistRef, Profile, TrackInfo};
use crate::numbers::{parse_u64, spec_parse_u64};
use crate::text::{chars_of, same_text};
use crate::numbers::{decimal_chars, spec_decimal_digits};
use crate::search::pairs_view;
use crate::text::string_from_chars;
use crate::urls::{json_quoted, json_string, url_with_query_of, with_query, InvalidUrl};
use vstd::prelude::*;

verus! {

/// A JSON value as the partner API answers it. A number keeps what it reads as an
/// unsigned and as a signed 64-bit integer, where it is one.
#[derive(Debug)]
pub enum Json {
    Null,
    Bool(bool),
    Number { as_u64: Option<u64>, as_i64: Option<i64> },
    Str(String),
    Array(Vec<Json>),
    Object(Vec<(String, Json)>),
}

/// The value under `key` among an object's entries (the first such entry), `Null`
/// where there is none.
pub open spec fn lookup(entries: Seq<(String, Json)>, key: Seq<char>) -> Json
    decreases entries.len(),
{
    if entries.len() == 0 {
        Json::Null
    } else if entries[0].0@ == key {
        entries[0].1
    } else {
        lookup(entries.drop_first(), key)
    }
}

/// `value[key]`: the field of an object, `Null` for anything else.
pub open spec fn field(v: Json, key: Seq<char>) -> Json {
    match v {
        Json::Object(entries) => lookup(entries@, key),
        _ => Json::Null,
    }
}

/// `value[i]`: the element of an array, `Null` for anything else.
pub open spec fn elem(v: Json, i: int) -> Json {
    match v {
        Json::Array(items) => if 0 <= i < items@.len() {
            items@[i]
        } else {
            Json::Null
        },
        _ => Json::Null,
    }
}

pub open spec fn as_str(v: Json) -> Option<String> {
    match v {
        Json::Str(s) => Some(s),
        _ => None,
    }
}

pub open spec fn as_u64(v: Json) -> Option<u64> {
    match v {
        Json::Number { as_u64, .. } => as_u64,
        _ => None,
    }
}

pub open spec fn as_i64(v: Json) -> Option<i64> {
    match v {
        Json::Number { as_i64, .. } => as_i64,
        _ => None,
    }
}

/// The elements under `items`, none where that is not an array.
pub open spec fn items(v: Json) -> Seq<Json> {
    match field(v, "items"@) {
        Json::Array(a) => a@,
        _ => Seq::empty(),
    }
}

/// The URL of the first source of an image.
pub open spec fn image(v: Json) -> Option<String> {
    as_str(field(elem(field(v, "sources"@), 0), "url"@))
}

pub open spec fn artist_ref_of(v: Json) -> Option<ArtistRef> {
    match (as_str(field(v, "uri"@)), as_str(field(field(v, "profile"@), "name"@))) {
        (Some(uri), Some(name)) => Some(ArtistRef { uri, name }),
        _ => None,
    }
}

/// The artists listed under `items`, skipping those without a uri or a name.
pub open spec fn artist_refs_of(items: Seq<Json>) -> Seq<ArtistRef>
    decreases items.len(),
{
    if items.len() == 0 {
        Seq::empty()
    } else {
        let rest = artist_refs_of(items.drop_last());
        match artist_ref_of(items.last()) {
            Some(a) => rest.push(a),
            None => rest,
        }
    }
}

/// A release as the library shows it: a plain record of its parts.
pub struct AlbumSpec {
    pub uri: String,
    pub name: String,
    pub year: i32,
    pub cover_id: Option<String>,
    pub artists: Seq<ArtistRef>,
}

pub open spec fn album_spec(a: AlbumRef) -> AlbumSpec {
    AlbumSpec { uri: a.uri, name: a.name, year: a.year, cover_id: a.cover_id, artists: a.artists@ }
}

/// A release: it needs a uri and a name; a missing year reads as 0.
pub open spec fn release_of(v: Json) -> Option<AlbumSpec> {
    match (as_str(field(v, "uri"@)), as_str(field(v, "name"@))) {
        (Some(uri), Some(name)) => Some(
            AlbumSpec {
                uri,
                name,
                year: match as_i64(field(field(v, "date"@), "year"@)) {
                    Some(y) => y as i32,
                    None => 0,
                },
                cover_id: image(field(v, "coverArt"@)),
                artists: artist_refs_of(items(field(v, "artists"@))),
            },
        ),
        _ => None,
    }
}

/// The releases that head each group of `items` (the first release of each).
pub open spec fn group_releases(items: Seq<Json>) -> Seq<AlbumSpec>
    decreases items.len(),
{
    if items.len() == 0 {
        Seq::empty()
    } else {
        let rest = group_releases(items.drop_last());
        match release_of(elem(field(field(items.last(), "releases"@), "items"@), 0)) {
            Some(a) => rest.push(a),
            None => rest,
        }
    }
}

/// A track's play count, as a number or as decimal text, with its uri.
pub open spec fn play_of(track: Json) -> Option<(String, u64)> {
    let count = match field(track, "playcount"@) {
        Json::Str(text) => spec_parse_u64(text@),
        other => as_u64(other),
    };
    match (count, as_str(field(track, "uri"@))) {
        (Some(c), Some(uri)) => Some((uri, c)),
        _ => None,
    }
}

/// A track as the library shows it: a plain record of its parts.
pub struct TrackSpec {
    pub uri: String,
    pub name: String,
    pub artists: Seq<ArtistRef>,
    pub cover_id: Option<String>,
    pub number: u32,
    pub disc: u32,
    pub duration_ms: u32,
    pub is_explicit: bool,
    pub plays: Option<u64>,
}

pub open spec fn track_spec(t: TrackInfo) -> TrackSpec {
    TrackSpec {
        uri: t.uri,
        name: t.name,
        artists: t.artists@,
        cover_id: t.cover_id,
        number: t.number,
        disc: t.disc,
        duration_ms: t.duration_ms,
        is_explicit: t.is_explicit,
        plays: t.plays,
    }
}

/// A track: it needs a uri and a name; the disc is 1 where none is given, the other
/// numbers 0 (each taken to 32 bits); it is explicit when rated so.
pub open spec fn track_of(v: Json) -> Option<TrackSpec> {
    match (as_str(field(v, "uri"@)), as_str(field(v, "name"@))) {
        (Some(uri), Some(name)) => Some(
            TrackSpec {
                uri,
                name,
                artists: artist_refs_of(items(field(v, "artists"@))),
                cover_id: image(field(field(v, "albumOfTrack"@), "coverArt"@)),
                number: match as_u64(field(v, "trackNumber"@)) {
                    Some(n) => n as u32,
                    None => 0,
                },
                disc: match as_u64(field(v, "discNumber"@)) {
                    Some(n) => n as u32,
                    None => 1,
                },
                duration_ms: match as_u64(field(field(v, "duration"@), "totalMilliseconds"@)) {
                    Some(n) => n as u32,
                    None => 0,
                },
                is_explicit: match as_str(field(field(v, "contentRating"@), "label"@)) {
                    Some(label) => label@ == "EXPLICIT"@,
                    None => false,
                },
                plays: match play_of(v) {
                    Some((_, c)) => Some(c),
                    None => None,
                },
            },
        ),
        _ => None,
    }
}

/// The tracks under `track` of each item.
pub open spec fn tracks_of(items: Seq<Json>) -> Seq<TrackSpec>
    decreases items.len(),
{
    if items.len() == 0 {
        Seq::empty()
    } else {
        let rest = tracks_of(items.drop_last());
        match track_of(field(items.last(), "track"@)) {
            Some(t) => rest.push(t),
            None => rest,
        }
    }
}

pub open spec fn card_of(v: Json) -> Option<ArtistCard> {
    match (as_str(field(v, "uri"@)), as_str(field(field(v, "profile"@), "name"@))) {
        (Some(uri), Some(name)) => Some(
            ArtistCard { uri, name, portrait: image(field(field(v, "visuals"@), "avatarImage"@)) },
        ),
        _ => None,
    }
}

/// The related artists among `items`, skipping those without a uri or a name.
pub open spec fn cards_of(items: Seq<Json>) -> Seq<ArtistCard>
    decreases items.len(),
{
    if items.len() == 0 {
        Seq::empty()
    } else {
        let rest = cards_of(items.drop_last());
        match card_of(items.last()) {
            Some(c) => rest.push(c),
            None => rest,
        }
    }
}

/// Exec-side access to a JSON value, absent standing for `Null`.
pub open spec fn or_null(v: Option<&Json>) -> Json {
    match v {
        Some(x) => *x,
        None => Json::Null,
    }
}

fn get<'a>(v: Option<&'a Json>, key: &str) -> (r: Option<&'a Json>)
    ensures
        or_null(r) == field(or_null(v), key@),
{
    match v {
        Some(Json::Object(entries)) => {
            let n = entries.len();
            assert(entries@.skip(0) =~= entries@);
            assert(field(or_null(v), key@) == lookup(entries@, key@));
            for i in 0..n
                invariant
                    n == entries@.len(),
                    field(or_null(v), key@) == lookup(entries@, key@),
                    lookup(entries@, key@) == lookup(entries@.skip(i as int), key@),
            {
                proof {
                    assert(entries@.skip(i as int).drop_first() =~= entries@.skip(i + 1));
                    assert(entries@.skip(i as int)[0] == entries@[i as int]);
                }
                if same_text(entries[i].0.as_str(), key) {
                    return Some(&entries[i].1);
                }
            }
            None
        },
        _ => None,
    }
}

fn at<'a>(v: Option<&'a Json>, i: usize) -> (r: Option<&'a Json>)
    ensures
        or_null(r) == elem(or_null(v), i as int),
{
    match v {
        Some(Json::Array(values)) => if i < values.len() {
            Some(&values[i])
        } else {
            None
        },
        _ => None,
    }
}

fn text(v: Option<&Json>) -> (r: Option<String>)
    ensures
        r == as_str(or_null(v)),
{
    match v {
        Some(Json::Str(s)) => Some(s.clone()),
        _ => None,
    }
}

fn unsigned(v: Option<&Json>) -> (r: Option<u64>)
    ensures
        r == as_u64(or_null(v)),
{
    match v {
        Some(Json::Number { as_u64, .. }) => *as_u64,
        _ => None,
    }
}

fn signed(v: Option<&Json>) -> (r: Option<i64>)
    ensures
        r == as_i64(or_null(v)),
{
    match v {
        Some(Json::Number { as_i64, .. }) => *as_i64,
        _ => None,
    }
}

fn item_list<'a>(v: Option<&'a Json>) -> (r: &'a [Json])
    ensures
        r@ == items(or_null(v)),
{
    match get(v, "items") {
        Some(Json::Array(values)) => values.as_slice(),
        _ => {
            let empty: &[Json] = &[];
            assert(empty@ =~= Seq::<Json>::empty());
            empty
        },
    }
}

fn image_url(v: Option<&Json>) -> (r: Option<String>)
    ensures
        r == image(or_null(v)),
{
    text(get(at(get(v, "sources"), 0), "url"))
}

fn artist_refs(v: Option<&Json>) -> (r: Vec<ArtistRef>)
    ensures
        r@ == artist_refs_of(items(or_null(v))),
{
    let list = item_list(v);
    let mut out: Vec<ArtistRef> = Vec::new();
    let n = list.len();
    for i in 0..n
        invariant
            n == list@.len(),
            out@ == artist_refs_of(list@.take(i as int)),
    {
        proof {
            assert(list@.take(i + 1).drop_last() =~= list@.take(i as int));
        }
        let item = Some(&list[i]);
        match (text(get(item, "uri")), text(get(get(item, "profile"), "name"))) {
            (Some(uri), Some(name)) => out.push(ArtistRef { uri, name }),
            _ => {},
        }
    }
    assert(list@.take(n as int) =~= list@);
    out
}

fn release(v: Option<&Json>) -> (r: Option<AlbumRef>)
    ensures
        match r {
            Some(a) => release_of(or_null(v)) == Some(album_spec(a)),
            None => release_of(or_null(v)) is None,
        },
{
    match (text(get(v, "uri")), text(get(v, "name"))) {
        (Some(uri), Some(name)) => {
            let year: i32 = match signed(get(get(v, "date"), "year")) {
                Some(y) => y as i32,
                None => 0,
            };
            let a = AlbumRef {
                uri,
                name,
                year,
                cover_id: image_url(get(v, "coverArt")),
                artists: artist_refs(get(v, "artists")),
            };
            Some(a)
        },
        _ => None,
    }
}

fn releases(v: Option<&Json>) -> (r: Vec<AlbumRef>)
    ensures
        r@.map_values(|a: AlbumRef| album_spec(a)) == group_releases(items(or_null(v))),
{
    let list = item_list(v);
    let mut out: Vec<AlbumRef> = Vec::new();
    let n = list.len();
    for i in 0..n
        invariant
            n == list@.len(),
            out@.map_values(|a: AlbumRef| album_spec(a)) == group_releases(list@.take(i as int)),
    {
        proof {
            assert(list@.take(i + 1).drop_last() =~= list@.take(i as int));
        }
        let head = at(get(get(Some(&list[i]), "releases"), "items"), 0);
        match release(head) {
            Some(a) => {
                let ghost before = out@;
                out.push(a);
                assert(out@.map_values(|a: AlbumRef| album_spec(a)) =~= before.map_values(
                    |a: AlbumRef| album_spec(a),
                ).push(album_spec(a)));
            },
            None => {},
        }
    }
    assert(list@.take(n as int) =~= list@);
    out
}

fn play(v: Option<&Json>) -> (r: Option<(String, u64)>)
    ensures
        r == play_of(or_null(v)),
{
    let count = match get(v, "playcount") {
        Some(Json::Str(t)) => {
            let chars = chars_of(t.as_str());
            parse_u64(chars.as_slice())
        },
        other => unsigned(other),
    };
    match (count, text(get(v, "uri"))) {
        (Some(c), Some(uri)) => Some((uri, c)),
        _ => None,
    }
}

fn track(v: Option<&Json>) -> (r: Option<TrackInfo>)
    ensures
        match r {
            Some(t) => track_of(or_null(v)) == Some(track_spec(t)),
            None => track_of(or_null(v)) is None,
        },
{
    match (text(get(v, "uri")), text(get(v, "name"))) {
        (Some(uri), Some(name)) => {
            let number: u32 = match unsigned(get(v, "trackNumber")) {
                Some(n) => n as u32,
                None => 0,
            };
            let disc: u32 = match unsigned(get(v, "discNumber")) {
                Some(n) => n as u32,
                None => 1,
            };
            let duration_ms: u32 = match unsigned(get(get(v, "duration"), "totalMilliseconds")) {
                Some(n) => n as u32,
                None => 0,
            };
            let is_explicit = match text(get(get(v, "contentRating"), "label")) {
                Some(label) => same_text(label.as_str(), "EXPLICIT"),
                None => false,
            };
            let plays = match play(v) {
                Some((_, c)) => Some(c),
                None => None,
            };
            Some(
                TrackInfo {
                    uri,
                    name,
                    artists: artist_refs(get(v, "artists")),
                    cover_id: image_url(get(get(v, "albumOfTrack"), "coverArt")),
                    number,
                    disc,
                    duration_ms,
                    is_explicit,
                    plays,
                },
            )
        },
        _ => None,
    }
}

fn tracks(v: Option<&Json>) -> (r: Vec<TrackInfo>)
    ensures
        r@.map_values(|t: TrackInfo| track_spec(t)) == tracks_of(items(or_null(v))),
{
    let list = item_list(v);
    let mut out: Vec<TrackInfo> = Vec::new();
    let n = list.len();
    for i in 0..n
        invariant
            n == list@.len(),
            out@.map_values(|t: TrackInfo| track_spec(t)) == tracks_of(list@.take(i as int)),
    {
        proof {
            assert(list@.take(i + 1).drop_last() =~= list@.take(i as int));
        }
        match track(get(Some(&list[i]), "track")) {
            Some(t) => {
                let ghost before = out@;
                out.push(t);
                assert(out@.map_values(|t: TrackInfo| track_spec(t)) =~= before.map_values(
                    |t: TrackInfo| track_spec(t),
                ).push(track_spec(t)));
            },
            None => {},
        }
    }
    assert(list@.take(n as int) =~= list@);
    out
}

fn cards(v: Option<&Json>) -> (r: Vec<ArtistCard>)
    ensures
        r@ == cards_of(items(or_null(v))),
{
    let list = item_list(v);
    let mut out: Vec<ArtistCard> = Vec::new();
    let n = list.len();
    for i in 0..n
        invariant
            n == list@.len(),
            out@ == cards_of(list@.take(i as int)),
    {
        proof {
            assert(list@.take(i + 1).drop_last() =~= list@.take(i as int));
        }
        let item = Some(&list[i]);
        match (text(get(item, "uri")), text(get(get(item, "profile"), "name"))) {
            (Some(uri), Some(name)) => out.push(
                ArtistCard {
                    uri,
                    name,
                    portrait: image_url(get(get(item, "visuals"), "avatarImage")),
                },
            ),
            _ => {},
        }
    }
    assert(list@.take(n as int) =~= list@);
    out
}

/// An artist overview that names no artist.
#[derive(Debug, Clone, Copy, PartialEq, Eq, Structural)]
pub enum OverviewError {
    Nameless,
}

impl OverviewError {
    /// The error as text.
    pub fn message(&self) -> (r: String)
        ensures
            r@ == "artist overview without a name"@,
    {
        String::from_str("artist overview without a name")
    }
}

/// An artist as the library shows it: a plain record of its parts.
pub struct ArtistSpec {
    pub uri: Seq<char>,
    pub name: String,
    pub portrait_id: Option<String>,
    pub banner: Option<String>,
    pub biography: Option<String>,
    pub monthly_listeners: Option<u64>,
    pub top_tracks: Seq<TrackSpec>,
    pub albums: Seq<AlbumSpec>,
    pub singles: Seq<AlbumSpec>,
    pub singles_total: usize,
    pub compilations: Seq<AlbumSpec>,
    pub appears_on: Seq<AlbumSpec>,
    pub related: Seq<ArtistCard>,
}

pub open spec fn artist_spec(a: ArtistInfo) -> ArtistSpec {
    ArtistSpec {
        uri: a.uri@,
        name: a.name,
        portrait_id: a.portrait_id,
        banner: a.banner,
        biography: a.biography,
        monthly_listeners: a.monthly_listeners,
        top_tracks: a.top_tracks@.map_values(|t: TrackInfo| track_spec(t)),
        albums: a.albums@.map_values(|x: AlbumRef| album_spec(x)),
        singles: a.singles@.map_values(|x: AlbumRef| album_spec(x)),
        singles_total: a.singles_total,
        compilations: a.compilations@.map_values(|x: AlbumRef| album_spec(x)),
        appears_on: a.appears_on@.map_values(|x: AlbumRef| album_spec(x)),
        related: a.related@,
    }
}

/// The artist that the data of an artist overview (`queryArtistOverview`) describes:
/// refused where it names no artist. The banner is the first gallery image, else the
/// header image; an empty biography is none.
pub open spec fn spec_overview(uri: Seq<char>, data: Json) -> Option<ArtistSpec> {
    let artist = field(data, "artistUnion"@);
    let discography = field(artist, "discography"@);
    let visuals = field(artist, "visuals"@);
    let related = field(artist, "relatedContent"@);
    match as_str(field(field(artist, "profile"@), "name"@)) {
        None => None,
        Some(name) => Some(
            ArtistSpec {
                uri,
                name,
                portrait_id: image(field(visuals, "avatarImage"@)),
                banner: match image(elem(field(field(visuals, "gallery"@), "items"@), 0)) {
                    Some(b) => Some(b),
                    None => image(field(visuals, "headerImage"@)),
                },
                biography: match as_str(field(field(field(artist, "profile"@), "biography"@), "text"@)) {
                    Some(t) => if t@.len() > 0 {
                        Some(t)
                    } else {
                        None
                    },
                    None => None,
                },
                monthly_listeners: as_u64(field(field(artist, "stats"@), "monthlyListeners"@)),
                top_tracks: tracks_of(items(field(discography, "topTracks"@))),
                albums: group_releases(items(field(discography, "albums"@))),
                singles: group_releases(items(field(discography, "singles"@))),
                singles_total: match as_u64(field(field(discography, "singles"@), "totalCount"@)) {
                    Some(n) => n as usize,
                    None => 0,
                },
                compilations: group_releases(items(field(discography, "compilations"@))),
                appears_on: group_releases(items(field(related, "appearsOn"@))),
                related: cards_of(items(field(related, "relatedArtists"@))),
            },
        ),
    }
}

/// The artist that an artist overview describes.
pub fn overview(uri: &str, data: &Json) -> (r: Result<ArtistInfo, OverviewError>)
    ensures
        match r {
            Ok(info) => spec_overview(uri@, *data) == Some(artist_spec(info)),
            Err(_) => spec_overview(uri@, *data) is None,
        },
{
    let root = Some(data);
    let artist = get(root, "artistUnion");
    let discography = get(artist, "discography");
    let visuals = get(artist, "visuals");
    let related = get(artist, "relatedContent");
    let name = match text(get(get(artist, "profile"), "name")) {
        Some(n) => n,
        None => return Err(OverviewError::Nameless),
    };
    let banner = match image_url(at(get(get(visuals, "gallery"), "items"), 0)) {
        Some(b) => Some(b),
        None => image_url(get(visuals, "headerImage")),
    };
    let biography = match text(get(get(get(artist, "profile"), "biography"), "text")) {
        Some(t) => if t.as_str().is_empty() {
            None
        } else {
            Some(t)
        },
        None => None,
    };
    let singles_total: usize = match unsigned(get(get(discography, "singles"), "totalCount")) {
        Some(n) => n as usize,
        None => 0,
    };
    Ok(
        ArtistInfo {
            uri: uri.to_string(),
            name,
            portrait_id: image_url(get(visuals, "avatarImage")),
            banner,
            biography,
            monthly_listeners: unsigned(get(get(artist, "stats"), "monthlyListeners")),
            top_tracks: tracks(get(discography, "topTracks")),
            albums: releases(get(discography, "albums")),
            singles: releases(get(discography, "singles")),
            singles_total,
            compilations: releases(get(discography, "compilations")),
            appears_on: releases(get(related, "appearsOn")),
            related: cards(get(related, "relatedArtists")),
        },
    )
}


/// The plays of the tracks of one page of an album (`getAlbum`), in order.
pub open spec fn plays_of(items: Seq<Json>) -> Seq<(String, u64)>
    decreases items.len(),
{
    if items.len() == 0 {
        Seq::empty()
    } else {
        let rest = plays_of(items.drop_last());
        match play_of(field(items.last(), "track"@)) {
            Some(p) => rest.push(p),
            None => rest,
        }
    }
}

/// The track list of an album page: `tracksV2` where that is an object, else
/// `tracks`.
pub open spec fn album_tracks(data: Json) -> Json {
    let album = field(data, "albumUnion"@);
    if field(album, "tracksV2"@) is Object {
        field(album, "tracksV2"@)
    } else {
        field(album, "tracks"@)
    }
}

/// Where the next page of an album's plays starts, after a page at `offset`: none
/// once a page comes back empty or the album's track count is reached (the count
/// defaults to the tracks seen so far).
pub open spec fn spec_next_album_page(data: Json, offset: nat) -> Option<nat> {
    let tracks = album_tracks(data);
    let received = items(tracks).len();
    let next = offset + received;
    let total = match as_u64(field(tracks, "totalCount"@)) {
        Some(t) => t as nat,
        None => next,
    };
    if received == 0 || next >= total {
        None
    } else {
        Some(next)
    }
}

/// The plays on one page of an album, and where the next page starts.
pub fn album_plays_page(data: &Json, offset: usize) -> (r: (Vec<(String, u64)>, Option<usize>))
    requires
        offset + items(album_tracks(*data)).len() <= usize::MAX,
    ensures
        r.0@ == plays_of(items(album_tracks(*data))),
        match r.1 {
            Some(n) => spec_next_album_page(*data, offset as nat) == Some(n as nat),
            None => spec_next_album_page(*data, offset as nat) is None,
        },
{
    let album = get(Some(data), "albumUnion");
    let v2 = get(album, "tracksV2");
    let tracks = match v2 {
        Some(Json::Object(_)) => v2,
        _ => get(album, "tracks"),
    };
    assert(or_null(tracks) == album_tracks(*data));
    let list = item_list(tracks);
    let mut plays: Vec<(String, u64)> = Vec::new();
    let n = list.len();
    for i in 0..n
        invariant
            n == list@.len(),
            plays@ == plays_of(list@.take(i as int)),
    {
        proof {
            assert(list@.take(i + 1).drop_last() =~= list@.take(i as int));
        }
        match play(get(Some(&list[i]), "track")) {
            Some(p) => plays.push(p),
            None => {},
        }
    }
    assert(list@.take(n as int) =~= list@);
    let next = offset + n;
    let total: u64 = match unsigned(get(tracks, "totalCount")) {
        Some(t) => t,
        None => next as u64,
    };
    if n == 0 || next as u64 >= total {
        (plays, None)
    } else {
        (plays, Some(next))
    }
}

/// The play count of `uri` among `plays`: that of its last entry.
pub open spec fn plays_for(plays: Seq<(String, u64)>, uri: Seq<char>) -> Option<u64>
    decreases plays.len(),
{
    if plays.len() == 0 {
        None
    } else if plays.last().0@ == uri {
        Some(plays.last().1)
    } else {
        plays_for(plays.drop_last(), uri)
    }
}

fn count_for(plays: &Vec<(String, u64)>, uri: &String) -> (r: Option<u64>)
    ensures
        r == plays_for(plays@, uri@),
{
    let mut k = plays.len();
    assert(plays@.take(k as int) =~= plays@);
    while k > 0
        invariant
            k <= plays@.len(),
            plays_for(plays@, uri@) == plays_for(plays@.take(k as int), uri@),
        decreases k,
    {
        assert(plays@.take(k as int).drop_last() =~= plays@.take(k - 1));
        if plays[k - 1].0 == *uri {
            return Some(plays[k - 1].1);
        }
        k -= 1;
    }
    None
}

/// Gives each track the play count that `plays` holds for its uri (none where it
/// holds none); nothing else changes.
pub fn apply_plays(tracks: &mut Vec<TrackInfo>, plays: &Vec<(String, u64)>)
    ensures
        final(tracks)@.len() == old(tracks)@.len(),
        forall|i: int|
            0 <= i < final(tracks)@.len() ==> #[trigger] track_spec(final(tracks)@[i]) == (TrackSpec {
                plays: plays_for(plays@, old(tracks)@[i].uri@),
                ..track_spec(old(tracks)@[i])
            }),
{
    let n = tracks.len();
    for i in 0..n
        invariant
            n == tracks@.len(),
            n == old(tracks)@.len(),
            forall|j: int|
                0 <= j < i ==> #[trigger] track_spec(tracks@[j]) == (TrackSpec {
                    plays: plays_for(plays@, old(tracks)@[j].uri@),
                    ..track_spec(old(tracks)@[j])
                }),
            forall|j: int| i <= j < n ==> tracks@[j] == old(tracks)@[j],
    {
        let count = count_for(plays, &tracks[i].uri);
        let mut t = tracks.remove(i);
        t.plays = count;
        tracks.insert(i, t);
    }
}

/// What the answer to a persisted query says.
#[derive(Debug, Clone, Copy, PartialEq, Eq, Structural)]
pub enum QueryOutcome {
    /// The hash is no longer known: read the hashes anew and ask again.
    Stale,
    /// The answer reports errors.
    Failed,
    /// The answer holds data.
    Data,
}

pub open spec fn has_key(v: Json, key: Seq<char>) -> bool {
    match v {
        Json::Object(entries) => exists|i: int| 0 <= i < entries@.len() && entries@[i].0@ == key,
        _ => false,
    }
}

/// What an answer says: a stale hash (first error `PersistedQueryNotFound`) is asked
/// again once; any other `errors` field is a failure.
pub open spec fn spec_query_outcome(answer: Json, refreshed: bool) -> QueryOutcome {
    let stale = match field(elem(field(answer, "errors"@), 0), "message"@) {
        Json::Str(m) => m@ == "PersistedQueryNotFound"@,
        _ => false,
    };
    if stale && !refreshed {
        QueryOutcome::Stale
    } else if has_key(answer, "errors"@) {
        QueryOutcome::Failed
    } else {
        QueryOutcome::Data
    }
}

/// What an answer to a persisted query says, `refreshed` telling whether the hashes
/// were already read anew.
pub fn query_outcome(answer: &Json, refreshed: bool) -> (r: QueryOutcome)
    ensures
        r == spec_query_outcome(*answer, refreshed),
{
    let stale = match get(at(get(Some(answer), "errors"), 0), "message") {
        Some(Json::Str(m)) => same_text(m.as_str(), "PersistedQueryNotFound"),
        _ => false,
    };
    if stale && !refreshed {
        return QueryOutcome::Stale;
    }
    match answer {
        Json::Object(entries) => {
            let n = entries.len();
            for i in 0..n
                invariant
                    n == entries@.len(),
                    *answer == Json::Object(*entries),
                    !(stale && !refreshed),
                    stale == match field(elem(field(*answer, "errors"@), 0), "message"@) {
                        Json::Str(m) => m@ == "PersistedQueryNotFound"@,
                        _ => false,
                    },
                    forall|j: int| 0 <= j < i ==> entries@[j].0@ != "errors"@,
            {
                if same_text(entries[i].0.as_str(), "errors") {
                    return QueryOutcome::Failed;
                }
            }
            QueryOutcome::Data
        },
        _ => QueryOutcome::Data,
    }
}

/// The `data` field of an answer, taken out of it.
pub fn take_data(answer: Json) -> (r: Json)
    ensures
        r == field(answer, "data"@),
{
    match answer {
        Json::Object(entries) => {
            let mut entries = entries;
            let n = entries.len();
            let ghost all = entries@;
            assert(all.skip(0) =~= all);
            assert(field(answer, "data"@) == lookup(all, "data"@));
            for i in 0..n
                invariant
                    n == entries@.len(),
                    entries@ == all,
                    field(answer, "data"@) == lookup(all, "data"@),
                    lookup(all, "data"@) == lookup(all.skip(i as int), "data"@),
            {
                proof {
                    assert(all.skip(i as int).drop_first() =~= all.skip(i + 1));
                    assert(all.skip(i as int)[0] == all[i as int]);
                }
                if same_text(entries[i].0.as_str(), "data") {
                    let (_, value) = entries.remove(i);
                    return value;
                }
            }
            Json::Null
        },
        _ => Json::Null,
    }
}


/// The user's profile from the answer of the profile endpoint: its display name,
/// else the username; its picture, where it has one.
pub fn profile(username: &str, answer: &Json) -> (r: Profile)
    ensures
        r.name@ == match as_str(field(*answer, "name"@)) {
            Some(n) => n@,
            None => username@,
        },
        r.avatar == as_str(field(*answer, "image_url"@)),
{
    let name = match text(get(Some(answer), "name")) {
        Some(n) => n,
        None => username.to_string(),
    };
    Profile { name, avatar: text(get(Some(answer), "image_url")) }
}


/// The partner API's endpoint for persisted queries.
pub const PATHFINDER_ENDPOINT: &'static str = "https://api-partner.spotify.com/pathfinder/v1/query";

/// The variables of an artist overview, as JSON with its keys in order.
pub open spec fn overview_variables(uri_json: Seq<char>) -> Seq<char> {
    "{\"includePrerelease\":true,\"locale\":\"\",\"uri\":"@ + uri_json + "}"@
}

/// The variables of a page of an album, as JSON with its keys in order.
pub open spec fn album_variables(uri_json: Seq<char>, offset: nat) -> Seq<char> {
    "{\"limit\":50,\"locale\":\"\",\"offset\":"@ + spec_decimal_digits(offset) + ",\"uri\":"@
        + uri_json + "}"@
}

/// The extensions that name a persisted query by its hash.
pub open spec fn extensions(hash_json: Seq<char>) -> Seq<char> {
    "{\"persistedQuery\":{\"sha256Hash\":"@ + hash_json + ",\"version\":1}}"@
}

/// Texts one after another.
pub open spec fn concat_all(parts: Seq<Seq<char>>) -> Seq<char>
    decreases parts.len(),
{
    if parts.len() == 0 {
        Seq::empty()
    } else {
        concat_all(parts.drop_last()) + parts.last()
    }
}

pub open spec fn str_views(parts: Seq<&str>) -> Seq<Seq<char>> {
    parts.map_values(|p: &str| p@)
}

fn concat(parts: &Vec<&str>) -> (r: String)
    ensures
        r@ == concat_all(str_views(parts@)),
{
    let mut out: Vec<char> = Vec::new();
    let n = parts.len();
    for i in 0..n
        invariant
            n == parts@.len(),
            out@ == concat_all(str_views(parts@.take(i as int))),
    {
        let ghost before = str_views(parts@.take(i as int));
        assert(str_views(parts@.take(i + 1)) =~= before.push(parts@[i as int]@));
        assert(before.push(parts@[i as int]@).drop_last() =~= before);
        let mut chunk = chars_of(parts[i]);
        out.append(&mut chunk);
    }
    assert(parts@.take(n as int) =~= parts@);
    string_from_chars(out.as_slice())
}

/// The variables of an artist overview for `uri`.
pub fn overview_query_variables(uri: &str) -> (r: String)
    ensures
        r@ == overview_variables(json_quoted(uri@)),
{
    let j = json_string(uri).unwrap();
    let mut parts: Vec<&str> = Vec::new();
    parts.push("{\"includePrerelease\":true,\"locale\":\"\",\"uri\":");
    parts.push(j.as_str());
    parts.push("}");
    let r = concat(&parts);
    proof {
        let v = str_views(parts@);
        reveal_with_fuel(concat_all, 4);
        assert(v.drop_last().drop_last().drop_last() =~= Seq::<Seq<char>>::empty());
        assert(r@ =~= v[0] + v[1] + v[2]);
    }
    r
}

/// The variables of the page of an album that starts at `offset`.
pub fn album_query_variables(uri: &str, offset: usize) -> (r: String)
    ensures
        r@ == album_variables(json_quoted(uri@), offset as nat),
{
    let j = json_string(uri).unwrap();
    let digits = string_from_chars(decimal_chars(offset as u64).as_slice());
    let mut parts: Vec<&str> = Vec::new();
    parts.push("{\"limit\":50,\"locale\":\"\",\"offset\":");
    parts.push(digits.as_str());
    parts.push(",\"uri\":");
    parts.push(j.as_str());
    parts.push("}");
    let r = concat(&parts);
    proof {
        let v = str_views(parts@);
        reveal_with_fuel(concat_all, 6);
        assert(v.drop_last().drop_last().drop_last().drop_last().drop_last() =~= Seq::<Seq<char>>::empty());
        assert(r@ =~= v[0] + v[1] + v[2] + v[3] + v[4]);
    }
    r
}

/// The URL that asks the partner API for a persisted query with its variables.
pub open spec fn spec_query_url(operation: Seq<char>, variables: Seq<char>, hash: Seq<char>) -> Option<
    Seq<char>,
> {
    url_with_query_of(
        PATHFINDER_ENDPOINT@,
        seq![
            ("operationName"@, operation),
            ("variables"@, variables),
            ("extensions"@, extensions(json_quoted(hash))),
        ],
    )
}

/// The URL of a persisted query.
pub fn query_url(operation: &str, variables: &str, hash: &str) -> (r: Result<String, InvalidUrl>)
    ensures
        match spec_query_url(operation@, variables@, hash@) {
            Some(u) => r is Ok && r->Ok_0@ == u,
            None => r is Err,
        },
{
    let h = json_string(hash).unwrap();
    let mut parts: Vec<&str> = Vec::new();
    parts.push("{\"persistedQuery\":{\"sha256Hash\":");
    parts.push(h.as_str());
    parts.push(",\"version\":1}}");
    let ext = concat(&parts);
    proof {
        let v = str_views(parts@);
        reveal_with_fuel(concat_all, 4);
        assert(v.drop_last().drop_last().drop_last() =~= Seq::<Seq<char>>::empty());
        assert(ext@ =~= v[0] + v[1] + v[2]);
    }
    let mut pairs: Vec<(String, String)> = Vec::new();
    pairs.push((String::from_str("operationName"), operation.to_string()));
    pairs.push((String::from_str("variables"), variables.to_string()));
    pairs.push((String::from_str("extensions"), ext));
    assert(pairs_view(pairs@) =~= seq![
        ("operationName"@, operation@),
        ("variables"@, variables@),
        ("extensions"@, extensions(h@)),
    ]);
    with_query(PATHFINDER_ENDPOINT, &pairs)
}

} // verus!
