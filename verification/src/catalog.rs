use crate::model::{AlbumInfo, ArtistRef, TrackInfo};
use crate::numbers::{all_digits, digits_value, is_digit};
use crate::text::{chars_of, slice_chars, string_from_chars};
use crate::search::pairs_view;
use crate::urls::{url_with_query_of, with_query};
use vstd::prelude::*;

verus! {

/// What the Web API catalog refuses.
#[derive(Debug, Clone, PartialEq, Eq)]
pub enum CatalogError {
    /// The uri is not `spotify:<kind>:<id>`.
    InvalidUri { kind: String },
    /// The album came without its tracks.
    MissingTracks,
    /// The album's URL does not parse.
    InvalidUrl,
}

impl CatalogError {
    /// What the error says.
    pub open spec fn spec_message(&self) -> Seq<char> {
        match self {
            CatalogError::InvalidUri { kind } => "invalid Spotify "@ + kind@ + " uri"@,
            CatalogError::MissingTracks => "album response without tracks"@,
            CatalogError::InvalidUrl => "invalid album URL"@,
        }
    }

    /// The error as text: `invalid Spotify <kind> uri` for a uri of the wrong form.
    pub fn message(&self) -> (r: String)
        ensures
            r@ == self.spec_message(),
    {
        match self {
            CatalogError::InvalidUri { kind } => {
                let mut m = String::from_str("invalid Spotify ");
                m.append(kind.as_str());
                m.append(" uri");
                m
            },
            CatalogError::MissingTracks => String::from_str("album response without tracks"),
            CatalogError::InvalidUrl => String::from_str("invalid album URL"),
        }
    }
}

/// `spotify:<kind>:`
pub open spec fn uri_prefix(kind: Seq<char>) -> Seq<char> {
    seq!['s', 'p', 'o', 't', 'i', 'f', 'y', ':'] + kind + seq![':']
}

/// The id in a `spotify:<kind>:<id>` uri: what follows the prefix, when that is
/// not empty and holds no `':'`.
pub open spec fn spec_spotify_id(uri: Seq<char>, kind: Seq<char>) -> Option<Seq<char>> {
    let prefix = uri_prefix(kind);
    if uri.len() > prefix.len() && uri.take(prefix.len() as int) == prefix && forall|k: int|
        prefix.len() <= k < uri.len() ==> uri[k] != ':' {
        Some(uri.skip(prefix.len() as int))
    } else {
        None
    }
}

/// The id in a `spotify:<kind>:<id>` uri.
pub fn spotify_id(uri: &str, kind: &str) -> (r: Result<String, CatalogError>)
    ensures
        match spec_spotify_id(uri@, kind@) {
            Some(id) => r is Ok && r->Ok_0@ == id,
            None => r is Err && r->Err_0 is InvalidUri && r->Err_0->kind@ == kind@,
        },
{
    let u = chars_of(uri);
    let k = chars_of(kind);
    let mut prefix: Vec<char> = Vec::new();
    prefix.push('s');
    prefix.push('p');
    prefix.push('o');
    prefix.push('t');
    prefix.push('i');
    prefix.push('f');
    prefix.push('y');
    prefix.push(':');
    let mut j: usize = 0;
    while j < k.len()
        invariant
            j <= k@.len(),
            prefix@ == seq!['s', 'p', 'o', 't', 'i', 'f', 'y', ':'] + k@.take(j as int),
        decreases k@.len() - j,
    {
        prefix.push(k[j]);
        j += 1;
        assert(prefix@ =~= seq!['s', 'p', 'o', 't', 'i', 'f', 'y', ':'] + k@.take(j as int));
    }
    prefix.push(':');
    assert(k@.take(k@.len() as int) =~= k@);
    assert(prefix@ =~= uri_prefix(kind@));
    let p = prefix.len();
    let invalid = CatalogError::InvalidUri { kind: String::from_str(kind) };
    if u.len() <= p {
        return Err(invalid);
    }
    for i in 0..p
        invariant
            p == prefix@.len(),
            p < u@.len(),
            u@ == uri@,
            prefix@ == uri_prefix(kind@),
            invalid is InvalidUri && invalid->kind@ == kind@,
            forall|m: int| 0 <= m < i ==> u@[m] == prefix@[m],
    {
        if u[i] != prefix[i] {
            assert(u@.take(p as int)[i as int] != prefix@[i as int]);
            return Err(invalid);
        }
    }
    assert(u@.take(p as int) =~= prefix@);
    let n = u.len();
    for i in p..n
        invariant
            n == u@.len(),
            u@ == uri@,
            p == prefix@.len(),
            prefix@ == uri_prefix(kind@),
            invalid is InvalidUri && invalid->kind@ == kind@,
            forall|m: int| p <= m < i ==> u@[m] != ':',
    {
        if u[i] == ':' {
            return Err(invalid);
        }
    }
    let id = slice_chars(u.as_slice(), p, n);
    assert(id@ =~= u@.skip(p as int));
    Ok(string_from_chars(id.as_slice()))
}

/// `i32::from_str` of four ASCII characters: an optional sign and digits.
pub open spec fn spec_parse_year(s: Seq<char>) -> Option<int> {
    if s.len() > 0 && (s[0] == '+' || s[0] == '-') {
        let body = s.drop_first();
        if body.len() > 0 && all_digits(body) {
            Some(
                if s[0] == '-' {
                    -(digits_value(body) as int)
                } else {
                    digits_value(body) as int
                },
            )
        } else {
            None
        }
    } else if s.len() > 0 && all_digits(s) {
        Some(digits_value(s) as int)
    } else {
        None
    }
}

/// The year of a release date: its first four characters read as a number, or 0
/// when they are not one (or the date is shorter).
pub open spec fn spec_year(date: Seq<char>) -> int {
    if date.len() >= 4 && forall|k: int| 0 <= k < 4 ==> (#[trigger] date[k] as u32) < 0x80 {
        match spec_parse_year(date.take(4)) {
            Some(y) => y,
            None => 0,
        }
    } else {
        0
    }
}

fn digits4(s: &[char], from: usize) -> (r: Option<u32>)
    requires
        from <= s@.len() <= 4,
    ensures
        match r {
            Some(v) => s@.len() > from && all_digits(s@.skip(from as int)) && v == digits_value(
                s@.skip(from as int),
            ) && v < 10000 && (s@.len() - from <= 3 ==> v < 1000),
            None => !(s@.len() > from && all_digits(s@.skip(from as int))),
        },
{
    if s.len() <= from {
        return None;
    }
    let mut v: u32 = 0;
    let mut i = from;
    while i < s.len()
        invariant
            from <= i <= s@.len() <= 4,
            all_digits(s@.subrange(from as int, i as int)),
            v == digits_value(s@.subrange(from as int, i as int)),
            v < 10000,
        decreases s@.len() - i,
    {
        let c = s[i];
        if !('0' <= c && c <= '9') {
            assert(s@.skip(from as int)[i - from] == c);
            return None;
        }
        proof {
            let q = s@.subrange(from as int, i + 1);
            assert(q.drop_last() =~= s@.subrange(from as int, i as int));
            assert(all_digits(q)) by {
                assert forall|m: int| 0 <= m < q.len() implies is_digit(#[trigger] q[m]) by {
                    if m < q.len() - 1 {
                        assert(q[m] == s@.subrange(from as int, i as int)[m]);
                    }
                }
            }
            assert(i - from < 4);
            lemma_digits_lt(s@.subrange(from as int, i as int));
            assert(pow10(3) == 1000) by {
                reveal_with_fuel(pow10, 4);
            }
            assert(pow10((i - from) as nat) <= 1000) by {
                reveal_with_fuel(pow10, 4);
            }
        }
        v = v * 10 + (c as u32 - '0' as u32);
        i += 1;
    }
    assert(s@.subrange(from as int, s@.len() as int) =~= s@.skip(from as int));
    proof {
        lemma_digits_lt(s@.skip(from as int));
        let len = (s@.len() - from) as nat;
        assert(pow10(len) <= 10000) by {
            reveal_with_fuel(pow10, 5);
        }
        if len <= 3 {
            assert(pow10(len) <= 1000) by {
                reveal_with_fuel(pow10, 5);
            }
        }
    }
    Some(v)
}

pub open spec fn pow10(n: nat) -> nat
    decreases n,
{
    if n == 0 {
        1
    } else {
        10 * pow10((n - 1) as nat)
    }
}

proof fn lemma_digits_lt(s: Seq<char>)
    requires
        all_digits(s),
    ensures
        digits_value(s) < pow10(s.len()),
    decreases s.len(),
{
    if s.len() > 0 {
        assert(all_digits(s.drop_last())) by {
            assert forall|m: int| 0 <= m < s.drop_last().len() implies is_digit(
                #[trigger] s.drop_last()[m],
            ) by {
                assert(s.drop_last()[m] == s[m]);
            }
        }
        lemma_digits_lt(s.drop_last());
        assert(is_digit(s.last()));
    }
}

/// The year of a release date such as `2026-08-28`.
pub fn year(date: &str) -> (r: i32)
    ensures
        r as int == spec_year(date@),
{
    let chars = chars_of(date);
    if chars.len() < 4 {
        return 0;
    }
    for k in 0..4usize
        invariant
            chars@ == date@,
            chars@.len() >= 4,
            forall|m: int| 0 <= m < k ==> (#[trigger] chars@[m] as u32) < 0x80,
    {
        let c = chars[k];
        if c as u32 >= 0x80 {
            assert(!((date@[k as int] as u32) < 0x80));
            return 0;
        }
    }
    let head = slice_chars(chars.as_slice(), 0, 4);
    assert(head@ =~= date@.take(4));
    if head[0] == '+' || head[0] == '-' {
        assert(head@.skip(1) =~= head@.drop_first());
        match digits4(head.as_slice(), 1) {
            Some(v) => {
                if head[0] == '-' {
                    -(v as i32)
                } else {
                    v as i32
                }
            },
            None => 0,
        }
    } else {
        assert(head@.skip(0) =~= head@);
        match digits4(head.as_slice(), 0) {
            Some(v) => v as i32,
            None => 0,
        }
    }
}

/// An image of the Web API: its url and, when given, its width.
#[derive(Debug, Clone)]
pub struct ApiImage {
    pub url: String,
    pub width: Option<u32>,
}

pub open spec fn image_width(image: ApiImage) -> u32 {
    image.width.unwrap_or(0)
}

/// Index `k` holds the widest image; the last of equally wide ones.
pub open spec fn widest_image(images: Seq<ApiImage>, k: int) -> bool {
    0 <= k < images.len() && (forall|j: int|
        0 <= j < images.len() ==> image_width(#[trigger] images[j]) <= image_width(images[k])) && (
    forall|j: int| k < j < images.len() ==> image_width(#[trigger] images[j]) < image_width(images[k]))
}

/// The url of the widest image (an unknown width counting as 0), the last of equally
/// wide ones; `None` without images.
pub fn largest_image(images: &[ApiImage]) -> (r: Option<String>)
    ensures
        images@.len() == 0 <==> r is None,
        r is Some ==> exists|k: int| widest_image(images@, k) && r->0 == images@[k].url,
{
    let n = images.len();
    if n == 0 {
        return None;
    }
    let mut best: usize = 0;
    for i in 1..n
        invariant
            n == images@.len(),
            best < i,
            forall|j: int|
                0 <= j < i ==> image_width(#[trigger] images@[j]) <= image_width(images@[best as int]),
            forall|j: int|
                best < j < i ==> image_width(#[trigger] images@[j]) < image_width(images@[best as int]),
    {
        let wi = match images[i].width {
            Some(w) => w,
            None => 0,
        };
        let wb = match images[best].width {
            Some(w) => w,
            None => 0,
        };
        if wi >= wb {
            best = i;
        }
    }
    assert(widest_image(images@, best as int));
    Some(images[best].url.clone())
}

/// A page of a Web API list.
#[derive(Debug, Clone)]
pub struct ApiPage<T> {
    pub items: Vec<T>,
    pub next: Option<String>,
}

#[derive(Debug, Clone)]
pub struct ApiArtist {
    pub uri: String,
    pub name: String,
}

#[derive(Debug, Clone)]
pub struct ApiCopyright {
    pub text: String,
}

/// A track of an album as the Web API gives it.
#[derive(Debug, Clone)]
pub struct ApiTrack {
    pub uri: String,
    pub name: String,
    pub artists: Vec<ApiArtist>,
    pub track_number: u32,
    pub disc_number: u32,
    pub duration_ms: u32,
    pub explicit: bool,
}

/// An album as the Web API gives it.
#[derive(Debug, Clone)]
pub struct ApiAlbum {
    pub uri: String,
    pub name: String,
    pub release_date: String,
    pub artists: Vec<ApiArtist>,
    pub images: Vec<ApiImage>,
    pub label: Option<String>,
    pub copyrights: Vec<ApiCopyright>,
    pub tracks: Option<ApiPage<ApiTrack>>,
}

/// The disc number a track has when the Web API leaves it out.
pub fn one() -> (r: u32)
    ensures
        r == 1,
{
    1
}

pub fn artist_ref(artist: ApiArtist) -> (r: ArtistRef)
    ensures
        r.uri == artist.uri,
        r.name == artist.name,
{
    ArtistRef { uri: artist.uri, name: artist.name }
}

fn artist_refs(artists: Vec<ApiArtist>) -> (r: Vec<ArtistRef>)
    ensures
        r@.len() == artists@.len(),
        forall|i: int|
            0 <= i < r@.len() ==> (#[trigger] r@[i]).uri == artists@[i].uri && r@[i].name
                == artists@[i].name,
{
    let mut out: Vec<ArtistRef> = Vec::new();
    let mut artists = artists;
    let ghost all = artists@;
    let mut i: usize = 0;
    let n = artists.len();
    while i < n
        invariant
            n == all.len(),
            artists@ == all,
            out@.len() == i,
            i <= n,
            forall|k: int|
                0 <= k < i ==> (#[trigger] out@[k]).uri == all[k].uri && out@[k].name == all[k].name,
        decreases n - i,
    {
        let a = &artists[i];
        out.push(ArtistRef { uri: a.uri.clone(), name: a.name.clone() });
        i += 1;
    }
    out
}

impl ApiTrack {
    /// The track as the library shows it, with the album's cover.
    pub fn info(self, cover_id: Option<String>) -> (r: TrackInfo)
        ensures
            r.uri == self.uri,
            r.name == self.name,
            r.artists@.len() == self.artists@.len(),
            forall|i: int|
                0 <= i < r.artists@.len() ==> (#[trigger] r.artists@[i]).uri == self.artists@[i].uri
                    && r.artists@[i].name == self.artists@[i].name,
            r.cover_id == cover_id,
            r.number == self.track_number,
            r.disc == self.disc_number,
            r.duration_ms == self.duration_ms,
            r.is_explicit == self.explicit,
            r.plays is None,
    {
        TrackInfo {
            uri: self.uri,
            name: self.name,
            artists: artist_refs(self.artists),
            cover_id,
            number: self.track_number,
            disc: self.disc_number,
            duration_ms: self.duration_ms,
            is_explicit: self.explicit,
            plays: None,
        }
    }
}

fn copy_opt(s: &Option<String>) -> (r: Option<String>)
    ensures
        r == *s,
{
    match s {
        Some(t) => Some(t.clone()),
        None => None,
    }
}

/// The album as the library shows it, from the album and the tracks of the pages
/// that follow its first one; every track gets the album's widest cover. An album
/// without its first page of tracks is refused.
pub fn album_info(album: ApiAlbum, more: Vec<ApiTrack>) -> (r: Result<AlbumInfo, CatalogError>)
    ensures
        album.tracks is None <==> r is Err,
        r is Err ==> r->Err_0 == CatalogError::MissingTracks,
        r is Ok ==> {
            let info = r->Ok_0;
            let first = album.tracks->0.items@;
            &&& info.uri == album.uri
            &&& info.name == album.name
            &&& info.year as int == spec_year(album.release_date@)
            &&& info.label@ == match album.label {
                Some(l) => l@,
                None => seq![],
            }
            &&& info.copyrights@.len() == album.copyrights@.len()
            &&& forall|i: int|
                0 <= i < info.copyrights@.len() ==> #[trigger] info.copyrights@[i] == album.copyrights@[i].text
            &&& info.artists@.len() == album.artists@.len()
            &&& forall|i: int|
                0 <= i < info.artists@.len() ==> (#[trigger] info.artists@[i]).uri == album.artists@[i].uri
                    && info.artists@[i].name == album.artists@[i].name
            &&& info.images_cover_matches(album.images@)
            &&& info.tracks@.len() == first.len() + more@.len()
            &&& forall|i: int|
                0 <= i < info.tracks@.len() ==> {
                    let t = if i < first.len() {
                        first[i]
                    } else {
                        more@[i - first.len()]
                    };
                    &&& (#[trigger] info.tracks@[i]).uri == t.uri
                    &&& info.tracks@[i].name == t.name
                    &&& info.tracks@[i].number == t.track_number
                    &&& info.tracks@[i].disc == t.disc_number
                    &&& info.tracks@[i].duration_ms == t.duration_ms
                    &&& info.tracks@[i].is_explicit == t.explicit
                    &&& info.tracks@[i].cover_id == info.cover_id
                    &&& info.tracks@[i].plays is None
                }
        },
{
    let ApiAlbum { uri, name, release_date, artists, images, label, copyrights, tracks } = album;
    let page = match tracks {
        Some(p) => p,
        None => return Err(CatalogError::MissingTracks),
    };
    let cover = largest_image(images.as_slice());
    let ghost first = page.items@;
    let mut infos: Vec<TrackInfo> = Vec::new();
    let mut items = page.items;
    let mut all: Vec<ApiTrack> = Vec::new();
    all.append(&mut items);
    let mut rest = more;
    let ghost more_v = rest@;
    all.append(&mut rest);
    let ghost everything = all@;
    assert(everything =~= first + more_v);
    let n = all.len();
    let mut i: usize = 0;
    while i < n
        invariant
            n == everything.len(),
            all@ == everything,
            i <= n,
            infos@.len() == i,
            forall|k: int|
                0 <= k < i ==> {
                    let t = everything[k];
                    &&& (#[trigger] infos@[k]).uri == t.uri
                    &&& infos@[k].name == t.name
                    &&& infos@[k].number == t.track_number
                    &&& infos@[k].disc == t.disc_number
                    &&& infos@[k].duration_ms == t.duration_ms
                    &&& infos@[k].is_explicit == t.explicit
                    &&& infos@[k].cover_id == cover
                    &&& infos@[k].plays is None
                },
        decreases n - i,
    {
        let t = &all[i];
        let track = ApiTrack {
            uri: t.uri.clone(),
            name: t.name.clone(),
            artists: copy_artists(&t.artists),
            track_number: t.track_number,
            disc_number: t.disc_number,
            duration_ms: t.duration_ms,
            explicit: t.explicit,
        };
        infos.push(track.info(copy_opt(&cover)));
        i += 1;
    }
    let mut texts: Vec<String> = Vec::new();
    let m = copyrights.len();
    for k in 0..m
        invariant
            m == copyrights@.len(),
            texts@.len() == k,
            forall|j: int| 0 <= j < k ==> #[trigger] texts@[j] == copyrights@[j].text,
    {
        texts.push(copyrights[k].text.clone());
    }
    let year = year(release_date.as_str());
    let label = match label {
        Some(l) => l,
        None => String::new(),
    };
    Ok(
        AlbumInfo {
            uri,
            name,
            artists: artist_refs(artists),
            year,
            label,
            copyrights: texts,
            cover_id: cover,
            tracks: infos,
        },
    )
}

fn copy_artists(artists: &Vec<ApiArtist>) -> (r: Vec<ApiArtist>)
    ensures
        r@.len() == artists@.len(),
        forall|i: int|
            0 <= i < r@.len() ==> (#[trigger] r@[i]).uri == artists@[i].uri && r@[i].name
                == artists@[i].name,
{
    let mut out: Vec<ApiArtist> = Vec::new();
    let n = artists.len();
    for i in 0..n
        invariant
            n == artists@.len(),
            out@.len() == i,
            forall|k: int|
                0 <= k < i ==> (#[trigger] out@[k]).uri == artists@[k].uri && out@[k].name
                    == artists@[k].name,
    {
        out.push(ApiArtist { uri: artists[i].uri.clone(), name: artists[i].name.clone() });
    }
    out
}

impl AlbumInfo {
    /// The album's cover is the url of its widest image.
    pub open spec fn images_cover_matches(self, images: Seq<ApiImage>) -> bool {
        &&& images.len() == 0 <==> self.cover_id is None
        &&& self.cover_id is Some ==> exists|k: int|
            widest_image(images, k) && self.cover_id->0 == images[k].url
    }
}


/// Where the Web API serves an album: the albums endpoint and the album's id.
pub open spec fn album_base(id: Seq<char>) -> Seq<char> {
    "https://api.spotify.com/v1/albums/"@ + id
}

/// The URL of an album of the Web API, as sold in `market`; refused where the uri is
/// not an album's.
pub fn album_url(uri: &str, market: &str) -> (r: Result<String, CatalogError>)
    ensures
        match spec_spotify_id(uri@, "album"@) {
            None => r is Err && r->Err_0 is InvalidUri,
            Some(id) => match url_with_query_of(album_base(id), seq![("market"@, market@)]) {
                Some(u) => r is Ok && r->Ok_0@ == u,
                None => r == Err::<String, CatalogError>(CatalogError::InvalidUrl),
            },
        },
{
    let id = match spotify_id(uri, "album") {
        Ok(id) => id,
        Err(e) => return Err(e),
    };
    let mut base = chars_of("https://api.spotify.com/v1/albums/");
    let ghost head = base@;
    let mut rest = chars_of(id.as_str());
    base.append(&mut rest);
    assert(base@ =~= album_base(id@));
    let base = string_from_chars(base.as_slice());
    let mut pairs: Vec<(String, String)> = Vec::new();
    pairs.push((String::from_str("market"), market.to_string()));
    assert(pairs_view(pairs@) =~= seq![("market"@, market@)]);
    match with_query(base.as_str(), &pairs) {
        Ok(u) => Ok(u),
        Err(_) => Err(CatalogError::InvalidUrl),
    }
}

} // verus!
