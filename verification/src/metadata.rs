use crate::model::{AlbumInfo, AlbumRef, ArtistCard, ArtistInfo, ArtistRef, TrackInfo};
use vstd::prelude::*;

verus! {

/// An image of the metadata service: its width and its file id in hexadecimal (none
/// where the id does not convert).
#[derive(Debug, Clone)]
pub struct MetaImage {
    pub width: i32,
    pub id: Option<String>,
}

/// An artist as the metadata service links it: its uri (none where the id does not
/// form one) and its name.
#[derive(Debug, Clone)]
pub struct MetaArtist {
    pub uri: Option<String>,
    pub name: String,
}

/// An album of the metadata service.
#[derive(Debug, Clone)]
pub struct MetaAlbum {
    pub uri: Option<String>,
    pub name: String,
    pub year: i32,
    pub artists: Vec<MetaArtist>,
    pub label: String,
    pub copyrights: Vec<String>,
    pub covers: Vec<MetaImage>,
    pub cover_group: Vec<MetaImage>,
}

/// A track of the metadata service, with its album's covers.
#[derive(Debug, Clone)]
pub struct MetaTrack {
    pub uri: Option<String>,
    pub name: String,
    pub artists: Vec<MetaArtist>,
    pub number: i32,
    pub disc_number: i32,
    pub duration: i32,
    pub is_explicit: bool,
    pub album_covers: Vec<MetaImage>,
    pub album_cover_group: Vec<MetaImage>,
}

/// An artist of the metadata service.
#[derive(Debug, Clone)]
pub struct MetaArtistPage {
    pub uri: Option<String>,
    pub name: String,
    pub portraits: Vec<MetaImage>,
    pub portrait_group: Vec<MetaImage>,
    pub biographies: Vec<String>,
    pub related: Vec<MetaArtist>,
}

/// Index `k` holds the widest image, the last of equally wide ones.
pub open spec fn widest_at(images: Seq<MetaImage>, k: int) -> bool {
    &&& 0 <= k < images.len()
    &&& forall|j: int| 0 <= j < images.len() ==> (#[trigger] images[j]).width <= images[k].width
    &&& forall|j: int| k < j < images.len() ==> (#[trigger] images[j]).width < images[k].width
}

/// The id of the widest image, where there is one and its id converts.
pub open spec fn spec_largest_image(images: Seq<MetaImage>) -> Option<String> {
    if exists|k: int| widest_at(images, k) {
        images[choose|k: int| widest_at(images, k)].id
    } else {
        None
    }
}

fn widest(images: &Vec<MetaImage>) -> (r: Option<usize>)
    ensures
        match r {
            Some(k) => widest_at(images@, k as int),
            None => images@.len() == 0,
        },
{
    let n = images.len();
    if n == 0 {
        return None;
    }
    let mut best: usize = 0;
    for i in 1..n
        invariant
            n == images@.len(),
            best < i,
            forall|j: int| 0 <= j < i ==> (#[trigger] images@[j]).width <= images@[best as int].width,
            forall|j: int| best < j < i ==> (#[trigger] images@[j]).width < images@[best as int].width,
    {
        if images[i].width >= images[best].width {
            best = i;
        }
    }
    Some(best)
}

proof fn lemma_widest_unique(images: Seq<MetaImage>, k: int)
    requires
        widest_at(images, k),
    ensures
        (choose|j: int| widest_at(images, j)) == k,
{
    let j = choose|j: int| widest_at(images, j);
    if j < k {
        assert(images[k].width < images[j].width);
    } else if j > k {
        assert(images[j].width < images[k].width);
    }
}

/// The id of the widest image.
pub fn largest_image(images: &Vec<MetaImage>) -> (r: Option<String>)
    ensures
        r == spec_largest_image(images@),
{
    match widest(images) {
        Some(k) => {
            proof {
                lemma_widest_unique(images@, k as int);
            }
            match &images[k].id {
                Some(id) => Some(id.clone()),
                None => None,
            }
        },
        None => None,
    }
}

/// The covers to show: the album's own, else its cover group.
pub open spec fn covers_of(covers: Seq<MetaImage>, group: Seq<MetaImage>) -> Seq<MetaImage> {
    if covers.len() == 0 {
        group
    } else {
        covers
    }
}

/// The artists that have a uri, in order.
pub open spec fn artist_refs_of(artists: Seq<MetaArtist>) -> Seq<ArtistRef>
    decreases artists.len(),
{
    if artists.len() == 0 {
        Seq::empty()
    } else {
        let rest = artist_refs_of(artists.drop_last());
        match artists.last().uri {
            Some(uri) => rest.push(ArtistRef { uri, name: artists.last().name }),
            None => rest,
        }
    }
}

pub fn artist_refs(artists: &Vec<MetaArtist>) -> (r: Vec<ArtistRef>)
    ensures
        r@ == artist_refs_of(artists@),
{
    let mut out: Vec<ArtistRef> = Vec::new();
    let n = artists.len();
    for i in 0..n
        invariant
            n == artists@.len(),
            out@ == artist_refs_of(artists@.take(i as int)),
    {
        assert(artists@.take(i + 1).drop_last() =~= artists@.take(i as int));
        match &artists[i].uri {
            Some(uri) => out.push(ArtistRef { uri: uri.clone(), name: artists[i].name.clone() }),
            None => {},
        }
    }
    assert(artists@.take(n as int) =~= artists@);
    out
}

fn pick_covers<'a>(covers: &'a Vec<MetaImage>, group: &'a Vec<MetaImage>) -> (r: &'a Vec<MetaImage>)
    ensures
        r@ == covers_of(covers@, group@),
{
    if covers.len() == 0 {
        group
    } else {
        covers
    }
}

/// An album as a release of the library, where its id forms a uri.
pub fn album_ref(album: &MetaAlbum) -> (r: Option<AlbumRef>)
    ensures
        album.uri is None <==> r is None,
        r matches Some(a) ==> a.uri == album.uri->0 && a.name == album.name && a.year == album.year
            && a.cover_id == spec_largest_image(covers_of(album.covers@, album.cover_group@))
            && a.artists@ == artist_refs_of(album.artists@),
{
    let uri = match &album.uri {
        Some(u) => u.clone(),
        None => return None,
    };
    Some(
        AlbumRef {
            uri,
            name: album.name.clone(),
            year: album.year,
            cover_id: largest_image(pick_covers(&album.covers, &album.cover_group)),
            artists: artist_refs(&album.artists),
        },
    )
}

pub open spec fn clamp_u32(v: i32) -> u32 {
    if v < 0 {
        0
    } else {
        v as u32
    }
}

/// A track as the library shows it, where its id forms a uri; negative numbers read
/// as 0.
pub fn track_info(track: &MetaTrack) -> (r: Option<TrackInfo>)
    ensures
        track.uri is None <==> r is None,
        r matches Some(t) ==> t.uri == track.uri->0 && t.name == track.name && t.artists@
            == artist_refs_of(track.artists@) && t.cover_id == spec_largest_image(
            covers_of(track.album_covers@, track.album_cover_group@),
        ) && t.number == clamp_u32(track.number) && t.disc == clamp_u32(track.disc_number)
            && t.duration_ms == clamp_u32(track.duration) && t.is_explicit == track.is_explicit
            && t.plays is None,
{
    let uri = match &track.uri {
        Some(u) => u.clone(),
        None => return None,
    };
    Some(
        TrackInfo {
            uri,
            name: track.name.clone(),
            artists: artist_refs(&track.artists),
            cover_id: largest_image(pick_covers(&track.album_covers, &track.album_cover_group)),
            number: if track.number < 0 {
                0
            } else {
                track.number as u32
            },
            disc: if track.disc_number < 0 {
                0
            } else {
                track.disc_number as u32
            },
            duration_ms: if track.duration < 0 {
                0
            } else {
                track.duration as u32
            },
            is_explicit: track.is_explicit,
            plays: None,
        },
    )
}

/// An album with its tracks, where its id forms a uri.
pub fn album_info(album: &MetaAlbum, tracks: Vec<TrackInfo>) -> (r: Option<AlbumInfo>)
    ensures
        album.uri is None <==> r is None,
        r matches Some(a) ==> a.uri == album.uri->0 && a.name == album.name && a.year == album.year
            && a.artists@ == artist_refs_of(album.artists@) && a.label == album.label
            && a.copyrights@ == album.copyrights@ && a.cover_id == spec_largest_image(
            covers_of(album.covers@, album.cover_group@),
        ) && a.tracks == tracks,
{
    let uri = match &album.uri {
        Some(u) => u.clone(),
        None => return None,
    };
    let mut copyrights: Vec<String> = Vec::new();
    let n = album.copyrights.len();
    for i in 0..n
        invariant
            n == album.copyrights@.len(),
            copyrights@ == album.copyrights@.take(i as int),
    {
        copyrights.push(album.copyrights[i].clone());
        assert(copyrights@ =~= album.copyrights@.take(i + 1));
    }
    assert(album.copyrights@.take(n as int) =~= album.copyrights@);
    Some(
        AlbumInfo {
            uri,
            name: album.name.clone(),
            artists: artist_refs(&album.artists),
            year: album.year,
            label: album.label.clone(),
            copyrights,
            cover_id: largest_image(pick_covers(&album.covers, &album.cover_group)),
            tracks,
        },
    )
}

/// The related artists that have a uri, as cards without a portrait.
pub open spec fn related_cards(artists: Seq<MetaArtist>) -> Seq<ArtistCard>
    decreases artists.len(),
{
    if artists.len() == 0 {
        Seq::empty()
    } else {
        let rest = related_cards(artists.drop_last());
        match artists.last().uri {
            Some(uri) => rest.push(ArtistCard { uri, name: artists.last().name, portrait: None }),
            None => rest,
        }
    }
}

fn cards(artists: &Vec<MetaArtist>) -> (r: Vec<ArtistCard>)
    ensures
        r@ == related_cards(artists@),
{
    let mut out: Vec<ArtistCard> = Vec::new();
    let n = artists.len();
    for i in 0..n
        invariant
            n == artists@.len(),
            out@ == related_cards(artists@.take(i as int)),
    {
        assert(artists@.take(i + 1).drop_last() =~= artists@.take(i as int));
        match &artists[i].uri {
            Some(uri) => out.push(
                ArtistCard { uri: uri.clone(), name: artists[i].name.clone(), portrait: None },
            ),
            None => {},
        }
    }
    assert(artists@.take(n as int) =~= artists@);
    out
}

/// An artist as the library shows it, from the metadata service and the tracks and
/// releases already looked up, where its id forms a uri: its portrait is the widest
/// of its portraits (else of its portrait group), its biography the first one; the
/// service tells nothing of a banner, listeners or appearances, and the singles it
/// lists are all there are.
pub fn artist_info(
    artist: &MetaArtistPage,
    top_tracks: Vec<TrackInfo>,
    albums: Vec<AlbumRef>,
    singles: Vec<AlbumRef>,
    compilations: Vec<AlbumRef>,
) -> (r: Option<ArtistInfo>)
    ensures
        artist.uri is None <==> r is None,
        r matches Some(a) ==> a.uri == artist.uri->0 && a.name == artist.name && a.portrait_id
            == spec_largest_image(covers_of(artist.portraits@, artist.portrait_group@))
            && a.biography == (if artist.biographies@.len() > 0 {
            Some(artist.biographies@[0])
        } else {
            None::<String>
        }) && a.banner is None && a.monthly_listeners is None && a.top_tracks == top_tracks
            && a.albums == albums && a.singles_total == singles@.len() && a.singles == singles
            && a.compilations == compilations && a.appears_on@.len() == 0 && a.related@
            == related_cards(artist.related@),
{
    let uri = match &artist.uri {
        Some(u) => u.clone(),
        None => return None,
    };
    let biography = if artist.biographies.len() > 0 {
        Some(artist.biographies[0].clone())
    } else {
        None
    };
    let singles_total = singles.len();
    Some(
        ArtistInfo {
            uri,
            name: artist.name.clone(),
            portrait_id: largest_image(pick_covers(&artist.portraits, &artist.portrait_group)),
            banner: None,
            biography,
            monthly_listeners: None,
            top_tracks,
            albums,
            singles,
            singles_total,
            compilations,
            appears_on: Vec::new(),
            related: cards(&artist.related),
        },
    )
}

/// The tracks an artist is best known for in a country: the list for that country,
/// else the first list, at most ten of them.
pub open spec fn spec_top_tracks(lists: Seq<(String, Vec<String>)>, country: Seq<char>) -> Seq<String> {
    let chosen: Option<Seq<String>> = if exists|k: int|
        0 <= k < lists.len() && lists[k].0@ == country && forall|j: int|
            0 <= j < k ==> lists[j].0@ != country {
        Some(
            lists[choose|k: int|
                0 <= k < lists.len() && lists[k].0@ == country && forall|j: int|
                    0 <= j < k ==> lists[j].0@ != country].1@,
        )
    } else if lists.len() > 0 {
        Some(lists[0].1@)
    } else {
        None
    };
    match chosen {
        Some(t) => if t.len() > 10 {
            t.take(10)
        } else {
            t
        },
        None => Seq::empty(),
    }
}

/// The top tracks for a country, from the lists per country.
pub fn top_tracks(lists: &Vec<(String, Vec<String>)>, country: &String) -> (r: Vec<String>)
    ensures
        r@ == spec_top_tracks(lists@, country@),
{
    let n = lists.len();
    let mut found: Option<usize> = None;
    for i in 0..n
        invariant
            n == lists@.len(),
            found matches Some(k) ==> k < i && lists@[k as int].0@ == country@ && forall|j: int|
                0 <= j < k ==> lists@[j].0@ != country@,
            found is None ==> forall|j: int| 0 <= j < i ==> lists@[j].0@ != country@,
    {
        if found.is_none() && lists[i].0 == *country {
            found = Some(i);
        }
    }
    let chosen: Option<usize> = match found {
        Some(k) => {
            proof {
                let c = choose|k2: int|
                    0 <= k2 < lists@.len() && lists@[k2].0@ == country@ && forall|j: int|
                        0 <= j < k2 ==> lists@[j].0@ != country@;
                if c < k {
                    assert(lists@[c].0@ != country@);
                } else if c > k {
                    assert(lists@[k as int].0@ != country@);
                }
            }
            Some(k)
        },
        None => if n > 0 {
            Some(0)
        } else {
            None
        },
    };
    let mut out: Vec<String> = Vec::new();
    match chosen {
        Some(k) => {
            let list = &lists[k].1;
            let m = if list.len() > 10 {
                10
            } else {
                list.len()
            };
            for i in 0..m
                invariant
                    m <= list@.len(),
                    out@ == list@.take(i as int),
            {
                out.push(list[i].clone());
                assert(out@ =~= list@.take(i + 1));
            }
            if list.len() <= 10 {
                assert(list@.take(m as int) =~= list@);
            }
        },
        None => {},
    }
    out
}

/// The first release of each group of releases, in order; empty groups give none.
pub open spec fn spec_group_heads(groups: Seq<Vec<String>>) -> Seq<String>
    decreases groups.len(),
{
    if groups.len() == 0 {
        Seq::empty()
    } else {
        let rest = spec_group_heads(groups.drop_last());
        if groups.last()@.len() > 0 {
            rest.push(groups.last()@[0])
        } else {
            rest
        }
    }
}

pub fn group_heads(groups: &Vec<Vec<String>>) -> (r: Vec<String>)
    ensures
        r@ == spec_group_heads(groups@),
{
    let mut out: Vec<String> = Vec::new();
    let n = groups.len();
    for i in 0..n
        invariant
            n == groups@.len(),
            out@ == spec_group_heads(groups@.take(i as int)),
    {
        assert(groups@.take(i + 1).drop_last() =~= groups@.take(i as int));
        if groups[i].len() > 0 {
            out.push(groups[i][0].clone());
        }
    }
    assert(groups@.take(n as int) =~= groups@);
    out
}

/// The image that stands for a track's cover: the widest of its album's covers and
/// cover group together, the last of equally wide ones.
pub fn track_cover(covers: &Vec<MetaImage>, group: &Vec<MetaImage>) -> (r: Option<usize>)
    requires
        covers@.len() + group@.len() <= usize::MAX,
    ensures
        match r {
            Some(k) => widest_at(covers@ + group@, k as int),
            None => covers@.len() + group@.len() == 0,
        },
{
    let ghost all = covers@ + group@;
    let n = covers.len();
    let total = n + group.len();
    if total == 0 {
        return None;
    }
    let mut best: usize = 0;
    let mut best_width: i32 = if n > 0 {
        covers[0].width
    } else {
        group[0].width
    };
    for i in 1..total
        invariant
            total == all.len(),
            n == covers@.len(),
            all == covers@ + group@,
            best < i,
            best_width == all[best as int].width,
            forall|j: int| 0 <= j < i ==> (#[trigger] all[j]).width <= best_width,
            forall|j: int| best < j < i ==> (#[trigger] all[j]).width < best_width,
    {
        let w = if i < n {
            covers[i].width
        } else {
            group[i - n].width
        };
        assert(w == all[i as int].width);
        if w >= best_width {
            best = i;
            best_width = w;
        }
    }
    Some(best)
}

} // verus!
