use vstd::prelude::*;

verus! {

/// An artist as a link: its Spotify uri (empty when there is none) and name.
#[derive(Debug, Clone, PartialEq, Eq)]
pub struct ArtistRef {
    pub uri: String,
    pub name: String,
}

#[derive(Debug, Clone)]
pub struct TrackInfo {
    pub uri: String,
    pub name: String,
    pub artists: Vec<ArtistRef>,
    pub cover_id: Option<String>,
    pub number: u32,
    pub disc: u32,
    pub duration_ms: u32,
    pub is_explicit: bool,
    pub plays: Option<u64>,
}

#[derive(Debug, Clone)]
pub struct AlbumRef {
    pub uri: String,
    pub name: String,
    pub year: i32,
    pub cover_id: Option<String>,
    pub artists: Vec<ArtistRef>,
}

#[derive(Debug, Clone)]
pub struct ArtistCard {
    pub uri: String,
    pub name: String,
    pub portrait: Option<String>,
}

#[derive(Debug, Clone)]
pub struct ArtistInfo {
    pub uri: String,
    pub name: String,
    pub portrait_id: Option<String>,
    pub banner: Option<String>,
    pub biography: Option<String>,
    pub monthly_listeners: Option<u64>,
    pub top_tracks: Vec<TrackInfo>,
    pub albums: Vec<AlbumRef>,
    pub singles: Vec<AlbumRef>,
    pub singles_total: usize,
    pub compilations: Vec<AlbumRef>,
    pub appears_on: Vec<AlbumRef>,
    pub related: Vec<ArtistCard>,
}

#[derive(Debug, Clone)]
pub struct AlbumInfo {
    pub uri: String,
    pub name: String,
    pub artists: Vec<ArtistRef>,
    pub year: i32,
    pub label: String,
    pub copyrights: Vec<String>,
    pub cover_id: Option<String>,
    pub tracks: Vec<TrackInfo>,
}

#[derive(Debug, Clone)]
pub struct PlaylistRef {
    pub uri: String,
    pub name: String,
    pub owner: String,
    pub length: usize,
    pub picture: Option<String>,
}

#[derive(Debug, Clone)]
pub struct PlaylistInfo {
    pub uri: String,
    pub name: String,
    pub description: String,
    pub owner: String,
    pub updated_at_ms: i64,
    pub tracks: Vec<TrackInfo>,
}

#[derive(Debug, Clone)]
pub struct Profile {
    pub name: String,
    pub avatar: Option<String>,
}

/// The groups an artist's releases fall into.
#[derive(Debug, Clone, Copy, PartialEq, Eq, Hash, Structural)]
pub enum ReleaseGroup {
    Albums,
    Singles,
    Compilations,
    AppearsOn,
}

} // verus!
