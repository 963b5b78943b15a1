//! Endpoints of the remote service and the shapes of the records it returns.
use vstd::prelude::*;

verus! {

/// The acting user's own profile.
pub const GET_USER: &'static str = "https://api.spotify.com/v1/me";

/// The first page of the saved tracks.
pub const SAVED_TRACKS: &'static str = "https://api.spotify.com/v1/me/tracks?limit=50";

/// Where saved tracks are removed, by id.
pub const SAVED_TRACKS_REMOVAL: &'static str = "https://api.spotify.com/v1/me/tracks";

/// The first page of the user's playlists.
pub const ALL_PLAYLISTS: &'static str = "https://api.spotify.com/v1/me/playlists?limit=50";

/// Where a playlist is created, up to the user id.
pub const PLAYLIST_CREATION_PREFIX: &'static str = "https://api.spotify.com/v1/users/";

/// Where a playlist is created, after the user id.
pub const PLAYLIST_CREATION_SUFFIX: &'static str = "/playlists";

/// Where artists are looked up, by a comma-separated list of ids.
pub const ARTISTS_INFO: &'static str = "https://api.spotify.com/v1/artists";

/// One page of a cursor-paginated result.
pub struct Paging<T> {
    pub items: Vec<T>,
    pub limit: u64,
    pub next: Option<String>,
    pub total: u64,
}

/// An entry of the user's saved tracks.
pub struct SavedTrack {
    pub track: Track,
}

/// A track with its artists and album.
pub struct Track {
    pub name: String,
    pub artists: Vec<SimplifiedArtist>,
    pub album: SimplifiedAlbum,
    pub id: String,
    pub uri: String,
}

/// An artist as it appears inside a track.
pub struct SimplifiedArtist {
    pub name: String,
    pub id: String,
}

/// An album as it appears inside a track.
pub struct SimplifiedAlbum {
    pub album_type: String,
    pub name: String,
    pub release_date: String,
    pub id: String,
}

/// A playlist as listed among the user's playlists.
pub struct SimplifiedPlaylist {
    pub name: String,
    pub owner: User,
    pub tracks: Tracks,
    pub snapshot_id: String,
    pub id: String,
    pub uri: String,
}

/// An entry of a playlist.
pub struct PlaylistTrack {
    pub track: Track,
}

/// Where a playlist's tracks are listed and changed, and how many it holds.
pub struct Tracks {
    pub href: String,
    pub total: u64,
}

/// A user, by id.
pub struct User {
    pub id: String,
}

/// The answer to an artist lookup.
pub struct ArtistsResponse {
    pub artists: Vec<FullArtist>,
}

/// An artist with the genres it is filed under.
pub struct FullArtist {
    pub id: String,
    pub name: String,
    pub genres: Vec<String>,
}

} // verus!
