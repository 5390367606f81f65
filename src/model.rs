//! The values the service hands back: users, tracks, artists, albums, playlists.
use vstd::prelude::*;

verus! {

/// The raw credentials a session starts from.
#[derive(Clone, Debug, Default)]
pub struct UserInfo {
    pub sid: String,
    pub arl: String,
    pub user_agent: String,
}

/// A member of a family account.
#[derive(Clone, Debug, Default)]
pub struct SmallUser {
    pub id: usize,
    pub name: String,
}

/// The members of a family account.
#[derive(Clone, Debug, Default)]
pub struct UserFamily {
    pub users: Vec<SmallUser>,
}

/// A user's playlists and search history.
#[derive(Clone, Debug, Default)]
pub struct UserLibrary {
    pub playlists: Vec<Playlist>,
    pub history: Vec<String>,
}

/// The signed-in user, with the tokens the session was granted.
#[derive(Clone, Debug, Default)]
pub struct User {
    pub api_token: String,
    pub license_token: String,
    pub id: usize,
    pub created: String,
    pub name: String,
    pub multiaccount: bool,
}

/// The result of a search.
#[derive(Clone, Debug, Default)]
pub struct SearchResult {
    pub top: Option<Artist>,
    pub tracks: Vec<Track>,
    pub artists: Vec<Artist>,
    pub albums: Vec<Album>,
    pub playlists: Vec<Playlist>,
    pub revised_query: Option<String>,
}

/// A playable track: its identifier, title, artists, origin content hash and media version.
#[derive(Clone, Debug, Default)]
pub struct Track {
    pub id: u64,
    pub name: String,
    pub artists: Vec<Artist>,
    pub md5_origin: String,
    pub media_version: u64,
}

/// Whether a byte is an ASCII hex digit.
pub open spec fn is_hex_digit(b: u8) -> bool {
    (48 <= b <= 57) || (97 <= b <= 102) || (65 <= b <= 70)
}

/// An origin content hash: 32 hex digits.
pub open spec fn is_origin_hash(b: Seq<u8>) -> bool {
    b.len() == 32 && forall|i: int| 0 <= i < b.len() ==> is_hex_digit(#[trigger] b[i])
}

impl Track {
    /// Whether the track carries a well-formed origin content hash, without
    /// which its stream cannot be located.
    pub fn has_valid_origin(&self) -> (r: bool)
        ensures
            r == is_origin_hash(vstd::utf8::encode_utf8(self.md5_origin@)),
    {
        let b = self.md5_origin.as_str().as_bytes();
        if b.len() != 32 {
            return false;
        }
        let mut i: usize = 0;
        while i < 32
            invariant
                b@ == vstd::utf8::encode_utf8(self.md5_origin@),
                b@.len() == 32,
                i <= 32,
                forall|k: int| 0 <= k < i ==> is_hex_digit(#[trigger] b@[k]),
            decreases 32 - i,
        {
            let c = b[i];
            if !((48 <= c && c <= 57) || (97 <= c && c <= 102) || (65 <= c && c <= 70)) {
                assert(!is_hex_digit(b@[i as int]));
                return false;
            }
            i += 1;
        }
        true
    }
}

/// The lyrics of a track.
#[derive(Clone, Debug, Default)]
pub struct TrackLyrics {}

#[derive(Clone, Debug, Default)]
pub struct Artist {
    pub id: u64,
    pub name: String,
}

#[derive(Clone, Debug, Default)]
pub struct ArtistDetails {
    pub albums: Vec<Album>,
    pub top_tracks: Vec<Track>,
    pub related: Vec<Artist>,
}

#[derive(Clone, Debug, Default)]
pub struct Album {
    pub id: u64,
    pub name: String,
    pub release_date: String,
}

#[derive(Clone, Debug, Default)]
pub struct AlbumDetails {
    pub tracks: Vec<Track>,
}

#[derive(Clone, Debug, Default)]
pub struct Playlist {
    pub id: u64,
    pub name: String,
    pub last_modified: String,
    pub songs: usize,
}

#[derive(Clone, Debug, Default)]
pub struct PlaylistDetails {
    pub tracks: Vec<Track>,
}

/// Which endpoint a details request goes to.
#[derive(Clone, Copy, Debug, PartialEq, Eq)]
pub enum DetailsApi {
    PipeApi,
    GwLightApi(&'static str),
}

} // verus!
