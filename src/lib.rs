//! A client core for a media-streaming service's private API: the session
//! protocol with its single token refresh, per-track key derivation, and the
//! chunked decryptor of the obfuscated media stream.
pub mod crypto;
pub mod error;
pub mod keys;
pub mod model;
pub mod pending;
pub mod session;
pub mod stream;
pub mod tabs;

pub use error::Error;
pub use keys::{decimal_ascii, generate_blowfish_key, generate_url_key, hex_bytes, stream_location};
pub use model::{
    Album, AlbumDetails, Artist, ArtistDetails, DetailsApi, Playlist, PlaylistDetails,
    SearchResult, SmallUser, Track, TrackLyrics, User, UserFamily, UserInfo, UserLibrary,
};
pub use session::{Action, Credentials, Failure, Phase, Protocol, Reply};
pub use stream::{
    copy_range, obfuscate, try_read_exact, ByteSource, ChunkDecoder, MemorySource, Mp3Stream,
    ReadExact,
    CHUNK_LEN,
};
pub use tabs::{Item, ItemKind, Tab, TabHistory, TabKind};
