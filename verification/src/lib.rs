//! Load assets over the network through the host's ordinary read-by-path
//! interface: paths whose scheme is `http` or `https` are resolved to fully
//! qualified addresses, fetched, optionally cached on disk, and local files
//! can be watched so that changes flow back to the host as reload requests.

use vstd::prelude::*;

pub mod change_watch;
pub mod content_cache;
pub mod fetch;
pub mod pipeline;
mod strutil;
pub mod web_asset_source;

pub use change_watch::WatchEvent;
pub use change_watch::WatchEventKind;
pub use content_cache::ContentCache;
pub use fetch::FetchEvent;
pub use fetch::FetchOutcome;
pub use fetch::ReadError;
pub use fetch::TransportCause;
pub use pipeline::ReadRequest;
pub use pipeline::ReadState;
pub use strutil::str_starts_with;
pub use web_asset_source::ReaderConfig;
pub use web_asset_source::WebAssetReader;
pub use web_asset_source::WebAssetReaderConnection;

verus! {

/// A path is remote when it carries an explicit web scheme prefix.
pub open spec fn is_http_spec(path: Seq<char>) -> bool {
    "http://"@.is_prefix_of(path) || "https://"@.is_prefix_of(path)
}

/// Decides whether a path must be fetched over the network rather than read
/// from local storage.
pub fn is_http(path: &str) -> (r: bool)
    ensures
        r == is_http_spec(path@),
{
    str_starts_with(path, "http://") || str_starts_with(path, "https://")
}

} // verus!
