//! The read pipeline. A read is one independent operation: build the
//! address, consult the cache when caching is enabled, otherwise or on a
//! miss fetch, and write through on success. The cache lookup and the
//! fetch are performed by the host; this module decides every step between
//! them, as transitions of a [`ReadRequest`], so the whole decision path is
//! verified whichever backend carries the transport.

use vstd::prelude::*;
use vstd::string::*;

use crate::content_cache::{cache_read_spec, cache_write_spec};
use crate::fetch::{classify_response, FetchEvent, FetchOutcome, ReadError, TransportCause};
use crate::web_asset_source::{
    has_extension, protocol_prefix, query_suffix, stripped_path, ReaderConfig, WebAssetReader,
};

verus! {

/// Where a read stands. `Finished` is terminal: no transition takes a
/// finished request.
#[derive(PartialEq, Eq, Debug)]
pub enum ReadState {
    /// The cache must be consulted before any network work.
    CacheLookup,
    /// A fetch of the request's address is owed.
    Fetching,
    /// The read's result as the caller sees it.
    Finished(Result<Vec<u8>, ReadError>),
}

/// One read in flight: its address, whether write-through caching applies,
/// and where it stands.
#[derive(PartialEq, Eq, Debug)]
pub struct ReadRequest {
    /// The fully qualified address being read.
    pub uri: String,
    /// Whether the cache takes part in this read.
    pub cache_enabled: bool,
    /// Where the read stands.
    pub state: ReadState,
}

impl WebAssetReader {
    /// Starts a read of an asset path: the address is built, and the
    /// request heads for the cache when caching is enabled, else straight
    /// for the network.
    pub fn begin_read(&self, path: &str) -> (r: ReadRequest)
        ensures
            r.uri@ == protocol_prefix(self.connection) + path@,
            r.cache_enabled == self.cache_resource,
            r.state == (if self.cache_resource {
                ReadState::CacheLookup
            } else {
                ReadState::Fetching
            }),
    {
        let uri = self.connection.make_uri(path);
        let state = if self.cache_resource {
            ReadState::CacheLookup
        } else {
            ReadState::Fetching
        };
        ReadRequest { uri, cache_enabled: self.cache_resource, state }
    }

    /// Starts a read under a configuration: as [`Self::begin_read`], with
    /// fake-extension stripping and the query suffix applied to the
    /// address.
    pub fn begin_read_with(&self, path: &str, config: &ReaderConfig) -> (r: ReadRequest)
        ensures
            r.uri@ == protocol_prefix(self.connection) + stripped_path(
                path@,
                config.strip_fake_extensions,
            ) + query_suffix(config.query.deep_view()),
            r.cache_enabled == self.cache_resource,
            r.state == (if self.cache_resource {
                ReadState::CacheLookup
            } else {
                ReadState::Fetching
            }),
    {
        let uri = self.connection.make_uri_with(path, config);
        let state = if self.cache_resource {
            ReadState::CacheLookup
        } else {
            ReadState::Fetching
        };
        ReadRequest { uri, cache_enabled: self.cache_resource, state }
    }

    /// Starts a metadata read. With `reject_meta_request` set it is
    /// finished at once as NotFound, before any cache or network step; a
    /// path without an extension has no metadata address and is finished
    /// the same way; otherwise the read proceeds as an ordinary read of
    /// the metadata address.
    pub fn begin_read_meta(&self, path: &str) -> (r: ReadRequest)
        ensures
            self.reject_meta_request ==> (r.uri@.len() == 0 && !r.cache_enabled && (r.state
                matches ReadState::Finished(Err(ReadError::NotFound(m))) && m@
                == "meta request rejected"@)),
            !self.reject_meta_request && !has_extension(path@) ==> (r.uri@.len() == 0
                && !r.cache_enabled && (r.state matches ReadState::Finished(
                Err(ReadError::NotFound(m)),
            ) && m@ == "source path has no extension"@)),
            !self.reject_meta_request && has_extension(path@) ==> (r.uri@ == protocol_prefix(
                self.connection,
            ) + path@ + ".meta"@ && r.cache_enabled == self.cache_resource && r.state == (
            if self.cache_resource {
                ReadState::CacheLookup
            } else {
                ReadState::Fetching
            })),
    {
        if self.reject_meta_request {
            return ReadRequest {
                uri: String::new(),
                cache_enabled: false,
                state: ReadState::Finished(
                    Err(ReadError::NotFound(String::from_str("meta request rejected"))),
                ),
            };
        }
        match self.connection.make_meta_uri(path) {
            Some(uri) => {
                let state = if self.cache_resource {
                    ReadState::CacheLookup
                } else {
                    ReadState::Fetching
                };
                ReadRequest { uri, cache_enabled: self.cache_resource, state }
            },
            None => ReadRequest {
                uri: String::new(),
                cache_enabled: false,
                state: ReadState::Finished(
                    Err(ReadError::NotFound(String::from_str("source path has no extension"))),
                ),
            },
        }
    }
}

impl ReadRequest {
    /// Feeds the cache lookup's answer to a read: a hit finishes it with
    /// the stored bytes and no fetch is owed; a miss sends it to the
    /// network.
    pub fn on_cache_result(self, found: Option<Vec<u8>>) -> (r: ReadRequest)
        requires
            self.state is CacheLookup,
        ensures
            r.uri == self.uri,
            r.cache_enabled == self.cache_enabled,
            (match found {
                Some(b) => r.state matches ReadState::Finished(Ok(rb)) && rb@ == b@,
                None => r.state is Fetching,
            }),
    {
        match found {
            Some(bytes) => ReadRequest {
                uri: self.uri,
                cache_enabled: self.cache_enabled,
                state: ReadState::Finished(Ok(bytes)),
            },
            None => ReadRequest {
                uri: self.uri,
                cache_enabled: self.cache_enabled,
                state: ReadState::Fetching,
            },
        }
    }

    /// Feeds the transport's observation to a fetching read. The outcome
    /// classification is shared with both backends: 200 finishes the read
    /// with the body and owes the bytes to the cache when caching is
    /// enabled; 404 finishes it as NotFound under the request's address;
    /// anything else is a transport error. Only a success yields bytes to
    /// write through.
    pub fn on_fetch_event(self, ev: FetchEvent) -> (r: (ReadRequest, Option<Vec<u8>>))
        requires
            self.state is Fetching,
        ensures
            r.0.uri == self.uri,
            r.0.cache_enabled == self.cache_enabled,
            (match ev {
                FetchEvent::Response(s, b) => {
                    if s == 200 {
                        (r.0.state matches ReadState::Finished(Ok(rb)) && rb@ == b@) && (match r.1 {
                            Some(w) => self.cache_enabled && w@ == b@,
                            None => !self.cache_enabled,
                        })
                    } else if s == 404 {
                        (r.0.state matches ReadState::Finished(Err(ReadError::NotFound(a))) && a@
                            == self.uri@) && r.1 is None
                    } else {
                        r.0.state == ReadState::Finished(
                            Err(ReadError::Transport(TransportCause::Status(s))),
                        ) && r.1 is None
                    }
                },
                FetchEvent::ConnectionFailed => r.0.state == ReadState::Finished(
                    Err(ReadError::Transport(TransportCause::Connection)),
                ) && r.1 is None,
            }),
    {
        let outcome = classify_response(self.uri.as_str(), ev);
        match outcome {
            FetchOutcome::Success(body) => {
                let write_through = if self.cache_enabled {
                    Some(vstd::slice::slice_to_vec(body.as_slice()))
                } else {
                    None
                };
                (
                    ReadRequest {
                        uri: self.uri,
                        cache_enabled: self.cache_enabled,
                        state: ReadState::Finished(Ok(body)),
                    },
                    write_through,
                )
            },
            FetchOutcome::NotFound(address) => (
                ReadRequest {
                    uri: self.uri,
                    cache_enabled: self.cache_enabled,
                    state: ReadState::Finished(Err(ReadError::NotFound(address))),
                },
                None,
            ),
            FetchOutcome::TransportError(cause) => (
                ReadRequest {
                    uri: self.uri,
                    cache_enabled: self.cache_enabled,
                    state: ReadState::Finished(Err(ReadError::Transport(cause))),
                },
                None,
            ),
        }
    }
}

impl WebAssetReader {
    /// Remote addresses have no directory concept.
    pub fn is_directory(&self, _path: &str) -> (r: bool)
        ensures
            !r,
    {
        false
    }

    /// Directory listing over a remote address is unsupported: it always
    /// fails as NotFound under the address the path resolves to.
    pub fn read_directory(&self, path: &str) -> (r: Result<Vec<String>, ReadError>)
        ensures
            r matches Err(ReadError::NotFound(a)) && a@ == protocol_prefix(self.connection)
                + path@,
    {
        Err(ReadError::NotFound(self.connection.make_uri(path)))
    }
}

/// Law: with caching enabled, a second read of an address whose first
/// read fetched `body` and wrote it through never reaches the network.
/// Whatever the store held before, its lookup after the write-through
/// must answer with exactly `body`, and a read in its cache-lookup state
/// fed that answer is finished with `body`: it is never left owing a
/// fetch.
pub proof fn lemma_second_read_skips_fetch(
    m: Map<Seq<char>, Seq<u8>>,
    req: ReadRequest,
    body: Seq<u8>,
    found: Option<Vec<u8>>,
    next: ReadRequest,
)
    requires
        req.cache_enabled,
        req.state is CacheLookup,
        // what the store's read yields once the first read wrote through
        (match found {
            Some(b) => cache_read_spec(cache_write_spec(m, req.uri@, body), req.uri@) == Some(
                b@,
            ),
            None => cache_read_spec(cache_write_spec(m, req.uri@, body), req.uri@) is None,
        }),
        call_ensures(ReadRequest::on_cache_result, (req, found), next),
    ensures
        found matches Some(b) && b@ == body,
        next.state matches ReadState::Finished(Ok(rb)) && rb@ == body,
        !(next.state is Fetching),
{
}

} // verus!
