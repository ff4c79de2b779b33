//! Response classification and request building. Both fetch backends (a
//! blocking-capable one and a cooperative one) perform the transport call
//! outside this library and hand the observed status and body back as a
//! [`FetchEvent`]; everything that is decided about that event is decided
//! here, once, so the backends cannot drift apart.

use vstd::prelude::*;
use vstd::string::*;

use crate::web_asset_source::{
    protocol_prefix, query_suffix, stripped_path, ReaderConfig, WebAssetReaderConnection,
};

verus! {

/// Why a fetch failed at transport level: a status other than 200 or 404,
/// or no usable response at all (DNS, timeout, refused connection,
/// malformed body).
#[derive(Clone, Copy, PartialEq, Eq, Structural, Debug)]
pub enum TransportCause {
    /// The origin answered with this status.
    Status(u16),
    /// The connection or the response body failed before a status and body
    /// were available.
    Connection,
}

/// An error surfaced to the caller of a read.
#[derive(PartialEq, Eq, Debug)]
pub enum ReadError {
    /// The asset does not exist under this address, or the request was
    /// undefined (no extension for a metadata read) or rejected by policy.
    NotFound(String),
    /// The transport failed; never used for a clean 404.
    Transport(TransportCause),
}

/// What one fetch attempt produced.
#[derive(PartialEq, Eq, Debug)]
pub enum FetchOutcome {
    /// Status 200: the asset's bytes.
    Success(Vec<u8>),
    /// Status 404: the address that was not found.
    NotFound(String),
    /// Any other status, or a connection-level failure.
    TransportError(TransportCause),
}

/// What the transport observed: a status with its body, or a failure
/// before both were available.
#[derive(PartialEq, Eq, Debug)]
pub enum FetchEvent {
    /// A response arrived with this status code and body.
    Response(u16, Vec<u8>),
    /// No response: connection-level failure, or the body could not be
    /// read.
    ConnectionFailed,
}

/// Maps a transport observation for `address` to an outcome: 200 is
/// success with the body, 404 is not-found, anything else is a transport
/// error. A connection-level failure is never not-found.
pub fn classify_response(address: &str, ev: FetchEvent) -> (r: FetchOutcome)
    ensures
        (match ev {
            FetchEvent::Response(s, b) => {
                if s == 200 {
                    r matches FetchOutcome::Success(rb) && rb@ == b@
                } else if s == 404 {
                    r matches FetchOutcome::NotFound(a) && a@ == address@
                } else {
                    r == FetchOutcome::TransportError(TransportCause::Status(s))
                }
            },
            FetchEvent::ConnectionFailed => r == FetchOutcome::TransportError(
                TransportCause::Connection,
            ),
        }),
{
    match ev {
        FetchEvent::Response(status, body) => {
            if status == 200 {
                FetchOutcome::Success(body)
            } else if status == 404 {
                FetchOutcome::NotFound(address.to_owned())
            } else {
                FetchOutcome::TransportError(TransportCause::Status(status))
            }
        },
        FetchEvent::ConnectionFailed => FetchOutcome::TransportError(TransportCause::Connection),
    }
}

impl FetchOutcome {
    /// The outcome as the caller of a read sees it.
    pub fn into_result(self) -> (r: Result<Vec<u8>, ReadError>)
        ensures
            (match self {
                FetchOutcome::Success(b) => r matches Ok(rb) && rb@ == b@,
                FetchOutcome::NotFound(a) => r matches Err(ReadError::NotFound(ra)) && ra@ == a@,
                FetchOutcome::TransportError(c) => r == Result::<Vec<u8>, ReadError>::Err(
                    ReadError::Transport(c),
                ),
            }),
    {
        match self {
            FetchOutcome::Success(bytes) => Ok(bytes),
            FetchOutcome::NotFound(address) => Err(ReadError::NotFound(address)),
            FetchOutcome::TransportError(cause) => Err(ReadError::Transport(cause)),
        }
    }
}

/// A fully prepared request: the address to fetch and the headers to
/// attach.
pub struct FetchRequest {
    /// The address the transport is asked for.
    pub url: String,
    /// Header pairs, the caller's first, then the user-agent when one is
    /// configured.
    pub headers: Vec<(String, String)>,
}

/// The headers a request carries: the configured pairs in order, and the
/// user-agent appended when one is set.
pub open spec fn request_headers(
    headers: Seq<(Seq<char>, Seq<char>)>,
    user_agent: Option<Seq<char>>,
) -> Seq<(Seq<char>, Seq<char>)> {
    match user_agent {
        None => headers,
        Some(ua) => headers.push(("user-agent"@, ua)),
    }
}

impl WebAssetReaderConnection {
    /// Prepares the request for a path under a configuration: the address
    /// with stripping and query applied, and the headers to attach.
    pub fn build_request(&self, path: &str, config: &ReaderConfig) -> (r: FetchRequest)
        ensures
            r.url@ == protocol_prefix(*self) + stripped_path(
                path@,
                config.strip_fake_extensions,
            ) + query_suffix(config.query.deep_view()),
            r.headers.deep_view() == request_headers(
                config.headers.deep_view(),
                config.user_agent.deep_view(),
            ),
    {
        let url = self.make_uri_with(path, config);
        let mut headers: Vec<(String, String)> = Vec::new();
        let n = config.headers.len();
        let mut i: usize = 0;
        while i < n
            invariant
                n == config.headers.len(),
                i <= n,
                headers@.len() == i,
                forall|j: int| 0 <= j < i ==> headers@[j] == config.headers@[j],
            decreases n - i,
        {
            let name = config.headers[i].0.clone();
            let value = config.headers[i].1.clone();
            headers.push((name, value));
            i += 1;
        }
        proof {
            assert(headers@ =~= config.headers@);
        }
        match &config.user_agent {
            Some(ua) => {
                headers.push((String::from_str("user-agent"), ua.clone()));
                proof {
                    assert(headers.deep_view() =~= request_headers(
                        config.headers.deep_view(),
                        config.user_agent.deep_view(),
                    ));
                }
            },
            None => {
                proof {
                    assert(headers.deep_view() =~= config.headers.deep_view());
                }
            },
        }
        FetchRequest { url, headers }
    }
}

} // verus!
