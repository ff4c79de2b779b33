//! Address resolution: turning a relative asset path and a protocol into the
//! fully qualified address that is fetched, and the companion metadata
//! address.

use vstd::prelude::*;
use vstd::string::*;

use crate::strutil::{find_last, last_index_of, lemma_last_index_of};

verus! {

/// Treats paths as urls to load assets from.
pub struct WebAssetReader {
    /// Option to cache resource.
    pub cache_resource: bool,
    /// Option to disable meta request (some server returns 500 if too many
    /// invalid requests are sent, to prevent bot).
    pub reject_meta_request: bool,
    /// Connection type.
    pub connection: WebAssetReaderConnection,
}

impl Default for WebAssetReader {
    /// A reader over `https` with caching off and meta requests allowed.
    fn default() -> (r: Self)
        ensures
            !r.cache_resource,
            !r.reject_meta_request,
            r.connection == WebAssetReaderConnection::Https,
    {
        Self {
            cache_resource: false,
            reject_meta_request: false,
            connection: WebAssetReaderConnection::Https,
        }
    }
}

/// Protocol under which the remote asset is requested.
#[derive(Clone, Copy, PartialEq, Eq, Structural)]
pub enum WebAssetReaderConnection {
    /// Unencrypted connections.
    Http,
    /// Use TLS for setting up connections.
    Https,
}

/// The scheme token that a connection puts in front of every address.
pub open spec fn protocol_prefix(c: WebAssetReaderConnection) -> Seq<char> {
    match c {
        WebAssetReaderConnection::Http => "http://"@,
        WebAssetReaderConnection::Https => "https://"@,
    }
}

/// The final segment of a path: everything after the last `/`, or the whole
/// path when it has no `/`.
pub open spec fn file_part(p: Seq<char>) -> Seq<char> {
    p.subrange(last_index_of(p, '/') + 1, p.len() as int)
}

/// The directory portion of a path: everything before the last `/`, or empty
/// when the path has no `/`.
pub open spec fn dir_part(p: Seq<char>) -> Seq<char> {
    if last_index_of(p, '/') >= 0 {
        p.subrange(0, last_index_of(p, '/'))
    } else {
        Seq::empty()
    }
}

/// A path has an extension when its final segment holds a dot after its
/// first character.
pub open spec fn has_extension(p: Seq<char>) -> bool {
    last_index_of(file_part(p), '.') >= 1
}

impl WebAssetReaderConnection {
    /// The canonical request address: the protocol token followed by the
    /// relative path, verbatim.
    pub fn make_uri(&self, path: &str) -> (r: String)
        ensures
            r@ == protocol_prefix(*self) + path@,
    {
        let mut s = match self {
            WebAssetReaderConnection::Http => String::from_str("http://"),
            WebAssetReaderConnection::Https => String::from_str("https://"),
        };
        s.append(path);
        s
    }

    /// The companion metadata address: defined only for extensioned assets,
    /// and formed by appending `.meta` to the base address.
    pub fn make_meta_uri(&self, path: &str) -> (r: Option<String>)
        ensures
            r is Some <==> has_extension(path@),
            r matches Some(uri) ==> uri@ == protocol_prefix(*self) + path@ + ".meta"@,
    {
        if path_has_extension(path) {
            let mut uri = self.make_uri(path);
            uri.append(".meta");
            Some(uri)
        } else {
            None
        }
    }
}

/// A fake extension is an empty extension component directly before the
/// true extension: the final segment ends in two consecutive dots followed
/// by a nonempty extension.
pub open spec fn strip_applies(p: Seq<char>) -> bool {
    let d = last_index_of(p, '.');
    &&& d >= 1
    &&& p[d - 1] == '.'
    &&& d < p.len() - 1
    &&& d - 1 > last_index_of(p, '/')
}

/// Remove a fake extension together with the true extension that follows
/// it; a path without a fake extension is kept verbatim.
pub open spec fn strip_fake_extension(p: Seq<char>) -> Seq<char> {
    if strip_applies(p) {
        p.subrange(0, last_index_of(p, '.') - 1)
    } else {
        p
    }
}

/// The path as the request will carry it, after optional fake-extension
/// stripping.
pub open spec fn stripped_path(p: Seq<char>, strip: bool) -> Seq<char> {
    if strip {
        strip_fake_extension(p)
    } else {
        p
    }
}

/// Removes a fake double-extension (`name..png` becomes `name`); leaves
/// every other path unchanged, single-dot extensions included.
pub fn strip_fake_ext(path: &str) -> (r: String)
    ensures
        r@ == strip_fake_extension(path@),
{
    proof {
        lemma_last_index_of(path@, '.');
        lemma_last_index_of(path@, '/');
    }
    let n = path.unicode_len();
    let dot = find_last(path, '.');
    let slash = find_last(path, '/');
    match dot {
        Some(d) => {
            let in_segment = match slash {
                None => true,
                Some(s) => d > s + 1,
            };
            if d >= 1 && d + 1 < n && in_segment && path.get_char(d - 1) == '.' {
                path.substring_char(0, d - 1).to_owned()
            } else {
                path.to_owned()
            }
        },
        None => path.to_owned(),
    }
}

/// Caller-controlled settings for address building and request headers,
/// fixed before the reader starts serving requests.
pub struct ReaderConfig {
    /// Header name and value pairs; repeated names are kept in insertion
    /// order.
    pub headers: Vec<(String, String)>,
    /// Query key and value pairs; keys are unique and kept in insertion
    /// order, so built addresses are reproducible.
    pub query: Vec<(String, String)>,
    /// Strip a fake double-extension from the final path segment.
    pub strip_fake_extensions: bool,
    /// Value sent as the user-agent header when present.
    pub user_agent: Option<String>,
}

impl ReaderConfig {
    /// Query keys are unique.
    pub open spec fn wf(&self) -> bool {
        forall|i: int, j: int|
            0 <= i < j < self.query.len() ==> self.query[i].0@ != self.query[j].0@
    }

    /// An empty configuration: no headers, no query, no stripping, no
    /// user-agent.
    pub fn new() -> (r: Self)
        ensures
            r.wf(),
            r.headers@.len() == 0,
            r.query@.len() == 0,
            !r.strip_fake_extensions,
            r.user_agent is None,
    {
        ReaderConfig {
            headers: Vec::new(),
            query: Vec::new(),
            strip_fake_extensions: false,
            user_agent: None,
        }
    }

    /// Adds one header pair; earlier pairs, repeated names included, are
    /// kept in order.
    pub fn push_header(&mut self, name: String, value: String)
        ensures
            final(self).headers.deep_view() == old(self).headers.deep_view().push(
                (name@, value@),
            ),
            final(self).query == old(self).query,
            final(self).strip_fake_extensions == old(self).strip_fake_extensions,
            final(self).user_agent == old(self).user_agent,
            old(self).wf() ==> final(self).wf(),
    {
        self.headers.push((name, value));
        proof {
            assert(self.headers.deep_view() =~= old(self).headers.deep_view().push(
                (name@, value@),
            ));
        }
    }

    /// Sets a query key to a value: an existing key keeps its position and
    /// takes the new value, a new key goes to the end.
    pub fn set_query(&mut self, key: String, value: String)
        requires
            old(self).wf(),
        ensures
            final(self).wf(),
            final(self).headers == old(self).headers,
            final(self).strip_fake_extensions == old(self).strip_fake_extensions,
            final(self).user_agent == old(self).user_agent,
            ({
                let q0 = old(self).query.deep_view();
                let q1 = final(self).query.deep_view();
                if exists|i: int| 0 <= i < q0.len() && q0[i].0 == key@ {
                    let i = choose|i: int| 0 <= i < q0.len() && q0[i].0 == key@;
                    q1 == q0.update(i, (key@, value@))
                } else {
                    q1 == q0.push((key@, value@))
                }
            }),
    {
        let n = self.query.len();
        let mut i: usize = 0;
        while i < n
            invariant
                old(self).wf(),
                n == self.query.len(),
                i <= n,
                *self == *old(self),
                forall|j: int| 0 <= j < i ==> old(self).query[j].0@ != key@,
            decreases n - i,
        {
            if self.query[i].0 == key {
                self.query.set(i, (key, value));
                proof {
                    let q0 = old(self).query.deep_view();
                    let q1 = self.query.deep_view();
                    let w = choose|k: int| 0 <= k < q0.len() && q0[k].0 == key@;
                    assert(q0[i as int].0 == key@);
                    assert(w == i as int);
                    assert(q1 =~= q0.update(i as int, (key@, value@)));
                }
                return ;
            }
            i += 1;
        }
        self.query.push((key, value));
        proof {
            let q0 = old(self).query.deep_view();
            assert(forall|k: int|
                0 <= k < q0.len() ==> q0[k].0 == #[trigger] old(self).query[k].0@);
            assert(self.query.deep_view() =~= q0.push((key@, value@)));
        }
    }
}

/// The query suffix of an address: empty for an empty map, else `?` and the
/// `key=value` pairs joined by `&`, in insertion order.
pub open spec fn query_suffix(q: Seq<(Seq<char>, Seq<char>)>) -> Seq<char>
    decreases q.len(),
{
    if q.len() == 0 {
        Seq::empty()
    } else if q.len() == 1 {
        "?"@ + q[0].0 + "="@ + q[0].1
    } else {
        query_suffix(q.drop_last()) + "&"@ + q.last().0 + "="@ + q.last().1
    }
}

/// Builds the query suffix from the configured pairs.
pub fn build_query_suffix(query: &Vec<(String, String)>) -> (r: String)
    ensures
        r@ == query_suffix(query.deep_view()),
{
    let mut out = String::new();
    let n = query.len();
    let mut i: usize = 0;
    while i < n
        invariant
            n == query.len(),
            i <= n,
            out@ == query_suffix(query.deep_view().take(i as int)),
        decreases n - i,
    {
        if i == 0 {
            out.append("?");
        } else {
            out.append("&");
        }
        out.append(query[i].0.as_str());
        out.append("=");
        out.append(query[i].1.as_str());
        proof {
            let q = query.deep_view();
            assert(q.take(i + 1).drop_last() =~= q.take(i as int));
            assert(q.take(i + 1).last() == q[i as int]);
            if i == 0 {
                assert(q.take(1)[0] == q[0]);
            }
        }
        i += 1;
    }
    proof {
        assert(query.deep_view().take(n as int) =~= query.deep_view());
    }
    out
}

impl WebAssetReaderConnection {
    /// The request address under a configuration: the protocol token, the
    /// path after optional fake-extension stripping, then the query suffix.
    pub fn make_uri_with(&self, path: &str, config: &ReaderConfig) -> (r: String)
        ensures
            r@ == protocol_prefix(*self) + stripped_path(
                path@,
                config.strip_fake_extensions,
            ) + query_suffix(config.query.deep_view()),
    {
        let mut base = if config.strip_fake_extensions {
            let stripped = strip_fake_ext(path);
            self.make_uri(stripped.as_str())
        } else {
            self.make_uri(path)
        };
        let q = build_query_suffix(&config.query);
        base.append(q.as_str());
        base
    }
}

/// Decides `has_extension` on a path: the dot must fall in the final
/// segment, and not be its first character.
pub fn path_has_extension(path: &str) -> (r: bool)
    ensures
        r == has_extension(path@),
{
    proof {
        lemma_last_index_of(path@, '/');
        lemma_last_index_of(path@, '.');
        lemma_last_index_of(file_part(path@), '.');
    }
    let n = path.unicode_len();
    let slash = find_last(path, '/');
    let dot = find_last(path, '.');
    let ghost start: int = last_index_of(path@, '/') + 1;
    let ghost f = file_part(path@);
    assert(forall|j: int| 0 <= j < f.len() ==> f[j] == path@[start + j]);
    match dot {
        None => {
            assert(last_index_of(f, '.') == -1) by {
                let lf = last_index_of(f, '.');
                if lf >= 0 {
                    assert(f[lf] == path@[start + lf]);
                    assert(path@[start + lf] != '.');
                }
            }
            false
        },
        Some(d) => {
            let seg_start: usize = match slash {
                None => 0usize,
                Some(s) => s + 1,
            };
            if d > seg_start {
                // the dot lies in the final segment, past its first character
                assert(last_index_of(f, '.') == d - start) by {
                    let lf = last_index_of(f, '.');
                    assert(f[d - start] == path@[d as int]);
                    if lf > d - start {
                        assert(f[lf] == path@[start + lf]);
                        assert(path@[start + lf] != '.');
                    }
                    if lf < d - start {
                        assert(f[d - start] != '.');
                    }
                }
                true
            } else {
                assert(last_index_of(f, '.') < 1) by {
                    let lf = last_index_of(f, '.');
                    if lf >= 1 {
                        assert(f[lf] == path@[start + lf]);
                        assert(path@[start + lf] == '.');
                        assert(start + lf <= d as int);
                    }
                }
                false
            }
        },
    }
}

} // verus!
