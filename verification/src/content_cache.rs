//! The content cache: bytes fetched for an address are kept under a key
//! derived from the address, and served on later requests for the same
//! address before any network work is attempted.
//!
//! The key puts a sanitized (slugified) form of the address's directory
//! portion in front of its final segment, so the durable form of the store
//! can lay entries out as one file per address under a platform cache root.
//! [`ContentCache`] itself is the in-process form of the store, exact about
//! what a write does; a host that wants entries to outlive the process
//! mirrors these operations onto files.

use vstd::prelude::*;
use vstd::string::*;

use crate::strutil::{find_last, last_index_of, lemma_last_index_of};
use crate::web_asset_source::{dir_part, file_part, WebAssetReader};

verus! {

/// What `slug::slugify` returns: a filesystem-safe token that depends on
/// the characters of its input alone.
pub uninterp spec fn slug_of(s: Seq<char>) -> Seq<char>;

/// Relies on `slug::slugify`: the result is a pure function of the input,
/// made of `a`-`z`, `0`-`9` and `-` only.
#[verifier::external_body]
fn slugify(s: &str) -> (r: String)
    ensures
        r@ == slug_of(s@),
        forall|i: int|
            0 <= i < r@.len() ==> ('a' <= r@[i] <= 'z' || '0' <= r@[i] <= '9' || r@[i] == '-'),
{
    slug::slugify(s)
}

/// Relies on `directories::ProjectDirs`: the platform cache directory for
/// this library's identifier, or none when the platform reports no home
/// directory. The result depends on the process environment, so nothing
/// more is promised of it than being a nonempty path.
#[verifier::external_body]
fn platform_cache_root() -> (r: Option<String>)
    ensures
        r matches Some(root) ==> root@.len() > 0,
{
    directories::ProjectDirs::from("", "", "web_asset").map(
        |dirs| dirs.cache_dir().to_string_lossy().into_owned(),
    )
}

/// The cache key of an address: the slug of its directory portion, then a
/// separator, then its final segment verbatim.
pub open spec fn cache_rel_path(addr: Seq<char>) -> Seq<char> {
    slug_of(dir_part(addr)) + "/"@ + file_part(addr)
}

/// Derives the cache key of an address.
pub fn cache_rel_path_of(addr: &str) -> (r: String)
    ensures
        r@ == cache_rel_path(addr@),
{
    proof {
        lemma_last_index_of(addr@, '/');
    }
    let n = addr.unicode_len();
    let slash = find_last(addr, '/');
    let (dir, file) = match slash {
        Some(s) => (addr.substring_char(0, s), addr.substring_char(s + 1, n)),
        None => (addr.substring_char(0, 0), addr),
    };
    proof {
        assert(dir@ =~= dir_part(addr@));
        assert(file@ =~= file_part(addr@));
    }
    let mut out = slugify(dir);
    out.append("/");
    out.append(file);
    out
}

impl WebAssetReader {
    /// The local path backing an address in the durable cache: the platform
    /// cache root, then the address's cache key. None when caching is off,
    /// or when the platform reports no cache directory.
    pub fn get_cache_path(&self, path: &str) -> (r: Option<String>)
        ensures
            !self.cache_resource ==> r is None,
            r matches Some(p) ==> self.cache_resource && exists|root: Seq<char>|
                root.len() > 0 && p@ == root + "/"@ + cache_rel_path(path@),
    {
        if self.cache_resource {
            match platform_cache_root() {
                Some(mut root) => {
                    let ghost root0 = root@;
                    let rel = cache_rel_path_of(path);
                    root.append("/");
                    root.append(rel.as_str());
                    proof {
                        assert(root@ == root0 + "/"@ + cache_rel_path(path@));
                    }
                    Some(root)
                },
                None => None,
            }
        } else {
            None
        }
    }
}

/// A cache read or write that could not reach the store. The in-process
/// store never produces it; the durable form of the store does, and its
/// failures are recovered locally (a miss on read, ignored on write).
#[derive(PartialEq, Eq, Debug)]
pub struct CacheIoError;

/// The store as a map from cache key to bytes, where a later entry for a
/// key shadows an earlier one.
pub open spec fn entries_map(s: Seq<(String, Vec<u8>)>) -> Map<Seq<char>, Seq<u8>>
    decreases s.len(),
{
    if s.len() == 0 {
        Map::empty()
    } else {
        entries_map(s.drop_last()).insert(s.last().0@, s.last().1@)
    }
}

/// What a write leaves in the store's map.
pub open spec fn cache_write_spec(
    m: Map<Seq<char>, Seq<u8>>,
    addr: Seq<char>,
    bytes: Seq<u8>,
) -> Map<Seq<char>, Seq<u8>> {
    m.insert(cache_rel_path(addr), bytes)
}

/// What a read finds in the store's map.
pub open spec fn cache_read_spec(m: Map<Seq<char>, Seq<u8>>, addr: Seq<char>) -> Option<
    Seq<u8>,
> {
    if m.contains_key(cache_rel_path(addr)) {
        Some(m[cache_rel_path(addr)])
    } else {
        None
    }
}

/// Byte buffers fetched earlier, keyed by the sanitized form of the address
/// that produced them.
pub struct ContentCache {
    entries: Vec<(String, Vec<u8>)>,
}

impl View for ContentCache {
    type V = Map<Seq<char>, Seq<u8>>;

    closed spec fn view(&self) -> Map<Seq<char>, Seq<u8>> {
        entries_map(self.entries@)
    }
}

proof fn lemma_entries_map_absent(s: Seq<(String, Vec<u8>)>, k: Seq<char>)
    requires
        forall|i: int| 0 <= i < s.len() ==> s[i].0@ != k,
    ensures
        !entries_map(s).contains_key(k),
    decreases s.len(),
{
    if s.len() > 0 {
        lemma_entries_map_absent(s.drop_last(), k);
    }
}

proof fn lemma_entries_map_found(s: Seq<(String, Vec<u8>)>, j: int, k: Seq<char>)
    requires
        0 <= j < s.len(),
        s[j].0@ == k,
        forall|i: int| j < i < s.len() ==> s[i].0@ != k,
    ensures
        entries_map(s).contains_key(k),
        entries_map(s)[k] == s[j].1@,
    decreases s.len(),
{
    if j == s.len() - 1 {
    } else {
        lemma_entries_map_found(s.drop_last(), j, k);
    }
}

impl ContentCache {
    /// An empty store.
    pub fn new() -> (r: Self)
        ensures
            r@ == Map::<Seq<char>, Seq<u8>>::empty(),
    {
        let r = ContentCache { entries: Vec::new() };
        proof {
            assert(r@ =~= Map::<Seq<char>, Seq<u8>>::empty());
        }
        r
    }

    /// Stores bytes under the key of `addr`. The in-process store cannot
    /// fail; the result mirrors the durable store's contract, whose failure
    /// callers ignore.
    pub fn try_write(&mut self, addr: &str, bytes: Vec<u8>) -> (r: Result<(), CacheIoError>)
        ensures
            r is Ok,
            final(self)@ == cache_write_spec(old(self)@, addr@, bytes@),
    {
        let key = cache_rel_path_of(addr);
        self.entries.push((key, bytes));
        proof {
            assert(self.entries@.drop_last() =~= old(self).entries@);
        }
        Ok(())
    }

    /// The bytes stored under the key of `addr`, if that key is present.
    pub fn try_read(&self, addr: &str) -> (r: Option<Vec<u8>>)
        ensures
            r matches Some(b) ==> cache_read_spec(self@, addr@) == Some(b@),
            r is None ==> cache_read_spec(self@, addr@) is None,
    {
        let key = cache_rel_path_of(addr);
        let n = self.entries.len();
        let mut i: usize = n;
        while i > 0
            invariant
                n == self.entries.len(),
                i <= n,
                key@ == cache_rel_path(addr@),
                forall|j: int| i <= j < n ==> self.entries@[j].0@ != key@,
            decreases i,
        {
            i = i - 1;
            if self.entries[i].0 == key {
                proof {
                    lemma_entries_map_found(self.entries@, i as int, key@);
                }
                return Some(vstd::slice::slice_to_vec(self.entries[i].1.as_slice()));
            }
        }
        proof {
            lemma_entries_map_absent(self.entries@, key@);
        }
        None
    }
}

/// Law: writing bytes for an address and then reading the same address
/// back yields exactly those bytes, the empty buffer included.
pub proof fn lemma_cache_round_trip(
    m: Map<Seq<char>, Seq<u8>>,
    addr: Seq<char>,
    bytes: Seq<u8>,
)
    ensures
        cache_read_spec(cache_write_spec(m, addr, bytes), addr) == Some(bytes),
{
}

} // verus!
