use web_asset::content_cache::cache_rel_path_of;
use web_asset::ContentCache;
use web_asset::WebAssetReader;
use web_asset::WebAssetReaderConnection;

#[test]
fn cache_key_slugifies_directory_and_keeps_filename() {
    assert_eq!(
        cache_rel_path_of("https://s3.johanhelsing.studio/dump/favicon.png"),
        "https-s3-johanhelsing-studio-dump/favicon.png"
    );
}

#[test]
fn cache_key_without_directory() {
    assert_eq!(cache_rel_path_of("favicon.png"), "/favicon.png");
}

#[test]
fn write_then_read_returns_same_bytes() {
    let mut cache = ContentCache::new();
    let addr = "https://a/b/c.png";
    cache.try_write(addr, vec![9, 8, 7, 6]).unwrap();
    assert_eq!(cache.try_read(addr), Some(vec![9, 8, 7, 6]));
}

#[test]
fn write_then_read_empty_buffer() {
    let mut cache = ContentCache::new();
    let addr = "https://a/b/empty.bin";
    cache.try_write(addr, Vec::new()).unwrap();
    assert_eq!(cache.try_read(addr), Some(Vec::new()));
}

#[test]
fn later_write_shadows_earlier_one() {
    let mut cache = ContentCache::new();
    let addr = "https://a/b/c.png";
    cache.try_write(addr, vec![1]).unwrap();
    cache.try_write(addr, vec![2, 3]).unwrap();
    assert_eq!(cache.try_read(addr), Some(vec![2, 3]));
}

#[test]
fn read_of_unknown_address_misses() {
    let cache = ContentCache::new();
    assert_eq!(cache.try_read("https://a/b/missing.png"), None);
}

#[test]
fn distinct_addresses_keep_distinct_entries() {
    let mut cache = ContentCache::new();
    cache.try_write("https://a/x.png", vec![1]).unwrap();
    cache.try_write("https://a/y.png", vec![2]).unwrap();
    assert_eq!(cache.try_read("https://a/x.png"), Some(vec![1]));
    assert_eq!(cache.try_read("https://a/y.png"), Some(vec![2]));
}

#[test]
fn cache_path_is_none_when_caching_is_off() {
    let reader = WebAssetReader::default();
    assert_eq!(
        reader.get_cache_path("https://s3.johanhelsing.studio/dump/favicon.png"),
        None
    );
}

#[test]
fn cache_path_ends_with_slug_and_filename() {
    let reader = WebAssetReader {
        cache_resource: true,
        reject_meta_request: false,
        connection: WebAssetReaderConnection::Https,
    };
    // the platform may report no cache directory; when it reports one, the
    // path ends with the slugified directory and the verbatim filename
    if let Some(p) = reader.get_cache_path("https://s3.johanhelsing.studio/dump/favicon.png") {
        assert!(p.ends_with("/https-s3-johanhelsing-studio-dump/favicon.png"));
    }
}
