use web_asset::web_asset_source::strip_fake_ext;
use web_asset::ReaderConfig;
use web_asset::WebAssetReader;
use web_asset::WebAssetReaderConnection;

#[test]
fn make_http_uri() {
    assert_eq!(
        WebAssetReaderConnection::Http.make_uri("s3.johanhelsing.studio/dump/favicon.png"),
        "http://s3.johanhelsing.studio/dump/favicon.png"
    );
}

#[test]
fn make_https_uri() {
    assert_eq!(
        WebAssetReaderConnection::Https.make_uri("s3.johanhelsing.studio/dump/favicon.png"),
        "https://s3.johanhelsing.studio/dump/favicon.png"
    );
}

#[test]
fn make_http_meta_uri() {
    assert_eq!(
        WebAssetReaderConnection::Http
            .make_meta_uri("s3.johanhelsing.studio/dump/favicon.png")
            .expect("cannot create meta uri"),
        "http://s3.johanhelsing.studio/dump/favicon.png.meta"
    );
}

#[test]
fn make_https_meta_uri() {
    assert_eq!(
        WebAssetReaderConnection::Https
            .make_meta_uri("s3.johanhelsing.studio/dump/favicon.png")
            .expect("cannot create meta uri"),
        "https://s3.johanhelsing.studio/dump/favicon.png.meta"
    );
}

#[test]
fn make_https_without_extension_meta_uri() {
    assert_eq!(
        WebAssetReaderConnection::Https.make_meta_uri("s3.johanhelsing.studio/dump/favicon"),
        None
    );
}

#[test]
fn uri_keeps_path_verbatim() {
    assert_eq!(
        WebAssetReaderConnection::Https.make_uri("a/b/../c.png"),
        "https://a/b/../c.png"
    );
}

#[test]
fn strip_removes_fake_double_extension() {
    assert_eq!(strip_fake_ext("a/b/name..png"), "a/b/name");
}

#[test]
fn strip_keeps_single_dot_extension() {
    assert_eq!(strip_fake_ext("a/b/name.png"), "a/b/name.png");
}

#[test]
fn strip_ignores_double_dot_in_directory() {
    assert_eq!(strip_fake_ext("a..b/c.png"), "a..b/c.png");
}

#[test]
fn make_uri_with_stripping_enabled() {
    let mut config = ReaderConfig::new();
    config.strip_fake_extensions = true;
    assert_eq!(
        WebAssetReaderConnection::Https.make_uri_with("a/b/name..png", &config),
        "https://a/b/name"
    );
    assert_eq!(
        WebAssetReaderConnection::Https.make_uri_with("a/b/name.png", &config),
        "https://a/b/name.png"
    );
}

#[test]
fn make_uri_with_stripping_disabled() {
    let config = ReaderConfig::new();
    assert_eq!(
        WebAssetReaderConnection::Https.make_uri_with("a/b/name..png", &config),
        "https://a/b/name..png"
    );
}

#[test]
fn query_pairs_join_in_insertion_order() {
    let mut config = ReaderConfig::new();
    config.set_query(String::from("token"), String::from("abc"));
    config.set_query(String::from("v"), String::from("2"));
    assert_eq!(
        WebAssetReaderConnection::Https.make_uri_with("a/b.png", &config),
        "https://a/b.png?token=abc&v=2"
    );
}

#[test]
fn query_key_is_unique_and_keeps_position() {
    let mut config = ReaderConfig::new();
    config.set_query(String::from("a"), String::from("1"));
    config.set_query(String::from("b"), String::from("2"));
    config.set_query(String::from("a"), String::from("3"));
    assert_eq!(
        WebAssetReaderConnection::Http.make_uri_with("x.png", &config),
        "http://x.png?a=3&b=2"
    );
}

#[test]
fn empty_query_adds_no_suffix() {
    let config = ReaderConfig::new();
    assert_eq!(
        WebAssetReaderConnection::Http.make_uri_with("x.png", &config),
        "http://x.png"
    );
}

#[test]
fn build_request_appends_user_agent() {
    let mut config = ReaderConfig::new();
    config.push_header(String::from("accept"), String::from("image/png"));
    config.user_agent = Some(String::from("web_asset/0.1"));
    let req = WebAssetReaderConnection::Https.build_request("a/b.png", &config);
    assert_eq!(req.url, "https://a/b.png");
    assert_eq!(req.headers.len(), 2);
    assert_eq!(req.headers[0].0, "accept");
    assert_eq!(req.headers[1].0, "user-agent");
    assert_eq!(req.headers[1].1, "web_asset/0.1");
}

#[test]
fn build_request_repeated_header_names_kept_in_order() {
    let mut config = ReaderConfig::new();
    config.push_header(String::from("accept"), String::from("image/png"));
    config.push_header(String::from("accept"), String::from("image/webp"));
    let req = WebAssetReaderConnection::Http.build_request("x.png", &config);
    assert_eq!(req.headers.len(), 2);
    assert_eq!(req.headers[0].1, "image/png");
    assert_eq!(req.headers[1].1, "image/webp");
}

#[test]
fn is_http_recognizes_schemes() {
    assert!(web_asset::is_http("http://example.org/a.png"));
    assert!(web_asset::is_http("https://example.org/a.png"));
    assert!(!web_asset::is_http("ftp://example.org/a.png"));
    assert!(!web_asset::is_http("images/a.png"));
}

#[test]
fn default_reader_uses_https_without_caching() {
    let reader = WebAssetReader::default();
    assert!(!reader.cache_resource);
    assert!(!reader.reject_meta_request);
    assert!(matches!(
        reader.connection,
        WebAssetReaderConnection::Https
    ));
}
