use web_asset::fetch::classify_response;
use web_asset::ContentCache;
use web_asset::FetchEvent;
use web_asset::FetchOutcome;
use web_asset::ReadError;
use web_asset::ReadRequest;
use web_asset::ReadState;
use web_asset::TransportCause;
use web_asset::WebAssetReader;
use web_asset::WebAssetReaderConnection;

fn reader(cache: bool, reject_meta: bool) -> WebAssetReader {
    WebAssetReader {
        cache_resource: cache,
        reject_meta_request: reject_meta,
        connection: WebAssetReaderConnection::Https,
    }
}

/// Drives one read to completion against a store and a transport double,
/// counting the fetches the transport performs.
fn run_read(
    mut req: ReadRequest,
    cache: &mut ContentCache,
    transport: &dyn Fn(&str) -> FetchEvent,
    fetches: &mut usize,
) -> Result<Vec<u8>, ReadError> {
    if matches!(req.state, ReadState::CacheLookup) {
        let found = cache.try_read(&req.uri);
        req = req.on_cache_result(found);
    }
    if matches!(req.state, ReadState::Fetching) {
        *fetches += 1;
        let ev = transport(&req.uri);
        let (next, write_through) = req.on_fetch_event(ev);
        if let Some(bytes) = write_through {
            // best effort: a failed cache write must not fail the read
            let _ = cache.try_write(&next.uri, bytes);
        }
        req = next;
    }
    match req.state {
        ReadState::Finished(result) => result,
        _ => panic!("read did not finish"),
    }
}

#[test]
fn classify_maps_statuses() {
    let addr = "https://s3.example.org/dump/favicon.png";
    assert_eq!(
        classify_response(addr, FetchEvent::Response(200, vec![1, 2, 3])),
        FetchOutcome::Success(vec![1, 2, 3])
    );
    assert_eq!(
        classify_response(addr, FetchEvent::Response(404, Vec::new())),
        FetchOutcome::NotFound(String::from(addr))
    );
    assert_eq!(
        classify_response(addr, FetchEvent::Response(500, Vec::new())),
        FetchOutcome::TransportError(TransportCause::Status(500))
    );
    assert_eq!(
        classify_response(addr, FetchEvent::ConnectionFailed),
        FetchOutcome::TransportError(TransportCause::Connection)
    );
}

#[test]
fn end_to_end_success_and_not_found() {
    let r = reader(false, false);
    let req = r.begin_read("s3.example.org/dump/favicon.png");
    assert_eq!(req.uri, "https://s3.example.org/dump/favicon.png");
    assert!(matches!(req.state, ReadState::Fetching));

    let mut cache = ContentCache::new();
    let mut fetches: usize = 0;
    let ok = run_read(
        r.begin_read("s3.example.org/dump/favicon.png"),
        &mut cache,
        &|_uri| FetchEvent::Response(200, vec![1, 2, 3]),
        &mut fetches,
    );
    assert_eq!(ok, Ok(vec![1, 2, 3]));

    let missing = run_read(
        r.begin_read("s3.example.org/dump/favicon.png"),
        &mut cache,
        &|_uri| FetchEvent::Response(404, Vec::new()),
        &mut fetches,
    );
    assert_eq!(
        missing,
        Err(ReadError::NotFound(String::from(
            "https://s3.example.org/dump/favicon.png"
        )))
    );
}

#[test]
fn second_read_is_served_from_cache() {
    let r = reader(true, false);
    let mut cache = ContentCache::new();
    let mut fetches: usize = 0;
    let transport = |_uri: &str| FetchEvent::Response(200, vec![4, 5, 6]);

    let first = run_read(r.begin_read("a/b.png"), &mut cache, &transport, &mut fetches);
    assert_eq!(first, Ok(vec![4, 5, 6]));
    assert_eq!(fetches, 1);

    let second = run_read(r.begin_read("a/b.png"), &mut cache, &transport, &mut fetches);
    assert_eq!(second, Ok(vec![4, 5, 6]));
    // the second read is satisfied from the cache: no further fetch
    assert_eq!(fetches, 1);
}

#[test]
fn reads_without_caching_fetch_every_time() {
    let r = reader(false, false);
    let mut cache = ContentCache::new();
    let mut fetches: usize = 0;
    let transport = |_uri: &str| FetchEvent::Response(200, vec![7]);

    run_read(r.begin_read("a/b.png"), &mut cache, &transport, &mut fetches).unwrap();
    run_read(r.begin_read("a/b.png"), &mut cache, &transport, &mut fetches).unwrap();
    assert_eq!(fetches, 2);
}

#[test]
fn transport_error_statuses_do_not_write_through() {
    let r = reader(true, false);
    let req = r.begin_read("a/b.png").on_cache_result(None);
    let (next, write_through) = req.on_fetch_event(FetchEvent::Response(500, vec![1]));
    assert_eq!(write_through, None);
    assert_eq!(
        next.state,
        ReadState::Finished(Err(ReadError::Transport(TransportCause::Status(500))))
    );
}

#[test]
fn connection_failure_is_transport_error_not_not_found() {
    let r = reader(false, false);
    let req = r.begin_read("a/b.png");
    let (next, write_through) = req.on_fetch_event(FetchEvent::ConnectionFailed);
    assert_eq!(write_through, None);
    assert_eq!(
        next.state,
        ReadState::Finished(Err(ReadError::Transport(TransportCause::Connection)))
    );
}

#[test]
fn rejected_meta_request_fails_without_any_network_step() {
    let r = reader(true, true);
    let req = r.begin_read_meta("a/b.png");
    match req.state {
        ReadState::Finished(Err(ReadError::NotFound(m))) => {
            assert_eq!(m, "meta request rejected");
        }
        other => panic!("expected immediate NotFound, got {:?}", other),
    }
}

#[test]
fn meta_read_without_extension_is_not_found() {
    let r = reader(false, false);
    let req = r.begin_read_meta("s3.johanhelsing.studio/dump/favicon");
    match req.state {
        ReadState::Finished(Err(ReadError::NotFound(m))) => {
            assert_eq!(m, "source path has no extension");
        }
        other => panic!("expected NotFound, got {:?}", other),
    }
}

#[test]
fn meta_read_uses_meta_address() {
    let r = reader(false, false);
    let req = r.begin_read_meta("a/b.png");
    assert_eq!(req.uri, "https://a/b.png.meta");
    assert!(matches!(req.state, ReadState::Fetching));
}

#[test]
fn remote_paths_are_never_directories() {
    let r = reader(false, false);
    assert!(!r.is_directory("a/b"));
    match r.read_directory("a/b") {
        Err(ReadError::NotFound(addr)) => assert_eq!(addr, "https://a/b"),
        other => panic!("expected NotFound, got {:?}", other),
    }
}
