use casc_extract::archive::{
    cached_index_hash, cached_index_path, cached_indices_dir, check_index_status,
    indices_cache_dir, load_or_download_index_file, load_or_init_archive_manager,
    ArchiveLocation, ArchiveManager, CachedStep, DataRequest, FindStep, IndexEvent, IndexFailure,
    IndexHit, IndexStep, ManagerStep,
};
use casc_extract::cdn::{CdnEndpoint, CdnSession, VersionsRow};
use casc_extract::error::Error;

fn session() -> CdnSession {
    let endpoint = CdnEndpoint {
        scheme: None,
        host: "h".to_string(),
        path: "p".to_string(),
    };
    let versions = VersionsRow {
        build_config: Some("01".to_string()),
        cdn_config: Some("02".to_string()),
        build_id: Some("42".to_string()),
    };
    CdnSession::connect(Some(endpoint), Some(versions)).expect("valid responses")
}

/// Loads the cached indices with these names, of which each stores keys of as
/// many bytes as it is long without its ending.
fn load(names: &[&[u8]]) -> Result<ArchiveManager, Error> {
    let mut load = ArchiveManager::load_cached("/c");
    for name in names {
        load = match load.next_file(name)? {
            CachedStep::Skip { load } => load,
            CachedStep::Read { path: _, reading } => reading.loaded(Ok(name.len() as u8 - 6))?,
        };
    }
    load.finish()
}

fn manager() -> ArchiveManager {
    let mut init = ArchiveManager::init(vec![
        "aaaa".to_string(),
        "bbbb".to_string(),
        "cccc".to_string(),
    ]);
    for ekey_length in [9, 2, 16] {
        init = init.loaded(Ok(ekey_length)).expect("an index");
    }
    init.finish()
}

/// Runs a search; `answers` holds the reply of the index at each position.
fn run_find(key: &[u8], answers: &[Option<IndexHit>]) -> (Option<ArchiveLocation>, Vec<Vec<u8>>) {
    let manager = manager();
    let mut asked: Vec<Vec<u8>> = Vec::new();
    let mut step = manager.find(key);
    loop {
        step = match step {
            FindStep::Probe { position, key: stored } => {
                asked.push(stored);
                manager.find_next(key, position, answers[position])
            }
            FindStep::Found(location) => return (Some(location), asked),
            FindStep::NotFound => return (None, asked),
        };
    }
}

#[test]
fn load_cached_rejects_empty_index_cache() {
    let err = match ArchiveManager::load_cached("/tmp/x").finish() {
        Ok(_) => panic!("empty cache must fail"),
        Err(err) => err,
    };

    assert!(err.message().contains("no cached archive indices"));
    assert_eq!(err.message(), "no cached archive indices in /tmp/x/indices");
}

#[test]
fn cached_indices_are_loaded_in_listing_order() {
    let manager = load(&[b"zz.index", b"notes.txt", b"a.index", b".index"]).expect("two indices");
    let mut hashes: Vec<String> = Vec::new();
    for hit in 0..2 {
        let mut step = manager.find(&[1, 2, 3]);
        while let FindStep::Probe { position, key } = step {
            assert_eq!(key, if position == 0 { vec![1, 2] } else { vec![1] });
            let reply = (position == hit).then_some(IndexHit { offset: 0, size: 1 });
            step = manager.find_next(&[1, 2, 3], position, reply);
        }
        match step {
            FindStep::Found(location) => hashes.push(location.archive_hash),
            other => panic!("{other:?}"),
        }
    }
    assert_eq!(hashes, vec!["zz", "a"]);
}

#[test]
fn cached_indices_are_read_from_their_dir() {
    let load = ArchiveManager::load_cached("/c");
    assert_eq!(load.dir(), "/c/indices");
    match load.next_file(b"abc.index").expect("an index") {
        CachedStep::Read { path, reading: _ } => assert_eq!(path, "/c/indices/abc.index"),
        CachedStep::Skip { .. } => panic!("an index is read"),
    }
}

#[test]
fn files_that_are_no_index_are_passed_over() {
    match load(&[b"notes.txt", b"\xff.idx"]) {
        Err(e) => assert_eq!(e.message(), "no cached archive indices in /c/indices"),
        Ok(_) => panic!("no index"),
    }
}

#[test]
fn one_bad_index_fails_the_load() {
    match load(&[b"a.index", b"\xff.index"]) {
        Err(Error::InvalidIndexFilename) => {}
        _ => panic!("a name that is no text"),
    }
    let read = || match ArchiveManager::load_cached("/c").next_file(b"a.index") {
        Ok(CachedStep::Read { path: _, reading }) => reading,
        _ => panic!("an index is read"),
    };
    match read().loaded(Err(IndexFailure::Unreadable { cause: "denied".to_string() })) {
        Err(e) => {
            assert_eq!(e.message(), "failed to read /c/indices/a.index");
            assert!(matches!(e, Error::CachedIndexNotRead { cause, .. } if cause == "denied"));
        }
        Ok(_) => panic!("unreadable"),
    }
    match read().loaded(Err(IndexFailure::Unparsable { cause: "short".to_string() })) {
        Err(e) => {
            assert_eq!(e.message(), "failed to parse archive index a");
            assert!(matches!(e, Error::IndexNotParsed { cause, .. } if cause == "short"));
        }
        Ok(_) => panic!("unparsable"),
    }
}

#[test]
fn archives_are_found_again_in_their_cached_indices() {
    let hashes = ["aaaa", "b"];
    let mut init = ArchiveManager::init(hashes.iter().map(|h| h.to_string()).collect());
    let mut names: Vec<String> = Vec::new();
    while let Some(hash) = init.next().map(|h| h.to_string()) {
        names.push(cached_index_path("", &hash));
        init = init.loaded(Ok(hash.len() as u8)).expect("an index");
    }
    let first = init.finish();
    let again = load(&[names[1].as_bytes(), names[0].as_bytes()]).expect("two indices");

    // The index of "b" knows the key that starts with 7, that of "aaaa" knows none.
    let found = |manager: &ArchiveManager, order: [&str; 2], key: &[u8]| {
        let mut step = manager.find(key);
        loop {
            step = match step {
                FindStep::Probe { position, key: stored } => {
                    let known = order[position] == "b" && stored == vec![7];
                    let reply = known.then_some(IndexHit { offset: 1, size: 2 });
                    manager.find_next(key, position, reply)
                }
                FindStep::Found(location) => return Some(location.archive_hash),
                FindStep::NotFound => return None,
            };
        }
    };
    for key in [[7u8, 1], [8, 1]] {
        let before = found(&first, ["aaaa", "b"], &key);
        let after = found(&again, ["b", "aaaa"], &key);
        assert_eq!(before, after);
        assert_eq!(before.is_some(), key[0] == 7);
    }
}

#[test]
fn read_cached_index_file_returns_persisted_index_bytes() {
    let hash = "abcdef0123456789";
    let expected = b"cached index bytes";
    let step = load_or_download_index_file(&session(), "/tmp/c", hash, IndexEvent::Start);
    match step {
        IndexStep::Read { path } => assert_eq!(path, format!("/tmp/c/{hash}.index")),
        other => panic!("the cache is read first: {other:?}"),
    }
    let step =
        load_or_download_index_file(&session(), "/tmp/c", hash, IndexEvent::Cached(expected.to_vec()));
    match step {
        IndexStep::Ready { data } => assert_eq!(data, expected),
        other => panic!("cached bytes are used: {other:?}"),
    }
}

#[test]
fn missing_index_is_fetched_stored_and_used() {
    let session = session();
    let hash = "abcdef";
    let data = b"fresh".to_vec();
    match load_or_download_index_file(&session, "/c", hash, IndexEvent::NotCached) {
        IndexStep::Fetch { url } => assert_eq!(url, "https://h/p/data/ab/cd/abcdef.index"),
        other => panic!("{other:?}"),
    }
    match load_or_download_index_file(&session, "/c", hash, IndexEvent::Fetched(data.clone())) {
        IndexStep::Store { path, data: stored } => {
            assert_eq!(path, "/c/abcdef.index");
            assert_eq!(stored, data);
        }
        other => panic!("{other:?}"),
    }
    match load_or_download_index_file(&session, "/c", hash, IndexEvent::Stored(data.clone())) {
        IndexStep::Ready { data: ready } => assert_eq!(ready, data),
        other => panic!("{other:?}"),
    }
}

#[test]
fn index_replies_must_succeed() {
    assert!(check_index_status(200, "200 OK", "u").is_ok());
    assert!(check_index_status(299, "299", "u").is_ok());
    for status in [199u16, 300, 404, 500] {
        let e = check_index_status(status, "404 Not Found", "u").expect_err("no success");
        assert_eq!(e.message(), "HTTP 404 Not Found fetching index: u");
    }
}

#[test]
fn index_files_are_recognised_by_name() {
    let name = cached_index_path("", "abc");
    assert_eq!(name, "abc.index");
    assert_eq!(cached_index_hash(name.as_bytes()).expect("text"), Some("abc".to_string()));
    assert_eq!(cached_index_hash("é.b.index".as_bytes()).expect("text"), Some("é.b".to_string()));
    for other in ["", ".index", "index", "abc.idx", "abc.index2", "abc.INDEX", "x"] {
        assert_eq!(cached_index_hash(other.as_bytes()).expect("skipped"), None);
    }
    let e = cached_index_hash(b"\xff.index").expect_err("no text");
    assert!(matches!(e, Error::InvalidIndexFilename));
    assert_eq!(e.message(), "invalid index filename");
    assert_eq!(cached_index_hash(b"\xff.idx").expect("skipped"), None);
}

#[test]
fn indices_dir_is_inside_the_build_dir() {
    assert_eq!(
        indices_cache_dir(&session(), Some("/home/u")),
        "/home/u/.cache/casc-extract/wow-42/indices"
    );
    assert_eq!(cached_indices_dir("/x"), "/x/indices");
}

#[test]
fn find_stops_at_the_first_hit() {
    let hit = |offset: u64| Some(IndexHit { offset, size: 7 });
    let (found, asked) = run_find(&[1, 2, 3], &[None, hit(5), hit(6)]);
    let found = found.expect("a hit");
    assert_eq!(found.archive_hash, "bbbb");
    assert_eq!(found.offset, 5);
    assert_eq!(found.size, 7);
    assert_eq!(asked, vec![vec![1, 2, 3], vec![1, 2]]);
}

#[test]
fn find_fails_when_no_index_knows_the_key() {
    let key: Vec<u8> = (0..16).collect();
    let (found, asked) = run_find(&key, &[None, None, None]);
    assert!(found.is_none());
    assert_eq!(asked, vec![(0..9).collect::<Vec<u8>>(), vec![0, 1], key]);
}

#[test]
fn archive_part_is_requested_by_range() {
    let location = ArchiveLocation { archive_hash: "abcdef".to_string(), offset: 100, size: 50 };
    let request = ArchiveManager::download(&session(), &[], Some(location));
    match &request {
        DataRequest::Range { url, range } => {
            assert_eq!(url, "https://h/p/data/ab/cd/abcdef");
            assert_eq!(range, "bytes=100-149");
        }
        other => panic!("{other:?}"),
    }
    assert!(request.check_status(206, "206 Partial Content").is_ok());
    let e = request.check_status(403, "403 Forbidden").expect_err("refused");
    assert_eq!(
        e.message(),
        "HTTP 403 Forbidden for archive range request: https://h/p/data/ab/cd/abcdef"
    );
}

#[test]
fn ranges_reach_the_largest_offsets() {
    let location = ArchiveLocation {
        archive_hash: "abcd".to_string(),
        offset: u64::MAX - 1,
        size: 1,
    };
    match ArchiveManager::range_download(&session(), &location) {
        DataRequest::Range { url: _, range } => {
            assert_eq!(range, "bytes=18446744073709551614-18446744073709551614");
        }
        other => panic!("{other:?}"),
    }
}

#[test]
fn unknown_key_is_requested_as_a_file() {
    let request = ArchiveManager::download(&session(), &[0xab, 0xc0, 0x0f], None);
    match &request {
        DataRequest::Loose { url, key_hex } => {
            assert_eq!(url, "https://h/p/data/ab/c0/abc00f");
            assert_eq!(key_hex, "abc00f");
        }
        other => panic!("{other:?}"),
    }
    assert!(request.check_status(200, "200 OK").is_ok());
    let e = request.check_status(404, "404 Not Found").expect_err("refused");
    assert_eq!(
        e.message(),
        "encoding key not found in any archive index and loose file returned HTTP 404 Not Found: abc00f"
    );
}

#[test]
fn init_loads_every_archive_in_order() {
    let mut init = ArchiveManager::init(vec!["aaaa".to_string(), "bbbb".to_string()]);
    assert_eq!(init.next(), Some("aaaa"));
    assert_eq!(init.notice(), "  [1/2] Downloading index aaaa");
    init = init.loaded(Ok(1)).expect("an index");
    assert_eq!(init.next(), Some("bbbb"));
    assert_eq!(init.notice(), "  [2/2] Downloading index bbbb");
    init = init.loaded(Ok(16)).expect("an index");
    assert_eq!(init.next(), None);
    let manager = init.finish();
    match manager.find(&[1, 2, 3]) {
        FindStep::Probe { position, key } => {
            assert_eq!(position, 0);
            assert_eq!(key, vec![1]);
        }
        other => panic!("{other:?}"),
    }
}

#[test]
fn init_ends_on_an_index_that_is_none() {
    let init = ArchiveManager::init(vec!["aaaa".to_string(), "bbbb".to_string()]);
    let init = init.loaded(Ok(1)).expect("an index");
    let e = init.loaded(Err("too short".to_string())).expect_err("no index");
    assert_eq!(e.message(), "failed to parse archive index bbbb");
    assert!(matches!(e, Error::IndexNotParsed { cause, .. } if cause == "too short"));
}

#[test]
fn no_archives_find_nothing() {
    let manager = ArchiveManager::init(Vec::new()).finish();
    assert!(matches!(manager.find(&[1]), FindStep::NotFound));
}

#[test]
fn fresh_indices_are_loaded_when_the_cache_fails() {
    assert!(matches!(load_or_init_archive_manager(None), ManagerStep::UseCached));
    match load_or_init_archive_manager(Some("no dir")) {
        ManagerStep::Init { failure } => assert_eq!(
            failure,
            "failed to load cached archive indices (no dir) or download fresh indices"
        ),
        other => panic!("{other:?}"),
    }
}

#[test]
fn keys_have_their_own_urls() {
    let url = |key: &[u8]| match ArchiveManager::download(&session(), key, None) {
        DataRequest::Loose { url, .. } => url,
        other => panic!("{other:?}"),
    };
    assert_eq!(url(&[0, 1]), "https://h/p/data/00/01/0001");
    assert_ne!(url(&[0, 1]), url(&[0, 1, 0]));
    assert_ne!(url(&[0, 1, 2]), url(&[0, 1, 3]));
}
