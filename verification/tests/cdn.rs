use casc_extract::cdn::{
    default_cache_root, encoding_cdn_key, extract_endpoint, extract_version_fields, load_cached,
    load_cached_product, root_cdn_key, root_content_key, validate_product_name, BuildConfig,
    CdnEndpoint, CdnSession, InitEvent, InitStep, VersionField, VersionsRow,
};
use casc_extract::error::Error;
use casc_extract::hexcode::HexError;
use casc_extract::Product;

fn endpoint() -> CdnEndpoint {
    CdnEndpoint {
        scheme: None,
        host: "cdn.example.com".to_string(),
        path: "tpr/wow".to_string(),
    }
}

fn versions() -> VersionsRow {
    VersionsRow {
        build_config: Some("0102ab".to_string()),
        cdn_config: Some("FFee".to_string()),
        build_id: Some("12345".to_string()),
    }
}

fn session() -> CdnSession {
    CdnSession::connect(Some(endpoint()), Some(versions())).expect("valid responses")
}

fn config() -> BuildConfig {
    BuildConfig {
        encoding_key: Some("aabb".to_string()),
        root: Some("0011".to_string()),
    }
}

#[test]
fn product_query_paths_include_requested_product() {
    let product = Product::new("wowt").expect("valid product");

    assert_eq!(product.cdns_query_path(), "v1/products/wowt/cdns");
    assert_eq!(product.versions_query_path(), "v1/products/wowt/versions");
}

#[test]
fn product_rejects_path_injection() {
    let err = Product::new("../wow").expect_err("invalid product must fail");

    assert!(err.message().contains("invalid product"));
    assert_eq!(err.message(), "invalid product name: ../wow");
}

#[test]
fn product_build_cache_dir_uses_cache_root_product_and_build_id() {
    let product = Product::new("wowt").expect("valid product");
    let dir = product.build_cache_dir("/tmp/cache/casc-extract", "12345");

    assert_eq!(dir, "/tmp/cache/casc-extract/wowt-12345");
}

#[test]
fn product_names_are_letters_digits_underscore_and_hyphen() {
    for name in ["wow", "wow_classic_ptr", "WoW-9", "_", "-"] {
        assert!(validate_product_name(name).is_ok());
        assert_eq!(Product::new(name).expect("valid").name(), name);
    }
    for name in ["", "wow ", "a/b", "a\\b", "wöw", "a.b", "a\0"] {
        assert!(validate_product_name(name).is_err());
        assert!(matches!(
            Product::new(name),
            Err(Error::InvalidProductName { name: refused }) if refused == name
        ));
    }
}

#[test]
fn default_product_is_wow() {
    assert_eq!(Product::default(), Product::wow());
    assert_eq!(Product::wow().name(), "wow");
    assert_eq!(Product::wow().clone(), Product::wow());
}

#[test]
fn build_dir_of_root_with_slash_has_one_separator() {
    assert_eq!(Product::wow().build_cache_dir("/c/", "1"), "/c/wow-1");
    assert_eq!(Product::wow().build_cache_dir("", "1"), "wow-1");
}

#[test]
fn cache_root_is_under_home_or_tmp() {
    assert_eq!(default_cache_root(Some("/home/u")), "/home/u/.cache/casc-extract");
    assert_eq!(default_cache_root(Some("/")), "/.cache/casc-extract");
    assert_eq!(default_cache_root(Some("")), ".cache/casc-extract");
    assert_eq!(default_cache_root(None), "/tmp/.cache/casc-extract");
}

#[test]
fn cached_files_are_in_the_build_dir() {
    let files = load_cached(Some("/h"), "7");
    assert_eq!(files.root, "/h/.cache/casc-extract/wow-7/root.bin");
    assert_eq!(files.encoding, "/h/.cache/casc-extract/wow-7/encoding.bin");
    let wowt = Product::new("wowt").expect("valid");
    let files = load_cached_product(&wowt, None, "7");
    assert_eq!(files.root, "/tmp/.cache/casc-extract/wowt-7/root.bin");
}

#[test]
fn connect_takes_endpoint_keys_and_build() {
    let session = session();
    assert_eq!(session.product().name(), "wow");
    assert_eq!(session.build_id(), "12345");
    assert_eq!(session.endpoint().host, "cdn.example.com");
    assert_eq!(session.cdn_config_key(), &vec![0xffu8, 0xee]);
    assert_eq!(session.cache_dir(Some("/h")), "/h/.cache/casc-extract/wow-12345");
}

#[test]
fn connect_reports_missing_rows_networks_first() {
    assert!(matches!(CdnSession::connect(None, None), Err(Error::NoCdnRows)));
    assert!(matches!(extract_endpoint(None), Err(Error::NoCdnRows)));
    assert!(matches!(
        CdnSession::connect(Some(endpoint()), None),
        Err(Error::NoVersionRows)
    ));
    let e = Error::NoCdnRows;
    assert_eq!(e.message(), "CDNs response has no rows");
    assert_eq!(Error::NoVersionRows.message(), "versions response has no rows");
}

#[test]
fn version_fields_are_checked_in_order() {
    let (build, cdn, id) = extract_version_fields(Some(versions())).expect("complete row");
    assert_eq!(build, vec![1, 2, 0xab]);
    assert_eq!(cdn, vec![0xff, 0xee]);
    assert_eq!(id, "12345");

    let row = VersionsRow { build_config: None, cdn_config: None, build_id: None };
    let e = extract_version_fields(Some(row)).expect_err("no field");
    assert_eq!(e.message(), "missing BuildConfig field in versions");

    let row = VersionsRow { cdn_config: None, build_id: None, ..versions() };
    let e = extract_version_fields(Some(row)).expect_err("no cdn config");
    assert_eq!(e.message(), "missing CDNConfig field in versions");

    let row = VersionsRow { build_id: None, build_config: Some("zz".to_string()), ..versions() };
    let e = extract_version_fields(Some(row)).expect_err("no build id");
    assert_eq!(e.message(), "missing BuildId field in versions");

    let row = VersionsRow {
        build_config: Some("0x".to_string()),
        cdn_config: Some("1".to_string()),
        ..versions()
    };
    let e = extract_version_fields(Some(row)).expect_err("bad hex");
    assert!(matches!(
        e,
        Error::InvalidVersionHex {
            field: VersionField::BuildConfig,
            cause: HexError::InvalidHexCharacter { c: 'x', index: 1 }
        }
    ));
    assert_eq!(e.message(), "invalid hex in BuildConfig field");

    let row = VersionsRow { cdn_config: Some("1".to_string()), ..versions() };
    let e = extract_version_fields(Some(row)).expect_err("odd hex");
    assert!(matches!(
        e,
        Error::InvalidVersionHex { field: VersionField::CdnConfig, cause: HexError::OddLength }
    ));
    assert_eq!(e.message(), "invalid hex in CDNConfig field");
}

#[test]
fn version_columns_have_names() {
    assert_eq!(VersionField::BuildConfig.name(), "BuildConfig");
    assert_eq!(VersionField::CdnConfig.name(), "CDNConfig");
    assert_eq!(VersionField::BuildId.name(), "BuildId");
}

#[test]
fn hex_keys_are_decoded_or_refused() {
    assert_eq!(encoding_cdn_key(&config()).expect("hex"), vec![0xaa, 0xbb]);
    let none = BuildConfig { encoding_key: None, root: None };
    let e = encoding_cdn_key(&none).expect_err("no key");
    assert_eq!(e.message(), "missing encoding key in BuildConfig");
    let odd = BuildConfig { encoding_key: Some("abc".to_string()), root: None };
    let e = encoding_cdn_key(&odd).expect_err("odd");
    assert!(matches!(e, Error::InvalidEncodingKeyHex { cause: HexError::OddLength }));
    assert_eq!(e.message(), "invalid hex in encoding key");
    // A character of two bytes: each of its bytes counts, and none is a digit.
    let wide = BuildConfig { encoding_key: Some("aaé".to_string()), root: None };
    assert!(matches!(
        encoding_cdn_key(&wide),
        Err(Error::InvalidEncodingKeyHex {
            cause: HexError::InvalidHexCharacter { c: '\u{c3}', index: 2 }
        })
    ));
    let empty = BuildConfig { encoding_key: Some(String::new()), root: None };
    assert_eq!(encoding_cdn_key(&empty).expect("empty"), Vec::<u8>::new());
}

#[test]
fn root_key_needs_config_and_listing() {
    assert_eq!(root_content_key(&config()).expect("root"), "0011");
    assert_eq!(root_cdn_key(&config(), Some(vec![5])).expect("listed"), vec![5]);
    let e = root_cdn_key(&config(), None).expect_err("not listed");
    assert_eq!(e.message(), "root content key not found in encoding file");
    let none = BuildConfig { encoding_key: None, root: None };
    let e = root_cdn_key(&none, Some(vec![5])).expect_err("no root");
    assert_eq!(e.message(), "missing root in BuildConfig");
    assert!(matches!(root_content_key(&none), Err(Error::MissingRoot)));
}

#[test]
fn data_url_has_two_levels() {
    assert_eq!(
        session().build_data_url("abcdef"),
        "https://cdn.example.com/tpr/wow/data/ab/cd/abcdef"
    );
    let given = CdnEndpoint { scheme: Some("http".to_string()), ..endpoint() };
    let session = CdnSession::connect(Some(given), Some(versions())).expect("valid");
    assert_eq!(
        session.build_data_url("0123"),
        "http://cdn.example.com/tpr/wow/data/01/23/0123"
    );
    // Pairs are pairs of bytes.
    assert_eq!(
        session.build_data_url("éab"),
        "http://cdn.example.com/tpr/wow/data/é/ab/éab"
    );
}

/// Runs an init on a disk that is a list of files, with an encoding file that
/// lists `listed` for the root file. Gives the steps and the files.
fn run_init(
    session: &CdnSession,
    listed: Option<Vec<u8>>,
) -> Result<(Vec<String>, Vec<(String, Vec<u8>)>), Error> {
    let mut trace: Vec<String> = Vec::new();
    let mut files: Vec<(String, Vec<u8>)> = Vec::new();
    let mut event = InitEvent::Start;
    loop {
        event = match session.init(Some("/h"), event)? {
            InitStep::CreateDir { dir } => {
                trace.push(format!("mkdir {dir}"));
                InitEvent::DirCreated
            }
            InitStep::FetchBuildConfig { key } => {
                trace.push(format!("config {key:?}"));
                InitEvent::BuildConfigFetched { config: config() }
            }
            InitStep::FetchEncoding { key, config } => {
                trace.push(format!("encoding {key:?}"));
                InitEvent::EncodingFetched { config, encoding: b"the encoding file".to_vec() }
            }
            InitStep::ListRoot { content_key, config, encoding } => {
                trace.push(format!("list {content_key}"));
                InitEvent::RootListed { config, encoding, listed: listed.clone() }
            }
            InitStep::FetchRoot { key, encoding } => {
                trace.push(format!("root {key:?}"));
                InitEvent::RootFetched { encoding, root: b"the root file".to_vec() }
            }
            InitStep::WriteRoot { path, root, encoding } => {
                trace.push(format!("write {path}"));
                files.push((path, root));
                InitEvent::RootWritten { encoding }
            }
            InitStep::WriteEncoding { path, encoding } => {
                trace.push(format!("write {path}"));
                files.push((path, encoding));
                InitEvent::EncodingWritten
            }
            InitStep::Done { dir } => {
                trace.push(format!("done {dir}"));
                return Ok((trace, files));
            }
        };
    }
}

#[test]
fn init_caches_both_files_after_fetching_both() {
    let session = session();
    let dir = "/h/.cache/casc-extract/wow-12345";
    let (trace, files) = run_init(&session, Some(vec![9])).expect("no fault");
    assert_eq!(
        trace,
        vec![
            format!("mkdir {dir}"),
            "config [1, 2, 171]".to_string(),
            "encoding [170, 187]".to_string(),
            "list 0011".to_string(),
            "root [9]".to_string(),
            format!("write {dir}/root.bin"),
            format!("write {dir}/encoding.bin"),
            format!("done {dir}"),
        ]
    );

    let cached = load_cached_product(session.product(), Some("/h"), session.build_id());
    assert_eq!(
        files,
        vec![
            (cached.root, b"the root file".to_vec()),
            (cached.encoding, b"the encoding file".to_vec()),
        ]
    );
}

#[test]
fn init_stops_on_bad_configuration() {
    let session = session();
    let bad = || BuildConfig { encoding_key: None, root: None };
    assert!(matches!(
        session.init(None, InitEvent::BuildConfigFetched { config: bad() }),
        Err(Error::MissingEncodingKey)
    ));
    assert!(matches!(
        session.init(None, InitEvent::EncodingFetched { config: bad(), encoding: vec![1] }),
        Err(Error::MissingRoot)
    ));
    assert!(matches!(run_init(&session, None), Err(Error::RootNotFound)));
}

#[test]
fn products_do_not_share_build_dirs() {
    let a = Product::new("wow").expect("valid").build_cache_dir("/c", "1");
    let b = Product::new("wowt").expect("valid").build_cache_dir("/c", "1");
    assert_ne!(a, b);
}

#[test]
fn builds_do_not_share_dirs() {
    let dir = |product: &str, build: &str| {
        Product::new(product).expect("valid").build_cache_dir("/c", build)
    };
    let all = [
        dir("wow", "1"),
        dir("wow", "2"),
        dir("wow-1", "2"),
        dir("wow-1-2", "1"),
        dir("wowt", "1"),
    ];
    for (i, a) in all.iter().enumerate() {
        for b in &all[i + 1..] {
            assert_ne!(a, b);
        }
    }
    // A hyphen in the number of a build can make two of them meet.
    assert_eq!(dir("wow", "1-2"), dir("wow-1", "2"));
}
