use casc_extract::error::Error;
use casc_extract::resolve::{
    check_curl_exit, curl_arguments, keep_match, listfile_cache_path, parse_listfile_line,
    parse_listfile_lines, Resolver, MAX_RESULTS,
};

fn loaded() -> Resolver {
    Resolver::from_cached(Ok(()), Ok(())).expect("both files are loaded")
}

fn resolver(lines: &[&str]) -> Resolver {
    let mut resolver = loaded();
    resolver.load_listfile(lines.iter().map(|l| Some(l.to_string())).collect());
    resolver
}

fn line(text: &str) -> Option<(u32, String)> {
    parse_listfile_line(text.to_string())
}

#[test]
fn listfile_lines_hold_an_id_and_a_path() {
    assert_eq!(line("1;a/b.m2"), Some((1, "a/b.m2".to_string())));
    assert_eq!(line("  53183 ; world/a;b.wmo \r"), Some((53183, "world/a;b.wmo".to_string())));
    assert_eq!(line("+7;x"), Some((7, "x".to_string())));
    assert_eq!(line("007;x"), Some((7, "x".to_string())));
    assert_eq!(line("4294967295;x"), Some((u32::MAX, "x".to_string())));
    assert_eq!(line("1;\u{3000}ü \u{a0}"), Some((1, "ü".to_string())));
}

#[test]
fn other_listfile_lines_are_passed_over() {
    for text in [
        "", ";", "1", "1;", "1;  ", ";a", "x;a", "-1;a", "+;a", "++1;a", "1 2;a", "4294967296;a",
        "99999999999999999999;a", "0x1;a",
    ] {
        assert_eq!(line(text), None);
    }
}

#[test]
fn unreadable_lines_are_passed_over() {
    let lines = vec![Some("1;a".to_string()), None, Some("bad".to_string()), Some("2;b".to_string())];
    assert_eq!(
        parse_listfile_lines(lines),
        vec![(1, "a".to_string()), (2, "b".to_string())]
    );
}

#[test]
fn search_ignores_case() {
    let resolver = resolver(&["1;World/Azeroth.WMO", "2;item/sword.m2", "3;world/kalimdor.wmo"]);
    let expected = vec![(1, "World/Azeroth.WMO"), (3, "world/kalimdor.wmo")];
    assert_eq!(resolver.search("WORLD/"), expected);
    assert_eq!(resolver.search("world/"), expected);
    assert_eq!(resolver.search("sword.m2"), vec![(2, "item/sword.m2")]);
    assert_eq!(resolver.search("nothing"), Vec::<(u32, &str)>::new());
    assert_eq!(resolver.search("").len(), 3);
}

#[test]
fn search_lowers_characters_beyond_ascii() {
    let resolver = resolver(&["1;a/ÄÖ.blp", "2;a/b.blp"]);
    assert_eq!(resolver.search("äö"), vec![(1, "a/ÄÖ.blp")]);
    assert_eq!(resolver.search("ÄÖ"), vec![(1, "a/ÄÖ.blp")]);
}

#[test]
fn search_gives_the_first_hundred() {
    let lines: Vec<Option<String>> = (0..250).map(|i| Some(format!("{i};f{i}"))).collect();
    let mut resolver = loaded();
    resolver.load_listfile(lines);
    let found = resolver.search("F");
    assert_eq!(found.len(), 100);
    assert_eq!(found.len(), MAX_RESULTS);
    assert_eq!(found[0], (0, "f0"));
    assert_eq!(found[99], (99, "f99"));
}

#[test]
fn first_listed_path_of_an_id_counts() {
    let resolver = resolver(&["5;a", "6;b", "5;c"]);
    assert_eq!(resolver.path_for_fdid(5), Some("a"));
    assert_eq!(resolver.path_for_fdid(6), Some("b"));
    assert_eq!(resolver.path_for_fdid(7), None);
    assert_eq!(loaded().path_for_fdid(5), None);
}

#[test]
fn a_new_listfile_replaces_the_old_one() {
    let mut resolver = resolver(&["5;a"]);
    resolver.load_listfile(vec![Some("6;b".to_string())]);
    assert_eq!(resolver.path_for_fdid(5), None);
    assert_eq!(resolver.path_for_fdid(6), Some("b"));
}

#[test]
fn paths_resolve_through_root_and_encoding() {
    let r = loaded();
    assert_eq!(r.resolve_path("a", true, Some(vec![1])).expect("both"), vec![1]);
    let e = r.resolve_path("a/b", false, Some(vec![1])).expect_err("not in root");
    assert!(matches!(e, Error::PathNotFound { .. }));
    assert_eq!(e.message(), "Path not found in root file: a/b");
    let e = r.resolve_path("a/b", true, None).expect_err("not in encoding");
    assert_eq!(e.message(), "Content key not found in encoding file for path: a/b");
}

#[test]
fn fdids_resolve_through_root_and_encoding() {
    let r = loaded();
    assert_eq!(r.resolve_fdid(9, true, Some(vec![1])).expect("both"), vec![1]);
    let e = r.resolve_fdid(1011653, false, None).expect_err("not in root");
    assert_eq!(e.message(), "FileDataID 1011653 not found in root file");
    let e = r.resolve_fdid(9, true, None).expect_err("not in encoding");
    assert_eq!(e.message(), "Content key not found in encoding file for FDID 9");
}

#[test]
fn listfile_is_in_the_cache_root() {
    assert_eq!(listfile_cache_path(Some("/h")), "/h/.cache/casc-extract/listfile.csv");
    assert_eq!(listfile_cache_path(None), "/tmp/.cache/casc-extract/listfile.csv");
}

#[test]
fn curl_fetches_the_published_list() {
    assert_eq!(
        curl_arguments("/d/listfile.csv"),
        vec![
            "-fsSL",
            "-o",
            "/d/listfile.csv",
            "https://github.com/wowdev/wow-listfile/releases/latest/download/community-listfile.csv",
        ]
    );
}

#[test]
fn curl_must_succeed() {
    assert!(check_curl_exit(true, Some(0)).is_ok());
    let e = check_curl_exit(false, Some(22)).expect_err("failed");
    assert_eq!(e.message(), "curl failed with exit code 22 while downloading listfile");
    let e = check_curl_exit(false, None).expect_err("killed");
    assert_eq!(e.message(), "curl failed with exit code -1 while downloading listfile");
    let e = check_curl_exit(false, Some(i32::MIN)).expect_err("odd code");
    assert_eq!(e.message(), "curl failed with exit code -2147483648 while downloading listfile");
}

#[test]
fn matches_are_kept_up_to_the_limit() {
    let mut results: Vec<(u32, &str)> = Vec::new();
    keep_match(&mut results, 1, "A/B", "a/b", "/b");
    keep_match(&mut results, 2, "A/C", "a/c", "/b");
    assert_eq!(results, vec![(1, "A/B")]);
    let mut full: Vec<(u32, &str)> = vec![(0, "x"); MAX_RESULTS];
    keep_match(&mut full, 1, "x", "x", "x");
    assert_eq!(full.len(), MAX_RESULTS);
}

#[test]
fn resolver_needs_both_cached_files() {
    let bad = |text: &str| Err(text.to_string());
    let e = Resolver::from_cached(bad("short"), bad("other")).expect_err("no root file");
    assert_eq!(e.message(), "Failed to load root file");
    assert!(matches!(e, Error::RootFileNotLoaded { cause } if cause == "short"));
    let e = Resolver::from_cached(Ok(()), bad("other")).expect_err("no encoding file");
    assert_eq!(e.message(), "Failed to load encoding file");
    assert!(matches!(e, Error::EncodingFileNotLoaded { cause } if cause == "other"));
    assert!(loaded().search("").is_empty());
}
