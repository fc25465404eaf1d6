use casc_extract::cli::{
    build_id_file, cmd_download, cmd_search, diag_print_root_stats, diag_probe_fdids,
    diag_probe_line, diag_probe_root_resolve, diag_resolve_first_fdid, diag_sample_fdids,
    diag_sample_line, download_by_path, resolve_download_target, verdict_text, RootStats,
    SetupStep,
};
use casc_extract::download::{SavePlace, Target};
use casc_extract::error::Error;
use casc_extract::resolve::Resolver;
use casc_extract::text::{
    contains, decimal_text, parse_u32, signed_decimal_text, trim, NumberError,
};
use casc_extract::Product;

#[test]
fn target_is_a_path_or_an_id() {
    assert_eq!(resolve_download_target(Some("a/b".to_string()), None).expect("path"), "a/b");
    assert_eq!(resolve_download_target(None, Some(42)).expect("id"), "__fdid:42");
    let e = resolve_download_target(Some("a".to_string()), Some(1)).expect_err("both");
    assert_eq!(e.message(), "specify either <path> or --fdid, not both");
    let e = resolve_download_target(None, None).expect_err("neither");
    assert_eq!(e.message(), "specify either <path> or --fdid");
}

#[test]
fn download_is_planned_with_or_without_deps() {
    let plan = cmd_download(Some("a.m2".to_string()), None, true).expect("plan");
    assert_eq!(plan.notice(), Some("Downloading a.m2 with dependencies...".to_string()));
    assert_eq!(plan.target, "a.m2");
    assert!(plan.with_deps);
    assert!(!plan.by_id);
    assert_eq!(plan.place(), SavePlace::InDir);
    let plan = cmd_download(None, Some(3), false).expect("plan");
    assert_eq!(plan.notice(), None);
    assert_eq!(plan.target, "__fdid:3");
    assert!(!plan.with_deps);
    assert!(plan.by_id);
    assert_eq!(plan.place(), SavePlace::AtPath);
    let plan = cmd_download(None, Some(3), true).expect("plan");
    assert_eq!(plan.place(), SavePlace::AtPath);
    let plan = cmd_download(Some("a/".to_string()), None, false).expect("plan");
    assert_eq!(plan.place(), SavePlace::AtPath);
    assert!(matches!(cmd_download(None, None, true), Err(Error::TargetMissing)));
}

#[test]
fn id_is_downloaded_with_and_without_deps() {
    let mut resolver = Resolver::from_cached(Ok(()), Ok(())).expect("loaded");
    resolver.load_listfile(vec![Some("5;Creature/Bear/Bear.m2".to_string())]);

    let alone = cmd_download(None, Some(5), false).expect("plan");
    let alone = alone.files(&resolver).expect("an id");
    assert_eq!(alone.len(), 1);
    assert!(matches!(&alone[0].target, Target::Fdid { fdid: 5, .. }));
    assert_eq!(alone[0].filename, "Bear.m2");

    let together = cmd_download(None, Some(5), true).expect("plan");
    let together = together.files(&resolver).expect("an id");
    assert_eq!(together.len(), 2);
    assert_eq!(format!("{:?}", together[0]), format!("{:?}", alone[0]));
    assert!(
        matches!(&together[1].target, Target::Path { path } if path == "Creature/Bear/Bear00.skin")
    );
    assert_eq!(together[1].filename, "Bear00.skin");

    let unnamed = cmd_download(None, Some(6), true).expect("plan");
    let unnamed = unnamed.files(&resolver).expect("an id");
    assert_eq!(unnamed.len(), 1);
    assert_eq!(unnamed[0].filename, "6");
}

#[test]
fn path_that_reads_like_an_id_is_a_path_with_deps() {
    let mut resolver = Resolver::from_cached(Ok(()), Ok(())).expect("loaded");
    resolver.load_listfile(vec![Some("5;Creature/Bear/Bear.m2".to_string())]);
    for text in ["__fdid:5", "__fdid:x"] {
        let plan = cmd_download(Some(text.to_string()), None, true).expect("plan");
        let files = plan.files(&resolver).expect("a path");
        assert_eq!(files.len(), 1);
        assert!(matches!(&files[0].target, Target::Path { path } if path == text));
        assert_eq!(files[0].filename, text);
    }
    let plan = cmd_download(Some("__fdid:x.m2".to_string()), None, true).expect("plan");
    let files = plan.files(&resolver).expect("a path");
    assert_eq!(files.len(), 2);
    assert_eq!(files[1].filename, "__fdid:x00.skin");

    let plan = cmd_download(Some("__fdid:5".to_string()), None, false).expect("plan");
    let files = plan.files(&resolver).expect("an id");
    assert!(matches!(&files[0].target, Target::Fdid { fdid: 5, .. }));
    assert_eq!(files[0].filename, "Bear.m2");
    let plan = cmd_download(Some("__fdid:x".to_string()), None, false).expect("plan");
    assert!(matches!(plan.files(&resolver), Err(Error::InvalidFdid { .. })));
}

#[test]
fn path_is_downloaded_with_and_without_deps() {
    let resolver = Resolver::from_cached(Ok(()), Ok(())).expect("loaded");
    let files = |with_deps: bool| {
        let plan = cmd_download(Some("x/y.m2".to_string()), None, with_deps).expect("plan");
        plan.files(&resolver).expect("a path")
    };
    assert_eq!(files(false).len(), 1);
    assert_eq!(files(true).len(), 2);
    assert_eq!(format!("{:?}", files(false)[0]), format!("{:?}", files(true)[0]));
}

#[test]
fn id_targets_are_read_back() {
    for id in [0u32, 9, 10, 125024, u32::MAX] {
        let target = resolve_download_target(None, Some(id)).expect("id");
        match download_by_path(&target).expect("an id") {
            Target::Fdid { fdid, text } => {
                assert_eq!(fdid, id);
                assert_eq!(text, id.to_string());
            }
            other => panic!("{other:?}"),
        }
    }
    let e = download_by_path("__fdid:x").expect_err("no number");
    assert_eq!(e.message(), "invalid fdid");
    for (text, expected) in [
        ("", NumberError::Empty),
        ("x", NumberError::InvalidDigit),
        ("+", NumberError::InvalidDigit),
        ("4294967296", NumberError::PosOverflow),
    ] {
        match download_by_path(&format!("__fdid:{text}")) {
            Err(Error::InvalidFdid { cause }) => assert_eq!(cause, expected),
            other => panic!("{other:?}"),
        }
    }
    assert!(matches!(download_by_path("__fdid"), Ok(Target::Path { path }) if path == "__fdid"));
}

#[test]
fn files_are_saved_under_their_listed_name() {
    let mut resolver = Resolver::from_cached(Ok(()), Ok(())).expect("loaded");
    resolver.load_listfile(vec![Some("5;dir\\five.blp".to_string())]);
    let five = download_by_path("__fdid:5").expect("id");
    assert_eq!(five.filename(&resolver), "five.blp");
    assert_eq!(five.notice("five.blp"), "Downloading fdid=5 as five.blp...");
    let six = download_by_path("__fdid:+6").expect("id");
    assert_eq!(six.filename(&resolver), "+6");
    let path = download_by_path("a/b/c.m2").expect("path");
    assert_eq!(path.filename(&resolver), "c.m2");
    assert_eq!(path.notice("c.m2"), "Downloading a/b/c.m2...");
}

#[test]
fn each_product_has_its_build_id_file() {
    assert_eq!(build_id_file(&Product::wow(), Some("/h")), "/h/.cache/casc-extract/build-id.txt");
    let wowt = Product::new("wowt").expect("valid");
    assert_eq!(build_id_file(&wowt, None), "/tmp/.cache/casc-extract/build-id-wowt.txt");
}

#[test]
fn setup_saves_the_build_id_last() {
    let product = Product::wow();
    let mut step = SetupStep::Connect;
    let mut seen = vec![step];
    while step != SetupStep::Done {
        step = step.next();
        seen.push(step);
    }
    assert_eq!(
        seen,
        vec![
            SetupStep::Connect,
            SetupStep::CacheBuild,
            SetupStep::FetchListfile,
            SetupStep::LoadIndices,
            SetupStep::SaveBuildId,
            SetupStep::Done,
        ]
    );
    assert_eq!(SetupStep::Done.next(), SetupStep::Done);
    assert_eq!(
        SetupStep::Connect.notice(&product),
        Some("Connecting to Blizzard CDN for product wow...".to_string())
    );
    assert_eq!(SetupStep::SaveBuildId.notice(&product), None);
    assert_eq!(SetupStep::Done.notice(&product), Some("Init complete.".to_string()));
}

#[test]
fn search_is_reported_line_by_line() {
    let report = cmd_search("x", &vec![(1, "a"), (20, "b/c")]);
    assert_eq!(report.notice, None);
    assert_eq!(report.lines, vec!["1\ta", "20\tb/c"]);
    let report = cmd_search("x", &Vec::new());
    assert_eq!(report.notice, Some("No results for pattern: x".to_string()));
    assert!(report.lines.is_empty());
}

#[test]
fn diagnosis_probes_known_ids() {
    assert_eq!(
        diag_probe_fdids(),
        vec![125024, 1011653, 1, 100, 1000, 10000, 100000, 500000]
    );
    assert_eq!(diag_probe_line(100, true), "FDID 100: FOUND");
    assert_eq!(diag_probe_line(1, false), "FDID 1: not found");
    assert_eq!(verdict_text(true), "FOUND");
    let lines: Vec<String> =
        diag_probe_root_resolve().iter().map(|p| p.line(p.all_locales)).collect();
    assert_eq!(
        lines,
        vec![
            "Direct resolve FDID 125024: not found",
            "Direct resolve FDID 1011653: not found",
            "Direct resolve (ALL locale) FDID 125024: FOUND",
            "Direct resolve (ALL locale) FDID 1011653: FOUND",
        ]
    );
}

#[test]
fn diagnosis_samples_ten_ids() {
    let blocks: Vec<Vec<u32>> = vec![vec![], vec![1, 2, 3], (4..20).collect(), vec![99]];
    assert_eq!(diag_sample_fdids(&blocks), (1..11).collect::<Vec<u32>>());
    assert_eq!(diag_sample_fdids(&vec![vec![7], vec![8]]), vec![7, 8]);
    assert_eq!(diag_sample_fdids(&Vec::new()), Vec::<u32>::new());
    assert_eq!(diag_sample_line(7), "  Block FDID: 7");
}

#[test]
fn diagnosis_resolves_the_first_id_of_the_first_block() {
    assert_eq!(diag_resolve_first_fdid(&vec![vec![7, 8]]), Some(7));
    assert_eq!(diag_resolve_first_fdid(&vec![vec![], vec![8]]), None);
    assert_eq!(diag_resolve_first_fdid(&Vec::new()), None);
}

#[test]
fn diagnosis_prints_root_stats() {
    let stats = RootStats {
        version: "V2".to_string(),
        total_files: 10,
        named_files: 9,
        blocks: 8,
        fdid_lookups: 7,
        name_lookups: 0,
    };
    assert_eq!(
        diag_print_root_stats(&stats),
        vec![
            "Root version: V2",
            "Root total_files: 10",
            "Root named_files: 9",
            "Root blocks: 8",
            "Root lookup stats: fdid=7, name=0",
        ]
    );
}

#[test]
fn numbers_are_written_and_read_in_decimal() {
    assert_eq!(decimal_text(u64::MAX), u64::MAX.to_string());
    assert_eq!(decimal_text(1000), "1000");
    assert_eq!(signed_decimal_text(-7), "-7");
    assert_eq!(parse_u32("4294967295"), Ok(u32::MAX));
    assert_eq!(parse_u32("4294967296"), Err(NumberError::PosOverflow));
}

#[test]
fn numbers_are_refused_as_std_does() {
    for text in [
        "",
        "+",
        "-",
        "+7",
        "++7",
        "-7",
        "007",
        "12a",
        "a12",
        " 1",
        "1 ",
        "4294967295",
        "4294967296",
        "4294967296x",
        "429496729x",
        "42949672950",
        "99999999999999999999999999",
        "0000000000000000000001",
        "+4294967296",
        "12345678901x",
        "\u{0661}",
    ] {
        match (parse_u32(text), text.parse::<u32>()) {
            (Ok(ours), Ok(theirs)) => assert_eq!(ours, theirs),
            (Err(ours), Err(theirs)) => assert_eq!(ours.message(), theirs.to_string()),
            (ours, theirs) => panic!("{text:?}: {ours:?}, {theirs:?}"),
        }
    }
}

#[test]
fn white_space_is_trimmed_as_std_does() {
    for code in 0..0x11_0000u32 {
        if let Some(c) = char::from_u32(code) {
            let text = format!("{c}x{c}");
            assert_eq!(trim(&text), text.trim());
        }
    }
}

#[test]
fn substrings_are_found() {
    assert!(contains("abcabd", "abd"));
    assert!(contains("abc", ""));
    assert!(contains("", ""));
    assert!(!contains("ab", "abc"));
    assert!(!contains("abcab", "abd"));
}
