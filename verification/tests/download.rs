use casc_extract::download::{
    basename, companion, download_and_save, download_single, download_with_deps, m2_skin_path,
    SaveDir, Target,
};
use casc_extract::error::Error;
use casc_extract::resolve::Resolver;

#[test]
fn basename_follows_the_last_separator() {
    assert_eq!(basename("Item/ObjectComponents/Backpack/Backpack.m2"), "Backpack.m2");
    assert_eq!(basename("a\\b/c\\d"), "d");
    assert_eq!(basename("plain"), "plain");
    assert_eq!(basename("dir/"), "");
    assert_eq!(basename(""), "");
    assert_eq!(basename("é/ü"), "ü");
}

#[test]
fn models_have_a_skin() {
    assert_eq!(m2_skin_path("a/b.m2"), Some("a/b00.skin".to_string()));
    assert_eq!(m2_skin_path("a/B.M2"), Some("a/B00.skin".to_string()));
    assert_eq!(m2_skin_path(".m2"), Some("00.skin".to_string()));
    assert_eq!(m2_skin_path("é.m2"), Some("é00.skin".to_string()));
    for path in ["", "m2", "a.m3", "a_m2", "a.m2 ", "b00.skin", "a.n2"] {
        assert_eq!(m2_skin_path(path), None);
    }
}

fn resolver(lines: &[&str]) -> Resolver {
    let mut resolver = Resolver::from_cached(Ok(()), Ok(())).expect("loaded");
    resolver.load_listfile(lines.iter().map(|line| Some(line.to_string())).collect());
    resolver
}

fn at_path(path: &str) -> Target {
    Target::Path { path: path.to_string() }
}

fn with_id(fdid: u32) -> Target {
    Target::Fdid { fdid, text: fdid.to_string() }
}

#[test]
fn model_is_downloaded_with_its_optional_skin() {
    let requests = download_with_deps(at_path("x/y.m2"), &resolver(&[]));
    assert_eq!(requests.len(), 2);
    assert!(matches!(&requests[0].target, Target::Path { path } if path == "x/y.m2"));
    assert_eq!(requests[0].filename, "y.m2");
    assert!(requests[0].required);
    assert_eq!(requests[0].notice(), None);
    assert_eq!(requests[0].warning("e"), None);
    assert!(matches!(&requests[1].target, Target::Path { path } if path == "x/y00.skin"));
    assert_eq!(requests[1].filename, "y00.skin");
    assert!(!requests[1].required);
    assert_eq!(requests[1].notice(), Some("Downloading companion skin: x/y00.skin".to_string()));
    assert_eq!(
        requests[1].warning("gone"),
        Some("Warning: could not download skin x/y00.skin: gone".to_string())
    );
}

#[test]
fn id_of_a_model_is_downloaded_by_its_id_with_its_skin() {
    let resolver = resolver(&["5;Creature/Bear/Bear.m2", "6;Creature/Bear/Bear.blp"]);
    let requests = download_with_deps(with_id(5), &resolver);
    assert_eq!(requests.len(), 2);
    assert!(matches!(&requests[0].target, Target::Fdid { fdid: 5, text } if text == "5"));
    assert_eq!(requests[0].filename, "Bear.m2");
    assert!(requests[0].required);
    assert!(
        matches!(&requests[1].target, Target::Path { path } if path == "Creature/Bear/Bear00.skin")
    );
    assert_eq!(requests[1].filename, "Bear00.skin");
    assert!(!requests[1].required);

    let requests = download_with_deps(with_id(6), &resolver);
    assert_eq!(requests.len(), 1);
    assert_eq!(requests[0].filename, "Bear.blp");

    let requests = download_with_deps(with_id(7), &resolver);
    assert_eq!(requests.len(), 1);
    assert!(matches!(&requests[0].target, Target::Fdid { fdid: 7, .. }));
    assert_eq!(requests[0].filename, "7");
}

#[test]
fn first_file_does_not_depend_on_companions() {
    let resolver = resolver(&["5;a\\b.m2"]);
    for target in [|| with_id(5), || with_id(9), || at_path("c/d.M2"), || at_path("e.txt")] {
        let alone = download_single(target(), &resolver);
        let together = download_with_deps(target(), &resolver);
        assert_eq!(format!("{alone:?}"), format!("{:?}", together[0]));
        assert_eq!(together.len() == 2, companion(&target(), &resolver).is_some());
    }
}

#[test]
fn other_files_come_alone() {
    let requests = download_with_deps(at_path("x/y.blp"), &resolver(&[]));
    assert_eq!(requests.len(), 1);
    assert_eq!(requests[0].filename, "y.blp");
    assert!(requests[0].required);
    assert_eq!(download_single(at_path("a/b"), &resolver(&[])).filename, "b");
}

#[test]
fn a_skin_brings_no_further_file() {
    assert_eq!(download_with_deps(at_path("x/y00.skin"), &resolver(&[])).len(), 1);
}

#[test]
fn targets_are_known_by_their_text() {
    let resolver = resolver(&["5;dir/five.blp"]);
    assert_eq!(with_id(5).text(), "5");
    assert_eq!(with_id(5).path(&resolver), Some("dir/five.blp"));
    assert_eq!(with_id(6).path(&resolver), None);
    assert_eq!(at_path("p/q").text(), "p/q");
    assert_eq!(at_path("p/q").path(&resolver), Some("p/q"));
}

#[test]
fn output_needs_a_file_name() {
    for (path, expected) in [
        ("assets/f", "f"),
        ("f", "f"),
        ("./assets/f/.", "f"),
        ("assets/f//", "f"),
        ("a/../f", "f"),
        ("a/é..", "é.."),
    ] {
        let target = download_and_save(path.as_bytes()).expect("a name");
        assert_eq!(target.filename, expected);
        assert_eq!(target.dir, SaveDir::Parent);
    }
    for path in ["", "/", ".", "./", "/.", "..", "assets/..", "assets/../."] {
        let e = download_and_save(path.as_bytes()).expect_err("no name");
        assert_eq!(e.message(), "output_path has no filename");
    }
    assert!(matches!(download_and_save(b"assets/\xff"), Err(Error::NoFileName)));
    assert_eq!(download_and_save(b"\xff/f").expect("a name").filename, "f");
}

#[test]
fn files_are_saved_under_their_names() {
    for dir in ["", "/", "assets/", "./a/b/"] {
        for name in ["y.m2", "é.blp", "...", ".x", "a\\b"] {
            let target = download_and_save(format!("{dir}{name}").as_bytes()).expect("a name");
            assert_eq!(target.filename, name);
            assert_eq!(target.dir, SaveDir::Parent);
        }
    }
}

#[test]
fn models_are_told_by_their_lower_case_form() {
    for code in 0..0x11_0000u32 {
        if let Some(c) = char::from_u32(code) {
            for path in [format!("a.{c}2"), format!("a{c}m2"), format!("a.m{c}")] {
                let model = path.to_lowercase().ends_with(".m2");
                assert_eq!(m2_skin_path(&path).is_some(), model);
            }
        }
    }
}
