use std::path::Path;

use casc_extract::paths::{file_name, has_parent, join};

#[test]
fn paths_are_joined_with_one_separator() {
    assert_eq!(join("/a", "b"), "/a/b");
    assert_eq!(join("/a/", "b"), "/a/b");
    assert_eq!(join("", "b"), "b");
    assert_eq!(join("/a", "/b"), "/b");
    assert_eq!(join("/a", ""), "/a/");
}

#[test]
fn paths_are_joined_as_std_does() {
    let parts = ["", "/", "a", "a/", "/a", "a/b", "..", ".", "é", "é/", "a//"];
    for base in parts {
        for tail in parts {
            let expected = Path::new(base).join(tail);
            assert_eq!(join(base, tail), expected.to_str().expect("text"));
        }
    }
}

#[test]
fn paths_are_taken_apart_as_std_does() {
    let parts = ["", ".", "..", "...", "a", "a.b", ".a", "é"];
    let mut paths: Vec<String> = Vec::new();
    for first in parts {
        paths.push(first.to_string());
        for second in parts {
            paths.push(format!("{first}/{second}"));
            for third in parts {
                paths.push(format!("{first}/{second}/{third}"));
                paths.push(format!("{first}/{second}//{third}/"));
            }
        }
    }
    for path in paths {
        let std_path = Path::new(&path);
        let expected = std_path.file_name().map(|name| name.as_encoded_bytes().to_vec());
        assert_eq!(file_name(path.as_bytes()), expected);
        assert_eq!(has_parent(path.as_bytes()), std_path.parent().is_some());
    }
}

#[test]
fn trailing_separators_and_dots_keep_the_name() {
    for path in ["a", "a/b", "/", "", "..", "a/.."] {
        let name = file_name(path.as_bytes());
        assert_eq!(file_name(format!("{path}/").as_bytes()), name);
        assert_eq!(file_name(format!("{path}/.").as_bytes()), name);
    }
}
