use sovereign::paths::{
    extension_of, file_name_of, join_path, normal_components_of, parent_of,
};
use std::path::{Component, Path};

const PATHS: [&str; 34] = [
    "", "/", ".", "..", "a", "a.rs", "/a/b.rs", "a/b/", "a//b.txt", "./a.py", "a/./b", "a/b/.",
    "a/..", "../a.tar.gz", ".hidden", ".hidden.rs", "dir/.git/config", "a.", "a..b", "/.", "//",
    "a/b/..", "...", "a/.../b", "name with space.md", "dir.d/file", "x/y.z/", "/abs/.env.local",
    "trailing.dot./", "é/ü.日本", "a/./", "./", "a/../b.c", ". /x",
];

#[test]
fn file_names_as_the_platform_cuts_them() {
    for path in PATHS {
        assert_eq!(file_name_of(path), Path::new(path).file_name().map(|s| s.to_string_lossy().into_owned()), "file name of {:?}", path);
    }
    assert_eq!(file_name_of("/a/b.rs"), Some("b.rs".to_string()));
    assert_eq!(file_name_of("a/b/"), Some("b".to_string()));
    assert_eq!(file_name_of("a/.."), None);
}

#[test]
fn extensions_as_the_platform_cuts_them() {
    for path in PATHS {
        assert_eq!(extension_of(path), Path::new(path).extension().map(|s| s.to_string_lossy().into_owned()), "extension of {:?}", path);
    }
    assert_eq!(extension_of("../a.tar.gz"), Some("gz".to_string()));
    assert_eq!(extension_of(".hidden"), None);
    assert_eq!(extension_of(".hidden.rs"), Some("rs".to_string()));
    assert_eq!(extension_of("a."), Some(String::new()));
}

#[test]
fn components_as_the_platform_cuts_them() {
    for path in PATHS {
        let expected: Vec<String> = Path::new(path)
            .components()
            .filter_map(|c| match c {
                Component::Normal(name) => Some(name.to_string_lossy().into_owned()),
                _ => None,
            })
            .collect();
        assert_eq!(normal_components_of(path), expected, "components of {:?}", path);
    }
    assert_eq!(normal_components_of("/a/./b//c/../d.rs"), vec!["a", "b", "c", "d.rs"]);
}

#[test]
fn joining_as_the_platform_does() {
    for dir in ["", "/", "a", "a/", "/data", "/data//", "rel/x"] {
        for name in ["memories.automerge", "/abs", "", "sub/file", ".git"] {
            let expected = Path::new(dir).join(name).to_string_lossy().into_owned();
            assert_eq!(join_path(dir, name), expected, "{:?} joined with {:?}", dir, name);
        }
    }
    assert_eq!(join_path("/data", "sovereign.sock"), "/data/sovereign.sock");
}

const MORE_PATHS: [&str; 30] = [
    "/a", "//a", "///", "/a/", "/a//", "/./a", "/./", "./.", ".//", "././a", "../..", "/..",
    "a/b/../c", ".a/b", "..a", "a/.b", "a/b/c/d.rs", "/home/u/p/src/main.rs", "a/./.", "a/.//./b",
    "a/b/./", "./a/b", ".", "..", "./..", "a/b//", "/a/./b/.", "x", "é/ü/日本.rs", "/a/b/../..",
];

#[test]
fn parents_as_the_platform_names_them() {
    for path in PATHS.iter().chain(MORE_PATHS.iter()) {
        let expected = Path::new(path).parent().map(|p| p.to_string_lossy().into_owned());
        assert_eq!(parent_of(path), expected, "parent of {:?}", path);
    }
    assert_eq!(parent_of("/a/b.rs"), Some("/a".to_string()));
    assert_eq!(parent_of("/a"), Some("/".to_string()));
    assert_eq!(parent_of("a"), Some(String::new()));
    assert_eq!(parent_of("a//b/./"), Some("a".to_string()));
    assert_eq!(parent_of("./a"), Some(".".to_string()));
    assert_eq!(parent_of("."), Some(String::new()));
    assert_eq!(parent_of("/"), None);
    assert_eq!(parent_of(""), None);
}
