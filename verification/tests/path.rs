use obsidian_web_server::path::{debug_path, same_bytes, Component, FilePath};

fn kinds(text: &str) -> Vec<String> {
    FilePath::parse(text)
        .components
        .iter()
        .map(|c| match c {
            Component::RootDir => "/".to_string(),
            Component::CurDir => ".".to_string(),
            Component::ParentDir => "..".to_string(),
            Component::Normal(name) => String::from_utf8(name.clone()).unwrap(),
        })
        .collect()
}

#[test]
fn paths_are_parsed_as_the_standard_library_does() {
    for text in [
        "", "/", "//", ".", "./a", "a/./b", "a/.", "..", "a/../b", "/a//b/", "///a", "/./a", "...",
        "a b/ü.md", "./.", "./..", "../.", "/..",
    ] {
        let expected: Vec<String> = std::path::Path::new(text)
            .components()
            .map(|c| c.as_os_str().to_str().unwrap().to_string())
            .collect();
        assert_eq!(kinds(text), expected, "components of {}", text);
    }
}

#[test]
fn paths_are_shown_as_the_standard_library_does() {
    for text in ["", "/", ".", "a", "/a", "/a/b c/d.md", "a/b", "../a", "./a"] {
        assert_eq!(debug_path(&FilePath::parse(text)), text);
    }
    assert_eq!(debug_path(&FilePath::parse("//a//./b/")), "/a/b");
}

#[test]
fn bytes_that_are_not_utf8_are_replaced() {
    let path = FilePath {
        components: vec![
            Component::RootDir,
            Component::Normal(vec![b'a', 0xff, b'b']),
            Component::Normal(b"c".to_vec()),
        ],
    };
    assert_eq!(path.to_bytes(), b"/a\xffb/c".to_vec());
    assert_eq!(debug_path(&path), "/a\u{fffd}b/c");
}

#[test]
fn parents_end_at_the_root() {
    for text in ["", "/", "a", "/a", "a/b", "/a/b/c", "..", "a/.."] {
        let parent = FilePath::parse(text).parent().map(|p| debug_path(&p));
        let expected =
            std::path::Path::new(text).parent().map(|p| p.to_str().unwrap().to_string());
        assert_eq!(parent, expected, "parent of {}", text);
    }
}

#[test]
fn prefixes_go_by_components() {
    let base = FilePath::parse("/vault");
    let inside = FilePath::parse("/vault/a/b.md");
    assert!(inside.starts_with(&base));
    assert!(base.starts_with(&base));
    assert!(!FilePath::parse("/vaults/a").starts_with(&base));
    assert!(!FilePath::parse("/").starts_with(&base));
    assert!(!FilePath::parse("vault/a").starts_with(&base));
    assert_eq!(debug_path(&inside.strip_prefix(&base).unwrap()), "a/b.md");
    assert_eq!(debug_path(&base.strip_prefix(&base).unwrap()), "");
    assert!(FilePath::parse("/vaults/a").strip_prefix(&base).is_none());
}

#[test]
fn paths_are_extended_and_copied() {
    let base = FilePath::parse("/vault");
    let whole = base.extended_by(&FilePath::parse("a/b"));
    assert_eq!(debug_path(&whole), "/vault/a/b");
    assert_eq!(debug_path(&whole.clone()), "/vault/a/b");
    assert_eq!(debug_path(&base), "/vault");
}

#[test]
fn components_and_bytes_are_compared() {
    assert!(Component::Normal(b"a".to_vec()).same(&Component::Normal(b"a".to_vec())));
    assert!(!Component::Normal(b"a".to_vec()).same(&Component::Normal(b"ab".to_vec())));
    assert!(!Component::Normal(b"..".to_vec()).same(&Component::ParentDir));
    assert!(Component::RootDir.same(&Component::RootDir));
    assert!(!Component::RootDir.same(&Component::CurDir));
    assert!(same_bytes(b"", b""));
    assert!(same_bytes(b"ab", b"ab"));
    assert!(!same_bytes(b"ab", b"ac"));
    assert!(!same_bytes(b"ab", b"abc"));
}
