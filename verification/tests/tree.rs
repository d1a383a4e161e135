use obsidian_web_server::path::FilePath;
use obsidian_web_server::tree::{insert_into_tree, EntryKind, NodeKind, TreeNode, WalkEntry};
use obsidian_web_server::vault::Vault;

fn empty() -> TreeNode {
    TreeNode {
        name: String::new(),
        path: String::new(),
        kind: NodeKind::Dir,
        children: Some(Vec::new()),
    }
}

/// The tree in one line: names, with a slash behind directories and children in brackets.
fn show(node: &TreeNode) -> String {
    let mut text = node.name.clone();
    if node.kind == NodeKind::Dir {
        text.push('/');
    }
    if let Some(children) = &node.children {
        let inner: Vec<String> = children.iter().map(show).collect();
        text.push_str(&format!("[{}]", inner.join(" ")));
    }
    text
}

fn entry(path: &str, kind: EntryKind) -> WalkEntry {
    WalkEntry { path: FilePath::parse(path), kind }
}

fn vault() -> Vault {
    Vault::new(FilePath::parse("/vault"))
}

#[test]
fn files_are_put_below_their_directories() {
    let mut tree = empty();
    insert_into_tree(&mut tree, "b", NodeKind::Dir);
    insert_into_tree(&mut tree, "b/x.md", NodeKind::File);
    insert_into_tree(&mut tree, "a.md", NodeKind::File);
    assert_eq!(show(&tree), "/[b/[x.md] a.md]");
    let b = &tree.children.as_ref().unwrap()[0];
    assert_eq!((b.name.as_str(), b.path.as_str()), ("b", "b"));
    let x = &b.children.as_ref().unwrap()[0];
    assert_eq!((x.name.as_str(), x.path.as_str()), ("x.md", "b/x.md"));
    assert_eq!(x.kind, NodeKind::File);
    assert!(x.children.is_none());
}

#[test]
fn missing_directories_are_made() {
    let mut tree = empty();
    insert_into_tree(&mut tree, "/a//b/c.md/", NodeKind::File);
    assert_eq!(show(&tree), "/[a/[b/[c.md]]]");
    let b = &tree.children.as_ref().unwrap()[0].children.as_ref().unwrap()[0];
    assert_eq!(b.path, "a/b");
    assert_eq!(b.children.as_ref().unwrap()[0].path, "a/b/c.md");
}

#[test]
fn empty_paths_insert_nothing() {
    let mut tree = empty();
    insert_into_tree(&mut tree, "", NodeKind::File);
    insert_into_tree(&mut tree, "//", NodeKind::Dir);
    assert_eq!(show(&tree), "/[]");
}

#[test]
fn a_second_insertion_changes_nothing() {
    let mut tree = empty();
    insert_into_tree(&mut tree, "a/b.md", NodeKind::File);
    insert_into_tree(&mut tree, "a/b.md", NodeKind::Dir);
    insert_into_tree(&mut tree, "a", NodeKind::File);
    assert_eq!(show(&tree), "/[a/[b.md]]");
}

#[test]
fn a_file_can_get_children() {
    let mut tree = empty();
    insert_into_tree(&mut tree, "a", NodeKind::File);
    insert_into_tree(&mut tree, "a/b", NodeKind::File);
    assert_eq!(show(&tree), "/[a[b]]");
}

#[test]
fn insertion_leaves_other_nodes_alone() {
    let mut tree = empty();
    insert_into_tree(&mut tree, "a/x", NodeKind::File);
    insert_into_tree(&mut tree, "b/x", NodeKind::Dir);
    let before = show(&tree.children.as_ref().unwrap()[0]);
    insert_into_tree(&mut tree, "b/x/y", NodeKind::File);
    assert_eq!(show(&tree.children.as_ref().unwrap()[0]), before);
    assert_eq!(show(&tree), "/[a/[x] b/[x/[y]]]");
}

#[test]
fn the_tree_holds_what_a_walk_finds() {
    let entries = vec![
        entry("/vault/.git", EntryKind::Dir),
        entry("/vault/.git/config", EntryKind::File),
        entry("/vault/.gitignore", EntryKind::File),
        entry("/vault/.obsidian/app.json", EntryKind::File),
        entry("/vault/.trash", EntryKind::File),
        entry("/vault/a.md", EntryKind::File),
        entry("/vault/link", EntryKind::Other),
        entry("/vault/notes", EntryKind::Dir),
        entry("/vault/notes/.git", EntryKind::Dir),
        entry("/vault/notes/b.md", EntryKind::File),
        entry("/elsewhere/c.md", EntryKind::File),
    ];
    let tree = vault().tree(&entries);
    assert_eq!(show(&tree), "/[.gitignore a.md notes/[.git/[] b.md]]");
    assert_eq!((tree.name.as_str(), tree.path.as_str()), ("", ""));
}

#[test]
fn the_first_entry_decides_the_kind() {
    let entries = vec![
        entry("/vault/a/b.md", EntryKind::File),
        entry("/vault/a", EntryKind::File),
        entry("/vault/c", EntryKind::File),
        entry("/vault/c", EntryKind::Dir),
    ];
    assert_eq!(show(&vault().tree(&entries)), "/[a/[b.md] c]");
}

#[test]
fn backslashes_separate_names_in_the_tree() {
    let entries = vec![entry("/vault/a\\b.md", EntryKind::File)];
    assert_eq!(show(&vault().tree(&entries)), "/[a/[b.md]]");
}

#[test]
fn hidden_names_stay_out_of_the_tree() {
    let entries = vec![
        entry("/vault/.git\\x", EntryKind::File),
        entry("/vault/\\.trash", EntryKind::Dir),
        entry("/vault/\\", EntryKind::Dir),
        entry("/vault/\\/.obsidian", EntryKind::Dir),
        entry("/vault/a/.git", EntryKind::Dir),
    ];
    assert_eq!(show(&vault().tree(&entries)), "/[a/[.git/[]]]");
}

fn check(node: &TreeNode) {
    assert_eq!(node.kind == NodeKind::File, node.children.is_none(), "{}", node.path);
    if let Some(children) = &node.children {
        for pair in children.windows(2) {
            assert!(pair[0].name < pair[1].name, "{} {}", pair[0].name, pair[1].name);
        }
        for child in children {
            let path = if node.path.is_empty() {
                child.name.clone()
            } else {
                format!("{}/{}", node.path, child.name)
            };
            assert_eq!(child.path, path);
            check(child);
        }
    }
}

#[test]
fn a_walk_by_name_gives_a_sorted_tree() {
    let entries = vec![
        entry("/vault/B", EntryKind::Dir),
        entry("/vault/B/z.md", EntryKind::File),
        entry("/vault/B-a.md", EntryKind::File),
        entry("/vault/a", EntryKind::Dir),
        entry("/vault/a/b", EntryKind::Dir),
        entry("/vault/a/b/c.md", EntryKind::File),
        entry("/vault/a/b.md", EntryKind::File),
        entry("/vault/é.md", EntryKind::File),
    ];
    let tree = vault().tree(&entries);
    assert_eq!(show(&tree), "/[B/[z.md] B-a.md a/[b/[c.md] b.md] é.md]");
    check(&tree);
}

#[test]
fn the_tree_of_nothing_is_empty() {
    assert_eq!(show(&vault().tree(&Vec::new())), "/[]");
}

#[test]
fn hidden_entries_are_found_at_the_top_only() {
    let vault = vault();
    assert!(vault.hides(&FilePath::parse("/vault/.git")));
    assert!(vault.hides(&FilePath::parse("/vault/.trash/a/b")));
    assert!(!vault.hides(&FilePath::parse("/vault")));
    assert!(!vault.hides(&FilePath::parse("/vault/a/.git")));
    assert!(!vault.hides(&FilePath::parse("/other/.git")));
}

#[test]
fn paths_of_the_tree_can_be_requested() {
    let entries = vec![entry("/vault/notes/two words.md", EntryKind::File)];
    let tree = vault().tree(&entries);
    let notes = &tree.children.as_ref().unwrap()[0];
    let file = &notes.children.as_ref().unwrap()[0];
    assert_eq!(file.path, "notes/two words.md");
    let probe = vault().resolve(&file.path).unwrap();
    assert_eq!(
        obsidian_web_server::path::debug_path(probe.path()),
        "/vault/notes/two words.md"
    );
}
