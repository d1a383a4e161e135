use obsidian_web_server::path::{debug_path, Component, FilePath};
use obsidian_web_server::vault::{hidden_name, Question, Vault, VaultError};

fn vault() -> Vault {
    Vault::new(FilePath::parse("/vault"))
}

/// Resolves a path on a file system that has the given paths, where `links` are canonical forms
/// that differ from the path.
fn resolve(rel: &str, there: &[&str], links: &[(&str, &str)]) -> Result<String, VaultError> {
    let vault = vault();
    let mut probe = vault.resolve(rel)?;
    loop {
        let path = debug_path(probe.path());
        match probe.answer(there.contains(&path.as_str())) {
            Question::Exists(next) => probe = next,
            Question::Canonical(landing) => {
                let path = debug_path(landing.path());
                let target = links.iter().find(|l| l.0 == path).map(|l| l.1);
                let canonical = if there.contains(&path.as_str()) {
                    Some(FilePath::parse(target.unwrap_or(&path)))
                } else {
                    None
                };
                return vault.land(landing, canonical).map(|p| debug_path(&p));
            }
        }
    }
}

const THERE: &[&str] = &["/", "/vault", "/vault/notes", "/vault/notes/a.md", "/vault/link"];

#[test]
fn existing_paths_resolve_to_themselves() {
    assert_eq!(resolve("notes/a.md", THERE, &[]).unwrap(), "/vault/notes/a.md");
    assert_eq!(resolve("notes", THERE, &[]).unwrap(), "/vault/notes");
}

#[test]
fn new_paths_resolve_below_the_deepest_existing_directory() {
    assert_eq!(resolve("notes/b.md", THERE, &[]).unwrap(), "/vault/notes/b.md");
    assert_eq!(resolve("x/y/z.md", THERE, &[]).unwrap(), "/vault/x/y/z.md");
}

#[test]
fn slashes_in_front_and_white_space_around_do_not_count() {
    assert_eq!(resolve("///notes/a.md", THERE, &[]).unwrap(), "/vault/notes/a.md");
    assert_eq!(resolve("/ notes/a.md\n", THERE, &[]).unwrap(), "/vault/notes/a.md");
    assert_eq!(resolve("notes//./a.md/", THERE, &[]).unwrap(), "/vault/notes/a.md");
}

#[test]
fn empty_paths_are_refused() {
    for rel in ["", "/", "///", "  ", "/ \t\u{3000}"] {
        assert!(matches!(vault().resolve(rel), Err(VaultError::Empty)), "{:?}", rel);
    }
}

#[test]
fn paths_that_are_not_plain_are_refused() {
    for rel in ["..", "../etc/passwd", "notes/../../x", "a/..", " /etc/passwd", ".", "./notes"] {
        assert!(matches!(vault().resolve(rel), Err(VaultError::Escape)), "{:?}", rel);
    }
    assert_eq!(resolve("...", THERE, &[]).unwrap(), "/vault/...");
}

#[test]
fn hidden_directories_cannot_be_addressed() {
    for (rel, top) in [
        (".git", ".git"),
        (".git/config", ".git"),
        ("//.obsidian/app.json", ".obsidian"),
        (" .trash/a.md ", ".trash"),
    ] {
        match vault().resolve(rel) {
            Err(VaultError::Hidden(name)) => assert_eq!(name, top),
            other => panic!("{:?}", other),
        }
    }
    assert_eq!(resolve("notes/.git", THERE, &[]).unwrap(), "/vault/notes/.git");
    assert_eq!(resolve(".gitignore", THERE, &[]).unwrap(), "/vault/.gitignore");
}

#[test]
fn links_out_of_the_vault_are_refused() {
    let links = [("/vault/link", "/etc")];
    match resolve("link", THERE, &links) {
        Err(VaultError::Outside(rel)) => assert_eq!(rel, "link"),
        other => panic!("{:?}", other),
    }
    match resolve("/link/passwd", THERE, &links) {
        Err(VaultError::Outside(rel)) => assert_eq!(rel, "/link/passwd"),
        other => panic!("{:?}", other),
    }
}

#[test]
fn links_inside_the_vault_are_followed() {
    let links = [("/vault/link", "/vault/notes")];
    assert_eq!(resolve("link/new.md", THERE, &links).unwrap(), "/vault/notes/new.md");
}

#[test]
fn paths_without_a_canonical_form_are_outside() {
    assert!(matches!(resolve("a", &[], &[]), Err(VaultError::Outside(rel)) if rel == "a"));
    let probe = vault().resolve("a").unwrap();
    let landing = match probe.answer(true) {
        Question::Canonical(landing) => landing,
        other => panic!("{:?}", other),
    };
    assert!(matches!(vault().land(landing, None), Err(VaultError::Outside(rel)) if rel == "a"));
}

#[test]
fn questions_go_up_from_the_joined_path() {
    let probe = vault().resolve("x/y").unwrap();
    assert_eq!(debug_path(probe.path()), "/vault/x/y");
    let probe = match probe.answer(false) {
        Question::Exists(probe) => probe,
        other => panic!("{:?}", other),
    };
    assert_eq!(debug_path(probe.path()), "/vault/x");
    let landing = match probe.answer(true) {
        Question::Canonical(landing) => landing,
        other => panic!("{:?}", other),
    };
    assert_eq!(debug_path(landing.path()), "/vault/x");
    let path = vault().land(landing, Some(FilePath::parse("/vault/real"))).unwrap();
    assert_eq!(debug_path(&path), "/vault/real/y");
}

#[test]
fn relative_paths_have_forward_slashes() {
    let vault = vault();
    assert_eq!(vault.relative_str(&FilePath::parse("/vault/a/b.md")).unwrap(), "a/b.md");
    assert_eq!(vault.relative_str(&FilePath::parse("/vault/a\\b.md")).unwrap(), "a/b.md");
    assert_eq!(vault.relative_str(&FilePath::parse("/vault")).unwrap(), "");
    assert!(vault.relative_str(&FilePath::parse("/vaults/a.md")).is_none());
    let strange = FilePath {
        components: vec![
            Component::RootDir,
            Component::Normal(b"vault".to_vec()),
            Component::Normal(vec![b'x', 0x80]),
        ],
    };
    assert_eq!(vault.relative_str(&strange).unwrap(), "x\u{fffd}");
}

#[test]
fn relative_paths_undo_the_resolution() {
    for rel in ["notes/a.md", "/x//y/./z.md/", " new.md"] {
        let path = FilePath::parse(&resolve(rel, THERE, &[]).unwrap());
        let names: Vec<&str> =
            rel.trim().split('/').filter(|p| !p.is_empty() && *p != ".").collect();
        assert_eq!(vault().relative_str(&path).unwrap(), names.join("/"));
    }
}

#[test]
fn only_the_root_has_an_empty_relative_path() {
    for abs in ["/vault/a", "/vault/a/b", "/vault/..", "/vault/\\"] {
        assert_ne!(vault().relative_str(&FilePath::parse(abs)).unwrap(), "");
    }
    assert_eq!(vault().relative_str(&FilePath::parse("/vault/")).unwrap(), "");
}

#[test]
fn the_root_is_kept() {
    assert_eq!(debug_path(vault().root()), "/vault");
}

#[test]
fn hidden_names_are_exact() {
    assert_eq!(hidden_name(b".git"), Some(".git"));
    assert_eq!(hidden_name(b".obsidian"), Some(".obsidian"));
    assert_eq!(hidden_name(b".trash"), Some(".trash"));
    for name in ["git", ".Git", ".gitignore", ".gi", "", ".git\\x"] {
        assert_eq!(hidden_name(name.as_bytes()), None, "{:?}", name);
    }
}

#[test]
fn links_to_hidden_directories_are_refused() {
    let there = [
        "/", "/vault", "/vault/link", "/vault/link/config", "/vault/self", "/vault/self/.trash",
    ];
    let links = [
        ("/vault/link", "/vault/.git"),
        ("/vault/link/config", "/vault/.git/config"),
        ("/vault/self", "/vault"),
        ("/vault/self/.trash", "/vault/.trash"),
    ];
    for (rel, top) in [
        ("link", ".git"),
        ("link/config", ".git"),
        ("link/new.md", ".git"),
        ("link/deep/new.md", ".git"),
        ("self/.trash", ".trash"),
        ("self/.trash/old.md", ".trash"),
        ("self/.obsidian", ".obsidian"),
    ] {
        match resolve(rel, &there, &links) {
            Err(VaultError::Hidden(name)) => assert_eq!(name, top, "{}", rel),
            other => panic!("{}: {:?}", rel, other),
        }
    }
    assert_eq!(resolve("self/a.md", &there, &links).unwrap(), "/vault/a.md");
    assert_eq!(resolve("self", &there, &links).unwrap(), "/vault");
}

#[test]
fn backslashes_do_not_lead_to_hidden_directories() {
    for (rel, top) in [
        (".git\\config", ".git"),
        (".obsidian\\a\\b", ".obsidian"),
        ("a\\..\\.git", ".git"),
        (".\\.git", ".git"),
        ("notes/..\\.trash", ".trash"),
        ("\\vault\\.git\\config", ".git"),
    ] {
        match resolve(rel, THERE, &[]) {
            Err(VaultError::Hidden(name)) => assert_eq!(name, top, "{:?}", rel),
            other => panic!("{:?}: {:?}", rel, other),
        }
    }
}

#[test]
fn names_may_have_backslashes() {
    for rel in [
        "\\alpha.md",
        ".\\a",
        "..\\x",
        "notes/..\\..\\x",
        "\\.git",
        "\\..\\.git",
        "a\\..\\..\\.git",
    ] {
        assert_eq!(resolve(rel, THERE, &[]).unwrap(), format!("/vault/{}", rel));
    }
    assert_eq!(resolve("a\\b.md", THERE, &[]).unwrap(), "/vault/a\\b.md");
    assert_eq!(resolve("notes/.git\\x", THERE, &[]).unwrap(), "/vault/notes/.git\\x");
}

#[test]
fn vault_errors_have_texts() {
    assert_eq!(VaultError::Empty.message(), "path is empty");
    assert_eq!(VaultError::Escape.message(), "path escapes the vault root");
    assert_eq!(
        VaultError::Outside("a/b".to_string()).message(),
        "path is outside the vault: a/b"
    );
    assert_eq!(
        VaultError::Hidden(".git".to_string()).message(),
        "path refers to a hidden/internal directory: .git"
    );
}
