use obsidian_web_server::git::{CommitResult, GitError};
use obsidian_web_server::path::{debug_path, FilePath};
use obsidian_web_server::routes::{
    api_create_file, api_delete_file, api_get_file, api_put_file, api_rename_file, commit_response,
    ApiError, Change, CreateFileBody, DeleteFileBody, PathQuery, PutFileBody, RenameFileBody, Step,
};
use obsidian_web_server::vault::{Question, Vault, VaultError};

fn vault() -> Vault {
    Vault::new(FilePath::parse("/vault"))
}

/// A file system in memory, with what it was asked to change.
struct Disk {
    files: Vec<(String, String)>,
    dirs: Vec<String>,
    changes: Vec<String>,
    broken: bool,
}

impl Disk {
    fn new() -> Disk {
        Disk {
            files: vec![("/vault/a.md".to_string(), "old".to_string())],
            dirs: vec!["/".to_string(), "/vault".to_string(), "/vault/notes".to_string()],
            changes: Vec::new(),
            broken: false,
        }
    }

    fn has(&self, path: &str) -> bool {
        self.files.iter().any(|f| f.0 == path) || self.dirs.iter().any(|d| d == path)
    }

    fn resolve(&self, rel: &str) -> Result<FilePath, VaultError> {
        let vault = vault();
        let mut probe = vault.resolve(rel)?;
        loop {
            let there = self.has(&debug_path(probe.path()));
            match probe.answer(there) {
                Question::Exists(next) => probe = next,
                Question::Canonical(landing) => {
                    let path = landing.path().clone();
                    return vault.land(landing, Some(path));
                }
            }
        }
    }

    fn run(&mut self, start: Step) -> Step {
        let vault = vault();
        let mut step = start;
        loop {
            step = match step {
                Step::Resolve(s) => {
                    let reply = self.resolve(s.rel());
                    s.resume(&vault, reply)
                }
                Step::Exists(s) => {
                    let there = self.has(&debug_path(s.path()));
                    s.resume(&vault, there)
                }
                Step::IsFile(s) => {
                    let path = debug_path(&s.abs);
                    let file = self.files.iter().any(|f| f.0 == path);
                    s.resume(file)
                }
                Step::Read(s) => {
                    let path = debug_path(&s.abs);
                    let text = self.files.iter().find(|f| f.0 == path).unwrap().1.clone();
                    let reply = if self.broken { Err("broken".to_string()) } else { Ok(text) };
                    s.resume(reply)
                }
                Step::MakeDirs(s) => {
                    self.changes.push(format!("mkdir {}", debug_path(&s.dir)));
                    s.resume(&vault, Ok(()))
                }
                Step::Write(s) => {
                    let path = debug_path(s.path());
                    self.changes.push(format!("write {}", path));
                    let reply = if self.broken { Err("broken".to_string()) } else { Ok(()) };
                    self.files.retain(|f| f.0 != path);
                    self.files.push((path, s.content().to_string()));
                    s.resume(&vault, reply)
                }
                last => return last,
            }
        }
    }
}

fn get(path: &str) -> Step {
    api_get_file(PathQuery { path: path.to_string() })
}

fn put(path: &str, content: &str, message: Option<&str>) -> Step {
    api_put_file(PutFileBody {
        path: path.to_string(),
        content: content.to_string(),
        message: message.map(|m| m.to_string()),
    })
}

fn create(path: &str, content: &str) -> Step {
    api_create_file(CreateFileBody {
        path: path.to_string(),
        content: content.to_string(),
        message: None,
    })
}

fn delete(path: &str, message: Option<&str>) -> Step {
    api_delete_file(DeleteFileBody {
        path: path.to_string(),
        message: message.map(|m| m.to_string()),
    })
}

fn rename(from: &str, to: &str, message: Option<&str>) -> Step {
    api_rename_file(RenameFileBody {
        from: from.to_string(),
        to: to.to_string(),
        message: message.map(|m| m.to_string()),
    })
}

fn refusal(step: Step) -> (u16, String) {
    match step {
        Step::Fail(e) => e.into_response(),
        other => panic!("{:?}", other),
    }
}

#[test]
fn files_are_read() {
    let mut disk = Disk::new();
    match disk.run(get("/a.md")) {
        Step::Found(file) => {
            assert_eq!((file.path.as_str(), file.content.as_str()), ("/a.md", "old"));
        }
        other => panic!("{:?}", other),
    }
    assert!(disk.changes.is_empty());
}

#[test]
fn missing_files_are_not_found() {
    let mut disk = Disk::new();
    assert_eq!(refusal(disk.run(get("b.md"))), (404, "not found: b.md".to_string()));
    assert_eq!(refusal(disk.run(delete("b.md", None))), (404, "not found: b.md".to_string()));
    assert_eq!(refusal(disk.run(rename("b.md", "c.md", None))), (404, "not found: b.md".to_string()));
    assert!(disk.changes.is_empty());
}

#[test]
fn directories_are_not_read() {
    let mut disk = Disk::new();
    assert_eq!(
        refusal(disk.run(get("notes"))),
        (400, "bad request: not a file: notes".to_string())
    );
}

#[test]
fn reading_can_fail() {
    let mut disk = Disk::new();
    disk.broken = true;
    assert_eq!(refusal(disk.run(get("a.md"))), (500, "internal: read a.md: broken".to_string()));
}

#[test]
fn files_are_written_and_committed() {
    let mut disk = Disk::new();
    match disk.run(put("new/b.md", "text", None)) {
        Step::Commit(Change::Add { path, message }) => {
            assert_eq!((path.as_str(), message.as_str()), ("new/b.md", "edit: new/b.md"));
        }
        other => panic!("{:?}", other),
    }
    assert_eq!(disk.changes, vec!["mkdir /vault/new", "write /vault/new/b.md"]);
}

#[test]
fn what_was_written_is_read_back() {
    let mut disk = Disk::new();
    for path in ["a.md", "/notes//b.md"] {
        disk.run(put(path, "fresh text", None));
        match disk.run(get(path)) {
            Step::Found(file) => assert_eq!(file.content, "fresh text"),
            other => panic!("{:?}", other),
        }
    }
}

#[test]
fn given_messages_are_used_unless_blank() {
    for (given, used) in [
        (Some(" my words "), " my words "),
        (Some(""), "edit: a.md"),
        (Some(" \n\u{a0}"), "edit: a.md"),
        (None, "edit: a.md"),
    ] {
        match Disk::new().run(put("a.md", "x", given)) {
            Step::Commit(Change::Add { message, .. }) => assert_eq!(message, used),
            other => panic!("{:?}", other),
        }
    }
}

#[test]
fn files_are_made_where_none_is() {
    let mut disk = Disk::new();
    match disk.run(create("notes/c.md", "")) {
        Step::Commit(Change::Add { path, message }) => {
            assert_eq!((path.as_str(), message.as_str()), ("notes/c.md", "create: notes/c.md"));
        }
        other => panic!("{:?}", other),
    }
    assert_eq!(disk.changes, vec!["mkdir /vault/notes", "write /vault/notes/c.md"]);
}

#[test]
fn existing_files_are_not_made_again() {
    let mut disk = Disk::new();
    assert_eq!(
        refusal(disk.run(create("a.md", "new"))),
        (409, "conflict: file already exists: a.md".to_string())
    );
    assert!(disk.changes.is_empty());
    assert_eq!(disk.files[0].1, "old");
}

#[test]
fn writing_can_fail() {
    let mut disk = Disk::new();
    disk.broken = true;
    assert_eq!(
        refusal(disk.run(put("a.md", "x", None))),
        (500, "internal: write a.md: broken".to_string())
    );
    assert_eq!(
        refusal(disk.run(create("/b.md", "x"))),
        (500, "internal: write /b.md: broken".to_string())
    );
}

#[test]
fn making_a_directory_can_fail() {
    let resolving = match put("d/b.md", "x", None) {
        Step::Resolve(s) => s,
        other => panic!("{:?}", other),
    };
    let preparing = match resolving.resume(&vault(), Ok(FilePath::parse("/vault/d/b.md"))) {
        Step::MakeDirs(s) => s,
        other => panic!("{:?}", other),
    };
    assert_eq!(
        refusal(preparing.resume(&vault(), Err("read-only".to_string()))),
        (500, "internal: mkdir /vault/d: read-only".to_string())
    );
}

#[test]
fn files_are_removed() {
    let mut disk = Disk::new();
    match disk.run(delete(" a.md ", None)) {
        Step::Commit(Change::Remove { path, message }) => {
            assert_eq!((path.as_str(), message.as_str()), ("a.md", "delete: a.md"));
        }
        other => panic!("{:?}", other),
    }
    match disk.run(delete("a.md", Some("bye"))) {
        Step::Commit(Change::Remove { message, .. }) => assert_eq!(message, "bye"),
        other => panic!("{:?}", other),
    }
}

#[test]
fn files_are_moved() {
    let mut disk = Disk::new();
    match disk.run(rename("a.md", "old/a.md", None)) {
        Step::Commit(Change::Move { from, to, message }) => {
            assert_eq!((from.as_str(), to.as_str()), ("a.md", "old/a.md"));
            assert_eq!(message, "rename: a.md -> old/a.md");
        }
        other => panic!("{:?}", other),
    }
    assert_eq!(disk.changes, vec!["mkdir /vault/old"]);
    match disk.run(rename("a.md", "b.md", Some("moved"))) {
        Step::Commit(Change::Move { message, .. }) => assert_eq!(message, "moved"),
        other => panic!("{:?}", other),
    }
}

#[test]
fn files_are_not_moved_over_others() {
    let mut disk = Disk::new();
    assert_eq!(
        refusal(disk.run(rename("a.md", "notes", None))),
        (409, "conflict: destination already exists: notes".to_string())
    );
    assert_eq!(
        refusal(disk.run(rename("a.md", "a.md", None))),
        (409, "conflict: destination already exists: a.md".to_string())
    );
    assert!(disk.changes.is_empty());
}

#[test]
fn refused_paths_change_nothing() {
    let mut disk = Disk::new();
    let hidden = "vault error: path refers to a hidden/internal directory: .git".to_string();
    let escape = "vault error: path escapes the vault root".to_string();
    assert_eq!(refusal(disk.run(get(".git/config"))), (400, hidden.clone()));
    assert_eq!(refusal(disk.run(put(".git/config", "x", None))), (400, hidden.clone()));
    assert_eq!(refusal(disk.run(create("../x", "x"))), (400, escape.clone()));
    assert_eq!(refusal(disk.run(delete("../x", None))), (400, escape.clone()));
    assert_eq!(refusal(disk.run(rename("../x", "b.md", None))), (400, escape));
    assert_eq!(refusal(disk.run(rename("a.md", ".git/x", None))), (400, hidden));
    assert_eq!(
        refusal(disk.run(get(" "))),
        (400, "vault error: path is empty".to_string())
    );
    assert!(disk.changes.is_empty());
}

#[test]
fn links_to_hidden_directories_change_nothing() {
    let landing = |rel: &str| match vault().resolve(rel).unwrap().answer(true) {
        Question::Canonical(landing) => landing,
        other => panic!("{:?}", other),
    };
    let canonical = Some(FilePath::parse("/vault/.git/config"));
    let reply = vault().land(landing("link/config"), canonical);
    let resolving = match put("link/config", "x", None) {
        Step::Resolve(s) => s,
        other => panic!("{:?}", other),
    };
    assert_eq!(
        refusal(resolving.resume(&vault(), reply)),
        (400, "vault error: path refers to a hidden/internal directory: .git".to_string())
    );
}

#[test]
fn paths_outside_the_vault_have_no_relative_path() {
    let vault = vault();
    let text = "internal: could not derive relative path".to_string();
    let outside = || Ok(FilePath::parse("/elsewhere"));
    let writing = match put("a.md", "x", None) {
        Step::Resolve(s) => match s.resume(&vault, outside()) {
            Step::MakeDirs(s) => match s.resume(&vault, Ok(())) {
                Step::Write(s) => s,
                other => panic!("{:?}", other),
            },
            other => panic!("{:?}", other),
        },
        other => panic!("{:?}", other),
    };
    assert_eq!(refusal(writing.resume(&vault, Ok(()))), (500, text.clone()));
    let finding = match delete("a.md", None) {
        Step::Resolve(s) => match s.resume(&vault, outside()) {
            Step::Exists(s) => s,
            other => panic!("{:?}", other),
        },
        other => panic!("{:?}", other),
    };
    assert_eq!(refusal(finding.resume(&vault, true)), (500, text));
}

#[test]
fn commits_are_answered() {
    let made = commit_response(CommitResult::Committed { sha: "abc".to_string() });
    assert!(made.committed);
    assert_eq!(made.sha, Some("abc".to_string()));
    let none = commit_response(CommitResult::Nothing);
    assert!(!none.committed);
    assert_eq!(none.sha, None);
}

#[test]
fn api_errors_have_statuses_and_texts() {
    let s = || "x".to_string();
    assert_eq!(ApiError::NotFound(s()).into_response(), (404, "not found: x".to_string()));
    assert_eq!(ApiError::BadRequest(s()).into_response(), (400, "bad request: x".to_string()));
    assert_eq!(ApiError::Conflict(s()).into_response(), (409, "conflict: x".to_string()));
    assert_eq!(ApiError::Internal(s()).into_response(), (500, "internal: x".to_string()));
    assert_eq!(
        ApiError::Git(GitError::Spawn(s())).into_response(),
        (500, "git error: failed to spawn git: x".to_string())
    );
    assert_eq!(
        ApiError::Vault(VaultError::Empty).into_response(),
        (400, "vault error: path is empty".to_string())
    );
}
