use std::sync::Arc;

use obsidian_web_server::git::{CommitResult, CommitStep, ExitStatus, GitError, GitOutput};
use obsidian_web_server::path::{debug_path, FilePath};
use obsidian_web_server::routes::{ApiError, Change};
use obsidian_web_server::state::{check_startup, commit_reply, AppState};
use obsidian_web_server::vault::Vault;

fn state() -> AppState {
    AppState {
        vault: Arc::new(Vault::new(FilePath::parse("/vault"))),
        git_user_name: Arc::from("Ada"),
        git_user_email: Arc::from("ada@example.org"),
    }
}

fn reply(code: i32, stdout: &str) -> GitOutput {
    GitOutput {
        status: ExitStatus { code: Some(code), text: format!("exit status: {}", code) },
        stdout: stdout.as_bytes().to_vec(),
        stderr: Vec::new(),
    }
}

fn staged(change: Change) -> Vec<String> {
    let state = state();
    let step = state.commit(&change);
    match step {
        CommitStep::Stage(s) => s.command().args.clone(),
        other => panic!("{:?}", other),
    }
}

#[test]
fn changes_are_staged_by_their_kind() {
    let s = |t: &str| t.to_string();
    assert_eq!(staged(Change::Add { path: s("a"), message: s("m") }), vec!["add", "--", "a"]);
    assert_eq!(staged(Change::Remove { path: s("a"), message: s("m") }), vec!["rm", "--", "a"]);
    assert_eq!(
        staged(Change::Move { from: s("a"), to: s("b"), message: s("m") }),
        vec!["mv", "--", "a", "b"]
    );
}

#[test]
fn a_change_makes_a_single_commit() {
    let state = state();
    let change = Change::Add { path: "a.md".to_string(), message: "edit: a.md".to_string() };
    let mut commits = Vec::new();
    let mut step = state.commit(&change);
    let result = loop {
        step = match step {
            CommitStep::Stage(s) => s.resume(Ok(reply(0, ""))),
            CommitStep::Check(s) => s.resume(Ok(reply(1, "").status)),
            CommitStep::Commit(s) => {
                assert_eq!(debug_path(s.command().cwd.as_ref().unwrap()), "/vault");
                commits.push(s.command().args.join(" "));
                s.resume(Ok(reply(0, "")))
            }
            CommitStep::Name(s) => s.resume(Ok(reply(0, "abc\n"))),
            CommitStep::Done(result) => break result,
        };
    };
    assert_eq!(commits, vec!["-c user.name=Ada -c user.email=ada@example.org commit -m edit: a.md"]);
    let response = commit_reply(result).unwrap();
    assert!(response.committed);
    assert_eq!(response.sha, Some("abc".to_string()));
}

#[test]
fn replies_follow_the_commit() {
    let none = commit_reply(Ok(CommitResult::Nothing)).unwrap();
    assert!(!none.committed);
    assert_eq!(none.sha, None);
    match commit_reply(Err(GitError::Spawn("x".to_string()))) {
        Err(ApiError::Git(GitError::Spawn(reason))) => assert_eq!(reason, "x"),
        other => panic!("{:?}", other),
    }
}

#[test]
fn the_repository_is_the_vault() {
    let state = state();
    let repo = state.repo();
    assert_eq!(debug_path(repo.root), "/vault");
    assert_eq!((repo.user_name, repo.user_email), ("Ada", "ada@example.org"));
    assert!(repo.ssh.is_none());
}

#[test]
fn the_start_is_checked() {
    let path = FilePath::parse("/srv/vault");
    assert_eq!(check_startup(&path, true, true, "Ada", "a@b"), Ok(()));
    assert_eq!(
        check_startup(&path, false, true, "Ada", "a@b"),
        Err("vault path is not a directory: /srv/vault".to_string())
    );
    assert_eq!(
        check_startup(&path, true, false, "", ""),
        Err("vault path is not a git repository (missing .git): /srv/vault".to_string())
    );
    assert_eq!(
        check_startup(&path, true, true, " \t", "a@b"),
        Err("--git-user-name must not be empty".to_string())
    );
    assert_eq!(
        check_startup(&path, true, true, " Ada", "\u{2003}"),
        Err("--git-user-email must not be empty".to_string())
    );
}
