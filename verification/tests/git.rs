use obsidian_web_server::git::{
    clone, failed_message, finish_clone, finish_remote_origin_url, remote_origin_url, CommitResult,
    CommitStep, ExitStatus, GitCommand, GitError, GitOutput, GitRepo, SshConfig,
};
use obsidian_web_server::path::{debug_path, FilePath};

const SSH: &str = "ssh -i '/keys/id' -o IdentitiesOnly=yes -o StrictHostKeyChecking=accept-new -o BatchMode=yes";

fn output(code: i32, stdout: &str, stderr: &str) -> Result<GitOutput, String> {
    Ok(GitOutput {
        status: status(code),
        stdout: stdout.as_bytes().to_vec(),
        stderr: stderr.as_bytes().to_vec(),
    })
}

fn status(code: i32) -> ExitStatus {
    ExitStatus { code: Some(code), text: format!("exit status: {}", code) }
}

fn ssh() -> SshConfig {
    SshConfig { identity_file: b"/keys/id".to_vec() }
}

fn repo<'a>(root: &'a FilePath, ssh: Option<&'a SshConfig>) -> GitRepo<'a> {
    GitRepo { root, user_name: "Ada", user_email: "ada@example.org", ssh }
}

fn in_vault(command: &GitCommand) -> Vec<&str> {
    assert_eq!(debug_path(command.cwd.as_ref().unwrap()), "/vault");
    assert!(command.env.is_none());
    command.args.iter().map(|a| a.as_str()).collect()
}

/// Runs a commit against a git that gives the replies in order, and returns the commands.
fn run(
    start: CommitStep<'_>,
    replies: Vec<Result<GitOutput, String>>,
) -> (Vec<String>, Result<CommitResult, GitError>) {
    let mut commands = Vec::new();
    let mut replies = replies.into_iter();
    let mut step = start;
    loop {
        step = match step {
            CommitStep::Stage(s) => {
                commands.push(in_vault(s.command()).join(" "));
                s.resume(replies.next().unwrap())
            }
            CommitStep::Check(s) => {
                commands.push(in_vault(s.command()).join(" "));
                s.resume(replies.next().unwrap().map(|o| o.status))
            }
            CommitStep::Commit(s) => {
                commands.push(in_vault(s.command()).join(" "));
                s.resume(replies.next().unwrap())
            }
            CommitStep::Name(s) => {
                commands.push(in_vault(s.command()).join(" "));
                s.resume(replies.next().unwrap())
            }
            CommitStep::Done(result) => {
                assert!(replies.next().is_none());
                return (commands, result);
            }
        }
    }
}

#[test]
fn a_change_is_staged_checked_committed_and_named() {
    let root = FilePath::parse("/vault");
    let start = repo(&root, None).add_and_commit(&["a.md", "b/c.md"], "two files");
    let (commands, result) = run(
        start,
        vec![output(0, "", ""), output(1, "", ""), output(0, "[main]", ""), output(0, " abc123\n", "")],
    );
    assert_eq!(
        commands,
        vec![
            "add -- a.md b/c.md",
            "diff --cached --quiet",
            "-c user.name=Ada -c user.email=ada@example.org commit -m two files",
            "rev-parse --short HEAD",
        ]
    );
    assert!(matches!(result, Ok(CommitResult::Committed { sha }) if sha == "abc123"));
}

#[test]
fn nothing_staged_means_no_commit() {
    let root = FilePath::parse("/vault");
    let start = repo(&root, None).add_and_commit(&["a.md"], "m");
    let (commands, result) = run(start, vec![output(0, "", ""), output(0, "", "")]);
    assert_eq!(commands, vec!["add -- a.md", "diff --cached --quiet"]);
    assert!(matches!(result, Ok(CommitResult::Nothing)));
}

#[test]
fn removals_and_moves_are_staged() {
    let root = FilePath::parse("/vault");
    let (commands, _) =
        run(repo(&root, None).rm_and_commit("a.md", "m"), vec![Err("gone".to_string())]);
    assert_eq!(commands, vec!["rm -- a.md"]);
    let (commands, _) =
        run(repo(&root, None).mv_and_commit("a.md", "b.md", "m"), vec![Err("gone".to_string())]);
    assert_eq!(commands, vec!["mv -- a.md b.md"]);
}

#[test]
fn a_commit_ends_with_the_first_failure() {
    let root = FilePath::parse("/vault");
    let (_, result) =
        run(repo(&root, None).rm_and_commit("a.md", "m"), vec![output(128, "", "fatal: no\n")]);
    match result {
        Err(GitError::Failed { args, status, stderr }) => {
            assert_eq!(args, vec!["rm", "--", "a.md"]);
            assert_eq!(status, "exit status: 128");
            assert_eq!(stderr, "fatal: no\n");
        }
        other => panic!("{:?}", other),
    }
    let (_, result) = run(
        repo(&root, None).rm_and_commit("a.md", "m"),
        vec![output(0, "", ""), output(1, "", ""), output(1, "", "hook")],
    );
    match result {
        Err(GitError::Failed { args, .. }) => assert_eq!(
            args,
            vec!["-c", "user.name=Ada", "-c", "user.email=ada@example.org", "commit", "-m", "m"]
        ),
        other => panic!("{:?}", other),
    }
    let (_, result) = run(
        repo(&root, None).rm_and_commit("a.md", "m"),
        vec![output(0, "", ""), output(1, "", ""), output(0, "", ""), Err("no git".to_string())],
    );
    assert!(matches!(result, Err(GitError::Spawn(reason)) if reason == "no git"));
}

#[test]
fn other_exit_codes_of_the_check_are_errors() {
    let root = FilePath::parse("/vault");
    let (_, result) =
        run(repo(&root, None).rm_and_commit("a", "m"), vec![output(0, "", ""), output(129, "", "x")]);
    match result {
        Err(GitError::Failed { args, status, stderr }) => {
            assert_eq!(args, vec!["diff", "--cached", "--quiet"]);
            assert_eq!(status, "exit status: 129");
            assert_eq!(stderr, "unexpected exit code from git diff --cached");
        }
        other => panic!("{:?}", other),
    }
    let killed = Ok(GitOutput {
        status: ExitStatus { code: None, text: "signal: 9 (SIGKILL)".to_string() },
        stdout: Vec::new(),
        stderr: Vec::new(),
    });
    let (_, result) = run(repo(&root, None).rm_and_commit("a", "m"), vec![output(0, "", ""), killed]);
    assert!(matches!(result, Err(GitError::Failed { status, .. }) if status == "signal: 9 (SIGKILL)"));
}

#[test]
fn commands_give_their_trimmed_output() {
    let root = FilePath::parse("/vault");
    let push = repo(&root, None).push().unwrap();
    assert_eq!(push.finish(output(0, "\n up to date \t", "")).unwrap(), "up to date");
    let bytes = GitOutput { status: status(0), stdout: vec![b' ', 0xff, b'a'], stderr: Vec::new() };
    assert_eq!(push.finish(Ok(bytes)).unwrap(), "\u{fffd}a");
    let failed = push.finish(output(1, "", "rejected"));
    assert!(matches!(failed, Err(GitError::Failed { args, .. }) if args == vec!["push"]));
    assert!(matches!(push.finish(Err("x".to_string())), Err(GitError::Spawn(r)) if r == "x"));
}

#[test]
fn remote_commands_use_the_identity() {
    let root = FilePath::parse("/vault");
    let config = ssh();
    let push = repo(&root, Some(&config)).push().unwrap();
    assert_eq!(push.args, vec!["push"]);
    assert_eq!(push.env, Some(("GIT_SSH_COMMAND".to_string(), SSH.to_string())));
    let pull = repo(&root, Some(&config)).pull_ff_only().unwrap();
    assert_eq!(pull.args, vec!["pull", "--ff-only"]);
    assert_eq!(pull.env, Some(("GIT_SSH_COMMAND".to_string(), SSH.to_string())));
    assert_eq!(debug_path(pull.cwd.as_ref().unwrap()), "/vault");
}

#[test]
fn without_an_identity_remote_commands_are_plain() {
    let root = FilePath::parse("/vault");
    assert_eq!(in_vault(&repo(&root, None).push().unwrap()), vec!["push"]);
    assert_eq!(in_vault(&repo(&root, None).pull_ff_only().unwrap()), vec!["pull", "--ff-only"]);
}

#[test]
fn identities_are_quoted() {
    assert_eq!(ssh().git_ssh_command().unwrap(), SSH);
    let spaced = SshConfig { identity_file: b"/my keys/id".to_vec() };
    assert!(spaced.git_ssh_command().unwrap().starts_with("ssh -i '/my keys/id' -o "));
    let strange = SshConfig { identity_file: vec![b'k', 0xc3] };
    assert!(strange.git_ssh_command().unwrap().starts_with("ssh -i 'k\u{fffd}' -o "));
}

#[test]
fn identities_with_a_quote_are_refused() {
    let config = SshConfig { identity_file: b"/it's/id".to_vec() };
    match config.git_ssh_command() {
        Err(GitError::BadIdentityPath(path)) => assert_eq!(path, "/it's/id"),
        other => panic!("{:?}", other),
    }
    let root = FilePath::parse("/vault");
    assert!(matches!(repo(&root, Some(&config)).push(), Err(GitError::BadIdentityPath(_))));
    assert!(matches!(clone("u", &config, b"/d"), Err(GitError::BadIdentityPath(_))));
}

#[test]
fn clones_name_the_address_and_the_destination() {
    let command = clone("git@host:vault.git", &ssh(), b"/srv/vault").unwrap();
    assert!(command.cwd.is_none());
    assert_eq!(command.args, vec!["clone", "--quiet", "git@host:vault.git", "/srv/vault"]);
    assert_eq!(command.env, Some(("GIT_SSH_COMMAND".to_string(), SSH.to_string())));
    assert!(finish_clone(&command, output(0, "", "")).is_ok());
    match finish_clone(&command, output(128, "", "denied")) {
        Err(GitError::Failed { args, stderr, .. }) => {
            assert_eq!(args, command.args);
            assert_eq!(stderr, "denied");
        }
        other => panic!("{:?}", other),
    }
    assert!(matches!(finish_clone(&command, Err("x".to_string())), Err(GitError::Spawn(_))));
}

#[test]
fn the_address_of_the_remote_may_be_missing() {
    let command = remote_origin_url(&FilePath::parse("/vault"));
    assert_eq!(in_vault(&command), vec!["config", "--get", "remote.origin.url"]);
    assert_eq!(
        finish_remote_origin_url(output(0, "git@host:v.git\n", "")).unwrap(),
        Some("git@host:v.git".to_string())
    );
    assert_eq!(finish_remote_origin_url(output(1, "", "")).unwrap(), None);
    match finish_remote_origin_url(output(3, "", "bad")) {
        Err(GitError::Failed { args, status, stderr }) => {
            assert_eq!(args, vec!["config", "--get", "remote.origin.url"]);
            assert_eq!((status.as_str(), stderr.as_str()), ("exit status: 3", "bad"));
        }
        other => panic!("{:?}", other),
    }
    assert!(matches!(finish_remote_origin_url(Err("x".to_string())), Err(GitError::Spawn(_))));
}

#[test]
fn git_errors_have_texts() {
    assert_eq!(GitError::Spawn("no such file".to_string()).message(), "failed to spawn git: no such file");
    let failed = GitError::Failed {
        args: vec!["rm".to_string(), "--".to_string(), "a \"b\".md".to_string()],
        status: "exit status: 1".to_string(),
        stderr: "fatal".to_string(),
    };
    assert_eq!(
        failed.message(),
        "git [\"rm\", \"--\", \"a \\\"b\\\".md\"] exited with status exit status: 1: fatal"
    );
    assert_eq!(
        GitError::BadIdentityPath("a'b".to_string()).message(),
        "identity file path contains a single quote which is not supported: a'b"
    );
    assert_eq!(failed_message("[]", "s", "e"), "git [] exited with status s: e");
}
