//! Git: which commands a change of the vault takes, and what their results mean.
//!
//! Nothing here runs a command. A function gives the command to run, and another one takes what
//! came of it.

use vstd::prelude::*;
use vstd::string::StringExecFns;

use crate::path::{optional_path, FilePath, Part};
use crate::text::{concat, contains_char, from_utf8_lossy, text_of_bytes, trimmed};

verus! {

/// What went wrong with a git command.
#[derive(Debug)]
pub enum GitError {
    /// Git could not be started, for the reason given.
    Spawn(String),
    /// Git ended with a status other than success.
    Failed { args: Vec<String>, status: String, stderr: String },
    /// The path of the identity file, which is given, cannot be quoted.
    BadIdentityPath(String),
}

/// What a `GitError` holds.
pub enum GitErrorView {
    Spawn(Seq<char>),
    Failed { args: Seq<Seq<char>>, status: Seq<char>, stderr: Seq<char> },
    BadIdentityPath(Seq<char>),
}

impl View for GitError {
    type V = GitErrorView;

    open spec fn view(&self) -> GitErrorView {
        match self {
            GitError::Spawn(reason) => GitErrorView::Spawn(reason@),
            GitError::Failed { args, status, stderr } => GitErrorView::Failed {
                args: args.deep_view(),
                status: status@,
                stderr: stderr@,
            },
            GitError::BadIdentityPath(path) => GitErrorView::BadIdentityPath(path@),
        }
    }
}

/// What the debug format of the standard library makes of a list of texts.
pub uninterp spec fn debug_text(items: Seq<Seq<char>>) -> Seq<char>;

/// `format!` of the standard library with the debug format of a list of texts: the texts in
/// brackets, quoted and escaped. The result depends on the texts alone, and no more is said of it.
#[verifier::external_body]
fn debug_list(items: &Vec<String>) -> (r: String)
    ensures
        r@ == debug_text(items.deep_view()),
{
    format!("{:?}", items)
}

/// The text of a failed command.
pub open spec fn failed_text(args: Seq<char>, status: Seq<char>, stderr: Seq<char>) -> Seq<char> {
    "git "@ + args + " exited with status "@ + status + ": "@ + stderr
}

/// The text of a failed command, whose arguments are given as text.
pub fn failed_message(args: &str, status: &str, stderr: &str) -> (r: String)
    ensures
        r@ == failed_text(args@, status@, stderr@),
{
    let mut r = concat("git ", args);
    r.append(" exited with status ");
    r.append(status);
    r.append(": ");
    r.append(stderr);
    r
}

/// The error as text.
pub open spec fn git_error_text(e: GitErrorView) -> Seq<char> {
    match e {
        GitErrorView::Spawn(reason) => "failed to spawn git: "@ + reason,
        GitErrorView::Failed { args, status, stderr } => failed_text(
            debug_text(args),
            status,
            stderr,
        ),
        GitErrorView::BadIdentityPath(path) =>
            "identity file path contains a single quote which is not supported: "@ + path,
    }
}

impl GitError {
    /// The error as text.
    pub fn message(&self) -> (r: String)
        ensures
            r@ == git_error_text(self@),
    {
        match self {
            GitError::Spawn(reason) => concat("failed to spawn git: ", reason.as_str()),
            GitError::Failed { args, status, stderr } => failed_message(
                debug_list(args).as_str(),
                status.as_str(),
                stderr.as_str(),
            ),
            GitError::BadIdentityPath(path) => concat(
                "identity file path contains a single quote which is not supported: ",
                path.as_str(),
            ),
        }
    }
}

/// Outcome of a commit attempt.
#[derive(Debug)]
pub enum CommitResult {
    /// A commit was created with the given short SHA.
    Committed { sha: String },
    /// Nothing was staged, so no commit was created.
    Nothing,
}

/// What a `CommitResult` holds.
pub enum CommitResultView {
    Committed { sha: Seq<char> },
    Nothing,
}

impl View for CommitResult {
    type V = CommitResultView;

    open spec fn view(&self) -> CommitResultView {
        match self {
            CommitResult::Committed { sha } => CommitResultView::Committed { sha: sha@ },
            CommitResult::Nothing => CommitResultView::Nothing,
        }
    }
}

/// SSH configuration used when the vault was cloned from a remote.
#[derive(Debug, Clone)]
pub struct SshConfig {
    /// The path of the identity file, as the bytes that it was given by.
    pub identity_file: Vec<u8>,
}

impl View for SshConfig {
    type V = Seq<u8>;

    open spec fn view(&self) -> Seq<u8> {
        self.identity_file@
    }
}

/// The ssh command for an identity file, which is put in single quotes.
pub open spec fn ssh_command(identity: Seq<u8>) -> Result<Seq<char>, GitErrorView> {
    let path = text_of_bytes(identity);
    if path.contains('\'') {
        Err(GitErrorView::BadIdentityPath(path))
    } else {
        Ok(
            "ssh -i '"@ + path
                + "' -o IdentitiesOnly=yes -o StrictHostKeyChecking=accept-new -o BatchMode=yes"@,
        )
    }
}

/// What a text or an error holds.
pub open spec fn text_result(r: Result<String, GitError>) -> Result<Seq<char>, GitErrorView> {
    match r {
        Ok(s) => Ok(s@),
        Err(e) => Err(e@),
    }
}

impl SshConfig {
    /// The value of `GIT_SSH_COMMAND` that makes git call `ssh` with the identity.
    ///
    /// `BatchMode=yes` means ssh fails immediately rather than prompting for a
    /// passphrase, so passphrase-protected keys are explicitly unsupported.
    /// `accept-new` populates `~/.ssh/known_hosts` on first connect.
    pub fn git_ssh_command(&self) -> (r: Result<String, GitError>)
        ensures
            text_result(r) == ssh_command(self@),
    {
        let path = from_utf8_lossy(self.identity_file.as_slice());
        if contains_char(path.as_str(), '\'') {
            return Err(GitError::BadIdentityPath(path));
        }
        let mut command = concat("ssh -i '", path.as_str());
        command.append(
            "' -o IdentitiesOnly=yes -o StrictHostKeyChecking=accept-new -o BatchMode=yes",
        );
        Ok(command)
    }
}

/// A git command to run.
#[derive(Debug)]
pub struct GitCommand {
    /// The repository, which git gets as `-C <repository>` in front of the arguments.
    pub cwd: Option<FilePath>,
    pub args: Vec<String>,
    /// A variable that is set in the environment of the command.
    pub env: Option<(String, String)>,
}

/// What a `GitCommand` holds.
pub struct GitCommandView {
    pub cwd: Option<Seq<Part>>,
    pub args: Seq<Seq<char>>,
    pub env: Option<(Seq<char>, Seq<char>)>,
}

impl View for GitCommand {
    type V = GitCommandView;

    open spec fn view(&self) -> GitCommandView {
        GitCommandView {
            cwd: optional_path(self.cwd),
            args: self.args.deep_view(),
            env: match self.env {
                Some((name, value)) => Some((name@, value@)),
                None => None,
            },
        }
    }
}

/// How a command ended: its exit code, if it exited, and the status as text.
#[derive(Debug)]
pub struct ExitStatus {
    pub code: Option<i32>,
    pub text: String,
}

/// What an `ExitStatus` holds.
pub struct ExitView {
    pub code: Option<i32>,
    pub text: Seq<char>,
}

impl View for ExitStatus {
    type V = ExitView;

    open spec fn view(&self) -> ExitView {
        ExitView { code: self.code, text: self.text@ }
    }
}

/// What a command left behind.
#[derive(Debug)]
pub struct GitOutput {
    pub status: ExitStatus,
    pub stdout: Vec<u8>,
    pub stderr: Vec<u8>,
}

/// What a `GitOutput` holds.
pub struct OutputView {
    pub status: ExitView,
    pub stdout: Seq<u8>,
    pub stderr: Seq<u8>,
}

impl View for GitOutput {
    type V = OutputView;

    open spec fn view(&self) -> OutputView {
        OutputView { status: self.status@, stdout: self.stdout@, stderr: self.stderr@ }
    }
}

/// What the output of a command, or the reason why it could not be started, holds.
pub open spec fn output_view(reply: Result<GitOutput, String>) -> Result<OutputView, Seq<char>> {
    match reply {
        Ok(output) => Ok(output@),
        Err(reason) => Err(reason@),
    }
}

/// What the status of a command, or the reason why it could not be started, holds.
pub open spec fn status_view(reply: Result<ExitStatus, String>) -> Result<ExitView, Seq<char>> {
    match reply {
        Ok(status) => Ok(status@),
        Err(reason) => Err(reason@),
    }
}

/// What a command with the given arguments gave: its trimmed output where it exited with zero, and
/// an error with the arguments otherwise.
pub open spec fn command_outcome(
    args: Seq<Seq<char>>,
    reply: Result<OutputView, Seq<char>>,
) -> Result<Seq<char>, GitErrorView> {
    match reply {
        Err(reason) => Err(GitErrorView::Spawn(reason)),
        Ok(output) => if output.status.code == Some(0i32) {
            Ok(trimmed(text_of_bytes(output.stdout)))
        } else {
            Err(
                GitErrorView::Failed {
                    args,
                    status: output.status.text,
                    stderr: text_of_bytes(output.stderr),
                },
            )
        },
    }
}

/// The texts as strings.
fn strings(items: &[&str]) -> (r: Vec<String>)
    ensures
        r.deep_view() == items.deep_view(),
{
    let mut r: Vec<String> = Vec::new();
    for i in 0..items.len()
        invariant
            r.deep_view() =~= items.deep_view().take(i as int),
    {
        let ghost before = r.deep_view();
        r.push(items[i].to_owned());
        assert(r.deep_view() =~= before.push(items.deep_view()[i as int]));
    }
    assert(items.deep_view().take(items.deep_view().len() as int) =~= items.deep_view());
    r
}

/// A copy of the strings.
fn copies(items: &Vec<String>) -> (r: Vec<String>)
    ensures
        r.deep_view() == items.deep_view(),
{
    let mut r: Vec<String> = Vec::new();
    for i in 0..items.len()
        invariant
            r.deep_view() =~= items.deep_view().take(i as int),
    {
        let ghost before = r.deep_view();
        let item = items[i].clone();
        r.push(item);
        assert(r.deep_view() =~= before.push(items.deep_view()[i as int]));
    }
    assert(items.deep_view().take(items.deep_view().len() as int) =~= items.deep_view());
    r
}

impl GitCommand {
    /// Takes what came of the command: its trimmed output, or an error.
    pub fn finish(&self, reply: Result<GitOutput, String>) -> (r: Result<String, GitError>)
        ensures
            text_result(r) == command_outcome(self@.args, output_view(reply)),
    {
        match reply {
            Err(reason) => Err(GitError::Spawn(reason)),
            Ok(output) => {
                let success = match output.status.code {
                    Some(code) => code == 0,
                    None => false,
                };
                if success {
                    let text = from_utf8_lossy(output.stdout.as_slice());
                    Ok(text.as_str().trim().to_owned())
                } else {
                    Err(
                        GitError::Failed {
                            args: copies(&self.args),
                            status: output.status.text,
                            stderr: from_utf8_lossy(output.stderr.as_slice()),
                        },
                    )
                }
            },
        }
    }
}

/// The command `git -C <cwd> <args>`, with an optional variable in its environment.
fn run_git_in(cwd: &FilePath, args: &[&str], extra_env: Option<(String, String)>) -> (r: GitCommand)
    ensures
        r@ == (GitCommandView {
            cwd: Some(cwd@),
            args: args.deep_view(),
            env: match extra_env {
                Some((name, value)) => Some((name@, value@)),
                None => None,
            },
        }),
{
    GitCommand { cwd: Some(cwd.clone()), args: strings(args), env: extra_env }
}

/// A repository, and who commits to it.
#[derive(Debug, Clone, Copy)]
pub struct GitRepo<'a> {
    pub root: &'a FilePath,
    pub user_name: &'a str,
    pub user_email: &'a str,
    pub ssh: Option<&'a SshConfig>,
}

/// What a `GitRepo` holds.
pub struct RepoView {
    pub root: Seq<Part>,
    pub user_name: Seq<char>,
    pub user_email: Seq<char>,
    pub ssh: Option<Seq<u8>>,
}

impl<'a> View for GitRepo<'a> {
    type V = RepoView;

    open spec fn view(&self) -> RepoView {
        RepoView {
            root: self.root@,
            user_name: self.user_name@,
            user_email: self.user_email@,
            ssh: match self.ssh {
                Some(config) => Some(config@),
                None => None,
            },
        }
    }
}

/// The command with the given arguments in a repository.
pub open spec fn plain_command(repo: RepoView, args: Seq<Seq<char>>) -> GitCommandView {
    GitCommandView { cwd: Some(repo.root), args, env: None }
}

/// The command with the given arguments in a repository, which commits in the name of the user
/// that the repository is opened for.
pub open spec fn identity_command(repo: RepoView, args: Seq<Seq<char>>) -> GitCommandView {
    plain_command(
        repo,
        seq![
            "-c"@,
            "user.name="@ + repo.user_name,
            "-c"@,
            "user.email="@ + repo.user_email,
        ] + args,
    )
}

/// The command with the given arguments in a repository, with the ssh identity, if there is one.
pub open spec fn remote_command(repo: RepoView, args: Seq<Seq<char>>) -> Result<
    GitCommandView,
    GitErrorView,
> {
    match repo.ssh {
        None => Ok(plain_command(repo, args)),
        Some(identity) => match ssh_command(identity) {
            Err(e) => Err(e),
            Ok(command) => Ok(
                GitCommandView {
                    cwd: Some(repo.root),
                    args,
                    env: Some(("GIT_SSH_COMMAND"@, command)),
                },
            ),
        },
    }
}

/// What a command or an error holds.
pub open spec fn command_result(r: Result<GitCommand, GitError>) -> Result<
    GitCommandView,
    GitErrorView,
> {
    match r {
        Ok(command) => Ok(command@),
        Err(e) => Err(e@),
    }
}

/// A commit on its way. Each step but the last is a command to run.
#[derive(Debug)]
pub enum CommitStep<'a> {
    /// Stage the change.
    Stage(Staging<'a>),
    /// Find out whether anything is staged: only the exit status of the command counts.
    Check(Checking<'a>),
    /// Commit what is staged.
    Commit(Committing<'a>),
    /// Ask for the name of the commit.
    Name(Naming),
    /// The commit is made, was not needed, or failed.
    Done(Result<CommitResult, GitError>),
}

/// A change that is being staged.
#[derive(Debug)]
pub struct Staging<'a> {
    command: GitCommand,
    repo: GitRepo<'a>,
    message: String,
}

/// A commit that waits for the answer whether anything is staged.
#[derive(Debug)]
pub struct Checking<'a> {
    command: GitCommand,
    repo: GitRepo<'a>,
    message: String,
}

/// A commit that is being made.
#[derive(Debug)]
pub struct Committing<'a> {
    command: GitCommand,
    repo: GitRepo<'a>,
}

/// A commit whose name is being asked for.
#[derive(Debug)]
pub struct Naming {
    command: GitCommand,
}

/// What a `CommitStep` holds.
pub enum CommitStepView {
    Stage(PlanView),
    Check(PlanView),
    Commit(PlanView),
    Name(GitCommandView),
    Done(Result<CommitResultView, GitErrorView>),
}

/// The command of a step, and what later steps need: the repository and, until the commit is made,
/// the message.
pub struct PlanView {
    pub command: GitCommandView,
    pub repo: RepoView,
    pub message: Seq<char>,
}

impl<'a> View for Staging<'a> {
    type V = PlanView;

    closed spec fn view(&self) -> PlanView {
        PlanView { command: self.command@, repo: self.repo@, message: self.message@ }
    }
}

impl<'a> View for Checking<'a> {
    type V = PlanView;

    closed spec fn view(&self) -> PlanView {
        PlanView { command: self.command@, repo: self.repo@, message: self.message@ }
    }
}

impl<'a> View for Committing<'a> {
    type V = PlanView;

    closed spec fn view(&self) -> PlanView {
        PlanView { command: self.command@, repo: self.repo@, message: Seq::empty() }
    }
}

impl View for Naming {
    type V = GitCommandView;

    closed spec fn view(&self) -> GitCommandView {
        self.command@
    }
}

/// What a commit or an error holds.
pub open spec fn commit_result_view(r: Result<CommitResult, GitError>) -> Result<
    CommitResultView,
    GitErrorView,
> {
    match r {
        Ok(result) => Ok(result@),
        Err(e) => Err(e@),
    }
}

impl<'a> View for CommitStep<'a> {
    type V = CommitStepView;

    open spec fn view(&self) -> CommitStepView {
        match self {
            CommitStep::Stage(s) => CommitStepView::Stage(s@),
            CommitStep::Check(s) => CommitStepView::Check(s@),
            CommitStep::Commit(s) => CommitStepView::Commit(s@),
            CommitStep::Name(s) => CommitStepView::Name(s@),
            CommitStep::Done(r) => CommitStepView::Done(commit_result_view(*r)),
        }
    }
}

/// The arguments by which git tells whether anything is staged.
pub open spec fn diff_args() -> Seq<Seq<char>> {
    seq!["diff"@, "--cached"@, "--quiet"@]
}

/// The step that stages a change by a command with the given arguments.
pub open spec fn staging(
    repo: RepoView,
    args: Seq<Seq<char>>,
    message: Seq<char>,
) -> CommitStepView {
    CommitStepView::Stage(PlanView { command: plain_command(repo, args), repo, message })
}

/// The step behind staging: the check whether anything is staged.
pub open spec fn after_staging(
    p: PlanView,
    reply: Result<OutputView, Seq<char>>,
) -> CommitStepView {
    match command_outcome(p.command.args, reply) {
        Err(e) => CommitStepView::Done(Err(e)),
        Ok(_) => CommitStepView::Check(
            PlanView {
                command: plain_command(p.repo, diff_args()),
                repo: p.repo,
                message: p.message,
            },
        ),
    }
}

/// The step behind the check: git exits with zero where nothing is staged, and with one where
/// something is.
pub open spec fn after_checking(
    p: PlanView,
    reply: Result<ExitView, Seq<char>>,
) -> CommitStepView {
    match reply {
        Err(reason) => CommitStepView::Done(Err(GitErrorView::Spawn(reason))),
        Ok(status) => if status.code == Some(0i32) {
            CommitStepView::Done(Ok(CommitResultView::Nothing))
        } else if status.code == Some(1i32) {
            CommitStepView::Commit(
                PlanView {
                    command: identity_command(p.repo, seq!["commit"@, "-m"@, p.message]),
                    repo: p.repo,
                    message: Seq::empty(),
                },
            )
        } else {
            CommitStepView::Done(
                Err(
                    GitErrorView::Failed {
                        args: diff_args(),
                        status: status.text,
                        stderr: "unexpected exit code from git diff --cached"@,
                    },
                ),
            )
        },
    }
}

/// The step behind the commit: the question for its name.
pub open spec fn after_committing(
    p: PlanView,
    reply: Result<OutputView, Seq<char>>,
) -> CommitStepView {
    match command_outcome(p.command.args, reply) {
        Err(e) => CommitStepView::Done(Err(e)),
        Ok(_) => CommitStepView::Name(
            plain_command(p.repo, seq!["rev-parse"@, "--short"@, "HEAD"@]),
        ),
    }
}

/// The last step: the commit, with its name.
pub open spec fn after_naming(
    command: GitCommandView,
    reply: Result<OutputView, Seq<char>>,
) -> CommitStepView {
    CommitStepView::Done(
        match command_outcome(command.args, reply) {
            Err(e) => Err(e),
            Ok(sha) => Ok(CommitResultView::Committed { sha }),
        },
    )
}

impl<'a> Staging<'a> {
    /// The command to run.
    pub fn command(&self) -> (r: &GitCommand)
        ensures
            r@ == self@.command,
    {
        &self.command
    }

    /// Takes what came of the command.
    pub fn resume(self, reply: Result<GitOutput, String>) -> (r: CommitStep<'a>)
        ensures
            r@ == after_staging(self@, output_view(reply)),
    {
        match self.command.finish(reply) {
            Err(e) => CommitStep::Done(Err(e)),
            Ok(_) => self.repo.commit_if_staged(self.message),
        }
    }
}

impl<'a> Checking<'a> {
    /// The command to run.
    pub fn command(&self) -> (r: &GitCommand)
        ensures
            r@ == self@.command,
    {
        &self.command
    }

    /// Takes how the command ended.
    pub fn resume(self, reply: Result<ExitStatus, String>) -> (r: CommitStep<'a>)
        ensures
            r@ == after_checking(self@, status_view(reply)),
    {
        let status = match reply {
            Err(reason) => {
                return CommitStep::Done(Err(GitError::Spawn(reason)));
            },
            Ok(status) => status,
        };
        match status.code {
            Some(0) => CommitStep::Done(Ok(CommitResult::Nothing)),
            Some(1) => {
                let args = ["commit", "-m", self.message.as_str()];
                assert(args.deep_view() =~= seq!["commit"@, "-m"@, self.message@]);
                CommitStep::Commit(
                    Committing { command: self.repo.run_with_identity(&args), repo: self.repo },
                )
            },
            _ => {
                let args = ["diff", "--cached", "--quiet"];
                assert(args.deep_view() =~= diff_args());
                CommitStep::Done(
                    Err(
                        GitError::Failed {
                            args: strings(&args),
                            status: status.text,
                            stderr: "unexpected exit code from git diff --cached".to_owned(),
                        },
                    ),
                )
            },
        }
    }
}

impl<'a> Committing<'a> {
    /// The command to run.
    pub fn command(&self) -> (r: &GitCommand)
        ensures
            r@ == self@.command,
    {
        &self.command
    }

    /// Takes what came of the command.
    pub fn resume(self, reply: Result<GitOutput, String>) -> (r: CommitStep<'a>)
        ensures
            r@ == after_committing(self@, output_view(reply)),
    {
        match self.command.finish(reply) {
            Err(e) => CommitStep::Done(Err(e)),
            Ok(_) => {
                let args = ["rev-parse", "--short", "HEAD"];
                assert(args.deep_view() =~= seq!["rev-parse"@, "--short"@, "HEAD"@]);
                CommitStep::Name(Naming { command: self.repo.run(&args) })
            },
        }
    }
}

impl Naming {
    /// The command to run.
    pub fn command(&self) -> (r: &GitCommand)
        ensures
            r@ == self@,
    {
        &self.command
    }

    /// Takes what came of the command.
    pub fn resume<'a>(self, reply: Result<GitOutput, String>) -> (r: CommitStep<'a>)
        ensures
            r@ == after_naming(self@, output_view(reply)),
    {
        match self.command.finish(reply) {
            Err(e) => CommitStep::Done(Err(e)),
            Ok(sha) => CommitStep::Done(Ok(CommitResult::Committed { sha })),
        }
    }
}

impl<'a> GitRepo<'a> {
    /// The command `git -C <root> <args...>`.
    fn run(&self, args: &[&str]) -> (r: GitCommand)
        ensures
            r@ == plain_command(self@, args.deep_view()),
    {
        run_git_in(self.root, args, None)
    }

    /// Like `run`, but also sets `GIT_SSH_COMMAND` from the configured ssh identity.
    /// If no ssh config is set, this is identical to `run`.
    fn run_with_ssh(&self, args: &[&str]) -> (r: Result<GitCommand, GitError>)
        ensures
            command_result(r) == remote_command(self@, args.deep_view()),
    {
        let env = match self.ssh {
            Some(config) => match config.git_ssh_command() {
                Ok(command) => Some(("GIT_SSH_COMMAND".to_owned(), command)),
                Err(e) => {
                    return Err(e);
                },
            },
            None => None,
        };
        Ok(run_git_in(self.root, args, env))
    }

    /// Same as `run` but puts `-c user.name=... -c user.email=...` before the subcommand, so that
    /// the repository's `.git/config` never changes.
    fn run_with_identity(&self, args: &[&str]) -> (r: GitCommand)
        ensures
            r@ == identity_command(self@, args.deep_view()),
    {
        let name_arg = concat("user.name=", self.user_name);
        let email_arg = concat("user.email=", self.user_email);
        let mut full: Vec<&str> = vec!["-c", name_arg.as_str(), "-c", email_arg.as_str()];
        let ghost start = full.deep_view();
        for i in 0..args.len()
            invariant
                full.deep_view() =~= start + args.deep_view().take(i as int),
        {
            let ghost before = full.deep_view();
            full.push(args[i]);
            assert(full.deep_view() =~= before.push(args.deep_view()[i as int]));
        }
        assert(args.deep_view().take(args.deep_view().len() as int) =~= args.deep_view());
        assert(full.deep_view() =~= seq![
            "-c"@,
            "user.name="@ + self.user_name@,
            "-c"@,
            "user.email="@ + self.user_email@,
        ] + args.deep_view());
        self.run(full.as_slice())
    }

    /// Stages paths, then commits if anything changed.
    pub fn add_and_commit(&self, rel_paths: &[&str], message: &str) -> (r: CommitStep<'a>)
        ensures
            r@ == staging(self@, seq!["add"@, "--"@] + rel_paths.deep_view(), message@),
    {
        let mut args: Vec<&str> = vec!["add", "--"];
        let ghost start = args.deep_view();
        for i in 0..rel_paths.len()
            invariant
                args.deep_view() =~= start + rel_paths.deep_view().take(i as int),
        {
            let ghost before = args.deep_view();
            args.push(rel_paths[i]);
            assert(args.deep_view() =~= before.push(rel_paths.deep_view()[i as int]));
        }
        assert(rel_paths.deep_view().take(rel_paths.deep_view().len() as int)
            =~= rel_paths.deep_view());
        assert(args.deep_view() =~= seq!["add"@, "--"@] + rel_paths.deep_view());
        self.stage(args.as_slice(), message)
    }

    /// `git rm` the given path, then commit.
    pub fn rm_and_commit(&self, rel_path: &str, message: &str) -> (r: CommitStep<'a>)
        ensures
            r@ == staging(self@, seq!["rm"@, "--"@, rel_path@], message@),
    {
        let args = ["rm", "--", rel_path];
        assert(args.deep_view() =~= seq!["rm"@, "--"@, rel_path@]);
        self.stage(&args, message)
    }

    /// `git mv` from -> to, then commit.
    pub fn mv_and_commit(&self, from: &str, to: &str, message: &str) -> (r: CommitStep<'a>)
        ensures
            r@ == staging(self@, seq!["mv"@, "--"@, from@, to@], message@),
    {
        let args = ["mv", "--", from, to];
        assert(args.deep_view() =~= seq!["mv"@, "--"@, from@, to@]);
        self.stage(&args, message)
    }

    /// The first step of a commit: the command that stages the change.
    fn stage(&self, args: &[&str], message: &str) -> (r: CommitStep<'a>)
        ensures
            r@ == staging(self@, args.deep_view(), message@),
    {
        CommitStep::Stage(
            Staging { command: self.run(args), repo: *self, message: message.to_owned() },
        )
    }

    /// The check whether anything is staged, behind which the commit is made.
    fn commit_if_staged(&self, message: String) -> (r: CommitStep<'a>)
        ensures
            r@ == CommitStepView::Check(
                PlanView {
                    command: plain_command(self@, diff_args()),
                    repo: self@,
                    message: message@,
                },
            ),
    {
        let args = ["diff", "--cached", "--quiet"];
        assert(args.deep_view() =~= diff_args());
        CommitStep::Check(Checking { command: self.run(&args), repo: *self, message })
    }

    /// `git push` against the remote configured for the current branch's upstream.
    /// Uses the configured ssh identity. `GitCommand::finish` gives the trimmed output.
    pub fn push(&self) -> (r: Result<GitCommand, GitError>)
        ensures
            command_result(r) == remote_command(self@, seq!["push"@]),
    {
        let args = ["push"];
        assert(args.deep_view() =~= seq!["push"@]);
        self.run_with_ssh(&args)
    }

    /// `git pull --ff-only` against the configured upstream. Uses the configured ssh
    /// identity. `GitCommand::finish` gives the trimmed output.
    pub fn pull_ff_only(&self) -> (r: Result<GitCommand, GitError>)
        ensures
            command_result(r) == remote_command(self@, seq!["pull"@, "--ff-only"@]),
    {
        let args = ["pull", "--ff-only"];
        assert(args.deep_view() =~= seq!["pull"@, "--ff-only"@]);
        self.run_with_ssh(&args)
    }
}

/// The command that clones a repository.
pub open spec fn clone_command(url: Seq<char>, identity: Seq<u8>, dest: Seq<u8>) -> Result<
    GitCommandView,
    GitErrorView,
> {
    match ssh_command(identity) {
        Err(e) => Err(e),
        Ok(command) => Ok(
            GitCommandView {
                cwd: None,
                args: seq!["clone"@, "--quiet"@, url, text_of_bytes(dest)],
                env: Some(("GIT_SSH_COMMAND"@, command)),
            },
        ),
    }
}

/// `git clone <url> <dest>` using the configured ssh identity. `dest`, which is given as bytes,
/// must not exist (git clone creates it). Parent dir of `dest` must exist.
pub fn clone(url: &str, ssh: &SshConfig, dest: &[u8]) -> (r: Result<GitCommand, GitError>)
    ensures
        command_result(r) == clone_command(url@, ssh@, dest@),
{
    let dest_text = from_utf8_lossy(dest);
    let args = ["clone", "--quiet", url, dest_text.as_str()];
    assert(args.deep_view() =~= seq!["clone"@, "--quiet"@, url@, dest_text@]);
    match ssh.git_ssh_command() {
        Err(e) => Err(e),
        Ok(command) => Ok(
            GitCommand {
                cwd: None,
                args: strings(&args),
                env: Some(("GIT_SSH_COMMAND".to_owned(), command)),
            },
        ),
    }
}

/// What came of `git clone`, which gives nothing but success or an error.
pub fn finish_clone(command: &GitCommand, reply: Result<GitOutput, String>) -> (r: Result<
    (),
    GitError,
>)
    ensures
        match r {
            Ok(_) => command_outcome(command@.args, output_view(reply)) is Ok,
            Err(e) => command_outcome(command@.args, output_view(reply)) == Err::<Seq<char>, _>(e@),
        },
{
    match command.finish(reply) {
        Ok(_) => Ok(()),
        Err(e) => Err(e),
    }
}

/// The arguments by which git tells the address of the remote.
pub open spec fn origin_args() -> Seq<Seq<char>> {
    seq!["config"@, "--get"@, "remote.origin.url"@]
}

/// The command that reads `remote.origin.url` from the repository at `repo`.
pub fn remote_origin_url(repo: &FilePath) -> (r: GitCommand)
    ensures
        r@ == (GitCommandView { cwd: Some(repo@), args: origin_args(), env: None }),
{
    let args = ["config", "--get", "remote.origin.url"];
    assert(args.deep_view() =~= origin_args());
    run_git_in(repo, &args, None)
}

/// The address of the remote, by what git gave: with exit code one the address is not set.
pub open spec fn origin_outcome(reply: Result<OutputView, Seq<char>>) -> Result<
    Option<Seq<char>>,
    GitErrorView,
> {
    match reply {
        Err(reason) => Err(GitErrorView::Spawn(reason)),
        Ok(output) => if output.status.code == Some(0i32) {
            Ok(Some(trimmed(text_of_bytes(output.stdout))))
        } else if output.status.code == Some(1i32) {
            Ok(None)
        } else {
            Err(
                GitErrorView::Failed {
                    args: origin_args(),
                    status: output.status.text,
                    stderr: text_of_bytes(output.stderr),
                },
            )
        },
    }
}

/// What came of the command that reads `remote.origin.url`: `None` if the config
/// key is missing (git exits 1 with no stdout in that case).
pub fn finish_remote_origin_url(reply: Result<GitOutput, String>) -> (r: Result<
    Option<String>,
    GitError,
>)
    ensures
        match r {
            Ok(Some(url)) => origin_outcome(output_view(reply)) == Ok::<_, GitErrorView>(
                Some(url@),
            ),
            Ok(None) => origin_outcome(output_view(reply)) == Ok::<_, GitErrorView>(
                None::<Seq<char>>,
            ),
            Err(e) => origin_outcome(output_view(reply)) == Err::<Option<Seq<char>>, _>(e@),
        },
{
    let output = match reply {
        Err(reason) => {
            return Err(GitError::Spawn(reason));
        },
        Ok(output) => output,
    };
    match output.status.code {
        Some(0) => {
            let text = from_utf8_lossy(output.stdout.as_slice());
            Ok(Some(text.as_str().trim().to_owned()))
        },
        // Exit 1 means "key not set" for `git config --get`.
        Some(1) => Ok(None),
        _ => {
            let args = ["config", "--get", "remote.origin.url"];
            assert(args.deep_view() =~= origin_args());
            Err(
                GitError::Failed {
                    args: strings(&args),
                    status: output.status.text,
                    stderr: from_utf8_lossy(output.stderr.as_slice()),
                },
            )
        },
    }
}

/// The four commands of a commit: staging, the check, the commit itself, the question for its
/// name.
pub open spec fn commit_plan(
    repo: RepoView,
    args: Seq<Seq<char>>,
    message: Seq<char>,
) -> Seq<GitCommandView> {
    seq![
        plain_command(repo, args),
        plain_command(repo, diff_args()),
        identity_command(repo, seq!["commit"@, "-m"@, message]),
        plain_command(repo, seq!["rev-parse"@, "--short"@, "HEAD"@]),
    ]
}

/// What git gives for each command of a commit.
pub type Git = spec_fn(GitCommandView) -> Result<OutputView, Seq<char>>;

/// The status part of what a command gave.
pub open spec fn status_of(reply: Result<OutputView, Seq<char>>) -> Result<ExitView, Seq<char>> {
    match reply {
        Ok(output) => Ok(output.status),
        Err(reason) => Err(reason),
    }
}

/// The step behind a step, where git gives what `git` says.
pub open spec fn next_step(step: CommitStepView, git: Git) -> CommitStepView {
    match step {
        CommitStepView::Stage(p) => after_staging(p, git(p.command)),
        CommitStepView::Check(p) => after_checking(p, status_of(git(p.command))),
        CommitStepView::Commit(p) => after_committing(p, git(p.command)),
        CommitStepView::Name(command) => after_naming(command, git(command)),
        CommitStepView::Done(r) => step,
    }
}

/// The commands that are run from a step on, and what comes of them.
pub open spec fn run_from(step: CommitStepView, git: Git, fuel: nat) -> (
    Seq<GitCommandView>,
    Option<Result<CommitResultView, GitErrorView>>,
)
    decreases fuel,
{
    let command = match step {
        CommitStepView::Stage(p) => Some(p.command),
        CommitStepView::Check(p) => Some(p.command),
        CommitStepView::Commit(p) => Some(p.command),
        CommitStepView::Name(command) => Some(command),
        CommitStepView::Done(r) => None,
    };
    match (step, command) {
        (CommitStepView::Done(r), _) => (Seq::empty(), Some(r)),
        (_, Some(c)) if fuel > 0 => {
            let (rest, r) = run_from(next_step(step, git), git, (fuel - 1) as nat);
            (seq![c] + rest, r)
        },
        _ => (Seq::empty(), None),
    }
}

/// What comes of a commit: an error of the first command that fails; nothing where nothing is
/// staged; otherwise the commit, by the name that git gives for it.
pub open spec fn commit_outcome(
    repo: RepoView,
    args: Seq<Seq<char>>,
    message: Seq<char>,
    git: Git,
) -> Result<CommitResultView, GitErrorView> {
    let plan = commit_plan(repo, args, message);
    match (command_outcome(plan[0].args, git(plan[0])), status_of(git(plan[1]))) {
        (Err(e), _) => Err(e),
        (Ok(_), Err(reason)) => Err(GitErrorView::Spawn(reason)),
        (Ok(_), Ok(status)) => if status.code == Some(0i32) {
            Ok(CommitResultView::Nothing)
        } else if status.code != Some(1i32) {
            Err(
                GitErrorView::Failed {
                    args: diff_args(),
                    status: status.text,
                    stderr: "unexpected exit code from git diff --cached"@,
                },
            )
        } else {
            match (
                command_outcome(plan[2].args, git(plan[2])),
                command_outcome(plan[3].args, git(plan[3])),
            ) {
                (Err(e), _) => Err(e),
                (Ok(_), Err(e)) => Err(e),
                (Ok(_), Ok(sha)) => Ok(CommitResultView::Committed { sha }),
            }
        },
    }
}

/// A commit comes to an end after at most four commands, with the outcome that the replies of git
/// call for.
pub proof fn commits_end_as_git_replies(
    repo: RepoView,
    args: Seq<Seq<char>>,
    message: Seq<char>,
    git: Git,
)
    ensures
        run_from(staging(repo, args, message), git, 5).1 == Some(
            commit_outcome(repo, args, message, git),
        ),
{
    reveal_with_fuel(run_from, 6);
}

/// The commands of a commit are run in the order of the plan, so there is a single `git commit` at
/// most: it is run just where the change could be staged and git says that something is staged.
pub proof fn commits_are_single(
    repo: RepoView,
    args: Seq<Seq<char>>,
    message: Seq<char>,
    git: Git,
)
    ensures
        ({
            let plan = commit_plan(repo, args, message);
            let commands = run_from(staging(repo, args, message), git, 5).0;
            let staged = command_outcome(plan[0].args, git(plan[0])) is Ok;
            let changed = status_of(git(plan[1])) matches Ok(status) && status.code == Some(1i32);
            &&& commands.is_prefix_of(plan)
            &&& commands.len() >= 3 <==> staged && changed
            &&& commit_outcome(repo, args, message, git) matches Ok(
                CommitResultView::Committed { sha },
            ) ==> commands == plan
            &&& commit_outcome(repo, args, message, git) == Ok::<_, GitErrorView>(
                CommitResultView::Nothing,
            ) ==> commands == plan.take(2)
        }),
{
    reveal_with_fuel(run_from, 6);
    let plan = commit_plan(repo, args, message);
    let commands = run_from(staging(repo, args, message), git, 5).0;
    assert(commands =~= plan.take(commands.len() as int));
    assert(plan.take(4) =~= plan);
}

/// Without an ssh identity, a command for the remote is the plain command.
pub proof fn without_identity_commands_are_plain(repo: RepoView, args: Seq<Seq<char>>)
    requires
        repo.ssh is None,
    ensures
        remote_command(repo, args) == Ok::<_, GitErrorView>(plain_command(repo, args)),
{
}

/// An identity file gets quoted or refused: its path is refused just where it has a single quote.
pub proof fn identities_are_quoted_or_refused(identity: Seq<u8>)
    ensures
        match ssh_command(identity) {
            Ok(command) => {
                let path = text_of_bytes(identity);
                &&& !path.contains('\'')
                &&& command.len() > path.len() + 8
                &&& command[7] == '\''
                &&& command.subrange(8, 8 + path.len() as int) == path
                &&& command[8 + path.len() as int] == '\''
                &&& forall|i: int|
                    0 <= i < command.len() && #[trigger] command[i] == '\'' ==> i == 7 || i == 8
                        + path.len()
            },
            Err(e) => {
                &&& e == GitErrorView::BadIdentityPath(text_of_bytes(identity))
                &&& text_of_bytes(identity).contains('\'')
            },
        },
{
    let path = text_of_bytes(identity);
    if let Ok(command) = ssh_command(identity) {
        let head = "ssh -i '"@;
        let tail = "' -o IdentitiesOnly=yes -o StrictHostKeyChecking=accept-new -o BatchMode=yes"@;
        reveal_strlit("ssh -i '");
        reveal_strlit(
            "' -o IdentitiesOnly=yes -o StrictHostKeyChecking=accept-new -o BatchMode=yes",
        );
        assert(command == head + path + tail);
        assert(command.subrange(8, 8 + path.len() as int) =~= path);
        assert forall|i: int| 0 <= i < command.len() && #[trigger] command[i] == '\'' implies i == 7
            || i == 8 + path.len() by {
            if i < 8 {
                assert(command[i] == head[i]);
            } else if i < 8 + path.len() {
                assert(command[i] == path[i - 8]);
                assert(path.contains(path[i - 8]));
            } else {
                assert(command[i] == tail[i - 8 - path.len()]);
            }
        }
    }
}

/// The texts of the errors.
pub proof fn git_errors_read_as_follows(
    s: Seq<char>,
    args: Seq<Seq<char>>,
    status: Seq<char>,
    stderr: Seq<char>,
)
    ensures
        git_error_text(GitErrorView::Spawn(s)) == "failed to spawn git: "@ + s,
        git_error_text(GitErrorView::BadIdentityPath(s))
            == "identity file path contains a single quote which is not supported: "@ + s,
        git_error_text(GitErrorView::Failed { args, status, stderr }) == "git "@ + debug_text(args)
            + " exited with status "@ + status + ": "@ + stderr,
        failed_text(s, status, stderr) == "git "@ + s + " exited with status "@ + status + ": "@
            + stderr,
{
}

/// An error, and a result with one, hold the texts that they are made of.
pub proof fn git_errors_hold_their_texts(
    args: Vec<String>,
    status: String,
    stderr: String,
    i: int,
    e: GitError,
)
    ensures
        ({
            let failed = GitError::Failed { args, status, stderr };
            &&& failed@ matches GitErrorView::Failed { args: texts, status: a, stderr: b } && a
                == status@ && b == stderr@ && texts.len() == args@.len() && (0 <= i < args@.len()
                ==> texts[i] == args@[i]@)
        }),
        GitError::Spawn(status)@ == GitErrorView::Spawn(status@),
        GitError::BadIdentityPath(status)@ == GitErrorView::BadIdentityPath(status@),
        text_result(Ok(status)) == Ok::<_, GitErrorView>(status@),
        text_result(Err(e)) == Err::<Seq<char>, _>(e@),
        command_result(Err(e)) == Err::<GitCommandView, _>(e@),
        commit_result_view(Err(e)) == Err::<CommitResultView, _>(e@),
{
}

/// The outcome of a commit holds the name of the commit, if there is one.
pub proof fn commit_results_hold_their_names(sha: String)
    ensures
        (CommitResult::Committed { sha })@ == (CommitResultView::Committed { sha: sha@ }),
        CommitResult::Nothing@ == CommitResultView::Nothing,
        commit_result_view(Ok((CommitResult::Committed { sha }))) == Ok::<_, GitErrorView>(
            CommitResultView::Committed { sha: sha@ },
        ),
        commit_result_view(Ok(CommitResult::Nothing)) == Ok::<_, GitErrorView>(
            CommitResultView::Nothing,
        ),
{
}

/// A command holds its repository, its arguments in order, and its variable.
pub proof fn commands_hold_their_fields(command: GitCommand, i: int)
    ensures
        command@.cwd is None <==> command.cwd is None,
        command.cwd matches Some(cwd) ==> command@.cwd == Some(cwd@),
        command@.args.len() == command.args@.len(),
        0 <= i < command.args@.len() ==> command@.args[i] == command.args@[i]@,
        command@.env is None <==> command.env is None,
        command.env matches Some(env) ==> command@.env == Some((env.0@, env.1@)),
        command_result(Ok(command)) == Ok::<_, GitErrorView>(command@),
{
}

/// What a command left behind holds its status and its bytes, and so does a reply.
pub proof fn replies_hold_their_fields(output: GitOutput, status: ExitStatus, reason: String)
    ensures
        output@.status.code == output.status.code,
        output@.status.text == output.status.text@,
        output@.stdout == output.stdout@,
        output@.stderr == output.stderr@,
        status@.code == status.code,
        status@.text == status.text@,
        output_view(Ok(output)) == Ok::<_, Seq<char>>(output@),
        output_view(Err(reason)) == Err::<OutputView, _>(reason@),
        status_view(Ok(status)) == Ok::<_, Seq<char>>(status@),
        status_view(Err(reason)) == Err::<ExitView, _>(reason@),
{
}

/// A repository holds its root, its user and its identity.
pub proof fn repositories_hold_their_fields(repo: GitRepo<'_>, config: SshConfig)
    ensures
        repo@.root == repo.root@,
        repo@.user_name == repo.user_name@,
        repo@.user_email == repo.user_email@,
        repo@.ssh is None <==> repo.ssh is None,
        repo.ssh matches Some(identity) ==> repo@.ssh == Some(identity.identity_file@),
        config@ == config.identity_file@,
{
}

/// A step of a commit holds what it is made of.
pub proof fn commit_steps_hold_their_parts<'a>(
    staging: Staging<'a>,
    checking: Checking<'a>,
    committing: Committing<'a>,
    naming: Naming,
    result: Result<CommitResult, GitError>,
)
    ensures
        CommitStep::Stage(staging)@ == CommitStepView::Stage(staging@),
        CommitStep::Check(checking)@ == CommitStepView::Check(checking@),
        CommitStep::Commit(committing)@ == CommitStepView::Commit(committing@),
        (CommitStep::<'a>::Name(naming))@ == CommitStepView::Name(naming@),
        (CommitStep::<'a>::Done(result))@ == CommitStepView::Done(commit_result_view(result)),
{
}

/// A command that could not be started fails for that reason. One that exited with zero gives its
/// output as text without the white space around it. Any other failed, with its arguments, its
/// status, and what it wrote to the error output.
pub proof fn commands_give_their_trimmed_output(
    args: Seq<Seq<char>>,
    output: OutputView,
    reason: Seq<char>,
)
    ensures
        command_outcome(args, Err(reason)) == Err::<Seq<char>, _>(GitErrorView::Spawn(reason)),
        output.status.code == Some(0i32) ==> command_outcome(args, Ok(output)) == Ok::<
            _,
            GitErrorView,
        >(trimmed(text_of_bytes(output.stdout))),
        output.status.code != Some(0i32) ==> command_outcome(args, Ok(output)) == Err::<
            Seq<char>,
            _,
        >(
            GitErrorView::Failed {
                args,
                status: output.status.text,
                stderr: text_of_bytes(output.stderr),
            },
        ),
{
}

/// The ssh command names the whole path of the identity file in single quotes, and sets the options
/// that keep ssh from asking; a path with a single quote is refused.
pub proof fn the_ssh_command_names_the_identity(identity: Seq<u8>)
    ensures
        ({
            let path = text_of_bytes(identity);
            &&& !path.contains('\'') ==> ssh_command(identity) == Ok::<_, GitErrorView>(
                "ssh -i '"@ + path
                    + "' -o IdentitiesOnly=yes -o StrictHostKeyChecking=accept-new -o BatchMode=yes"@,
            )
            &&& path.contains('\'') ==> ssh_command(identity) == Err::<Seq<char>, _>(
                GitErrorView::BadIdentityPath(path),
            )
        }),
{
}

/// A command runs in the repository with just the arguments that it is given; one for the remote
/// also gets the ssh command of the identity, if there is one, in its environment.
pub proof fn commands_get_their_arguments(
    repo: RepoView,
    args: Seq<Seq<char>>,
    message: Seq<char>,
)
    ensures
        plain_command(repo, args) == (GitCommandView { cwd: Some(repo.root), args, env: None }),
        staging(repo, args, message) == CommitStepView::Stage(
            PlanView {
                command: GitCommandView { cwd: Some(repo.root), args, env: None },
                repo,
                message,
            },
        ),
        match repo.ssh {
            None => remote_command(repo, args) == Ok::<_, GitErrorView>(
                GitCommandView { cwd: Some(repo.root), args, env: None },
            ),
            Some(identity) => match ssh_command(identity) {
                Ok(ssh) => remote_command(repo, args) == Ok::<_, GitErrorView>(
                    GitCommandView {
                        cwd: Some(repo.root),
                        args,
                        env: Some(("GIT_SSH_COMMAND"@, ssh)),
                    },
                ),
                Err(e) => remote_command(repo, args) == Err::<GitCommandView, _>(e),
            },
        },
{
}

/// A clone names the address and the whole path that it goes to, and uses the identity.
pub proof fn clones_name_their_address(url: Seq<char>, identity: Seq<u8>, dest: Seq<u8>)
    ensures
        match ssh_command(identity) {
            Ok(ssh) => clone_command(url, identity, dest) == Ok::<_, GitErrorView>(
                GitCommandView {
                    cwd: None,
                    args: seq!["clone"@, "--quiet"@, url, text_of_bytes(dest)],
                    env: Some(("GIT_SSH_COMMAND"@, ssh)),
                },
            ),
            Err(e) => clone_command(url, identity, dest) == Err::<GitCommandView, _>(e),
        },
{
}

/// The address of the remote is the trimmed output where git exits with zero, and missing where it
/// exits with one; anything else is an error.
pub proof fn the_remote_is_read_from_the_output(output: OutputView, reason: Seq<char>)
    ensures
        origin_args() == seq!["config"@, "--get"@, "remote.origin.url"@],
        origin_outcome(Err(reason)) == Err::<Option<Seq<char>>, _>(GitErrorView::Spawn(reason)),
        output.status.code == Some(0i32) ==> origin_outcome(Ok(output)) == Ok::<_, GitErrorView>(
            Some(trimmed(text_of_bytes(output.stdout))),
        ),
        output.status.code == Some(1i32) ==> origin_outcome(Ok(output)) == Ok::<_, GitErrorView>(
            None::<Seq<char>>,
        ),
        output.status.code != Some(0i32) && output.status.code != Some(1i32) ==> origin_outcome(
            Ok(output),
        ) == Err::<Option<Seq<char>>, _>(
            GitErrorView::Failed {
                args: seq!["config"@, "--get"@, "remote.origin.url"@],
                status: output.status.text,
                stderr: text_of_bytes(output.stderr),
            },
        ),
{
}

/// The commands of a commit, as they are run: first the change is staged by the given arguments,
/// then comes the check whether anything is staged, then the commit with the whole name and the
/// whole email address of the user and the whole message, and last the question for its name. All
/// of them run in the repository.
pub proof fn commits_run_these_commands(
    repo: RepoView,
    args: Seq<Seq<char>>,
    message: Seq<char>,
    git: Git,
)
    ensures
        ({
            let commands = run_from(staging(repo, args, message), git, 5).0;
            &&& 1 <= commands.len() <= 4
            &&& forall|i: int|
                0 <= i < commands.len() ==> (#[trigger] commands[i]).cwd == Some(repo.root)
                    && commands[i].env is None
            &&& commands[0].args == args
            &&& commands.len() > 1 ==> commands[1].args == seq!["diff"@, "--cached"@, "--quiet"@]
            &&& commands.len() > 2 ==> {
                &&& commands[2].args == seq![
                    "-c"@,
                    "user.name="@ + repo.user_name,
                    "-c"@,
                    "user.email="@ + repo.user_email,
                    "commit"@,
                    "-m"@,
                    message,
                ]
                &&& commands[2].args[1].skip(10) == repo.user_name
                &&& commands[2].args[3].skip(11) == repo.user_email
            }
            &&& commands.len() > 3 ==> commands[3].args == seq!["rev-parse"@, "--short"@, "HEAD"@]
        }),
{
    commits_are_single(repo, args, message, git);
    reveal_with_fuel(run_from, 6);
    reveal_strlit("user.name=");
    reveal_strlit("user.email=");
    let plan = commit_plan(repo, args, message);
    let commands = run_from(staging(repo, args, message), git, 5).0;
    assert(forall|i: int| 0 <= i < commands.len() ==> #[trigger] commands[i] == plan[i]);
    assert(plan[2].args =~= seq![
        "-c"@,
        "user.name="@ + repo.user_name,
        "-c"@,
        "user.email="@ + repo.user_email,
        "commit"@,
        "-m"@,
        message,
    ]);
    assert(("user.name="@ + repo.user_name).skip(10) =~= repo.user_name);
    assert(("user.email="@ + repo.user_email).skip(11) =~= repo.user_email);
}

/// How a commit ends, by what git gives for its commands: with the failure of the first one that
/// fails; with nothing where the check exits with zero; with the commit, named by the trimmed
/// output of the last command, where the check exits with one.
pub proof fn commits_end_by_the_replies(
    repo: RepoView,
    args: Seq<Seq<char>>,
    message: Seq<char>,
    git: Git,
)
    ensures
        ({
            let at = |a: Seq<Seq<char>>|
                GitCommandView { cwd: Some(repo.root), args: a, env: None };
            let commit = seq![
                "-c"@,
                "user.name="@ + repo.user_name,
                "-c"@,
                "user.email="@ + repo.user_email,
                "commit"@,
                "-m"@,
                message,
            ];
            let diff = seq!["diff"@, "--cached"@, "--quiet"@];
            let name = seq!["rev-parse"@, "--short"@, "HEAD"@];
            let result = run_from(staging(repo, args, message), git, 5).1;
            result == Some(
                match command_outcome(args, git(at(args))) {
                    Err(e) => Err(e),
                    Ok(_) => match git(at(diff)) {
                        Err(reason) => Err(GitErrorView::Spawn(reason)),
                        Ok(check) => if check.status.code == Some(0i32) {
                            Ok(CommitResultView::Nothing)
                        } else if check.status.code == Some(1i32) {
                            match command_outcome(commit, git(at(commit))) {
                                Err(e) => Err(e),
                                Ok(_) => match command_outcome(name, git(at(name))) {
                                    Err(e) => Err(e),
                                    Ok(sha) => Ok(CommitResultView::Committed { sha }),
                                },
                            }
                        } else {
                            Err(
                                GitErrorView::Failed {
                                    args: diff,
                                    status: check.status.text,
                                    stderr: "unexpected exit code from git diff --cached"@,
                                },
                            )
                        },
                    },
                },
            )
        }),
{
    let commit = seq![
        "-c"@,
        "user.name="@ + repo.user_name,
        "-c"@,
        "user.email="@ + repo.user_email,
        "commit"@,
        "-m"@,
        message,
    ];
    let plan = commit_plan(repo, args, message);
    commits_end_as_git_replies(repo, args, message, git);
    assert(plan[2].args =~= commit);
}

}
