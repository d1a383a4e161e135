//! What the server is started with, and the commits that it makes.

use vstd::prelude::*;

use std::sync::Arc;

use crate::git::{
    commit_outcome, commit_plan, commit_result_view, commits_are_single, commits_run_these_commands,
    run_from, staging, CommitResult, CommitResultView, CommitStep, Git, GitError, GitRepo, RepoView,
};
use crate::path::{debug_path, path_bytes, FilePath, Part};
use crate::routes::{
    commit_response, optional_text, ApiError, ApiErrorView, Change, ChangeView, CommitResponse,
};
use crate::text::{
    concat, is_blank, is_white_space, text_of_bytes, trimmed, trimming_empties_blank_texts,
};
use crate::vault::Vault;

verus! {

/// The vault that is served, and the author of the commits.
#[derive(Debug, Clone)]
pub struct AppState {
    pub vault: Arc<Vault>,
    pub git_user_name: Arc<str>,
    pub git_user_email: Arc<str>,
}

impl View for AppState {
    type V = RepoView;

    open spec fn view(&self) -> RepoView {
        RepoView {
            root: self.vault@,
            user_name: self.git_user_name@,
            user_email: self.git_user_email@,
            ssh: None,
        }
    }
}

/// The arguments of the command that stages a change.
pub open spec fn staging_args(change: ChangeView) -> Seq<Seq<char>> {
    match change {
        ChangeView::Add { path, .. } => seq!["add"@, "--"@, path],
        ChangeView::Remove { path, .. } => seq!["rm"@, "--"@, path],
        ChangeView::Move { from, to, .. } => seq!["mv"@, "--"@, from, to],
    }
}

/// The message that a change is committed with.
pub open spec fn message_of(change: ChangeView) -> Seq<char> {
    match change {
        ChangeView::Add { message, .. } => message,
        ChangeView::Remove { message, .. } => message,
        ChangeView::Move { message, .. } => message,
    }
}

impl AppState {
    /// The repository of the vault.
    pub fn repo(&self) -> (r: GitRepo<'_>)
        ensures
            r@ == self@,
    {
        GitRepo {
            root: self.vault.root(),
            user_name: &*self.git_user_name,
            user_email: &*self.git_user_email,
            ssh: None,
        }
    }

    /// Starts to commit a change of the vault.
    pub fn commit(&self, change: &Change) -> (r: CommitStep<'_>)
        ensures
            r@ == staging(self@, staging_args(change@), message_of(change@)),
    {
        let repo = self.repo();
        match change {
            Change::Add { path, message } => {
                let paths = [path.as_str()];
                assert(seq!["add"@, "--"@] + paths.deep_view() =~= seq!["add"@, "--"@, path@]);
                repo.add_and_commit(&paths, message.as_str())
            },
            Change::Remove { path, message } => repo.rm_and_commit(
                path.as_str(),
                message.as_str(),
            ),
            Change::Move { from, to, message } => repo.mv_and_commit(
                from.as_str(),
                to.as_str(),
                message.as_str(),
            ),
        }
    }
}

/// The answer to a request that changes the vault, by what came of the commit.
pub fn commit_reply(result: Result<CommitResult, GitError>) -> (r: Result<CommitResponse, ApiError>)
    ensures
        match (commit_result_view(result), r) {
            (Ok(CommitResultView::Committed { sha }), Ok(response)) => response.committed
                && optional_text(response.sha) == Some(sha),
            (Ok(CommitResultView::Nothing), Ok(response)) => !response.committed
                && response.sha is None,
            (Err(e), Err(error)) => error@ == ApiErrorView::Git(e),
            _ => false,
        },
{
    match result {
        Ok(result) => Ok(commit_response(result)),
        Err(e) => Err(ApiError::Git(e)),
    }
}

/// Why the server cannot be started; `None` where it can.
pub open spec fn startup_problem(
    vault_path: Seq<Part>,
    is_dir: bool,
    has_git: bool,
    user_name: Seq<char>,
    user_email: Seq<char>,
) -> Option<Seq<char>> {
    let shown = text_of_bytes(path_bytes(vault_path));
    if !is_dir {
        Some("vault path is not a directory: "@ + shown)
    } else if !has_git {
        Some("vault path is not a git repository (missing .git): "@ + shown)
    } else if trimmed(user_name).len() == 0 {
        Some("--git-user-name must not be empty"@)
    } else if trimmed(user_email).len() == 0 {
        Some("--git-user-email must not be empty"@)
    } else {
        None
    }
}

/// Checks what the server is started with: the vault has to be a directory with a `.git` in it,
/// and the author of the commits has to have a name and an email address.
pub fn check_startup(
    vault_path: &FilePath,
    is_dir: bool,
    has_git: bool,
    user_name: &str,
    user_email: &str,
) -> (r: Result<(), String>)
    ensures
        match r {
            Ok(_) => startup_problem(vault_path@, is_dir, has_git, user_name@, user_email@) is None,
            Err(text) => startup_problem(vault_path@, is_dir, has_git, user_name@, user_email@)
                == Some(text@),
        },
{
    if !is_dir {
        return Err(concat("vault path is not a directory: ", debug_path(vault_path).as_str()));
    }
    if !has_git {
        return Err(
            concat(
                "vault path is not a git repository (missing .git): ",
                debug_path(vault_path).as_str(),
            ),
        );
    }
    if user_name.trim().is_empty() {
        return Err("--git-user-name must not be empty".to_owned());
    }
    if user_email.trim().is_empty() {
        return Err("--git-user-email must not be empty".to_owned());
    }
    Ok(())
}

/// The subcommand among the arguments of git: the first argument behind the settings.
pub open spec fn subcommand(args: Seq<Seq<char>>) -> Seq<char>
    decreases args.len(),
{
    if args.len() > 2 && args[0] == "-c"@ {
        subcommand(args.skip(2))
    } else {
        args[0]
    }
}

/// A change of the vault results in a single commit at most, and in one where something changed.
/// All commands run in the vault, and none of them pulls or pushes.
#[verifier::spinoff_prover]
#[verifier::rlimit(60)]
pub proof fn changes_make_a_single_commit(state: RepoView, change: ChangeView, git: Git)
    ensures
        ({
            let args = staging_args(change);
            let message = message_of(change);
            let commands = run_from(staging(state, args, message), git, 5).0;
            &&& forall|i: int|
                0 <= i < commands.len() ==> {
                    let command = #[trigger] commands[i];
                    &&& command.cwd == Some(state.root)
                    &&& subcommand(command.args) == "commit"@ <==> i == 2
                    &&& subcommand(command.args) != "pull"@
                    &&& subcommand(command.args) != "push"@
                }
            &&& commit_outcome(state, args, message, git) matches Ok(
                CommitResultView::Committed { .. },
            ) ==> commands.len() > 2
            &&& commit_outcome(state, args, message, git) matches Ok(CommitResultView::Nothing)
                ==> commands.len() == 2
        }),
{
    let args = staging_args(change);
    let message = message_of(change);
    let plan = commit_plan(state, args, message);
    let commands = run_from(staging(state, args, message), git, 5).0;
    commits_are_single(state, args, message, git);
    reveal_strlit("-c");
    reveal_strlit("add");
    reveal_strlit("rm");
    reveal_strlit("mv");
    reveal_strlit("diff");
    reveal_strlit("commit");
    reveal_strlit("rev-parse");
    reveal_strlit("pull");
    reveal_strlit("push");
    reveal_with_fuel(subcommand, 3);
    assert("-c"@[0] == '-');
    assert(args[0].len() < 4 && args[0][0] != '-');
    assert("diff"@[0] == 'd');
    assert("pull"@[0] == 'p');
    assert("push"@[0] == 'p');
    assert(subcommand(plan[2].args) == "commit"@) by {
        let rest = seq!["commit"@, "-m"@, message];
        assert(plan[2].args.skip(2).skip(2) =~= rest);
    }
    assert forall|i: int| 0 <= i < plan.len() implies {
        let command = #[trigger] plan[i];
        &&& command.cwd == Some(state.root)
        &&& subcommand(command.args) == "commit"@ <==> i == 2
        &&& subcommand(command.args) != "pull"@
        &&& subcommand(command.args) != "push"@
    } by {
        if i == 0 {
            assert(subcommand(plan[0].args) == args[0]);
        } else if i == 1 {
            assert(subcommand(plan[1].args) == "diff"@);
        } else if i == 3 {
            assert(subcommand(plan[3].args) == "rev-parse"@);
        }
    }
    assert(forall|i: int| 0 <= i < commands.len() ==> #[trigger] commands[i] == plan[i]);
}

/// The state holds the vault and the author, and no identity for a remote.
pub proof fn the_state_holds_its_fields(state: AppState)
    ensures
        state@.root == state.vault@,
        state@.user_name == state.git_user_name@,
        state@.user_email == state.git_user_email@,
        state@.ssh is None,
{
}

/// A change is staged by the whole relative paths that it names, and committed under its whole
/// message in the name of the author.
pub proof fn changes_are_committed_like_this(
    state: RepoView,
    a: Seq<char>,
    b: Seq<char>,
    message: Seq<char>,
    change: ChangeView,
    git: Git,
)
    requires
        change == (ChangeView::Add { path: a, message }) || change == (ChangeView::Remove {
            path: a,
            message,
        }) || change == (ChangeView::Move { from: a, to: b, message }),
    ensures
        ({
            let commands = run_from(
                staging(state, staging_args(change), message_of(change)),
                git,
                5,
            ).0;
            &&& commands.len() > 0
            &&& commands[0].args == (match change {
                ChangeView::Add { .. } => seq!["add"@, "--"@, a],
                ChangeView::Remove { .. } => seq!["rm"@, "--"@, a],
                ChangeView::Move { .. } => seq!["mv"@, "--"@, a, b],
            })
            &&& commands.len() > 2 ==> commands[2].args == seq![
                "-c"@,
                "user.name="@ + state.user_name,
                "-c"@,
                "user.email="@ + state.user_email,
                "commit"@,
                "-m"@,
                message,
            ]
        }),
{
    commits_run_these_commands(state, staging_args(change), message_of(change), git);
}

/// The server is started just where the vault is a directory with a `.git` in it and the author has
/// a name and an email address with a character other than white space in each. What is missing
/// first is told, with the path of the vault where it is about the vault.
pub proof fn the_start_needs_a_repository_and_an_author(
    vault_path: Seq<Part>,
    is_dir: bool,
    has_git: bool,
    user_name: Seq<char>,
    user_email: Seq<char>,
)
    ensures
        ({
            let named = exists|i: int|
                0 <= i < user_name.len() && !is_white_space(#[trigger] user_name[i]);
            let reachable = exists|i: int|
                0 <= i < user_email.len() && !is_white_space(#[trigger] user_email[i]);
            let shown = text_of_bytes(path_bytes(vault_path));
            let problem = startup_problem(vault_path, is_dir, has_git, user_name, user_email);
            &&& problem is None <==> is_dir && has_git && named && reachable
            &&& !is_dir ==> problem == Some("vault path is not a directory: "@ + shown)
            &&& is_dir && !has_git ==> problem == Some(
                "vault path is not a git repository (missing .git): "@ + shown,
            )
            &&& is_dir && has_git && !named ==> problem == Some(
                "--git-user-name must not be empty"@,
            )
            &&& is_dir && has_git && named && !reachable ==> problem == Some(
                "--git-user-email must not be empty"@,
            )
        }),
{
    trimming_empties_blank_texts(user_name);
    trimming_empties_blank_texts(user_email);
    if exists|i: int| 0 <= i < user_name.len() && !is_white_space(#[trigger] user_name[i]) {
        assert(!is_blank(user_name));
    } else {
        assert(is_blank(user_name));
    }
    if exists|i: int| 0 <= i < user_email.len() && !is_white_space(#[trigger] user_email[i]) {
        assert(!is_blank(user_email));
    } else {
        assert(is_blank(user_email));
    }
}

}
