//! The requests of the API: what each one asks of the file system and of git, and what it is
//! answered.
//!
//! A request is worked off in steps. A step says what is to be done outside; its `resume` takes
//! what came of it and gives the next step.

use vstd::prelude::*;
use vstd::string::StringExecFns;

use crate::git::{git_error_text, CommitResult, CommitResultView, GitError, GitErrorView};
use crate::path::{
    debug_path, parent_of, parents_are_all_but_the_last, path_bytes, FilePath, Part,
};
use crate::text::{
    concat, is_blank, is_white_space, text_of_bytes, trimmed, trimming_empties_blank_texts,
};
use crate::vault::{
    hidden_directories_are_not_addressable, in_hidden, misread, path_result, relative, resolved,
    resolved_paths_lie_inside, vault_error_text, Vault, VaultError, VaultErrorView,
};

verus! {

/// Why a request is not answered with what it asks for.
#[derive(Debug)]
pub enum ApiError {
    NotFound(String),
    BadRequest(String),
    Conflict(String),
    Internal(String),
    Git(GitError),
    Vault(VaultError),
}

/// What an `ApiError` holds.
pub enum ApiErrorView {
    NotFound(Seq<char>),
    BadRequest(Seq<char>),
    Conflict(Seq<char>),
    Internal(Seq<char>),
    Git(GitErrorView),
    Vault(VaultErrorView),
}

impl View for ApiError {
    type V = ApiErrorView;

    open spec fn view(&self) -> ApiErrorView {
        match self {
            ApiError::NotFound(s) => ApiErrorView::NotFound(s@),
            ApiError::BadRequest(s) => ApiErrorView::BadRequest(s@),
            ApiError::Conflict(s) => ApiErrorView::Conflict(s@),
            ApiError::Internal(s) => ApiErrorView::Internal(s@),
            ApiError::Git(e) => ApiErrorView::Git(e@),
            ApiError::Vault(e) => ApiErrorView::Vault(e@),
        }
    }
}

/// The error as text.
pub open spec fn api_error_text(e: ApiErrorView) -> Seq<char> {
    match e {
        ApiErrorView::NotFound(s) => "not found: "@ + s,
        ApiErrorView::BadRequest(s) => "bad request: "@ + s,
        ApiErrorView::Conflict(s) => "conflict: "@ + s,
        ApiErrorView::Internal(s) => "internal: "@ + s,
        ApiErrorView::Git(e) => "git error: "@ + git_error_text(e),
        ApiErrorView::Vault(e) => "vault error: "@ + vault_error_text(e),
    }
}

/// The HTTP status that goes with an error.
pub open spec fn status_code(e: ApiErrorView) -> u16 {
    match e {
        ApiErrorView::NotFound(_) => 404,
        ApiErrorView::BadRequest(_) => 400,
        ApiErrorView::Vault(_) => 400,
        ApiErrorView::Conflict(_) => 409,
        ApiErrorView::Internal(_) => 500,
        ApiErrorView::Git(_) => 500,
    }
}

impl ApiError {
    /// The error as text.
    pub fn message(&self) -> (r: String)
        ensures
            r@ == api_error_text(self@),
    {
        match self {
            ApiError::NotFound(s) => concat("not found: ", s.as_str()),
            ApiError::BadRequest(s) => concat("bad request: ", s.as_str()),
            ApiError::Conflict(s) => concat("conflict: ", s.as_str()),
            ApiError::Internal(s) => concat("internal: ", s.as_str()),
            ApiError::Git(e) => concat("git error: ", e.message().as_str()),
            ApiError::Vault(e) => concat("vault error: ", e.message().as_str()),
        }
    }

    /// The HTTP status and the text that the request is answered with.
    pub fn into_response(self) -> (r: (u16, String))
        ensures
            r.0 == status_code(self@),
            r.1@ == api_error_text(self@),
    {
        let status: u16 = match &self {
            ApiError::NotFound(_) => 404,
            ApiError::BadRequest(_) | ApiError::Vault(_) => 400,
            ApiError::Conflict(_) => 409,
            ApiError::Internal(_) | ApiError::Git(_) => 500,
        };
        (status, self.message())
    }
}

/// The request for a file.
#[derive(Debug)]
pub struct PathQuery {
    pub path: String,
}

/// The request to write a file.
#[derive(Debug)]
pub struct PutFileBody {
    pub path: String,
    pub content: String,
    pub message: Option<String>,
}

/// The request to make a file.
#[derive(Debug)]
pub struct CreateFileBody {
    pub path: String,
    pub content: String,
    pub message: Option<String>,
}

/// The request to remove a file.
#[derive(Debug)]
pub struct DeleteFileBody {
    pub path: String,
    pub message: Option<String>,
}

/// The request to move a file.
#[derive(Debug)]
pub struct RenameFileBody {
    pub from: String,
    pub to: String,
    pub message: Option<String>,
}

/// What a request to write or to make a file holds.
pub struct SaveView {
    pub path: Seq<char>,
    pub content: Seq<char>,
    pub message: Option<Seq<char>>,
}

/// What a `DeleteFileBody` holds.
pub struct DeleteView {
    pub path: Seq<char>,
    pub message: Option<Seq<char>>,
}

/// What a `RenameFileBody` holds.
pub struct RenameView {
    pub from: Seq<char>,
    pub to: Seq<char>,
    pub message: Option<Seq<char>>,
}

/// What an optional text holds.
pub open spec fn optional_text(s: Option<String>) -> Option<Seq<char>> {
    match s {
        Some(s) => Some(s@),
        None => None,
    }
}

impl View for PathQuery {
    type V = Seq<char>;

    open spec fn view(&self) -> Seq<char> {
        self.path@
    }
}

impl View for PutFileBody {
    type V = SaveView;

    open spec fn view(&self) -> SaveView {
        SaveView {
            path: self.path@,
            content: self.content@,
            message: optional_text(self.message),
        }
    }
}

impl View for CreateFileBody {
    type V = SaveView;

    open spec fn view(&self) -> SaveView {
        SaveView {
            path: self.path@,
            content: self.content@,
            message: optional_text(self.message),
        }
    }
}

impl View for DeleteFileBody {
    type V = DeleteView;

    open spec fn view(&self) -> DeleteView {
        DeleteView { path: self.path@, message: optional_text(self.message) }
    }
}

impl View for RenameFileBody {
    type V = RenameView;

    open spec fn view(&self) -> RenameView {
        RenameView { from: self.from@, to: self.to@, message: optional_text(self.message) }
    }
}

/// The answer to a change of the vault.
#[derive(Debug)]
pub struct CommitResponse {
    pub committed: bool,
    pub sha: Option<String>,
}

/// The answer to the request for a file.
#[derive(Debug)]
pub struct FileContent {
    pub path: String,
    pub content: String,
}

/// The answer to a change, by what came of the commit.
pub fn commit_response(result: CommitResult) -> (r: CommitResponse)
    ensures
        match result@ {
            CommitResultView::Committed { sha } => r.committed && optional_text(r.sha) == Some(sha),
            CommitResultView::Nothing => !r.committed && r.sha is None,
        },
{
    match result {
        CommitResult::Committed { sha } => CommitResponse { committed: true, sha: Some(sha) },
        CommitResult::Nothing => CommitResponse { committed: false, sha: None },
    }
}

/// The message of a commit: the one that the request gives, unless it is blank or missing.
pub open spec fn chosen_message(given: Option<Seq<char>>, otherwise: Seq<char>) -> Seq<char> {
    match given {
        Some(s) if trimmed(s).len() > 0 => s,
        _ => otherwise,
    }
}

/// The message of a commit: the one that the request gives, unless it is blank or missing.
fn choose_message(given: Option<String>, otherwise: String) -> (r: String)
    ensures
        r@ == chosen_message(optional_text(given), otherwise@),
{
    match given {
        Some(s) => if s.as_str().trim().is_empty() {
            otherwise
        } else {
            s
        },
        None => otherwise,
    }
}

/// A change that is to be committed, by paths relative to the vault.
#[derive(Debug)]
pub enum Change {
    Add { path: String, message: String },
    Remove { path: String, message: String },
    Move { from: String, to: String, message: String },
}

/// What a `Change` holds.
pub enum ChangeView {
    Add { path: Seq<char>, message: Seq<char> },
    Remove { path: Seq<char>, message: Seq<char> },
    Move { from: Seq<char>, to: Seq<char>, message: Seq<char> },
}

impl View for Change {
    type V = ChangeView;

    open spec fn view(&self) -> ChangeView {
        match self {
            Change::Add { path, message } => ChangeView::Add { path: path@, message: message@ },
            Change::Remove { path, message } => ChangeView::Remove {
                path: path@,
                message: message@,
            },
            Change::Move { from, to, message } => ChangeView::Move {
                from: from@,
                to: to@,
                message: message@,
            },
        }
    }
}

/// A step of a request.
#[derive(Debug)]
pub enum Step {
    /// Resolve a path that the request names.
    Resolve(Resolving),
    /// Find out whether a path exists.
    Exists(Finding),
    /// Find out whether a path is a regular file.
    IsFile(Opening),
    /// Read a file as text.
    Read(Reading),
    /// Make a directory and those above it.
    MakeDirs(Preparing),
    /// Write a file.
    Write(Writing),
    /// Commit a change; `commit_reply` gives the answer to the request.
    Commit(Change),
    /// The request is answered with a file.
    Found(FileContent),
    /// The request is refused.
    Fail(ApiError),
}

/// A request that waits for a resolved path.
#[derive(Debug)]
pub enum Resolving {
    Get(PathQuery),
    Put(PutFileBody),
    Create(CreateFileBody),
    Delete(DeleteFileBody),
    RenameFrom(RenameFileBody),
    /// The path that the file is moved from is resolved.
    RenameTo(RenameFileBody, FilePath),
}

/// A request that waits for the answer whether a path exists.
#[derive(Debug)]
pub enum Finding {
    Get(PathQuery, FilePath),
    Create(CreateFileBody, FilePath),
    Delete(DeleteFileBody, FilePath),
    /// Does the first path exist, which the file is moved from?
    RenameFrom(RenameFileBody, FilePath, FilePath),
    /// Does the second path exist, which the file is moved to?
    RenameTo(RenameFileBody, FilePath, FilePath),
}

/// A request that waits for the answer whether a path is a regular file.
#[derive(Debug)]
pub struct Opening {
    pub query: PathQuery,
    pub abs: FilePath,
}

/// A request that waits for the text of a file.
#[derive(Debug)]
pub struct Reading {
    pub query: PathQuery,
    pub abs: FilePath,
}

/// A request that waits for a directory.
#[derive(Debug)]
pub struct Preparing {
    pub dir: FilePath,
    pub target: Target,
}

/// The file that a directory is made for.
#[derive(Debug)]
pub enum Target {
    Put(PutFileBody, FilePath),
    Create(CreateFileBody, FilePath),
    /// The file is moved from the first path to the second.
    Rename(RenameFileBody, FilePath, FilePath),
}

/// A request that waits for a file to be written.
#[derive(Debug)]
pub enum Writing {
    Put(PutFileBody, FilePath),
    Create(CreateFileBody, FilePath),
}

/// What a `Step` holds.
pub enum StepView {
    Resolve(ResolvingView),
    Exists(FindingView),
    IsFile(Seq<char>, Seq<Part>),
    Read(Seq<char>, Seq<Part>),
    MakeDirs(Seq<Part>, TargetView),
    Write(WritingView),
    Commit(ChangeView),
    Found { path: Seq<char>, content: Seq<char> },
    Fail(ApiErrorView),
}

/// What a `Resolving` holds.
pub enum ResolvingView {
    Get(Seq<char>),
    Put(SaveView),
    Create(SaveView),
    Delete(DeleteView),
    RenameFrom(RenameView),
    RenameTo(RenameView, Seq<Part>),
}

/// What a `Finding` holds.
pub enum FindingView {
    Get(Seq<char>, Seq<Part>),
    Create(SaveView, Seq<Part>),
    Delete(DeleteView, Seq<Part>),
    RenameFrom(RenameView, Seq<Part>, Seq<Part>),
    RenameTo(RenameView, Seq<Part>, Seq<Part>),
}

/// What a `Target` holds.
pub enum TargetView {
    Put(SaveView, Seq<Part>),
    Create(SaveView, Seq<Part>),
    Rename(RenameView, Seq<Part>, Seq<Part>),
}

/// What a `Writing` holds.
pub enum WritingView {
    Put(SaveView, Seq<Part>),
    Create(SaveView, Seq<Part>),
}

impl View for Resolving {
    type V = ResolvingView;

    open spec fn view(&self) -> ResolvingView {
        match self {
            Resolving::Get(q) => ResolvingView::Get(q@),
            Resolving::Put(b) => ResolvingView::Put(b@),
            Resolving::Create(b) => ResolvingView::Create(b@),
            Resolving::Delete(b) => ResolvingView::Delete(b@),
            Resolving::RenameFrom(b) => ResolvingView::RenameFrom(b@),
            Resolving::RenameTo(b, from) => ResolvingView::RenameTo(b@, from@),
        }
    }
}

impl View for Finding {
    type V = FindingView;

    open spec fn view(&self) -> FindingView {
        match self {
            Finding::Get(q, abs) => FindingView::Get(q@, abs@),
            Finding::Create(b, abs) => FindingView::Create(b@, abs@),
            Finding::Delete(b, abs) => FindingView::Delete(b@, abs@),
            Finding::RenameFrom(b, from, to) => FindingView::RenameFrom(b@, from@, to@),
            Finding::RenameTo(b, from, to) => FindingView::RenameTo(b@, from@, to@),
        }
    }
}

impl View for Target {
    type V = TargetView;

    open spec fn view(&self) -> TargetView {
        match self {
            Target::Put(b, abs) => TargetView::Put(b@, abs@),
            Target::Create(b, abs) => TargetView::Create(b@, abs@),
            Target::Rename(b, from, to) => TargetView::Rename(b@, from@, to@),
        }
    }
}

impl View for Writing {
    type V = WritingView;

    open spec fn view(&self) -> WritingView {
        match self {
            Writing::Put(b, abs) => WritingView::Put(b@, abs@),
            Writing::Create(b, abs) => WritingView::Create(b@, abs@),
        }
    }
}

impl View for Step {
    type V = StepView;

    open spec fn view(&self) -> StepView {
        match self {
            Step::Resolve(s) => StepView::Resolve(s@),
            Step::Exists(s) => StepView::Exists(s@),
            Step::IsFile(s) => StepView::IsFile(s.query@, s.abs@),
            Step::Read(s) => StepView::Read(s.query@, s.abs@),
            Step::MakeDirs(s) => StepView::MakeDirs(s.dir@, s.target@),
            Step::Write(s) => StepView::Write(s@),
            Step::Commit(change) => StepView::Commit(change@),
            Step::Found(file) => StepView::Found { path: file.path@, content: file.content@ },
            Step::Fail(e) => StepView::Fail(e@),
        }
    }
}

/// The request to resolve: the text that is resolved.
pub open spec fn named_path(s: ResolvingView) -> Seq<char> {
    match s {
        ResolvingView::Get(path) => path,
        ResolvingView::Put(b) => b.path,
        ResolvingView::Create(b) => b.path,
        ResolvingView::Delete(b) => b.path,
        ResolvingView::RenameFrom(b) => b.from,
        ResolvingView::RenameTo(b, _) => b.to,
    }
}

/// The path that is looked for.
pub open spec fn sought_path(s: FindingView) -> Seq<Part> {
    match s {
        FindingView::Get(_, abs) => abs,
        FindingView::Create(_, abs) => abs,
        FindingView::Delete(_, abs) => abs,
        FindingView::RenameFrom(_, from, _) => from,
        FindingView::RenameTo(_, _, to) => to,
    }
}

/// The path of the file that a directory is made for.
pub open spec fn target_path(s: TargetView) -> Seq<Part> {
    match s {
        TargetView::Put(_, abs) => abs,
        TargetView::Create(_, abs) => abs,
        TargetView::Rename(_, _, to) => to,
    }
}

/// The file that is written.
pub open spec fn written_path(s: WritingView) -> Seq<Part> {
    match s {
        WritingView::Put(_, abs) => abs,
        WritingView::Create(_, abs) => abs,
    }
}

/// What is written.
pub open spec fn written_body(s: WritingView) -> SaveView {
    match s {
        WritingView::Put(b, _) => b,
        WritingView::Create(b, _) => b,
    }
}

/// The refusal where a path has no place below the root.
pub open spec fn no_relative() -> StepView {
    StepView::Fail(ApiErrorView::Internal("could not derive relative path"@))
}

/// The step behind the resolution of a path.
pub open spec fn after_resolving(
    root: Seq<Part>,
    s: ResolvingView,
    reply: Result<Seq<Part>, VaultErrorView>,
) -> StepView {
    match reply {
        Err(e) => StepView::Fail(ApiErrorView::Vault(e)),
        Ok(abs) => match s {
            ResolvingView::Get(path) => StepView::Exists(FindingView::Get(path, abs)),
            ResolvingView::Put(b) => prepared(root, TargetView::Put(b, abs)),
            ResolvingView::Create(b) => StepView::Exists(FindingView::Create(b, abs)),
            ResolvingView::Delete(b) => StepView::Exists(FindingView::Delete(b, abs)),
            ResolvingView::RenameFrom(b) => StepView::Resolve(ResolvingView::RenameTo(b, abs)),
            ResolvingView::RenameTo(b, from) => StepView::Exists(
                FindingView::RenameFrom(b, from, abs),
            ),
        },
    }
}

/// The step that makes the directory of a file; where the file has no parent, the step behind it.
pub open spec fn prepared(root: Seq<Part>, s: TargetView) -> StepView {
    match parent_of(target_path(s)) {
        Some(dir) => StepView::MakeDirs(dir, s),
        None => made(root, s),
    }
}

/// The step once the directory is there.
pub open spec fn made(root: Seq<Part>, s: TargetView) -> StepView {
    match s {
        TargetView::Put(b, abs) => StepView::Write(WritingView::Put(b, abs)),
        TargetView::Create(b, abs) => StepView::Write(WritingView::Create(b, abs)),
        TargetView::Rename(b, from, to) => match (relative(root, from), relative(root, to)) {
            (Some(rel_from), Some(rel_to)) => StepView::Commit(
                ChangeView::Move {
                    from: rel_from,
                    to: rel_to,
                    message: chosen_message(
                        b.message,
                        "rename: "@ + rel_from + " -> "@ + rel_to,
                    ),
                },
            ),
            _ => no_relative(),
        },
    }
}

/// The step behind the question whether a path exists.
pub open spec fn after_finding(root: Seq<Part>, s: FindingView, exists: bool) -> StepView {
    match s {
        FindingView::Get(path, abs) => if exists {
            StepView::IsFile(path, abs)
        } else {
            StepView::Fail(ApiErrorView::NotFound(path))
        },
        FindingView::Create(b, abs) => if exists {
            StepView::Fail(ApiErrorView::Conflict("file already exists: "@ + b.path))
        } else {
            prepared(root, TargetView::Create(b, abs))
        },
        FindingView::Delete(b, abs) => if exists {
            match relative(root, abs) {
                Some(rel) => StepView::Commit(
                    ChangeView::Remove {
                        path: rel,
                        message: chosen_message(b.message, "delete: "@ + rel),
                    },
                ),
                None => no_relative(),
            }
        } else {
            StepView::Fail(ApiErrorView::NotFound(b.path))
        },
        FindingView::RenameFrom(b, from, to) => if exists {
            StepView::Exists(FindingView::RenameTo(b, from, to))
        } else {
            StepView::Fail(ApiErrorView::NotFound(b.from))
        },
        FindingView::RenameTo(b, from, to) => if exists {
            StepView::Fail(ApiErrorView::Conflict("destination already exists: "@ + b.to))
        } else {
            prepared(root, TargetView::Rename(b, from, to))
        },
    }
}

/// The step behind the question whether a path is a regular file.
pub open spec fn after_opening(path: Seq<char>, abs: Seq<Part>, is_file: bool) -> StepView {
    if is_file {
        StepView::Read(path, abs)
    } else {
        StepView::Fail(ApiErrorView::BadRequest("not a file: "@ + path))
    }
}

/// The step behind the reading of a file.
pub open spec fn after_reading(path: Seq<char>, reply: Result<Seq<char>, Seq<char>>) -> StepView {
    match reply {
        Ok(content) => StepView::Found { path, content },
        Err(reason) => StepView::Fail(
            ApiErrorView::Internal("read "@ + path + ": "@ + reason),
        ),
    }
}

/// The step behind the making of a directory.
pub open spec fn after_preparing(
    root: Seq<Part>,
    dir: Seq<Part>,
    s: TargetView,
    reply: Result<(), Seq<char>>,
) -> StepView {
    match reply {
        Ok(_) => made(root, s),
        Err(reason) => StepView::Fail(
            ApiErrorView::Internal(
                "mkdir "@ + text_of_bytes(path_bytes(dir)) + ": "@ + reason,
            ),
        ),
    }
}

/// The step behind the writing of a file.
pub open spec fn after_writing(
    root: Seq<Part>,
    s: WritingView,
    reply: Result<(), Seq<char>>,
) -> StepView {
    let b = written_body(s);
    match (reply, relative(root, written_path(s))) {
        (Err(reason), _) => StepView::Fail(
            ApiErrorView::Internal("write "@ + b.path + ": "@ + reason),
        ),
        (Ok(_), None) => no_relative(),
        (Ok(_), Some(rel)) => StepView::Commit(
            ChangeView::Add {
                path: rel,
                message: chosen_message(
                    b.message,
                    match s {
                        WritingView::Put(..) => "edit: "@ + rel,
                        WritingView::Create(..) => "create: "@ + rel,
                    },
                ),
            },
        ),
    }
}

impl Resolving {
    /// The path to resolve, as the request names it.
    pub fn rel(&self) -> (r: &str)
        ensures
            r@ == named_path(self@),
    {
        match self {
            Resolving::Get(q) => q.path.as_str(),
            Resolving::Put(b) => b.path.as_str(),
            Resolving::Create(b) => b.path.as_str(),
            Resolving::Delete(b) => b.path.as_str(),
            Resolving::RenameFrom(b) => b.from.as_str(),
            Resolving::RenameTo(b, _) => b.to.as_str(),
        }
    }

    /// Takes the resolved path.
    pub fn resume(self, vault: &Vault, reply: Result<FilePath, VaultError>) -> (r: Step)
        ensures
            r@ == after_resolving(vault@, self@, path_result(reply)),
    {
        let abs = match reply {
            Ok(abs) => abs,
            Err(e) => {
                return Step::Fail(ApiError::Vault(e));
            },
        };
        match self {
            Resolving::Get(q) => Step::Exists(Finding::Get(q, abs)),
            Resolving::Put(b) => prepare(vault, Target::Put(b, abs)),
            Resolving::Create(b) => Step::Exists(Finding::Create(b, abs)),
            Resolving::Delete(b) => Step::Exists(Finding::Delete(b, abs)),
            Resolving::RenameFrom(b) => Step::Resolve(Resolving::RenameTo(b, abs)),
            Resolving::RenameTo(b, from) => Step::Exists(Finding::RenameFrom(b, from, abs)),
        }
    }
}

/// The refusal where a path has no place below the root.
fn refuse_relative() -> (r: Step)
    ensures
        r@ == no_relative(),
{
    Step::Fail(ApiError::Internal("could not derive relative path".to_owned()))
}

/// The step that makes the directory of a file, or the one behind it.
fn prepare(vault: &Vault, target: Target) -> (r: Step)
    ensures
        r@ == prepared(vault@, target@),
{
    let parent = match &target {
        Target::Put(_, abs) => abs.parent(),
        Target::Create(_, abs) => abs.parent(),
        Target::Rename(_, _, to) => to.parent(),
    };
    match parent {
        Some(dir) => Step::MakeDirs(Preparing { dir, target }),
        None => proceed(vault, target),
    }
}

/// The step once the directory of a file is there.
fn proceed(vault: &Vault, target: Target) -> (r: Step)
    ensures
        r@ == made(vault@, target@),
{
    match target {
        Target::Put(b, abs) => Step::Write(Writing::Put(b, abs)),
        Target::Create(b, abs) => Step::Write(Writing::Create(b, abs)),
        Target::Rename(b, from, to) => {
            let rel_from = match vault.relative_str(&from) {
                Some(rel) => rel,
                None => {
                    return refuse_relative();
                },
            };
            let rel_to = match vault.relative_str(&to) {
                Some(rel) => rel,
                None => {
                    return refuse_relative();
                },
            };
            let mut otherwise = concat("rename: ", rel_from.as_str());
            otherwise.append(" -> ");
            otherwise.append(rel_to.as_str());
            let message = choose_message(b.message, otherwise);
            Step::Commit(Change::Move { from: rel_from, to: rel_to, message })
        },
    }
}

impl Finding {
    /// The path in question.
    pub fn path(&self) -> (r: &FilePath)
        ensures
            r@ == sought_path(self@),
    {
        match self {
            Finding::Get(_, abs) => abs,
            Finding::Create(_, abs) => abs,
            Finding::Delete(_, abs) => abs,
            Finding::RenameFrom(_, from, _) => from,
            Finding::RenameTo(_, _, to) => to,
        }
    }

    /// Takes the answer whether the path exists.
    pub fn resume(self, vault: &Vault, exists: bool) -> (r: Step)
        ensures
            r@ == after_finding(vault@, self@, exists),
    {
        match self {
            Finding::Get(q, abs) => if exists {
                Step::IsFile(Opening { query: q, abs })
            } else {
                Step::Fail(ApiError::NotFound(q.path))
            },
            Finding::Create(b, abs) => if exists {
                Step::Fail(ApiError::Conflict(concat("file already exists: ", b.path.as_str())))
            } else {
                prepare(vault, Target::Create(b, abs))
            },
            Finding::Delete(b, abs) => if exists {
                match vault.relative_str(&abs) {
                    Some(rel) => {
                        let otherwise = concat("delete: ", rel.as_str());
                        let message = choose_message(b.message, otherwise);
                        Step::Commit(Change::Remove { path: rel, message })
                    },
                    None => refuse_relative(),
                }
            } else {
                Step::Fail(ApiError::NotFound(b.path))
            },
            Finding::RenameFrom(b, from, to) => if exists {
                Step::Exists(Finding::RenameTo(b, from, to))
            } else {
                Step::Fail(ApiError::NotFound(b.from))
            },
            Finding::RenameTo(b, from, to) => if exists {
                Step::Fail(
                    ApiError::Conflict(concat("destination already exists: ", b.to.as_str())),
                )
            } else {
                prepare(vault, Target::Rename(b, from, to))
            },
        }
    }
}

impl Opening {
    /// Takes the answer whether the path is a regular file.
    pub fn resume(self, is_file: bool) -> (r: Step)
        ensures
            r@ == after_opening(self.query@, self.abs@, is_file),
    {
        if is_file {
            Step::Read(Reading { query: self.query, abs: self.abs })
        } else {
            Step::Fail(ApiError::BadRequest(concat("not a file: ", self.query.path.as_str())))
        }
    }
}

/// What the text of a file, or the reason why it cannot be read, holds.
pub open spec fn read_view(reply: Result<String, String>) -> Result<Seq<char>, Seq<char>> {
    match reply {
        Ok(content) => Ok(content@),
        Err(reason) => Err(reason@),
    }
}

/// What success, or the reason of a failure, holds.
pub open spec fn done_view(reply: Result<(), String>) -> Result<(), Seq<char>> {
    match reply {
        Ok(_) => Ok(()),
        Err(reason) => Err(reason@),
    }
}

/// The text of a failed file operation.
fn failure(what: &str, path: &str, reason: &str) -> (r: String)
    ensures
        r@ == what@ + path@ + ": "@ + reason@,
{
    let mut r = concat(what, path);
    r.append(": ");
    r.append(reason);
    r
}

impl Reading {
    /// Takes the text of the file.
    pub fn resume(self, reply: Result<String, String>) -> (r: Step)
        ensures
            r@ == after_reading(self.query@, read_view(reply)),
    {
        match reply {
            Ok(content) => Step::Found(FileContent { path: self.query.path, content }),
            Err(reason) => Step::Fail(
                ApiError::Internal(failure("read ", self.query.path.as_str(), reason.as_str())),
            ),
        }
    }
}

impl Preparing {
    /// Takes what came of making the directory.
    pub fn resume(self, vault: &Vault, reply: Result<(), String>) -> (r: Step)
        ensures
            r@ == after_preparing(vault@, self.dir@, self.target@, done_view(reply)),
    {
        match reply {
            Ok(_) => proceed(vault, self.target),
            Err(reason) => Step::Fail(
                ApiError::Internal(
                    failure("mkdir ", debug_path(&self.dir).as_str(), reason.as_str()),
                ),
            ),
        }
    }
}

impl Writing {
    /// The file to write.
    pub fn path(&self) -> (r: &FilePath)
        ensures
            r@ == written_path(self@),
    {
        match self {
            Writing::Put(_, abs) => abs,
            Writing::Create(_, abs) => abs,
        }
    }

    /// What to write.
    pub fn content(&self) -> (r: &str)
        ensures
            r@ == written_body(self@).content,
    {
        match self {
            Writing::Put(b, _) => b.content.as_str(),
            Writing::Create(b, _) => b.content.as_str(),
        }
    }

    /// Takes what came of writing the file.
    pub fn resume(self, vault: &Vault, reply: Result<(), String>) -> (r: Step)
        ensures
            r@ == after_writing(vault@, self@, done_view(reply)),
    {
        let (prefix, path, message, abs) = match self {
            Writing::Put(b, abs) => ("edit: ", b.path, b.message, abs),
            Writing::Create(b, abs) => ("create: ", b.path, b.message, abs),
        };
        if let Err(reason) = reply {
            return Step::Fail(
                ApiError::Internal(failure("write ", path.as_str(), reason.as_str())),
            );
        }
        match vault.relative_str(&abs) {
            Some(rel) => {
                let otherwise = concat(prefix, rel.as_str());
                Step::Commit(
                    Change::Add { path: rel, message: choose_message(message, otherwise) },
                )
            },
            None => refuse_relative(),
        }
    }
}

/// Starts on the request for a file.
pub fn api_get_file(query: PathQuery) -> (r: Step)
    ensures
        r@ == StepView::Resolve(ResolvingView::Get(query@)),
{
    Step::Resolve(Resolving::Get(query))
}

/// Starts on the request to write a file.
pub fn api_put_file(body: PutFileBody) -> (r: Step)
    ensures
        r@ == StepView::Resolve(ResolvingView::Put(body@)),
{
    Step::Resolve(Resolving::Put(body))
}

/// Starts on the request to make a file.
pub fn api_create_file(body: CreateFileBody) -> (r: Step)
    ensures
        r@ == StepView::Resolve(ResolvingView::Create(body@)),
{
    Step::Resolve(Resolving::Create(body))
}

/// Starts on the request to remove a file.
pub fn api_delete_file(body: DeleteFileBody) -> (r: Step)
    ensures
        r@ == StepView::Resolve(ResolvingView::Delete(body@)),
{
    Step::Resolve(Resolving::Delete(body))
}

/// Starts on the request to move a file.
pub fn api_rename_file(body: RenameFileBody) -> (r: Step)
    ensures
        r@ == StepView::Resolve(ResolvingView::RenameFrom(body@)),
{
    Step::Resolve(Resolving::RenameFrom(body))
}

/// What the file system does while a request is worked off.
pub struct World {
    pub resolve: spec_fn(Seq<char>) -> Result<Seq<Part>, VaultErrorView>,
    pub present: spec_fn(Seq<Part>) -> bool,
    pub is_file: spec_fn(Seq<Part>) -> bool,
    pub read: spec_fn(Seq<Part>) -> Result<Seq<char>, Seq<char>>,
    pub make_dirs: spec_fn(Seq<Part>) -> Result<(), Seq<char>>,
    pub write: spec_fn(Seq<Part>, Seq<char>) -> Result<(), Seq<char>>,
}

/// Whether a request is done with a step, but for the commit.
pub open spec fn is_last(step: StepView) -> bool {
    step is Commit || step is Found || step is Fail
}

/// The step behind a step.
pub open spec fn next_step(root: Seq<Part>, step: StepView, w: World) -> StepView {
    match step {
        StepView::Resolve(s) => after_resolving(root, s, (w.resolve)(named_path(s))),
        StepView::Exists(s) => after_finding(root, s, (w.present)(sought_path(s))),
        StepView::IsFile(path, abs) => after_opening(path, abs, (w.is_file)(abs)),
        StepView::Read(path, abs) => after_reading(path, (w.read)(abs)),
        StepView::MakeDirs(dir, s) => after_preparing(root, dir, s, (w.make_dirs)(dir)),
        StepView::Write(s) => after_writing(
            root,
            s,
            (w.write)(written_path(s), written_body(s).content),
        ),
        _ => step,
    }
}

/// The first `n` steps of a request, or fewer where it is done before.
pub open spec fn steps_from(root: Seq<Part>, step: StepView, w: World, n: nat) -> Seq<StepView>
    decreases n,
{
    if n == 0 {
        Seq::empty()
    } else if is_last(step) {
        seq![step]
    } else {
        seq![step] + steps_from(root, next_step(root, step, w), w, (n - 1) as nat)
    }
}

/// How the request for a file ends.
pub open spec fn get_answer(w: World, path: Seq<char>) -> StepView {
    match (w.resolve)(path) {
        Err(e) => StepView::Fail(ApiErrorView::Vault(e)),
        Ok(abs) => if !(w.present)(abs) {
            StepView::Fail(ApiErrorView::NotFound(path))
        } else if !(w.is_file)(abs) {
            StepView::Fail(ApiErrorView::BadRequest("not a file: "@ + path))
        } else {
            match (w.read)(abs) {
                Ok(content) => StepView::Found { path, content },
                Err(reason) => StepView::Fail(
                    ApiErrorView::Internal("read "@ + path + ": "@ + reason),
                ),
            }
        },
    }
}

/// How a file is saved at a path, with the directory made first: with a change to commit, or with
/// an error.
pub open spec fn save_answer(
    root: Seq<Part>,
    w: World,
    b: SaveView,
    abs: Seq<Part>,
    otherwise: Seq<char>,
) -> StepView {
    let made_dirs = match parent_of(abs) {
        Some(dir) => (w.make_dirs)(dir),
        None => Ok(()),
    };
    match (made_dirs, (w.write)(abs, b.content), relative(root, abs)) {
        (Err(reason), _, _) => StepView::Fail(
            ApiErrorView::Internal(
                "mkdir "@ + text_of_bytes(path_bytes(parent_of(abs)->0)) + ": "@ + reason,
            ),
        ),
        (Ok(_), Err(reason), _) => StepView::Fail(
            ApiErrorView::Internal("write "@ + b.path + ": "@ + reason),
        ),
        (Ok(_), Ok(_), None) => no_relative(),
        (Ok(_), Ok(_), Some(rel)) => StepView::Commit(
            ChangeView::Add { path: rel, message: chosen_message(b.message, otherwise + rel) },
        ),
    }
}

/// How the request to write a file ends.
pub open spec fn put_answer(root: Seq<Part>, w: World, b: SaveView) -> StepView {
    match (w.resolve)(b.path) {
        Err(e) => StepView::Fail(ApiErrorView::Vault(e)),
        Ok(abs) => save_answer(root, w, b, abs, "edit: "@),
    }
}

/// How the request to make a file ends.
pub open spec fn create_answer(root: Seq<Part>, w: World, b: SaveView) -> StepView {
    match (w.resolve)(b.path) {
        Err(e) => StepView::Fail(ApiErrorView::Vault(e)),
        Ok(abs) => if (w.present)(abs) {
            StepView::Fail(ApiErrorView::Conflict("file already exists: "@ + b.path))
        } else {
            save_answer(root, w, b, abs, "create: "@)
        },
    }
}

/// How the request to remove a file ends.
pub open spec fn delete_answer(root: Seq<Part>, w: World, b: DeleteView) -> StepView {
    match (w.resolve)(b.path) {
        Err(e) => StepView::Fail(ApiErrorView::Vault(e)),
        Ok(abs) => if !(w.present)(abs) {
            StepView::Fail(ApiErrorView::NotFound(b.path))
        } else {
            match relative(root, abs) {
                None => no_relative(),
                Some(rel) => StepView::Commit(
                    ChangeView::Remove {
                        path: rel,
                        message: chosen_message(b.message, "delete: "@ + rel),
                    },
                ),
            }
        },
    }
}

/// How a file is moved from a path to another, with the directory made first.
pub open spec fn move_answer(
    root: Seq<Part>,
    w: World,
    b: RenameView,
    from: Seq<Part>,
    to: Seq<Part>,
) -> StepView {
    let made_dirs = match parent_of(to) {
        Some(dir) => (w.make_dirs)(dir),
        None => Ok(()),
    };
    if !(w.present)(from) {
        StepView::Fail(ApiErrorView::NotFound(b.from))
    } else if (w.present)(to) {
        StepView::Fail(ApiErrorView::Conflict("destination already exists: "@ + b.to))
    } else {
        match (made_dirs, relative(root, from), relative(root, to)) {
            (Err(reason), _, _) => StepView::Fail(
                ApiErrorView::Internal(
                    "mkdir "@ + text_of_bytes(path_bytes(parent_of(to)->0)) + ": "@ + reason,
                ),
            ),
            (Ok(_), Some(rel_from), Some(rel_to)) => StepView::Commit(
                ChangeView::Move {
                    from: rel_from,
                    to: rel_to,
                    message: chosen_message(
                        b.message,
                        "rename: "@ + rel_from + " -> "@ + rel_to,
                    ),
                },
            ),
            _ => no_relative(),
        }
    }
}

/// How the request to move a file ends, once the path that it is moved from is resolved.
pub open spec fn move_from_answer(
    root: Seq<Part>,
    w: World,
    b: RenameView,
    from: Seq<Part>,
) -> StepView {
    match (w.resolve)(b.to) {
        Err(e) => StepView::Fail(ApiErrorView::Vault(e)),
        Ok(to) => move_answer(root, w, b, from, to),
    }
}

/// How the request to move a file ends.
pub open spec fn rename_answer(root: Seq<Part>, w: World, b: RenameView) -> StepView {
    match (w.resolve)(b.from) {
        Err(e) => StepView::Fail(ApiErrorView::Vault(e)),
        Ok(from) => move_from_answer(root, w, b, from),
    }
}

/// The answer that a request ends with, by what it asks for.
pub open spec fn answer(root: Seq<Part>, w: World, start: ResolvingView) -> StepView {
    match start {
        ResolvingView::Get(path) => get_answer(w, path),
        ResolvingView::Put(b) => put_answer(root, w, b),
        ResolvingView::Create(b) => create_answer(root, w, b),
        ResolvingView::Delete(b) => delete_answer(root, w, b),
        ResolvingView::RenameFrom(b) => rename_answer(root, w, b),
        ResolvingView::RenameTo(b, from) => move_from_answer(root, w, b, from),
    }
}

/// Every request comes to an end after at most six steps, with the answer that the file system
/// calls for.
#[verifier::spinoff_prover]
#[verifier::rlimit(60)]
pub proof fn requests_end_with_their_answer(root: Seq<Part>, w: World, start: ResolvingView)
    ensures
        ({
            let steps = steps_from(root, StepView::Resolve(start), w, 6);
            &&& steps.len() > 0
            &&& is_last(steps.last())
            &&& steps.last() == answer(root, w, start)
        }),
{
    reveal_with_fuel(steps_from, 7);
}

/// Whether a step changes the vault: a directory, a file, or the history.
pub open spec fn changes(step: StepView) -> bool {
    step is MakeDirs || step is Write || step is Commit
}

/// A request that is refused because of what it asks for, and not for an internal reason, has
/// changed nothing; and so has the request for a file, however it ends.
#[verifier::spinoff_prover]
#[verifier::rlimit(60)]
pub proof fn refused_requests_change_nothing(root: Seq<Part>, w: World, start: ResolvingView)
    ensures
        ({
            let steps = steps_from(root, StepView::Resolve(start), w, 6);
            let refused = steps.last() matches StepView::Fail(e) && !(e is Internal);
            refused || start is Get ==> forall|i: int|
                0 <= i < steps.len() ==> !changes(#[trigger] steps[i])
        }),
{
    reveal_with_fuel(steps_from, 7);
}

/// A file is made, or moved to, only where nothing was before; and only what is there is moved or
/// removed.
#[verifier::spinoff_prover]
#[verifier::rlimit(60)]
pub proof fn nothing_is_overwritten(root: Seq<Part>, w: World, start: ResolvingView)
    ensures
        ({
            let steps = steps_from(root, StepView::Resolve(start), w, 6);
            let changed = exists|i: int| 0 <= i < steps.len() && changes(#[trigger] steps[i]);
            changed ==> match start {
                ResolvingView::Create(b) => (w.resolve)(b.path) matches Ok(abs) && !(w.present)(
                    abs,
                ),
                ResolvingView::Delete(b) => (w.resolve)(b.path) matches Ok(abs) && (w.present)(abs),
                ResolvingView::RenameFrom(b) => {
                    &&& (w.resolve)(b.from) matches Ok(from) && (w.present)(from)
                    &&& (w.resolve)(b.to) matches Ok(to) && !(w.present)(to)
                },
                ResolvingView::RenameTo(b, from) => {
                    &&& (w.present)(from)
                    &&& (w.resolve)(b.to) matches Ok(to) && !(w.present)(to)
                },
                _ => true,
            }
        }),
{
    reveal_with_fuel(steps_from, 7);
}

/// Whether a path may be worked on: it lies inside the vault and in no hidden top-level entry, by
/// its own names and as git reads it.
pub open spec fn is_open(root: Seq<Part>, path: Seq<Part>) -> bool {
    &&& root.is_prefix_of(path)
    &&& !in_hidden(root, path)
    &&& misread(root, path) is None
}

/// Whether a text is the relative path of a file that may be worked on.
pub open spec fn names_open(root: Seq<Part>, rel: Seq<char>) -> bool {
    exists|path: Seq<Part>| is_open(root, path) && #[trigger] relative(root, path) == Some(rel)
}

/// Whether a step works only on paths that may be worked on. A directory is made only as the parent
/// of such a path.
pub open spec fn stays_inside(root: Seq<Part>, step: StepView) -> bool {
    match step {
        StepView::Resolve(ResolvingView::RenameTo(_, from)) => is_open(root, from),
        StepView::Exists(FindingView::RenameFrom(_, from, to)) => is_open(root, from) && is_open(
            root,
            to,
        ),
        StepView::Exists(FindingView::RenameTo(_, from, to)) => is_open(root, from) && is_open(
            root,
            to,
        ),
        StepView::Exists(s) => is_open(root, sought_path(s)),
        StepView::IsFile(_, abs) => is_open(root, abs),
        StepView::Read(_, abs) => is_open(root, abs),
        StepView::MakeDirs(dir, s) => {
            &&& is_open(root, target_path(s))
            &&& parent_of(target_path(s)) == Some(dir)
            &&& !in_hidden(root, dir)
            &&& s matches TargetView::Rename(_, from, _) ==> is_open(root, from)
        },
        StepView::Write(s) => is_open(root, written_path(s)),
        StepView::Commit(ChangeView::Add { path, .. }) => names_open(root, path),
        StepView::Commit(ChangeView::Remove { path, .. }) => names_open(root, path),
        StepView::Commit(ChangeView::Move { from, to, .. }) => names_open(root, from)
            && names_open(root, to),
        _ => true,
    }
}

/// No step of a request leaves the vault or works on a hidden top-level entry of it, whatever the
/// file system is like: `canonical` gives the canonical forms that paths are resolved with.
pub proof fn requests_stay_inside(
    root: Seq<Part>,
    w: World,
    canonical: spec_fn(Seq<Part>) -> Option<Seq<Part>>,
    start: ResolvingView,
    n: nat,
)
    requires
        start matches ResolvingView::RenameTo(_, from) ==> is_open(root, from),
        forall|rel: Seq<char>| #[trigger]
            (w.resolve)(rel) == resolved(root, rel, w.present, canonical),
    ensures
        ({
            let steps = steps_from(root, StepView::Resolve(start), w, n);
            forall|i: int| 0 <= i < steps.len() ==> stays_inside(root, #[trigger] steps[i])
        }),
{
    assert forall|rel: Seq<char>| (#[trigger] (w.resolve)(rel)) matches Ok(path) implies is_open(
        root,
        (w.resolve)(rel)->Ok_0,
    ) by {
        resolved_paths_lie_inside(root, rel, w.present, canonical);
        hidden_directories_are_not_addressable(root, rel, w.present, canonical);
    }
    lemma_steps_stay_inside(root, w, StepView::Resolve(start), n);
}

#[verifier::spinoff_prover]
#[verifier::rlimit(60)]
proof fn lemma_steps_stay_inside(root: Seq<Part>, w: World, step: StepView, n: nat)
    requires
        stays_inside(root, step),
        forall|rel: Seq<char>|
            (#[trigger] (w.resolve)(rel)) matches Ok(path) ==> is_open(root, path),
    ensures
        ({
            let steps = steps_from(root, step, w, n);
            forall|i: int| 0 <= i < steps.len() ==> stays_inside(root, #[trigger] steps[i])
        }),
    decreases n,
{
    if n > 0 && !is_last(step) {
        let next = next_step(root, step, w);
        if let StepView::MakeDirs(dir, s) = next {
            let path = target_path(s);
            if root.is_prefix_of(dir) && dir.len() > root.len() {
                assert(dir[root.len() as int] == path[root.len() as int]);
            }
        }
        assert(stays_inside(root, next));
        lemma_steps_stay_inside(root, w, next, (n - 1) as nat);
        let steps = steps_from(root, step, w, n);
        let rest = steps_from(root, next, w, (n - 1) as nat);
        assert forall|i: int| 0 <= i < steps.len() implies stays_inside(
            root,
            #[trigger] steps[i],
        ) by {
            if i > 0 {
                assert(steps[i] == rest[i - 1]);
            }
        }
    }
}

/// A request whose path the vault refuses is a bad request, and nothing but the path is looked at.
pub proof fn refused_paths_are_bad_requests(
    root: Seq<Part>,
    w: World,
    start: ResolvingView,
    e: VaultErrorView,
)
    requires
        (w.resolve)(named_path(start)) == Err::<Seq<Part>, _>(e),
    ensures
        steps_from(root, StepView::Resolve(start), w, 6) == seq![
            StepView::Resolve(start),
            StepView::Fail(ApiErrorView::Vault(e)),
        ],
        status_code(ApiErrorView::Vault(e)) == 400,
{
    reveal_with_fuel(steps_from, 3);
}

/// What was written is read back: where a request to write or to make a file goes as far as the
/// commit, and the file system gives for the file that was written what was written to it, the
/// request for the file under the same path is answered with the content that was sent.
#[verifier::spinoff_prover]
#[verifier::rlimit(60)]
pub proof fn reading_gives_back_what_was_written(
    root: Seq<Part>,
    w: World,
    later: World,
    start: ResolvingView,
    b: SaveView,
)
    requires
        start == ResolvingView::Put(b) || start == ResolvingView::Create(b),
        answer(root, w, start) is Commit,
        (later.resolve)(b.path) == (w.resolve)(b.path),
        ({
            let steps = steps_from(root, StepView::Resolve(start), w, 6);
            forall|i: int|
                0 <= i < steps.len() ==> ((#[trigger] steps[i]) matches StepView::Write(s) ==> {
                    &&& (later.present)(written_path(s))
                    &&& (later.is_file)(written_path(s))
                    &&& (later.read)(written_path(s)) == Ok::<_, Seq<char>>(written_body(s).content)
                })
        }),
    ensures
        get_answer(later, b.path) == (StepView::Found { path: b.path, content: b.content }),
{
    reveal_with_fuel(steps_from, 7);
    let steps = steps_from(root, StepView::Resolve(start), w, 6);
    let abs = (w.resolve)(b.path)->Ok_0;
    assert(steps[steps.len() - 2] == StepView::Write(
        if start is Put {
            WritingView::Put(b, abs)
        } else {
            WritingView::Create(b, abs)
        },
    ));
}

/// The statuses and the texts of the errors.
pub proof fn errors_are_answered_as_follows(s: Seq<char>, g: GitErrorView, v: VaultErrorView)
    ensures
        status_code(ApiErrorView::NotFound(s)) == 404,
        status_code(ApiErrorView::BadRequest(s)) == 400,
        status_code(ApiErrorView::Vault(v)) == 400,
        status_code(ApiErrorView::Conflict(s)) == 409,
        status_code(ApiErrorView::Internal(s)) == 500,
        status_code(ApiErrorView::Git(g)) == 500,
        api_error_text(ApiErrorView::NotFound(s)) == "not found: "@ + s,
        api_error_text(ApiErrorView::BadRequest(s)) == "bad request: "@ + s,
        api_error_text(ApiErrorView::Conflict(s)) == "conflict: "@ + s,
        api_error_text(ApiErrorView::Internal(s)) == "internal: "@ + s,
        api_error_text(ApiErrorView::Git(g)) == "git error: "@ + git_error_text(g),
        api_error_text(ApiErrorView::Vault(v)) == "vault error: "@ + vault_error_text(v),
{
}

/// An error holds what it is made of.
pub proof fn errors_hold_their_parts(s: String, g: GitError, v: VaultError)
    ensures
        ApiError::NotFound(s)@ == ApiErrorView::NotFound(s@),
        ApiError::BadRequest(s)@ == ApiErrorView::BadRequest(s@),
        ApiError::Conflict(s)@ == ApiErrorView::Conflict(s@),
        ApiError::Internal(s)@ == ApiErrorView::Internal(s@),
        ApiError::Git(g)@ == ApiErrorView::Git(g@),
        ApiError::Vault(v)@ == ApiErrorView::Vault(v@),
{
}

/// A request holds what was sent, and so do optional texts and replies.
pub proof fn requests_hold_what_was_sent(
    query: PathQuery,
    put: PutFileBody,
    create: CreateFileBody,
    delete: DeleteFileBody,
    rename: RenameFileBody,
    s: String,
)
    ensures
        query@ == query.path@,
        put@.path == put.path@ && put@.content == put.content@,
        put.message matches Some(message) ==> put@.message == Some(message@),
        put.message is None ==> put@.message is None,
        create@.path == create.path@ && create@.content == create.content@,
        create.message matches Some(message) ==> create@.message == Some(message@),
        create.message is None ==> create@.message is None,
        delete@.path == delete.path@,
        delete.message matches Some(message) ==> delete@.message == Some(message@),
        delete.message is None ==> delete@.message is None,
        rename@.from == rename.from@ && rename@.to == rename.to@,
        rename.message matches Some(message) ==> rename@.message == Some(message@),
        rename.message is None ==> rename@.message is None,
        optional_text(Some(s)) == Some(s@),
        optional_text(None) is None,
        read_view(Ok(s)) == Ok::<_, Seq<char>>(s@),
        read_view(Err(s)) == Err::<Seq<char>, _>(s@),
        done_view(Ok(())) == Ok::<_, Seq<char>>(()),
        done_view(Err(s)) == Err::<(), _>(s@),
{
}

/// A change holds its paths and its message.
pub proof fn changes_hold_their_texts(a: String, b: String, message: String)
    ensures
        (Change::Add { path: a, message })@ == (ChangeView::Add { path: a@, message: message@ }),
        (Change::Remove { path: a, message })@ == (ChangeView::Remove {
            path: a@,
            message: message@,
        }),
        (Change::Move { from: a, to: b, message })@ == (ChangeView::Move {
            from: a@,
            to: b@,
            message: message@,
        }),
{
}

/// A step that asks for something holds the request and the paths that it is made of.
pub proof fn steps_hold_their_parts(
    query: PathQuery,
    put: PutFileBody,
    create: CreateFileBody,
    delete: DeleteFileBody,
    rename: RenameFileBody,
    a: FilePath,
    b: FilePath,
)
    ensures
        Step::Resolve(Resolving::Get(query))@ == StepView::Resolve(ResolvingView::Get(query@)),
        Step::Resolve(Resolving::Put(put))@ == StepView::Resolve(ResolvingView::Put(put@)),
        Step::Resolve(Resolving::Create(create))@ == StepView::Resolve(
            ResolvingView::Create(create@),
        ),
        Step::Resolve(Resolving::Delete(delete))@ == StepView::Resolve(
            ResolvingView::Delete(delete@),
        ),
        Step::Resolve(Resolving::RenameFrom(rename))@ == StepView::Resolve(
            ResolvingView::RenameFrom(rename@),
        ),
        Step::Resolve(Resolving::RenameTo(rename, a))@ == StepView::Resolve(
            ResolvingView::RenameTo(rename@, a@),
        ),
        Step::Exists(Finding::Get(query, a))@ == StepView::Exists(FindingView::Get(query@, a@)),
        Step::Exists(Finding::Create(create, a))@ == StepView::Exists(
            FindingView::Create(create@, a@),
        ),
        Step::Exists(Finding::Delete(delete, a))@ == StepView::Exists(
            FindingView::Delete(delete@, a@),
        ),
        Step::Exists(Finding::RenameFrom(rename, a, b))@ == StepView::Exists(
            FindingView::RenameFrom(rename@, a@, b@),
        ),
        Step::Exists(Finding::RenameTo(rename, a, b))@ == StepView::Exists(
            FindingView::RenameTo(rename@, a@, b@),
        ),
        Step::Write(Writing::Put(put, a))@ == StepView::Write(WritingView::Put(put@, a@)),
        Step::Write(Writing::Create(create, a))@ == StepView::Write(
            WritingView::Create(create@, a@),
        ),
{
}

/// The other steps hold what they are made of, too.
pub proof fn answers_hold_their_parts(
    opening: Opening,
    reading: Reading,
    preparing: Preparing,
    change: Change,
    file: FileContent,
    e: ApiError,
)
    ensures
        Step::IsFile(opening)@ == StepView::IsFile(opening.query@, opening.abs@),
        Step::Read(reading)@ == StepView::Read(reading.query@, reading.abs@),
        Step::MakeDirs(preparing)@ == StepView::MakeDirs(preparing.dir@, preparing.target@),
        preparing.target matches Target::Put(b, abs) ==> preparing.target@ == TargetView::Put(
            b@,
            abs@,
        ),
        preparing.target matches Target::Create(b, abs) ==> preparing.target@ == TargetView::Create(
            b@,
            abs@,
        ),
        preparing.target matches Target::Rename(b, from, to) ==> preparing.target@
            == TargetView::Rename(b@, from@, to@),
        Step::Commit(change)@ == StepView::Commit(change@),
        Step::Found(file)@ == (StepView::Found { path: file.path@, content: file.content@ }),
        Step::Fail(e)@ == StepView::Fail(e@),
{
}

/// What a step is about: the path that is resolved, looked for, or written, and what is written.
pub proof fn steps_are_about_these_paths(
    path: Seq<char>,
    save: SaveView,
    delete: DeleteView,
    rename: RenameView,
    a: Seq<Part>,
    b: Seq<Part>,
)
    ensures
        named_path(ResolvingView::Get(path)) == path,
        named_path(ResolvingView::Put(save)) == save.path,
        named_path(ResolvingView::Create(save)) == save.path,
        named_path(ResolvingView::Delete(delete)) == delete.path,
        named_path(ResolvingView::RenameFrom(rename)) == rename.from,
        named_path(ResolvingView::RenameTo(rename, a)) == rename.to,
        sought_path(FindingView::Get(path, a)) == a,
        sought_path(FindingView::Create(save, a)) == a,
        sought_path(FindingView::Delete(delete, a)) == a,
        sought_path(FindingView::RenameFrom(rename, a, b)) == a,
        sought_path(FindingView::RenameTo(rename, a, b)) == b,
        target_path(TargetView::Put(save, a)) == a,
        target_path(TargetView::Create(save, a)) == a,
        target_path(TargetView::Rename(rename, a, b)) == b,
        written_path(WritingView::Put(save, a)) == a,
        written_path(WritingView::Create(save, a)) == a,
        written_body(WritingView::Put(save, a)) == save,
        written_body(WritingView::Create(save, a)) == save,
{
}

/// A given message with a character that is not white space is used as it is; without one, and
/// without a message, the other text is used.
pub proof fn given_messages_are_used_whole(s: Seq<char>, otherwise: Seq<char>)
    ensures
        (exists|i: int| 0 <= i < s.len() && !is_white_space(#[trigger] s[i])) ==> chosen_message(
            Some(s),
            otherwise,
        ) == s,
        (forall|i: int| 0 <= i < s.len() ==> is_white_space(#[trigger] s[i])) ==> chosen_message(
            Some(s),
            otherwise,
        ) == otherwise,
        chosen_message(None, otherwise) == otherwise,
{
    trimming_empties_blank_texts(s);
    if exists|i: int| 0 <= i < s.len() && !is_white_space(#[trigger] s[i]) {
        assert(!is_blank(s));
    }
}

/// Where a request ends with a commit, the message of the change is the message that the request
/// gives, character by character, if it has a character that is not white space; otherwise the
/// message names what was done to which path.
#[verifier::spinoff_prover]
#[verifier::rlimit(60)]
pub proof fn changes_are_committed_under_the_given_message(
    root: Seq<Part>,
    w: World,
    start: ResolvingView,
    given: Option<Seq<char>>,
    change: ChangeView,
)
    requires
        steps_from(root, StepView::Resolve(start), w, 6).last() == StepView::Commit(change),
        given == (match start {
            ResolvingView::Get(_) => None,
            ResolvingView::Put(b) => b.message,
            ResolvingView::Create(b) => b.message,
            ResolvingView::Delete(b) => b.message,
            ResolvingView::RenameFrom(b) => b.message,
            ResolvingView::RenameTo(b, _) => b.message,
        }),
    ensures
        ({
            let message = match change {
                ChangeView::Add { message, .. } => message,
                ChangeView::Remove { message, .. } => message,
                ChangeView::Move { message, .. } => message,
            };
            let otherwise = match change {
                ChangeView::Add { path, .. } => if start is Put {
                    "edit: "@ + path
                } else {
                    "create: "@ + path
                },
                ChangeView::Remove { path, .. } => "delete: "@ + path,
                ChangeView::Move { from, to, .. } => "rename: "@ + from + " -> "@ + to,
            };
            let worded = given matches Some(s) && exists|i: int|
                0 <= i < s.len() && !is_white_space(#[trigger] s[i]);
            &&& worded ==> given == Some(message)
            &&& !worded ==> message == otherwise
        }),
        change is Add <==> start is Put || start is Create,
        change is Remove <==> start is Delete,
        change is Move <==> start is RenameFrom || start is RenameTo,
{
    reveal_with_fuel(steps_from, 7);
    if let Some(s) = given {
        trimming_empties_blank_texts(s);
        if exists|i: int| 0 <= i < s.len() && !is_white_space(#[trigger] s[i]) {
            assert(!is_blank(s));
        } else {
            assert(is_blank(s));
        }
    }
}

/// The request for a file looks whether it is there, whether it is a regular file, and reads it. It
/// is answered with the whole content under the path that was asked for.
#[verifier::spinoff_prover]
#[verifier::rlimit(60)]
pub proof fn get_requests_go_like_this(
    root: Seq<Part>,
    w: World,
    path: Seq<char>,
    abs: Seq<Part>,
)
    requires
        (w.resolve)(path) == Ok::<_, VaultErrorView>(abs),
    ensures
        ({
            let start = StepView::Resolve(ResolvingView::Get(path));
            let exists_step = StepView::Exists(FindingView::Get(path, abs));
            let steps = steps_from(root, start, w, 6);
            &&& !(w.present)(abs) ==> steps == seq![
                start,
                exists_step,
                StepView::Fail(ApiErrorView::NotFound(path)),
            ]
            &&& (w.present)(abs) && !(w.is_file)(abs) ==> steps == seq![
                start,
                exists_step,
                StepView::IsFile(path, abs),
                StepView::Fail(ApiErrorView::BadRequest("not a file: "@ + path)),
            ]
            &&& (w.present)(abs) && (w.is_file)(abs) ==> steps == seq![
                start,
                exists_step,
                StepView::IsFile(path, abs),
                StepView::Read(path, abs),
                match (w.read)(abs) {
                    Ok(content) => StepView::Found { path, content },
                    Err(reason) => StepView::Fail(
                        ApiErrorView::Internal("read "@ + path + ": "@ + reason),
                    ),
                },
            ]
        }),
{
    reveal_with_fuel(steps_from, 7);
}

/// The request to write a file makes its directory, writes the whole content that was sent, and
/// commits the file by its relative path.
#[verifier::spinoff_prover]
#[verifier::rlimit(60)]
pub proof fn put_requests_go_like_this(
    root: Seq<Part>,
    w: World,
    b: SaveView,
    dir: Seq<Part>,
    name: Part,
)
    requires
        !(name is RootDir),
        (w.resolve)(b.path) == Ok::<_, VaultErrorView>(dir.push(name)),
    ensures
        ({
            let abs = dir.push(name);
            let start = StepView::Resolve(ResolvingView::Put(b));
            let mkdir = StepView::MakeDirs(dir, TargetView::Put(b, abs));
            let write = StepView::Write(WritingView::Put(b, abs));
            let steps = steps_from(root, start, w, 6);
            match ((w.make_dirs)(dir), (w.write)(abs, b.content), relative(root, abs)) {
                (Err(reason), _, _) => steps == seq![
                    start,
                    mkdir,
                    StepView::Fail(
                        ApiErrorView::Internal(
                            "mkdir "@ + text_of_bytes(path_bytes(dir)) + ": "@ + reason,
                        ),
                    ),
                ],
                (Ok(_), Err(reason), _) => steps == seq![
                    start,
                    mkdir,
                    write,
                    StepView::Fail(ApiErrorView::Internal("write "@ + b.path + ": "@ + reason)),
                ],
                (Ok(_), Ok(_), None) => steps == seq![
                    start,
                    mkdir,
                    write,
                    StepView::Fail(ApiErrorView::Internal("could not derive relative path"@)),
                ],
                (Ok(_), Ok(_), Some(rel)) => steps == seq![
                    start,
                    mkdir,
                    write,
                    StepView::Commit(
                        ChangeView::Add {
                            path: rel,
                            message: chosen_message(b.message, "edit: "@ + rel),
                        },
                    ),
                ],
            }
        }),
{
    reveal_with_fuel(steps_from, 7);
    parents_are_all_but_the_last(dir, name);
}

/// The request to make a file is refused where the file is there already. Otherwise it makes its
/// directory, writes the whole content that was sent, and commits the file by its relative path.
#[verifier::spinoff_prover]
#[verifier::rlimit(60)]
pub proof fn create_requests_go_like_this(
    root: Seq<Part>,
    w: World,
    b: SaveView,
    dir: Seq<Part>,
    name: Part,
)
    requires
        !(name is RootDir),
        (w.resolve)(b.path) == Ok::<_, VaultErrorView>(dir.push(name)),
    ensures
        ({
            let abs = dir.push(name);
            let start = StepView::Resolve(ResolvingView::Create(b));
            let look = StepView::Exists(FindingView::Create(b, abs));
            let mkdir = StepView::MakeDirs(dir, TargetView::Create(b, abs));
            let write = StepView::Write(WritingView::Create(b, abs));
            let steps = steps_from(root, start, w, 6);
            &&& (w.present)(abs) ==> steps == seq![
                start,
                look,
                StepView::Fail(ApiErrorView::Conflict("file already exists: "@ + b.path)),
            ]
            &&& !(w.present)(abs) ==> match (
                (w.make_dirs)(dir),
                (w.write)(abs, b.content),
                relative(root, abs),
            ) {
                (Err(reason), _, _) => steps == seq![
                    start,
                    look,
                    mkdir,
                    StepView::Fail(
                        ApiErrorView::Internal(
                            "mkdir "@ + text_of_bytes(path_bytes(dir)) + ": "@ + reason,
                        ),
                    ),
                ],
                (Ok(_), Err(reason), _) => steps == seq![
                    start,
                    look,
                    mkdir,
                    write,
                    StepView::Fail(ApiErrorView::Internal("write "@ + b.path + ": "@ + reason)),
                ],
                (Ok(_), Ok(_), None) => steps == seq![
                    start,
                    look,
                    mkdir,
                    write,
                    StepView::Fail(ApiErrorView::Internal("could not derive relative path"@)),
                ],
                (Ok(_), Ok(_), Some(rel)) => steps == seq![
                    start,
                    look,
                    mkdir,
                    write,
                    StepView::Commit(
                        ChangeView::Add {
                            path: rel,
                            message: chosen_message(b.message, "create: "@ + rel),
                        },
                    ),
                ],
            }
        }),
{
    reveal_with_fuel(steps_from, 7);
    parents_are_all_but_the_last(dir, name);
}

/// The request to remove a file commits the removal by its relative path, where the file is there.
#[verifier::spinoff_prover]
#[verifier::rlimit(60)]
pub proof fn delete_requests_go_like_this(
    root: Seq<Part>,
    w: World,
    b: DeleteView,
    abs: Seq<Part>,
)
    requires
        (w.resolve)(b.path) == Ok::<_, VaultErrorView>(abs),
    ensures
        ({
            let start = StepView::Resolve(ResolvingView::Delete(b));
            let look = StepView::Exists(FindingView::Delete(b, abs));
            steps_from(root, start, w, 6) == seq![
                start,
                look,
                match (relative(root, abs), (w.present)(abs)) {
                    (_, false) => StepView::Fail(ApiErrorView::NotFound(b.path)),
                    (None, true) => StepView::Fail(
                        ApiErrorView::Internal("could not derive relative path"@),
                    ),
                    (Some(rel), true) => StepView::Commit(
                        ChangeView::Remove {
                            path: rel,
                            message: chosen_message(b.message, "delete: "@ + rel),
                        },
                    ),
                },
            ]
        }),
{
    reveal_with_fuel(steps_from, 7);
}

/// The request to move a file resolves both paths, is refused where the file is not there or
/// something is at its new place, makes the directory of the new place, and commits the move by the
/// two relative paths.
#[verifier::spinoff_prover]
#[verifier::rlimit(60)]
pub proof fn rename_requests_go_like_this(
    root: Seq<Part>,
    w: World,
    b: RenameView,
    from: Seq<Part>,
    dir: Seq<Part>,
    name: Part,
)
    requires
        !(name is RootDir),
        (w.resolve)(b.from) == Ok::<_, VaultErrorView>(from),
        (w.resolve)(b.to) == Ok::<_, VaultErrorView>(dir.push(name)),
    ensures
        ({
            let to = dir.push(name);
            let start = StepView::Resolve(ResolvingView::RenameFrom(b));
            let second = StepView::Resolve(ResolvingView::RenameTo(b, from));
            let look_from = StepView::Exists(FindingView::RenameFrom(b, from, to));
            let look_to = StepView::Exists(FindingView::RenameTo(b, from, to));
            let mkdir = StepView::MakeDirs(dir, TargetView::Rename(b, from, to));
            let steps = steps_from(root, start, w, 6);
            &&& !(w.present)(from) ==> steps == seq![
                start,
                second,
                look_from,
                StepView::Fail(ApiErrorView::NotFound(b.from)),
            ]
            &&& (w.present)(from) && (w.present)(to) ==> steps == seq![
                start,
                second,
                look_from,
                look_to,
                StepView::Fail(ApiErrorView::Conflict("destination already exists: "@ + b.to)),
            ]
            &&& (w.present)(from) && !(w.present)(to) ==> steps == seq![
                start,
                second,
                look_from,
                look_to,
                mkdir,
                match ((w.make_dirs)(dir), relative(root, from), relative(root, to)) {
                    (Err(reason), _, _) => StepView::Fail(
                        ApiErrorView::Internal(
                            "mkdir "@ + text_of_bytes(path_bytes(dir)) + ": "@ + reason,
                        ),
                    ),
                    (Ok(_), Some(rel_from), Some(rel_to)) => StepView::Commit(
                        ChangeView::Move {
                            from: rel_from,
                            to: rel_to,
                            message: chosen_message(
                                b.message,
                                "rename: "@ + rel_from + " -> "@ + rel_to,
                            ),
                        },
                    ),
                    _ => StepView::Fail(
                        ApiErrorView::Internal("could not derive relative path"@),
                    ),
                },
            ]
        }),
{
    reveal_with_fuel(steps_from, 7);
    parents_are_all_but_the_last(dir, name);
}

/// Where the vault refuses one of the paths of a request, the request fails with the refusal, and
/// nothing is looked at behind it.
#[verifier::spinoff_prover]
#[verifier::rlimit(60)]
pub proof fn refusals_of_the_vault_end_requests(
    root: Seq<Part>,
    w: World,
    start: ResolvingView,
    b: RenameView,
    from: Seq<Part>,
    e: VaultErrorView,
)
    ensures
        (w.resolve)(named_path(start)) == Err::<Seq<Part>, _>(e) ==> steps_from(
            root,
            StepView::Resolve(start),
            w,
            6,
        ) == seq![StepView::Resolve(start), StepView::Fail(ApiErrorView::Vault(e))],
        (w.resolve)(b.from) == Ok::<_, VaultErrorView>(from) && (w.resolve)(b.to) == Err::<
            Seq<Part>,
            _,
        >(e) ==> steps_from(root, StepView::Resolve(ResolvingView::RenameFrom(b)), w, 6) == seq![
            StepView::Resolve(ResolvingView::RenameFrom(b)),
            StepView::Resolve(ResolvingView::RenameTo(b, from)),
            StepView::Fail(ApiErrorView::Vault(e)),
        ],
{
    reveal_with_fuel(steps_from, 7);
}

/// A file without a parent is written, or moved to, without a directory being made.
pub proof fn files_without_a_parent_need_no_directory(
    root: Seq<Part>,
    save: SaveView,
    rename: RenameView,
    from: Seq<Part>,
    abs: Seq<Part>,
)
    requires
        abs.len() == 0 || abs.last() is RootDir,
    ensures
        after_resolving(root, ResolvingView::Put(save), Ok(abs)) == StepView::Write(
            WritingView::Put(save, abs),
        ),
        after_finding(root, FindingView::Create(save, abs), false) == StepView::Write(
            WritingView::Create(save, abs),
        ),
        after_finding(root, FindingView::RenameTo(rename, from, abs), false) == after_preparing(
            root,
            abs,
            TargetView::Rename(rename, from, abs),
            Ok(()),
        ),
{
    if abs.len() == 0 {
        assert(abs =~= Seq::empty());
        parents_are_all_but_the_last(abs, Part::CurDir);
    } else {
        assert(abs.drop_last().push(Part::RootDir) =~= abs);
        parents_are_all_but_the_last(abs.drop_last(), Part::RootDir);
    }
}

}
