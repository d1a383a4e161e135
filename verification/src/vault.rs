//! The vault: which paths a request may name, and where they lie on disk.

use vstd::prelude::*;
use vstd::utf8::encode_utf8;

use crate::path::{
    is_file_name, is_kept, is_sound, lemma_first_piece, optional_path, parent_of,
    parents_are_all_but_the_last, parsed, parsed_paths_are_sound, part_bytes, part_of, path_bytes,
    paths_are_written_with_slashes, pieces_become_components, same_bytes, Component, FilePath, Part,
};
use crate::text::{
    concat, encoded_texts_are_read_back, forward_slashes, from_utf8_lossy, is_white_space, join,
    lemma_decode_contains, lemma_encode_join, lemma_encode_without_backslash, lemma_filter_all,
    lemma_split_len, lemma_text_is_empty, only_the_slashes_in_front_are_left_out, split,
    strip_leading_slashes, text_of_bytes, trimmed, trimming_takes_white_space_at_the_ends,
    white_space_is_listed, with_forward_slashes, without_leading_slashes,
};

verus! {

/// Why a path that a request names is refused.
#[derive(Debug)]
pub enum VaultError {
    /// The path is empty.
    Empty,
    /// The path has a component that is not a plain name.
    Escape,
    /// The path, which is given, leads out of the vault.
    Outside(String),
    /// The path leads into a hidden directory, whose name is given.
    Hidden(String),
}

/// What a `VaultError` holds.
pub enum VaultErrorView {
    Empty,
    Escape,
    Outside(Seq<char>),
    Hidden(Seq<char>),
}

impl View for VaultError {
    type V = VaultErrorView;

    open spec fn view(&self) -> VaultErrorView {
        match self {
            VaultError::Empty => VaultErrorView::Empty,
            VaultError::Escape => VaultErrorView::Escape,
            VaultError::Outside(rel) => VaultErrorView::Outside(rel@),
            VaultError::Hidden(top) => VaultErrorView::Hidden(top@),
        }
    }
}

/// What a resolved path or the refusal of one holds.
pub open spec fn path_result(r: Result<FilePath, VaultError>) -> Result<
    Seq<Part>,
    VaultErrorView,
> {
    match r {
        Ok(path) => Ok(path@),
        Err(e) => Err(e@),
    }
}

/// The error as text.
pub open spec fn vault_error_text(e: VaultErrorView) -> Seq<char> {
    match e {
        VaultErrorView::Empty => "path is empty"@,
        VaultErrorView::Escape => "path escapes the vault root"@,
        VaultErrorView::Outside(rel) => "path is outside the vault: "@ + rel,
        VaultErrorView::Hidden(top) => "path refers to a hidden/internal directory: "@ + top,
    }
}

impl VaultError {
    /// The error as text.
    pub fn message(&self) -> (r: String)
        ensures
            r@ == vault_error_text(self@),
    {
        match self {
            VaultError::Empty => "path is empty".to_owned(),
            VaultError::Escape => "path escapes the vault root".to_owned(),
            VaultError::Outside(rel) => concat("path is outside the vault: ", rel.as_str()),
            VaultError::Hidden(top) => concat(
                "path refers to a hidden/internal directory: ",
                top.as_str(),
            ),
        }
    }
}

/// The hidden entry that has the given name, if any. Hidden are the top-level entries of a vault
/// that never appear in the file tree and cannot be addressed.
pub open spec fn hidden_entry(name: Seq<u8>) -> Option<Seq<char>> {
    if name == encode_utf8(".git"@) {
        Some(".git"@)
    } else if name == encode_utf8(".obsidian"@) {
        Some(".obsidian"@)
    } else if name == encode_utf8(".trash"@) {
        Some(".trash"@)
    } else {
        None
    }
}

/// The hidden top-level entry of the vault that a path is or lies in, if any.
pub open spec fn hidden_top(root: Seq<Part>, path: Seq<Part>) -> Option<Seq<char>> {
    if root.is_prefix_of(path) && path.len() > root.len() && path[root.len() as int] is Normal {
        hidden_entry(path[root.len() as int]->Normal_0)
    } else {
        None
    }
}

/// Whether a path is a hidden top-level entry of the vault or lies in one.
pub open spec fn in_hidden(root: Seq<Part>, path: Seq<Part>) -> bool {
    hidden_top(root, path) is Some
}

/// The hidden top-level entry that has the given name, if any.
pub fn hidden_name(name: &[u8]) -> (r: Option<&'static str>)
    ensures
        match r {
            Some(entry) => hidden_entry(name@) == Some(entry@),
            None => hidden_entry(name@) is None,
        },
{
    if same_bytes(name, ".git".as_bytes()) {
        Some(".git")
    } else if same_bytes(name, ".obsidian".as_bytes()) {
        Some(".obsidian")
    } else if same_bytes(name, ".trash".as_bytes()) {
        Some(".trash")
    } else {
        None
    }
}

/// Whether a byte occurs in a slice.
fn contains_byte(bytes: &[u8], wanted: u8) -> (r: bool)
    ensures
        r == bytes@.contains(wanted),
{
    for i in 0..bytes.len()
        invariant
            forall|j: int| 0 <= j < i ==> bytes@[j] != wanted,
    {
        if bytes[i] == wanted {
            assert(bytes@[i as int] == wanted);
            return true;
        }
    }
    false
}

/// Whether a path consists of plain names.
pub open spec fn all_normal(path: Seq<Part>) -> bool {
    forall|i: int| 0 <= i < path.len() ==> (#[trigger] path[i]) is Normal
}

/// Why a path below the root is refused, if it is: it has to consist of plain names, and not to
/// start in a hidden directory.
pub open spec fn objection(path: Seq<Part>) -> Option<VaultErrorView> {
    if !all_normal(path) {
        Some(VaultErrorView::Escape)
    } else if path.len() == 0 {
        None
    } else {
        match hidden_entry(path[0]->Normal_0) {
            Some(entry) => Some(VaultErrorView::Hidden(entry)),
            None => None,
        }
    }
}

/// Why a path below the root is refused, if it is.
fn object_to(path: &FilePath) -> (r: Option<VaultError>)
    ensures
        match r {
            Some(e) => objection(path@) == Some(e@),
            None => objection(path@) is None,
        },
{
    for i in 0..path.components.len()
        invariant
            forall|j: int| 0 <= j < i ==> (#[trigger] path@[j]) is Normal,
    {
        assert(path@[i as int] == path.components@[i as int]@);
        match &path.components[i] {
            Component::Normal(_) => {},
            _ => {
                assert(!(path@[i as int] is Normal));
                return Some(VaultError::Escape);
            },
        }
    }
    if path.components.len() > 0 {
        assert(path@[0] == path.components@[0]@);
        if let Component::Normal(name) = &path.components[0] {
            if let Some(entry) = hidden_name(name.as_slice()) {
                return Some(VaultError::Hidden(entry.to_owned()));
            }
        }
    }
    None
}

/// The part of a requested path that counts: the slashes in front are left out, and then the
/// white space around the rest.
pub open spec fn requested(rel: Seq<char>) -> Seq<char> {
    trimmed(without_leading_slashes(rel))
}

/// The components that a request names below the root, or why the request is refused: the path
/// has to be non-empty, to consist of plain names, and not to start in a hidden directory.
pub open spec fn checked(rel: Seq<char>) -> Result<Seq<Part>, VaultErrorView> {
    let path = parsed(requested(rel));
    if requested(rel).len() == 0 {
        Err(VaultErrorView::Empty)
    } else {
        match objection(path) {
            Some(e) => Err(e),
            None => Ok(path),
        }
    }
}

/// A path on its way to being resolved.
#[derive(Debug)]
pub struct Pending {
    rel: String,
    path: FilePath,
    /// The names behind `path`, the last one first.
    tail: Vec<Vec<u8>>,
}

/// What a `Pending` holds: the request, the ancestor that is looked at, and the names behind it.
pub struct PendingView {
    pub rel: Seq<char>,
    pub path: Seq<Part>,
    pub tail: Seq<Part>,
}

impl View for Pending {
    type V = PendingView;

    closed spec fn view(&self) -> PendingView {
        PendingView { rel: self.rel@, path: self.path@, tail: tail_parts(self.tail@) }
    }
}

/// Names that are held last one first, as components in order.
spec fn tail_parts(tail: Seq<Vec<u8>>) -> Seq<Part> {
    Seq::new(tail.len(), |i: int| Part::Normal(tail[tail.len() - 1 - i]@))
}

/// The next question about a path that is being resolved.
#[derive(Debug)]
pub enum Question {
    /// Does the path exist?
    Exists(Probe),
    /// What is the canonical form of the path?
    Canonical(Landing),
}

/// The question whether a path exists.
#[derive(Debug)]
pub struct Probe {
    pending: Pending,
}

/// The question for the canonical form of a path.
#[derive(Debug)]
pub struct Landing {
    pending: Pending,
}

/// What a `Question` holds.
pub enum QuestionView {
    Exists(PendingView),
    Canonical(PendingView),
}

impl View for Probe {
    type V = PendingView;

    closed spec fn view(&self) -> PendingView {
        self.pending@
    }
}

impl View for Landing {
    type V = PendingView;

    closed spec fn view(&self) -> PendingView {
        self.pending@
    }
}

impl View for Question {
    type V = QuestionView;

    open spec fn view(&self) -> QuestionView {
        match self {
            Question::Exists(probe) => QuestionView::Exists(probe@),
            Question::Canonical(landing) => QuestionView::Canonical(landing@),
        }
    }
}

/// What is asked next, once it is known whether the path exists: the canonical form of a path that
/// does, and of one that has no parent; otherwise whether the parent exists.
pub open spec fn answered(p: PendingView, exists: bool) -> QuestionView {
    match parent_of(p.path) {
        Some(parent) if !exists => QuestionView::Exists(
            PendingView {
                rel: p.rel,
                path: parent,
                tail: if p.path.last() is Normal {
                    seq![p.path.last()] + p.tail
                } else {
                    p.tail
                },
            },
        ),
        _ => QuestionView::Canonical(p),
    }
}

/// Whether a path has a name with a backslash in it below the root.
pub open spec fn has_backslash(root: Seq<Part>, path: Seq<Part>) -> bool {
    exists|i: int|
        root.len() <= i < path.len() && (#[trigger] path[i]) is Normal
            && path[i]->Normal_0.contains(92u8)
}

/// Where components lead that are taken one after the other from a directory on: a `.` leads
/// nowhere, a `..` to the parent, and a slash in front to the root directory.
pub open spec fn folded(base: Seq<Part>, parts: Seq<Part>) -> Seq<Part>
    decreases parts.len(),
{
    if parts.len() == 0 {
        base
    } else {
        let before = folded(base, parts.drop_last());
        match parts.last() {
            Part::RootDir => seq![Part::RootDir],
            Part::CurDir => before,
            Part::ParentDir => match parent_of(before) {
                Some(parent) => parent,
                None => before,
            },
            Part::Normal(name) => before.push(parts.last()),
        }
    }
}

/// Why git must not get a path inside the vault as a relative path, if so. A backslash becomes a
/// slash there, so that a name with backslashes reads as several names, and those must not lead to
/// a hidden top-level entry.
pub open spec fn misread(root: Seq<Part>, path: Seq<Part>) -> Option<VaultErrorView> {
    if has_backslash(root, path) {
        match hidden_top(root, folded(root, parsed(relative(root, path)->0))) {
            Some(entry) => Some(VaultErrorView::Hidden(entry)),
            None => None,
        }
    } else {
        None
    }
}

/// What a request is answered that leads to `path`: the path has to lie inside the vault and in no
/// hidden top-level entry of it, by its own names and as git reads it.
pub open spec fn accepted(root: Seq<Part>, rel: Seq<char>, path: Seq<Part>) -> Result<
    Seq<Part>,
    VaultErrorView,
> {
    if !root.is_prefix_of(path) {
        Err(VaultErrorView::Outside(rel))
    } else {
        match (hidden_top(root, path), misread(root, path)) {
            (Some(entry), _) => Err(VaultErrorView::Hidden(entry)),
            (None, Some(e)) => Err(e),
            (None, None) => Ok(path),
        }
    }
}

/// The resolved path, once the canonical form is known: that form with the names behind it, if it
/// is accepted.
pub open spec fn landed(
    root: Seq<Part>,
    p: PendingView,
    canonical: Option<Seq<Part>>,
) -> Result<Seq<Part>, VaultErrorView> {
    match canonical {
        Some(base) => accepted(root, p.rel, base + p.tail),
        None => Err(VaultErrorView::Outside(p.rel)),
    }
}

impl Probe {
    /// The path in question.
    pub fn path(&self) -> (r: &FilePath)
        ensures
            r@ == self@.path,
    {
        &self.pending.path
    }

    /// Takes the answer, and gives the next question.
    pub fn answer(self, exists: bool) -> (r: Question)
        ensures
            r@ == answered(self@, exists),
    {
        let Probe { pending } = self;
        if exists {
            return Question::Canonical(Landing { pending });
        }
        let Pending { rel, path, mut tail } = pending;
        match path.parent() {
            None => Question::Canonical(Landing { pending: Pending { rel, path, tail } }),
            Some(parent) => {
                let n = path.components.len();
                assert(path@.last() == path.components@[n - 1]@);
                match &path.components[n - 1] {
                    Component::Normal(name) => {
                        let copy = name.clone();
                        assert(copy@ =~= name@);
                        let ghost before = tail@;
                        tail.push(copy);
                        assert(tail_parts(tail@) =~= seq![Part::Normal(name@)] + tail_parts(
                            before,
                        ));
                    },
                    _ => {},
                }
                Question::Exists(Probe { pending: Pending { rel, path: parent, tail } })
            },
        }
    }
}

impl Landing {
    /// The path in question.
    pub fn path(&self) -> (r: &FilePath)
        ensures
            r@ == self@.path,
    {
        &self.pending.path
    }
}

/// The vault, by the path of its root directory.
#[derive(Debug)]
pub struct Vault {
    root: FilePath,
}

impl View for Vault {
    type V = Seq<Part>;

    closed spec fn view(&self) -> Seq<Part> {
        self.root@
    }
}

impl Vault {
    /// The vault with the given root directory.
    pub fn new(root: FilePath) -> (r: Vault)
        ensures
            r@ == root@,
    {
        Vault { root }
    }

    /// The root directory.
    pub fn root(&self) -> (r: &FilePath)
        ensures
            r@ == self@,
    {
        &self.root
    }

    /// Starts to resolve a path that a request names relative to the root. Slashes in front of the
    /// path are left out, and then white space around it. What remains has to be a path that
    ///  - is non-empty
    ///  - uses only plain names (no `..`, no slash in front, no current-dir)
    ///  - does not start in a hidden top-level directory (e.g. `.git/...`)
    ///
    /// The question that comes back is to be answered; where the answers lead to a path, the path
    /// lies inside the root and in no hidden top-level directory.
    pub fn resolve(&self, rel: &str) -> (r: Result<Probe, VaultError>)
        ensures
            match r {
                Ok(probe) => checked(rel@) is Ok && probe@ == (PendingView {
                    rel: rel@,
                    path: self@ + checked(rel@)->Ok_0,
                    tail: Seq::empty(),
                }),
                Err(e) => checked(rel@) == Err::<Seq<Part>, _>(e@),
            },
    {
        let stripped = strip_leading_slashes(rel);
        let text = stripped.as_str().trim();
        if text.is_empty() {
            return Err(VaultError::Empty);
        }
        let below = FilePath::parse(text);
        if let Some(e) = object_to(&below) {
            return Err(e);
        }
        let path = self.root.extended_by(&below);
        let tail: Vec<Vec<u8>> = Vec::new();
        assert(tail_parts(tail@) =~= Seq::empty());
        Ok(Probe { pending: Pending { rel: rel.to_owned(), path, tail } })
    }

    /// Takes the canonical form of the path in question, or `None` where there is none, and gives
    /// the resolved path, which lies inside the vault and in no hidden top-level directory of it.
    pub fn land(&self, landing: Landing, canonical: Option<FilePath>) -> (r: Result<
        FilePath,
        VaultError,
    >)
        ensures
            path_result(r) == landed(self@, landing@, optional_path(canonical)),
    {
        let Landing { pending } = landing;
        let Pending { rel, path: _, tail } = pending;
        match canonical {
            None => Err(VaultError::Outside(rel)),
            Some(base) => {
                let mut resolved = base.clone();
                let ghost parts = tail_parts(tail@);
                let n = tail.len();
                for i in 0..n
                    invariant
                        n == tail@.len(),
                        parts == tail_parts(tail@),
                        resolved@ =~= base@ + parts.take(i as int),
                {
                    let copy = tail[n - 1 - i].clone();
                    assert(copy@ =~= tail@[n - 1 - i]@);
                    assert(parts[i as int] == Part::Normal(copy@));
                    let ghost before = resolved@;
                    resolved.components.push(Component::Normal(copy));
                    assert(resolved@ =~= before.push(Part::Normal(copy@)));
                }
                assert(parts.take(n as int) =~= parts);
                self.accept(rel, resolved)
            },
        }
    }

    /// Takes the path that a request leads to, and refuses it unless it may be addressed.
    fn accept(&self, rel: String, path: FilePath) -> (r: Result<FilePath, VaultError>)
        ensures
            path_result(r) == accepted(self@, rel@, path@),
    {
        let text = match self.relative_str(&path) {
            Some(text) => text,
            None => {
                return Err(VaultError::Outside(rel));
            },
        };
        if let Some(entry) = self.hidden_part(&path) {
            return Err(VaultError::Hidden(entry.to_owned()));
        }
        if self.backslash_below(&path) {
            let read = self.fold(&FilePath::parse(text.as_str()));
            if let Some(entry) = self.hidden_part(&read) {
                return Err(VaultError::Hidden(entry.to_owned()));
            }
        }
        Ok(path)
    }

    /// Where the components of a path lead from the root of the vault on.
    fn fold(&self, below: &FilePath) -> (r: FilePath)
        ensures
            r@ == folded(self@, below@),
    {
        let mut r = self.root.clone();
        assert(below@.take(0) =~= Seq::empty());
        for i in 0..below.components.len()
            invariant
                r@ == folded(self@, below@.take(i as int)),
        {
            assert(below@.take(i + 1).drop_last() =~= below@.take(i as int));
            assert(below@[i as int] == below.components@[i as int]@);
            let ghost before = r@;
            match &below.components[i] {
                Component::RootDir => {
                    r = FilePath { components: vec![Component::RootDir] };
                    assert(r@ =~= seq![Part::RootDir]);
                },
                Component::CurDir => {},
                Component::ParentDir => {
                    if let Some(parent) = r.parent() {
                        r = parent;
                    }
                },
                Component::Normal(_) => {
                    r.components.push(below.components[i].clone());
                    assert(r@ =~= before.push(below@[i as int]));
                },
            }
        }
        assert(below@.take(below@.len() as int) =~= below@);
        r
    }

    /// Whether a path has a name with a backslash in it below the root.
    fn backslash_below(&self, path: &FilePath) -> (r: bool)
        ensures
            r == has_backslash(self@, path@),
    {
        let n = self.root.components.len();
        if path.components.len() <= n {
            return false;
        }
        for i in n..path.components.len()
            invariant
                n == self@.len() <= i,
                forall|j: int|
                    self@.len() <= j < i ==> !((#[trigger] path@[j]) is Normal
                        && path@[j]->Normal_0.contains(92u8)),
        {
            assert(path@[i as int] == path.components@[i as int]@);
            if let Component::Normal(name) = &path.components[i] {
                if contains_byte(name.as_slice(), 92u8) {
                    return true;
                }
            }
        }
        false
    }

    /// The hidden top-level entry of the vault that a path is or lies in, if any.
    fn hidden_part(&self, path: &FilePath) -> (r: Option<&'static str>)
        ensures
            match r {
                Some(entry) => hidden_top(self@, path@) == Some(entry@),
                None => hidden_top(self@, path@) is None,
            },
    {
        let n = self.root.components.len();
        if path.components.len() <= n || !path.starts_with(&self.root) {
            return None;
        }
        assert(path@[n as int] == path.components@[n as int]@);
        match &path.components[n] {
            Component::Normal(name) => hidden_name(name.as_slice()),
            _ => None,
        }
    }

    /// Whether a path is a hidden top-level entry of the vault or lies in one.
    pub fn hides(&self, path: &FilePath) -> (r: bool)
        ensures
            r == in_hidden(self@, path@),
    {
        self.hidden_part(path).is_some()
    }

    /// A path inside the vault as a relative path with forward slashes; `None` for a path outside.
    pub fn relative_str(&self, abs: &FilePath) -> (r: Option<String>)
        ensures
            match r {
                Some(text) => relative(self@, abs@) == Some(text@),
                None => relative(self@, abs@) is None,
            },
    {
        match abs.strip_prefix(&self.root) {
            Some(rest) => {
                let text = from_utf8_lossy(rest.to_bytes().as_slice());
                Some(with_forward_slashes(text.as_str()))
            },
            None => None,
        }
    }
}

/// What lies behind the root in a path, as text with forward slashes.
pub open spec fn relative(root: Seq<Part>, abs: Seq<Part>) -> Option<Seq<char>> {
    if root.is_prefix_of(abs) {
        Some(forward_slashes(text_of_bytes(path_bytes(abs.skip(root.len() as int)))))
    } else {
        None
    }
}

/// How many components the deepest ancestor of `path` has that exists; where none exists, those of
/// the ancestor that has no parent.
pub open spec fn existing_depth(path: Seq<Part>, present: spec_fn(Seq<Part>) -> bool) -> nat
    decreases path.len(),
{
    if present(path) || parent_of(path) is None {
        path.len()
    } else {
        existing_depth(path.drop_last(), present)
    }
}

/// The path that a request resolves to, where `present` and `canonical` describe the file system:
/// the canonical form of the deepest ancestor that exists, with the remaining names behind it. That
/// path has to be accepted.
pub open spec fn resolved(
    root: Seq<Part>,
    rel: Seq<char>,
    present: spec_fn(Seq<Part>) -> bool,
    canonical: spec_fn(Seq<Part>) -> Option<Seq<Part>>,
) -> Result<Seq<Part>, VaultErrorView> {
    match checked(rel) {
        Err(e) => Err(e),
        Ok(below) => {
            let whole = root + below;
            let n = existing_depth(whole, present) as int;
            let rest = whole.skip(n).filter(|p: Part| p is Normal);
            match canonical(whole.take(n)) {
                Some(base) => accepted(root, rel, base + rest),
                None => Err(VaultErrorView::Outside(rel)),
            }
        },
    }
}

/// The outcome of a path that is being resolved, where the questions are answered by `present` and
/// `canonical`.
pub open spec fn settled(
    root: Seq<Part>,
    p: PendingView,
    present: spec_fn(Seq<Part>) -> bool,
    canonical: spec_fn(Seq<Part>) -> Option<Seq<Part>>,
) -> Result<Seq<Part>, VaultErrorView>
    decreases p.path.len(),
{
    match answered(p, present(p.path)) {
        QuestionView::Exists(next) => if next.path.len() < p.path.len() {
            settled(root, next, present, canonical)
        } else {
            arbitrary()
        },
        QuestionView::Canonical(last) => landed(root, last, canonical(last.path)),
    }
}

/// Answering the questions about a request leads to the path that the request resolves to.
pub proof fn answers_resolve_the_path(
    root: Seq<Part>,
    rel: Seq<char>,
    present: spec_fn(Seq<Part>) -> bool,
    canonical: spec_fn(Seq<Part>) -> Option<Seq<Part>>,
)
    requires
        checked(rel) is Ok,
    ensures
        settled(
            root,
            PendingView { rel, path: root + checked(rel)->Ok_0, tail: Seq::empty() },
            present,
            canonical,
        ) == resolved(root, rel, present, canonical),
{
    let whole = root + checked(rel)->Ok_0;
    let p = PendingView { rel, path: whole, tail: Seq::empty() };
    reveal(Seq::filter);
    assert(whole.take(whole.len() as int) =~= whole);
    assert(whole.skip(whole.len() as int).filter(|p: Part| p is Normal) =~= Seq::empty());
    lemma_settled(root, whole, p, present, canonical);
}

proof fn lemma_settled(
    root: Seq<Part>,
    whole: Seq<Part>,
    p: PendingView,
    present: spec_fn(Seq<Part>) -> bool,
    canonical: spec_fn(Seq<Part>) -> Option<Seq<Part>>,
)
    requires
        p.path.len() <= whole.len(),
        p.path == whole.take(p.path.len() as int),
        p.tail == whole.skip(p.path.len() as int).filter(|q: Part| q is Normal),
    ensures
        ({
            let n = existing_depth(p.path, present) as int;
            let rest = whole.skip(n).filter(|q: Part| q is Normal);
            settled(root, p, present, canonical) == landed(
                root,
                PendingView { rel: p.rel, path: whole.take(n), tail: rest },
                canonical(whole.take(n)),
            )
        }),
    decreases p.path.len(),
{
    let normal = |q: Part| q is Normal;
    if !present(p.path) && parent_of(p.path) is Some {
        let k = p.path.len() as int;
        let next = answered(p, false)->Exists_0;
        let last = p.path.last();
        assert(p.path.drop_last() =~= whole.take(k - 1));
        assert(whole.skip(k - 1) =~= seq![last] + whole.skip(k));
        whole.skip(k).lemma_filter_prepend(last, normal);
        assert(next.tail =~= whole.skip(k - 1).filter(normal));
        lemma_settled(root, whole, next, present, canonical);
    }
}

/// A resolved path lies inside the vault, whatever the file system is like.
pub proof fn resolved_paths_lie_inside(
    root: Seq<Part>,
    rel: Seq<char>,
    present: spec_fn(Seq<Part>) -> bool,
    canonical: spec_fn(Seq<Part>) -> Option<Seq<Part>>,
)
    ensures
        resolved(root, rel, present, canonical) matches Ok(path) ==> root.is_prefix_of(path),
{
}

/// A resolved path is made of components that can make up a path, where the root and the canonical
/// forms are.
pub proof fn resolved_paths_are_sound(
    root: Seq<Part>,
    rel: Seq<char>,
    present: spec_fn(Seq<Part>) -> bool,
    canonical: spec_fn(Seq<Part>) -> Option<Seq<Part>>,
)
    requires
        is_sound(root),
        forall|path: Seq<Part>|
            (#[trigger] canonical(path)) matches Some(base) ==> is_sound(base),
    ensures
        resolved(root, rel, present, canonical) matches Ok(path) ==> is_sound(path),
{
    if let Ok(below) = checked(rel) {
        let whole = root + below;
        let n = existing_depth(whole, present) as int;
        let normal = |p: Part| p is Normal;
        let rest = whole.skip(n).filter(normal);
        parsed_paths_are_sound(requested(rel));
        lemma_depth_fits(whole, present);
        assert forall|i: int| 0 <= i < rest.len() implies (#[trigger] rest[i]) is Normal
            && is_file_name(rest[i]->Normal_0) by {
            whole.skip(n).lemma_filter_pred(normal, i);
            whole.skip(n).lemma_filter_contains_rev(normal, rest[i]);
            let k = choose|k: int| 0 <= k < whole.skip(n).len() && whole.skip(n)[k] == rest[i];
            if n + k < root.len() {
                assert(whole.skip(n)[k] == root[n + k]);
            } else {
                assert(whole.skip(n)[k] == below[n + k - root.len()]);
            }
        }
        if let Some(base) = canonical(whole.take(n)) {
            assert forall|i: int| 0 <= i < (base + rest).len() implies match #[trigger] (base
                + rest)[i] {
                Part::RootDir => i == 0,
                Part::CurDir => i == 0,
                Part::ParentDir => true,
                Part::Normal(name) => is_file_name(name),
            } by {
                if i < base.len() {
                    assert((base + rest)[i] == base[i]);
                } else {
                    assert((base + rest)[i] == rest[i - base.len()]);
                }
            }
        }
    }
}

proof fn lemma_depth_fits(path: Seq<Part>, present: spec_fn(Seq<Part>) -> bool)
    ensures
        existing_depth(path, present) <= path.len(),
    decreases path.len(),
{
    if !present(path) && parent_of(path) is Some {
        lemma_depth_fits(path.drop_last(), present);
    }
}

/// The relative path is empty just for the root.
pub proof fn only_the_root_has_no_name(root: Seq<Part>, abs: Seq<Part>)
    requires
        is_sound(abs),
        root.is_prefix_of(abs),
    ensures
        relative(root, abs) matches Some(text) && (text.len() == 0 <==> abs == root),
{
    let rest = abs.skip(root.len() as int);
    let parts = rest.map_values(|p: Part| part_bytes(p));
    lemma_text_is_empty(path_bytes(rest));
    if rest.len() == 0 {
        assert(rest =~= Seq::empty());
        assert(abs =~= root);
    } else {
        assert(rest[0] == abs[root.len() as int]);
        assert(parts.len() == 1 ==> parts[0] == part_bytes(rest[0]));
        if rest.len() == 1 && rest[0] is RootDir {
            assert(rest =~= seq![Part::RootDir]);
        }
    }
}

/// A request that is let through names at least one component, only plain names, and no hidden
/// directory at the top.
pub proof fn checked_paths_are_plain(rel: Seq<char>)
    ensures
        checked(rel) matches Ok(below) ==> {
            &&& below.len() > 0
            &&& all_normal(below)
            &&& hidden_entry(below[0]->Normal_0) is None
        },
{
    if requested(rel).len() > 0 {
        lemma_parsed_nonempty(requested(rel));
    }
}

/// A request with a `..` in it is refused, wherever the `..` stands.
pub proof fn parent_components_are_refused(rel: Seq<char>)
    requires
        split(requested(rel), '/').contains(seq!['.', '.']),
    ensures
        checked(rel) == Err::<Seq<Part>, _>(VaultErrorView::Escape),
{
    let text = requested(rel);
    let dots = seq!['.', '.'];
    let all = split(text, '/');
    let kept = |p: Seq<char>| is_kept(p);
    let part = |p: Seq<char>| part_of(p);
    if text.len() == 0 {
        assert(all.len() == 1 && all[0].len() == 0);
    }
    let k = choose|k: int| 0 <= k < all.len() && all[k] == dots;
    assert(dots.len() != seq!['.'].len());
    all.lemma_filter_contains(kept, k);
    let body = all.filter(kept).map_values(part);
    let j = choose|j: int| 0 <= j < all.filter(kept).len() && all.filter(kept)[j] == dots;
    assert(body[j] == Part::ParentDir);
    let at = j + (parsed(text).len() - body.len());
    assert(parsed(text)[at] == Part::ParentDir);
}

/// Where the root exists and the deepest existing ancestor is its own canonical form, which is so
/// where no links are involved, every request that is let through resolves to the names that it
/// asks for, below the root. Names with a backslash that lead git to a hidden entry are left out.
#[verifier::spinoff_prover]
pub proof fn requests_resolve_below_the_root(
    root: Seq<Part>,
    rel: Seq<char>,
    present: spec_fn(Seq<Part>) -> bool,
    canonical: spec_fn(Seq<Part>) -> Option<Seq<Part>>,
)
    requires
        checked(rel) is Ok,
        present(root),
        ({
            let whole = root + checked(rel)->Ok_0;
            let found = whole.take(existing_depth(whole, present) as int);
            canonical(found) == Some(found)
        }),
        misread(root, root + checked(rel)->Ok_0) is None,
    ensures
        resolved(root, rel, present, canonical) == Ok::<_, VaultErrorView>(
            root + checked(rel)->Ok_0,
        ),
{
    let below = checked(rel)->Ok_0;
    let whole = root + below;
    let n = existing_depth(whole, present) as int;
    assert(whole.take(whole.len() as int) =~= whole);
    assert(whole.take(root.len() as int) =~= root);
    lemma_existing_depth(root, whole, whole.len() as int, present);
    lemma_names_behind(root, below, n);
    assert(root.is_prefix_of(whole));
    checked_paths_are_plain(rel);
    assert(whole[root.len() as int] == below[0]);
}

/// From the root on, the plain names of a path below it are all that is there.
proof fn lemma_names_behind(root: Seq<Part>, below: Seq<Part>, n: int)
    requires
        root.len() <= n <= root.len() + below.len(),
        all_normal(below),
    ensures
        (root + below).take(n) + (root + below).skip(n).filter(|p: Part| p is Normal) == root
            + below,
{
    let whole = root + below;
    let normal = |p: Part| p is Normal;
    assert forall|i: int| 0 <= i < whole.skip(n).len() implies normal(
        #[trigger] whole.skip(n)[i],
    ) by {
        assert(whole.skip(n)[i] == below[n + i - root.len()]);
    }
    lemma_filter_all(whole.skip(n), normal);
    assert(whole.take(n) + whole.skip(n) =~= whole);
}

/// Plain names lead below the directory that they are taken from.
pub proof fn lemma_folded_names(base: Seq<Part>, parts: Seq<Part>)
    requires
        all_normal(parts),
    ensures
        folded(base, parts) == base + parts,
    decreases parts.len(),
{
    if parts.len() > 0 {
        assert(all_normal(parts.drop_last())) by {
            assert forall|i: int| 0 <= i < parts.len() - 1 implies (
            #[trigger] parts.drop_last()[i]) is Normal by {
                assert(parts.drop_last()[i] == parts[i]);
            }
        }
        lemma_folded_names(base, parts.drop_last());
        assert(parts.last() == parts[parts.len() - 1]);
        assert((base + parts.drop_last()).push(parts.last()) =~= base + parts);
    } else {
        assert(base + parts =~= base);
    }
}

proof fn lemma_existing_depth(
    root: Seq<Part>,
    whole: Seq<Part>,
    k: int,
    present: spec_fn(Seq<Part>) -> bool,
)
    requires
        root.len() <= k <= whole.len(),
        root == whole.take(root.len() as int),
        present(root),
    ensures
        root.len() <= existing_depth(whole.take(k), present) <= k,
    decreases k,
{
    if k > root.len() && !present(whole.take(k)) && parent_of(whole.take(k)) is Some {
        assert(whole.take(k).drop_last() =~= whole.take(k - 1));
        lemma_existing_depth(root, whole, k - 1, present);
    }
}

/// A resolved path lies in no hidden top-level entry of the vault, whatever the file system is like
/// and wherever links lead; nor does it lead git to one, where it has names with a backslash.
pub proof fn hidden_directories_are_not_addressable(
    root: Seq<Part>,
    rel: Seq<char>,
    present: spec_fn(Seq<Part>) -> bool,
    canonical: spec_fn(Seq<Part>) -> Option<Seq<Part>>,
)
    ensures
        resolved(root, rel, present, canonical) matches Ok(path) ==> {
            &&& !in_hidden(root, path)
            &&& misread(root, path) is None
        },
{
}

/// The path below the root that a request names comes back as its names with slashes between them,
/// where a backslash has become a slash.
pub proof fn relative_undoes_resolution(root: Seq<Part>, rel: Seq<char>)
    requires
        checked(rel) is Ok,
    ensures
        relative(root, root + checked(rel)->Ok_0) == Some(
            forward_slashes(
                join(
                    split(requested(rel), '/').filter(|p: Seq<char>| is_kept(p)),
                    '/',
                ),
            ),
        ),
{
    let below = checked(rel)->Ok_0;
    let pieces = split(requested(rel), '/').filter(|p: Seq<char>| is_kept(p));
    checked_paths_are_plain(rel);
    assert(root.is_prefix_of(root + below));
    assert((root + below).skip(root.len() as int) =~= below);
    let parts = pieces.map_values(|p: Seq<char>| part_of(p));
    assert(below[0] is Normal);
    assert(below == parts);
    let bytes = below.map_values(|p: Part| part_bytes(p));
    let encoded = pieces.map_values(|p: Seq<char>| encode_utf8(p));
    assert forall|i: int| 0 <= i < below.len() implies #[trigger] bytes[i] == encoded[i] by {
        assert(below[i] is Normal);
    }
    assert(bytes =~= encoded);
    lemma_encode_join(pieces);
    broadcast use vstd::utf8::encode_utf8_valid_utf8;

    vstd::utf8::encode_utf8_decode_utf8(join(pieces, '/'));
}

/// A text that is not empty has a component.
proof fn lemma_parsed_nonempty(s: Seq<char>)
    requires
        s.len() > 0,
    ensures
        parsed(s).len() > 0,
{
    let kept = |p: Seq<char>| is_kept(p);
    let all = split(s, '/');
    lemma_first_piece(s);
    lemma_split_len(s, '/');
    if s[0] != '/' && all[0] != seq!['.'] {
        all.lemma_filter_contains(kept, 0);
    }
}

/// The texts of the refusals.
pub proof fn refusals_read_as_follows(s: Seq<char>)
    ensures
        vault_error_text(VaultErrorView::Empty) == "path is empty"@,
        vault_error_text(VaultErrorView::Escape) == "path escapes the vault root"@,
        vault_error_text(VaultErrorView::Outside(s)) == "path is outside the vault: "@ + s,
        vault_error_text(VaultErrorView::Hidden(s))
            == "path refers to a hidden/internal directory: "@ + s,
{
}

/// A refusal and a resolved path hold what they are made of.
pub proof fn refusals_hold_their_texts(s: String, path: FilePath)
    ensures
        VaultError::Empty@ == VaultErrorView::Empty,
        VaultError::Escape@ == VaultErrorView::Escape,
        VaultError::Outside(s)@ == VaultErrorView::Outside(s@),
        VaultError::Hidden(s)@ == VaultErrorView::Hidden(s@),
        path_result(Ok(path)) == Ok::<_, VaultErrorView>(path@),
        path_result(Err(VaultError::Hidden(s))) == Err::<Seq<Part>, _>(
            VaultErrorView::Hidden(s@),
        ),
        path_result(Err(VaultError::Outside(s))) == Err::<Seq<Part>, _>(
            VaultErrorView::Outside(s@),
        ),
        path_result(Err(VaultError::Escape)) == Err::<Seq<Part>, _>(VaultErrorView::Escape),
        path_result(Err(VaultError::Empty)) == Err::<Seq<Part>, _>(VaultErrorView::Empty),
{
}

/// Three names are hidden, and no others.
pub proof fn three_names_are_hidden(name: Seq<u8>, entry: Seq<char>)
    ensures
        hidden_entry(name) == Some(entry) <==> name == encode_utf8(entry) && (entry == ".git"@
            || entry == ".obsidian"@ || entry == ".trash"@),
{
    reveal_strlit(".git");
    reveal_strlit(".obsidian");
    reveal_strlit(".trash");
    vstd::utf8::encode_utf8_decode_utf8(".git"@);
    vstd::utf8::encode_utf8_decode_utf8(".obsidian"@);
    vstd::utf8::encode_utf8_decode_utf8(".trash"@);
    assert(".git"@.len() == 4 && ".obsidian"@.len() == 9 && ".trash"@.len() == 6);
}

/// A path lies in a hidden entry just where its first component below the root is the name of one.
pub proof fn hidden_paths_are_told_by_the_first_name(
    root: Seq<Part>,
    first: Part,
    rest: Seq<Part>,
    path: Seq<Part>,
)
    ensures
        ({
            let below = root.push(first) + rest;
            &&& first matches Part::Normal(name) ==> hidden_top(root, below) == hidden_entry(name)
            &&& !(first is Normal) ==> hidden_top(root, below) is None
        }),
        hidden_top(root, root) is None,
        !root.is_prefix_of(path) ==> hidden_top(root, path) is None,
        in_hidden(root, path) <==> hidden_top(root, path) is Some,
{
    let below = root.push(first) + rest;
    assert(below.take(root.len() as int) =~= root);
    assert(below[root.len() as int] == first);
}

/// Of a request the slashes in front are left out, then the white space around the rest, and
/// nothing else.
pub proof fn requests_are_stripped_and_trimmed(
    slashes: Seq<char>,
    a: Seq<char>,
    s: Seq<char>,
    b: Seq<char>,
)
    requires
        forall|i: int| 0 <= i < slashes.len() ==> slashes[i] == '/',
        forall|i: int| 0 <= i < a.len() ==> is_white_space(#[trigger] a[i]),
        forall|i: int| 0 <= i < b.len() ==> is_white_space(#[trigger] b[i]),
        s.len() > 0 ==> !is_white_space(s[0]) && !is_white_space(s.last()),
        a.len() == 0 && s.len() > 0 ==> s[0] != '/',
    ensures
        requested(slashes + (a + s + b)) == s,
{
    let rel = slashes + (a + s + b);
    let n = slashes.len() as int;
    white_space_is_listed('/');
    if n < rel.len() {
        assert(rel[n] == (a + s + b)[0]);
        if a.len() > 0 {
            assert(rel[n] == a[0]);
        } else if s.len() > 0 {
            assert(rel[n] == s[0]);
        } else {
            assert(rel[n] == b[0]);
        }
    }
    only_the_slashes_in_front_are_left_out(rel, n);
    assert(rel.skip(n) =~= a + s + b);
    trimming_takes_white_space_at_the_ends(a, s, b);
}

/// What is left of a request is refused just where it is empty, has a component that is not a plain
/// name, or starts with a hidden name; anything else is let through with all its components.
pub proof fn requests_are_checked_by_their_components(rel: Seq<char>, entry: Seq<char>)
    ensures
        ({
            let path = parsed(requested(rel));
            let plain = forall|i: int| 0 <= i < path.len() ==> (#[trigger] path[i]) is Normal;
            &&& checked(rel) == Err::<Seq<Part>, _>(VaultErrorView::Empty) <==> requested(rel).len()
                == 0
            &&& checked(rel) == Err::<Seq<Part>, _>(VaultErrorView::Escape) <==> requested(
                rel,
            ).len() > 0 && !plain
            &&& checked(rel) == Err::<Seq<Part>, _>(VaultErrorView::Hidden(entry)) <==> requested(
                rel,
            ).len() > 0 && plain && path[0] == Part::Normal(encode_utf8(entry)) && (entry == ".git"@
                || entry == ".obsidian"@ || entry == ".trash"@)
            &&& checked(rel) matches Ok(below) ==> below == path
            &&& !(checked(rel) matches Err(VaultErrorView::Outside(_)))
        }),
{
    let path = parsed(requested(rel));
    if requested(rel).len() > 0 {
        lemma_parsed_nonempty(requested(rel));
    }
    if path.len() > 0 && path[0] is Normal {
        three_names_are_hidden(path[0]->Normal_0, entry);
    }
}

/// A request for plain names, the first of which is not hidden, is let through with just these
/// names.
pub proof fn requests_for_names_are_let_through(rel: Seq<char>, q: Seq<Seq<char>>)
    requires
        q.len() > 0,
        requested(rel) == join(q, '/'),
        forall|i: int|
            0 <= i < q.len() ==> {
                &&& (#[trigger] q[i]).len() > 0
                &&& !q[i].contains('/')
                &&& q[i] != seq!['.']
                &&& q[i] != seq!['.', '.']
            },
        q[0] != ".git"@ && q[0] != ".obsidian"@ && q[0] != ".trash"@,
    ensures
        checked(rel) == Ok::<_, VaultErrorView>(
            q.map_values(|p: Seq<char>| Part::Normal(encode_utf8(p))),
        ),
{
    let names = q.map_values(|p: Seq<char>| Part::Normal(encode_utf8(p)));
    let path = parsed(requested(rel));
    pieces_become_components(q);
    assert(path =~= names);
    assert(join(q, '/').len() > 0) by {
        if join(q, '/').len() == 0 {
            assert(join(q, '/') =~= Seq::empty());
        }
    }
    assert(path[0] == names[0]);
    if let Some(entry) = hidden_entry(encode_utf8(q[0])) {
        three_names_are_hidden(encode_utf8(q[0]), entry);
        vstd::utf8::encode_utf8_decode_utf8(q[0]);
        vstd::utf8::encode_utf8_decode_utf8(entry);
    }
    assert(all_normal(path));
}

/// A path that exists is the one whose canonical form is asked for. Where it does not exist, its
/// parent is looked at next, and the last name goes in front of the names behind it; where there is
/// no parent, the canonical form is asked for all the same.
pub proof fn questions_go_up_name_by_name(
    rel: Seq<char>,
    front: Seq<Part>,
    last: Part,
    tail: Seq<Part>,
)
    ensures
        ({
            let p = PendingView { rel, path: front.push(last), tail };
            let nothing = PendingView { rel, path: Seq::empty(), tail };
            &&& answered(p, true) == QuestionView::Canonical(p)
            &&& answered(p, false) == (match last {
                Part::RootDir => QuestionView::Canonical(p),
                Part::Normal(name) => QuestionView::Exists(
                    PendingView { rel, path: front, tail: seq![Part::Normal(name)] + tail },
                ),
                _ => QuestionView::Exists(PendingView { rel, path: front, tail }),
            })
            &&& answered(nothing, true) == QuestionView::Canonical(nothing)
            &&& answered(nothing, false) == QuestionView::Canonical(nothing)
        }),
{
    parents_are_all_but_the_last(front, last);
    assert(front.push(last).last() == last);
}

/// Each component leads one step further: a name into the directory of that name, a `..` back to
/// the parent, a slash to the root directory.
pub proof fn components_lead_step_by_step(base: Seq<Part>, parts: Seq<Part>, last: Part)
    ensures
        folded(base, Seq::empty()) == base,
        folded(base, parts.push(last)) == (match last {
            Part::Normal(name) => folded(base, parts).push(Part::Normal(name)),
            Part::CurDir => folded(base, parts),
            Part::RootDir => seq![Part::RootDir],
            Part::ParentDir => {
                let at = folded(base, parts);
                if at.len() == 0 || at.last() == Part::RootDir {
                    at
                } else {
                    at.drop_last()
                }
            },
        }),
{
    assert(parts.push(last).drop_last() =~= parts);
    let at = folded(base, parts);
    if at.len() > 0 {
        parents_are_all_but_the_last(at.drop_last(), at.last());
        assert(at.drop_last().push(at.last()) =~= at);
    } else {
        assert(at =~= Seq::empty());
        parents_are_all_but_the_last(at, last);
    }
}

/// A path inside the vault is accepted as it is where its first name is not hidden and no name
/// below the root has a backslash in it.
pub proof fn paths_without_backslash_are_accepted(
    root: Seq<Part>,
    rel: Seq<char>,
    path: Seq<Part>,
)
    requires
        root.is_prefix_of(path),
        path.len() > root.len() ==> {
            &&& path[root.len() as int] != Part::Normal(encode_utf8(".git"@))
            &&& path[root.len() as int] != Part::Normal(encode_utf8(".obsidian"@))
            &&& path[root.len() as int] != Part::Normal(encode_utf8(".trash"@))
        },
        forall|i: int|
            root.len() <= i < path.len() ==> ((#[trigger] path[i]) matches Part::Normal(name)
                ==> !name.contains(92u8)),
    ensures
        accepted(root, rel, path) == Ok::<_, VaultErrorView>(path),
{
    assert(!has_backslash(root, path));
}

/// A path is accepted as it is or not at all. It is refused as outside just where it does not start
/// with the root, and otherwise only for one of the hidden names; a path whose first name is hidden
/// is refused for that name.
pub proof fn paths_are_refused_for_two_reasons(
    root: Seq<Part>,
    rel: Seq<char>,
    path: Seq<Part>,
    entry: Seq<char>,
    rest: Seq<Part>,
)
    ensures
        match accepted(root, rel, path) {
            Ok(same) => same == path && root.is_prefix_of(path),
            Err(VaultErrorView::Outside(text)) => text == rel && !root.is_prefix_of(path),
            Err(VaultErrorView::Hidden(name)) => root.is_prefix_of(path) && (name == ".git"@ || name
                == ".obsidian"@ || name == ".trash"@),
            _ => false,
        },
        entry == ".git"@ || entry == ".obsidian"@ || entry == ".trash"@ ==> accepted(
            root,
            rel,
            root.push(Part::Normal(encode_utf8(entry))) + rest,
        ) == Err::<Seq<Part>, _>(VaultErrorView::Hidden(entry)),
{
    let hidden = root.push(Part::Normal(encode_utf8(entry))) + rest;
    hidden_paths_are_told_by_the_first_name(
        root,
        Part::Normal(encode_utf8(entry)),
        rest,
        path,
    );
    three_names_are_hidden(encode_utf8(entry), entry);
    assert(hidden.take(root.len() as int) =~= root);
    assert(root.is_prefix_of(hidden));
}

/// A path that starts with the root is accepted unless it lies in a hidden entry, or has a name
/// with a backslash below the root and leads git, which reads it with slashes from the root on, to
/// a hidden entry.
pub proof fn paths_are_accepted_unless_they_lead_to_hidden_entries(
    root: Seq<Part>,
    rel: Seq<char>,
    path: Seq<Part>,
    text: Seq<char>,
)
    requires
        relative(root, path) == Some(text),
    ensures
        ({
            let slashed = exists|i: int|
                root.len() <= i < path.len() && (#[trigger] path[i]) is Normal
                    && path[i]->Normal_0.contains(92u8);
            let own = hidden_top(root, path);
            let read = hidden_top(root, folded(root, parsed(text)));
            &&& own is None && (slashed ==> read is None) ==> accepted(root, rel, path) == Ok::<
                _,
                VaultErrorView,
            >(path)
            &&& own matches Some(entry) ==> accepted(root, rel, path) == Err::<Seq<Part>, _>(
                VaultErrorView::Hidden(entry),
            )
            &&& own is None && slashed ==> (read matches Some(entry) ==> accepted(root, rel, path)
                == Err::<Seq<Part>, _>(VaultErrorView::Hidden(entry)))
        }),
{
}

/// Where a path is refused for a hidden name that is not its first name, the name stands in the
/// path as git reads it.
pub proof fn backslashes_are_refused_for_what_git_reads(
    root: Seq<Part>,
    rel: Seq<char>,
    path: Seq<Part>,
    entry: Seq<char>,
)
    requires
        accepted(root, rel, path) == Err::<Seq<Part>, _>(VaultErrorView::Hidden(entry)),
        path.len() > root.len() ==> path[root.len() as int] != Part::Normal(encode_utf8(entry)),
    ensures
        relative(root, path) matches Some(text) && parsed(text).contains(
            Part::Normal(encode_utf8(entry)),
        ),
{
    let parts = parsed(relative(root, path)->0);
    let read = folded(root, parts);
    let n = root.len() as int;
    if hidden_top(root, path) == Some(entry) {
        three_names_are_hidden(path[n]->Normal_0, entry);
    } else {
        three_names_are_hidden(read[n]->Normal_0, entry);
        lemma_folded_parts(root, parts, n);
    }
}

/// What components lead to is made of them, and of what stands at the same place in the directory
/// that they are taken from.
proof fn lemma_folded_parts(base: Seq<Part>, parts: Seq<Part>, i: int)
    requires
        0 <= i < folded(base, parts).len(),
    ensures
        (i < base.len() && folded(base, parts)[i] == base[i]) || parts.contains(
            folded(base, parts)[i],
        ),
    decreases parts.len(),
{
    if parts.len() > 0 {
        let before = folded(base, parts.drop_last());
        let at = folded(base, parts)[i];
        if i < before.len() && at == before[i] {
            lemma_folded_parts(base, parts.drop_last(), i);
            if parts.drop_last().contains(at) {
                let k = choose|k: int| 0 <= k < parts.len() - 1 && parts.drop_last()[k] == at;
                assert(parts[k] == at);
            }
        } else {
            assert(parts[parts.len() - 1] == at);
        }
    }
}

/// A name that has a hidden name in front of a backslash is refused for the hidden name.
#[verifier::spinoff_prover]
#[verifier::rlimit(60)]
pub proof fn hidden_names_before_a_backslash_are_refused(
    root: Seq<Part>,
    rel: Seq<char>,
    entry: Seq<char>,
    name: Seq<char>,
)
    requires
        entry == ".git"@ || entry == ".obsidian"@ || entry == ".trash"@,
        name.len() > 0,
        !name.contains('/'),
        !name.contains('\\'),
        name != seq!['.'],
        name != seq!['.', '.'],
    ensures
        accepted(root, rel, root.push(Part::Normal(encode_utf8(entry.push('\\') + name)))) == Err::<
            Seq<Part>,
            _,
        >(VaultErrorView::Hidden(entry)),
{
    let text = entry.push('\\') + name;
    let bytes = encode_utf8(text);
    let path = root.push(Part::Normal(bytes));
    let n = root.len() as int;
    reveal_strlit(".git");
    reveal_strlit(".obsidian");
    reveal_strlit(".trash");
    vstd::utf8::encode_utf8_valid_utf8(text);
    vstd::utf8::encode_utf8_decode_utf8(text);
    vstd::utf8::encode_utf8_decode_utf8(entry);
    assert(path.take(n) =~= root);
    assert(path[n] == Part::Normal(bytes));
    assert(bytes.contains(92u8)) by {
        if !bytes.contains(92u8) {
            lemma_decode_contains(bytes, '\\');
            assert(text[entry.len() as int] == '\\');
        }
    }
    assert(has_backslash(root, path));
    relative_paths_are_the_names(root, seq![text]);
    assert(seq![text].map_values(|p: Seq<char>| Part::Normal(encode_utf8(p))) =~= seq![
        Part::Normal(bytes),
    ]);
    assert(root + seq![Part::Normal(bytes)] =~= path);
    let q = seq![entry, name];
    assert(q.drop_last() =~= seq![entry]);
    assert(join(seq![entry], '/') == entry);
    assert(forward_slashes(text) =~= join(q, '/')) by {
        assert forall|i: int| 0 <= i < name.len() implies name[i] != '\\' by {}
        assert forall|i: int| 0 <= i < entry.len() implies entry[i] != '\\' by {}
    }
    assert(!entry.contains('/'));
    pieces_become_components(q);
    let parts = parsed(join(q, '/'));
    assert(parts =~= seq![Part::Normal(encode_utf8(entry)), Part::Normal(encode_utf8(name))]);
    lemma_folded_names(root, parts);
    let read = root + parts;
    assert(read.take(n) =~= root);
    assert(read[n] == Part::Normal(encode_utf8(entry)));
    three_names_are_hidden(encode_utf8(entry), entry);
    if let Some(other) = hidden_entry(bytes) {
        three_names_are_hidden(bytes, other);
        vstd::utf8::encode_utf8_decode_utf8(other);
        assert(text[entry.len() as int] == '\\');
        assert(other.contains('\\'));
    }
}

/// Without a canonical form the request leads outside; with one, it leads to that form with the
/// names behind it.
pub proof fn requests_land_behind_the_canonical_form(
    root: Seq<Part>,
    p: PendingView,
    base: Seq<Part>,
)
    ensures
        landed(root, p, None) == Err::<Seq<Part>, _>(VaultErrorView::Outside(p.rel)),
        landed(root, p, Some(base)) == accepted(root, p.rel, base + p.tail),
        !root.is_prefix_of(base + p.tail) ==> landed(root, p, Some(base)) == Err::<Seq<Part>, _>(
            VaultErrorView::Outside(p.rel),
        ),
        landed(root, p, Some(base)) matches Ok(path) ==> path == base + p.tail,
{
}

/// The relative path of a file is its names, joined by slashes, with forward slashes. What does not
/// start with the root has none, and the root has the empty one.
pub proof fn relative_paths_are_the_names(root: Seq<Part>, q: Seq<Seq<char>>)
    ensures
        q.len() > 0 ==> relative(
            root,
            root + q.map_values(|p: Seq<char>| Part::Normal(encode_utf8(p))),
        ) == Some(forward_slashes(join(q, '/'))),
        relative(root, root) == Some(Seq::<char>::empty()),
        forall|abs: Seq<Part>| (#[trigger] relative(root, abs)) is Some <==> root.is_prefix_of(abs),
{
    let below = q.map_values(|p: Seq<char>| Part::Normal(encode_utf8(p)));
    let path = root + below;
    assert(path.take(root.len() as int) =~= root);
    assert(path.skip(root.len() as int) =~= below);
    if q.len() > 0 {
        let bytes = below.map_values(|p: Part| part_bytes(p));
        assert(bytes =~= q.map_values(|p: Seq<char>| encode_utf8(p)));
        assert(below[0] is Normal);
        lemma_encode_join(q);
        encoded_texts_are_read_back(join(q, '/'));
    }
    assert(root.skip(root.len() as int) =~= Seq::empty());
    assert(root.take(root.len() as int) =~= root);
    paths_are_written_with_slashes(root, Part::CurDir);
    assert(encode_utf8(Seq::empty()) =~= Seq::<u8>::empty());
    encoded_texts_are_read_back(Seq::empty());
    assert(forward_slashes(Seq::empty()) =~= Seq::empty());
}

/// The relative path of any path inside the vault is what lies behind the root, as text with
/// forward slashes.
pub proof fn relative_paths_are_what_lies_behind(root: Seq<Part>, rest: Seq<Part>)
    ensures
        relative(root, root + rest) == Some(forward_slashes(text_of_bytes(path_bytes(rest)))),
{
    assert((root + rest).take(root.len() as int) =~= root);
    assert((root + rest).skip(root.len() as int) =~= rest);
}

/// Where the root is there, the canonical form is asked for the longest beginning of the root with
/// the requested names behind it that exists; the remaining names are put behind that form.
pub proof fn the_longest_existing_beginning_is_asked_for(
    root: Seq<Part>,
    rel: Seq<char>,
    below: Seq<Part>,
    n: int,
    present: spec_fn(Seq<Part>) -> bool,
    canonical: spec_fn(Seq<Part>) -> Option<Seq<Part>>,
)
    requires
        checked(rel) == Ok::<_, VaultErrorView>(below),
        root.len() <= n <= root.len() + below.len(),
        present((root + below).take(n)),
        forall|m: int|
            n < m <= root.len() + below.len() ==> !present(#[trigger] (root + below).take(m)),
    ensures
        ({
            let whole = root + below;
            let outcome = match canonical(whole.take(n)) {
                Some(base) => accepted(root, rel, base + whole.skip(n)),
                None => Err(VaultErrorView::Outside(rel)),
            };
            &&& resolved(root, rel, present, canonical) == outcome
            &&& settled(
                root,
                PendingView { rel, path: whole, tail: Seq::empty() },
                present,
                canonical,
            ) == outcome
        }),
{
    let whole = root + below;
    checked_paths_are_plain(rel);
    assert forall|j: int| n <= j < whole.len() implies (#[trigger] whole[j]) is Normal by {
        assert(whole[j] == below[j - root.len()]);
    }
    lemma_depth_is(whole, whole.len() as int, n, present);
    assert(whole.take(whole.len() as int) =~= whole);
    let normal = |p: Part| p is Normal;
    assert forall|i: int| 0 <= i < whole.skip(n).len() implies normal(
        #[trigger] whole.skip(n)[i],
    ) by {
        assert(whole.skip(n)[i] == whole[n + i]);
    }
    lemma_filter_all(whole.skip(n), normal);
    answers_resolve_the_path(root, rel, present, canonical);
}

proof fn lemma_depth_is(
    whole: Seq<Part>,
    k: int,
    n: int,
    present: spec_fn(Seq<Part>) -> bool,
)
    requires
        0 <= n <= k <= whole.len(),
        present(whole.take(n)),
        forall|m: int| n < m <= k ==> !present(#[trigger] whole.take(m)),
        forall|j: int| n <= j < whole.len() ==> (#[trigger] whole[j]) is Normal,
    ensures
        existing_depth(whole.take(k), present) == n,
    decreases k,
{
    if k > n {
        let path = whole.take(k);
        assert(path.drop_last() =~= whole.take(k - 1));
        assert(path.last() == whole[k - 1]);
        assert(path.drop_last().push(path.last()) =~= path);
        parents_are_all_but_the_last(path.drop_last(), path.last());
        lemma_depth_is(whole, k - 1, n, present);
    }
}

/// A request for plain names without backslashes, the first of which is not hidden, resolves to
/// these names below the root, where the longest beginning of them that exists is its own canonical
/// form.
#[verifier::spinoff_prover]
pub proof fn requests_for_names_resolve_to_them(
    root: Seq<Part>,
    rel: Seq<char>,
    q: Seq<Seq<char>>,
    n: int,
    present: spec_fn(Seq<Part>) -> bool,
    canonical: spec_fn(Seq<Part>) -> Option<Seq<Part>>,
)
    requires
        q.len() > 0,
        requested(rel) == join(q, '/'),
        forall|i: int|
            0 <= i < q.len() ==> {
                &&& (#[trigger] q[i]).len() > 0
                &&& !q[i].contains('/')
                &&& !q[i].contains('\\')
                &&& q[i] != seq!['.']
                &&& q[i] != seq!['.', '.']
            },
        q[0] != ".git"@ && q[0] != ".obsidian"@ && q[0] != ".trash"@,
        ({
            let path = root + q.map_values(|p: Seq<char>| Part::Normal(encode_utf8(p)));
            &&& root.len() <= n <= path.len()
            &&& present(path.take(n))
            &&& forall|m: int| n < m <= path.len() ==> !present(#[trigger] path.take(m))
            &&& canonical(path.take(n)) == Some(path.take(n))
        }),
    ensures
        resolved(root, rel, present, canonical) == Ok::<_, VaultErrorView>(
            root + q.map_values(|p: Seq<char>| Part::Normal(encode_utf8(p))),
        ),
{
    let below = q.map_values(|p: Seq<char>| Part::Normal(encode_utf8(p)));
    let path = root + below;
    requests_for_names_are_let_through(rel, q);
    the_longest_existing_beginning_is_asked_for(root, rel, below, n, present, canonical);
    assert(path.take(n) + path.skip(n) =~= path);
    assert(path.take(root.len() as int) =~= root);
    assert(path[root.len() as int] == below[0]);
    vstd::utf8::encode_utf8_decode_utf8(q[0]);
    vstd::utf8::encode_utf8_decode_utf8(".git"@);
    vstd::utf8::encode_utf8_decode_utf8(".obsidian"@);
    vstd::utf8::encode_utf8_decode_utf8(".trash"@);
    assert forall|i: int| root.len() <= i < path.len() implies ((
    #[trigger] path[i]) matches Part::Normal(name) ==> !name.contains(92u8)) by {
        let text = q[i - root.len()];
        assert(path[i] == below[i - root.len()]);
        lemma_encode_without_backslash(text);
    }
    paths_without_backslash_are_accepted(root, rel, path);
}

}
