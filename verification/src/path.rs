//! File paths as sequences of components.

use vstd::prelude::*;
use vstd::string::StrSliceExecFns;
use vstd::utf8::encode_utf8;

use crate::text::{
    encoded_texts_are_read_back, from_utf8_lossy, join, joining_puts_separators_between,
    lemma_encode_join, lemma_encode_without_slash, lemma_filter_all, lemma_split_len,
    lemma_split_pieces, split, split_at_each, split_undoes_join, splitting_goes_by_the_separator,
    text_of_bytes,
};

verus! {

/// A component of a path, as `std::path::Component` divides a path whose separator is the slash.
#[derive(Debug)]
pub enum Component {
    /// The slash that an absolute path starts with.
    RootDir,
    /// A `.` at the beginning.
    CurDir,
    /// A `..`.
    ParentDir,
    /// The name of a file or a directory, as bytes: a name need not be UTF-8.
    Normal(Vec<u8>),
}

/// What a `Component` holds.
pub enum Part {
    RootDir,
    CurDir,
    ParentDir,
    Normal(Seq<u8>),
}

impl View for Component {
    type V = Part;

    open spec fn view(&self) -> Part {
        match self {
            Component::RootDir => Part::RootDir,
            Component::CurDir => Part::CurDir,
            Component::ParentDir => Part::ParentDir,
            Component::Normal(name) => Part::Normal(name@),
        }
    }
}

/// A path of the file system; `is_sound` tells which components can make one up. Two texts that
/// differ only in repeated slashes, in a slash at the end or in a `.` behind the beginning are the
/// same path.
#[derive(Debug)]
pub struct FilePath {
    pub components: Vec<Component>,
}

impl View for FilePath {
    type V = Seq<Part>;

    open spec fn view(&self) -> Seq<Part> {
        self.components@.map_values(|c: Component| c@)
    }
}

/// What an optional path holds.
pub open spec fn optional_path(path: Option<FilePath>) -> Option<Seq<Part>> {
    match path {
        Some(p) => Some(p@),
        None => None,
    }
}

/// The component for a piece of text between slashes.
pub open spec fn part_of(piece: Seq<char>) -> Part {
    if piece == seq!['.', '.'] {
        Part::ParentDir
    } else {
        Part::Normal(encode_utf8(piece))
    }
}

/// Whether a piece of text between slashes counts as a component.
pub open spec fn is_kept(piece: Seq<char>) -> bool {
    piece.len() > 0 && piece != seq!['.']
}

/// The components of a text: what stands between slashes, without empty pieces and without `.`,
/// but for a slash or a `.` at the very beginning, which count.
pub open spec fn parsed(s: Seq<char>) -> Seq<Part> {
    let body = split(s, '/').filter(|p: Seq<char>| is_kept(p)).map_values(
        |p: Seq<char>| part_of(p),
    );
    if s.len() > 0 && s[0] == '/' {
        seq![Part::RootDir] + body
    } else if split(s, '/')[0] == seq!['.'] {
        seq![Part::CurDir] + body
    } else {
        body
    }
}

/// The bytes of a component in a path.
pub open spec fn part_bytes(part: Part) -> Seq<u8> {
    match part {
        Part::RootDir => Seq::empty(),
        Part::CurDir => seq![46u8],
        Part::ParentDir => seq![46u8, 46u8],
        Part::Normal(name) => name,
    }
}

/// The bytes of a path: its components, with slashes between them.
pub open spec fn path_bytes(path: Seq<Part>) -> Seq<u8> {
    if path == seq![Part::RootDir] {
        seq![47u8]
    } else {
        join(path.map_values(|p: Part| part_bytes(p)), 47u8)
    }
}

/// The path without its last component, unless it is empty or the root directory.
pub open spec fn parent_of(path: Seq<Part>) -> Option<Seq<Part>> {
    if path.len() == 0 || path.last() == Part::RootDir {
        None
    } else {
        Some(path.drop_last())
    }
}

/// Whether bytes can be the name of a file or a directory: not empty, without a slash, and not one
/// of the names that stand for something else.
pub open spec fn is_file_name(name: Seq<u8>) -> bool {
    &&& name.len() > 0
    &&& !name.contains(47u8)
    &&& name != seq![46u8]
    &&& name != seq![46u8, 46u8]
}

/// Whether components can make up a path: a slash and a `.` stand only at the beginning, and every
/// name is the name of a file or a directory.
pub open spec fn is_sound(path: Seq<Part>) -> bool {
    forall|i: int|
        0 <= i < path.len() ==> match #[trigger] path[i] {
            Part::RootDir => i == 0,
            Part::CurDir => i == 0,
            Part::ParentDir => true,
            Part::Normal(name) => is_file_name(name),
        }
}

/// Whether a path can stand behind another one: it does not start with a slash or a `.`.
pub open spec fn can_follow(path: Seq<Part>) -> bool {
    path.len() > 0 ==> !(path[0] is RootDir) && !(path[0] is CurDir)
}

/// The components of a text make up a path.
pub proof fn parsed_paths_are_sound(s: Seq<char>)
    ensures
        is_sound(parsed(s)),
{
    let kept = |p: Seq<char>| is_kept(p);
    let all = split(s, '/');
    let pieces = all.filter(kept);
    let body = pieces.map_values(|p: Seq<char>| part_of(p));
    lemma_split_pieces(s, '/');
    assert forall|i: int| 0 <= i < body.len() implies match #[trigger] body[i] {
        Part::ParentDir => true,
        Part::Normal(name) => is_file_name(name),
        _ => false,
    } by {
        let piece = pieces[i];
        all.lemma_filter_pred(kept, i);
        all.lemma_filter_contains_rev(kept, piece);
        let k = choose|k: int| 0 <= k < all.len() && all[k] == piece;
        assert(!all[k].contains('/'));
        if piece != seq!['.', '.'] {
            lemma_file_name(piece);
        }
    }
    let start = parsed(s).len() - body.len();
    assert forall|i: int| 0 <= i < parsed(s).len() implies match #[trigger] parsed(s)[i] {
        Part::RootDir => i == 0,
        Part::CurDir => i == 0,
        Part::ParentDir => true,
        Part::Normal(name) => is_file_name(name),
    } by {
        if i >= start {
            assert(parsed(s)[i] == body[i - start]);
        }
    }
}

/// A plain piece of text between slashes is the name of a file.
proof fn lemma_file_name(piece: Seq<char>)
    requires
        is_kept(piece),
        piece != seq!['.', '.'],
        !piece.contains('/'),
    ensures
        is_file_name(encode_utf8(piece)),
{
    lemma_encode_without_slash(piece);
    vstd::utf8::encode_utf8_decode_utf8(piece);
    vstd::utf8::encode_utf8_decode_utf8(Seq::empty());
    assert(vstd::utf8::is_ascii_chars(seq!['.']));
    assert(vstd::utf8::is_ascii_chars(seq!['.', '.']));
    vstd::utf8::is_ascii_chars_encode_utf8(seq!['.']);
    vstd::utf8::is_ascii_chars_encode_utf8(seq!['.', '.']);
    vstd::utf8::encode_utf8_decode_utf8(seq!['.']);
    vstd::utf8::encode_utf8_decode_utf8(seq!['.', '.']);
    assert(encode_utf8(seq!['.'])[0] == seq!['.'][0] as u8);
    assert(encode_utf8(seq!['.', '.'])[0] == seq!['.', '.'][0] as u8);
    assert(encode_utf8(seq!['.', '.'])[1] == seq!['.', '.'][1] as u8);
    assert(encode_utf8(seq!['.']) =~= seq![46u8]);
    assert(encode_utf8(seq!['.', '.']) =~= seq![46u8, 46u8]);
    if encode_utf8(piece).len() == 0 {
        assert(encode_utf8(piece) =~= encode_utf8(Seq::empty()));
    }
}

/// Whether two slices hold the same bytes.
pub fn same_bytes(a: &[u8], b: &[u8]) -> (r: bool)
    ensures
        r == (a@ == b@),
{
    if a.len() != b.len() {
        return false;
    }
    for i in 0..a.len()
        invariant
            a@.len() == b@.len(),
            forall|j: int| 0 <= j < i ==> a@[j] == b@[j],
    {
        if a[i] != b[i] {
            return false;
        }
    }
    assert(a@ =~= b@);
    true
}

impl Clone for Component {
    fn clone(&self) -> (r: Self)
        ensures
            r@ == self@,
    {
        match self {
            Component::RootDir => Component::RootDir,
            Component::CurDir => Component::CurDir,
            Component::ParentDir => Component::ParentDir,
            Component::Normal(name) => {
                let copy = name.clone();
                assert(copy@ =~= name@);
                Component::Normal(copy)
            },
        }
    }
}

impl Component {
    /// Whether two components are the same.
    pub fn same(&self, other: &Component) -> (r: bool)
        ensures
            r == (self@ == other@),
    {
        match (self, other) {
            (Component::RootDir, Component::RootDir) => true,
            (Component::CurDir, Component::CurDir) => true,
            (Component::ParentDir, Component::ParentDir) => true,
            (Component::Normal(a), Component::Normal(b)) => same_bytes(a.as_slice(), b.as_slice()),
            _ => false,
        }
    }

    /// The bytes of the component in a path.
    fn bytes(&self) -> (r: Vec<u8>)
        ensures
            r@ == part_bytes(self@),
    {
        match self {
            Component::RootDir => Vec::new(),
            Component::CurDir => vec![46u8],
            Component::ParentDir => vec![46u8, 46u8],
            Component::Normal(name) => {
                let copy = name.clone();
                assert(copy@ =~= name@);
                copy
            },
        }
    }
}

impl Clone for FilePath {
    fn clone(&self) -> (r: Self)
        ensures
            r@ == self@,
    {
        self.prefix(self.components.len())
    }
}

impl FilePath {
    /// The first `n` components.
    fn prefix(&self, n: usize) -> (r: FilePath)
        requires
            n <= self@.len(),
        ensures
            r@ == self@.take(n as int),
    {
        let mut r = FilePath { components: Vec::new() };
        for i in 0..n
            invariant
                n <= self@.len(),
                r@ =~= self@.take(i as int),
        {
            let component = self.components[i].clone();
            assert(component@ == self@[i as int]);
            r.push(component);
        }
        r
    }

    /// Appends a component.
    fn push(&mut self, component: Component)
        ensures
            final(self)@ == old(self)@.push(component@),
    {
        self.components.push(component);
        assert(self@ =~= old(self)@.push(component@));
    }

    /// The path that a text stands for.
    pub fn parse(text: &str) -> (r: FilePath)
        ensures
            r@ == parsed(text@),
            is_sound(r@),
    {
        let pieces = split_at_each(text, '/');
        let ghost all = pieces.deep_view();
        let ghost kept = |p: Seq<char>| is_kept(p);
        let ghost part = |p: Seq<char>| part_of(p);
        let mut path = FilePath { components: Vec::new() };
        let dot = ".".to_owned();
        let dots = "..".to_owned();
        proof {
            lemma_split_len(text@, '/');
            reveal_strlit(".");
            reveal_strlit("..");
            assert("."@ =~= seq!['.']);
            assert(".."@ =~= seq!['.', '.']);
            assert(all[0] == pieces[0]@);
            lemma_first_piece(text@);
        }
        if pieces[0].as_str().is_empty() {
            if !text.is_empty() {
                path.push(Component::RootDir);
            }
        } else if pieces[0] == dot {
            path.push(Component::CurDir);
        }
        let ghost start = path@;
        proof {
            reveal(Seq::filter);
            assert(all.take(0).filter(kept).map_values(part) =~= Seq::empty());
        }
        for i in 0..pieces.len()
            invariant
                all == pieces.deep_view(),
                kept == (|p: Seq<char>| is_kept(p)),
                part == (|p: Seq<char>| part_of(p)),
                dot@ == seq!['.'],
                dots@ == seq!['.', '.'],
                path@ =~= start + all.take(i as int).filter(kept).map_values(part),
        {
            proof {
                reveal(Seq::filter);
                assert(all.take(i + 1).drop_last() =~= all.take(i as int));
                assert(all[i as int] == pieces[i as int]@);
            }
            let ghost before = all.take(i as int).filter(kept);
            if !pieces[i].as_str().is_empty() && pieces[i] != dot {
                assert(before.push(all[i as int]).map_values(part) =~= before.map_values(part).push(
                    part_of(all[i as int]),
                ));
                if pieces[i] == dots {
                    path.push(Component::ParentDir);
                } else {
                    path.push(Component::Normal(pieces[i].as_str().as_bytes_vec()));
                }
            }
        }
        assert(all.take(all.len() as int) =~= all);
        assert(path@ =~= parsed(text@));
        proof {
            parsed_paths_are_sound(text@);
        }
        path
    }

    /// The path with the components of another one behind its own.
    pub fn extended_by(&self, other: &FilePath) -> (r: FilePath)
        ensures
            r@ == self@ + other@,
            is_sound(self@) && is_sound(other@) && can_follow(other@) ==> is_sound(r@),
    {
        let mut r = self.clone();
        for i in 0..other.components.len()
            invariant
                r@ =~= self@ + other@.take(i as int),
        {
            let component = other.components[i].clone();
            assert(component@ == other@[i as int]);
            r.push(component);
        }
        r
    }

    /// The path without its last component; `None` for the root directory and the empty path.
    pub fn parent(&self) -> (r: Option<FilePath>)
        ensures
            optional_path(r) == parent_of(self@),
            is_sound(self@) ==> (r matches Some(parent) ==> is_sound(parent@)),
    {
        let n = self.components.len();
        if n == 0 {
            return None;
        }
        assert(self@.last() == self.components@[n - 1]@);
        match &self.components[n - 1] {
            Component::RootDir => None,
            _ => {
                assert(self@.take(n - 1) =~= self@.drop_last());
                Some(self.prefix(n - 1))
            },
        }
    }

    /// Whether the path lies in `base` or is `base`, component by component.
    pub fn starts_with(&self, base: &FilePath) -> (r: bool)
        ensures
            r == base@.is_prefix_of(self@),
    {
        let n = base.components.len();
        if n > self.components.len() {
            return false;
        }
        for i in 0..n
            invariant
                n == base@.len() <= self@.len(),
                forall|j: int| 0 <= j < i ==> base@[j] == self@[j],
        {
            if !base.components[i].same(&self.components[i]) {
                assert(base@[i as int] != self@[i as int]);
                assert(self@.take(n as int)[i as int] == self@[i as int]);
                return false;
            }
            assert(base@[i as int] == self@[i as int]);
        }
        assert(base@ =~= self@.take(n as int));
        true
    }

    /// What is left of the path behind `base`; `None` where the path does not start with `base`.
    pub fn strip_prefix(&self, base: &FilePath) -> (r: Option<FilePath>)
        ensures
            match r {
                Some(rest) => base@.is_prefix_of(self@) && rest@ == self@.skip(base@.len() as int),
                None => !base@.is_prefix_of(self@),
            },
            is_sound(self@) ==> (r matches Some(rest) ==> is_sound(rest@)),
    {
        if !self.starts_with(base) {
            return None;
        }
        let mut rest = FilePath { components: Vec::new() };
        let n = base.components.len();
        for i in n..self.components.len()
            invariant
                n <= i,
                n == base@.len() <= self@.len(),
                rest@ =~= self@.subrange(n as int, i as int),
        {
            let component = self.components[i].clone();
            assert(component@ == self@[i as int]);
            rest.push(component);
        }
        assert(rest@ =~= self@.skip(n as int));
        Some(rest)
    }

    /// The bytes of the path.
    pub fn to_bytes(&self) -> (r: Vec<u8>)
        ensures
            r@ == path_bytes(self@),
    {
        let ghost parts = self@.map_values(|p: Part| part_bytes(p));
        if self.components.len() == 1 {
            assert(self@ =~= seq![self.components@[0]@]);
            assert(parts =~= seq![part_bytes(self@[0])]);
            return match &self.components[0] {
                Component::RootDir => vec![47u8],
                _ => self.components[0].bytes(),
            };
        }
        assert(self@ != seq![Part::RootDir]);
        let mut r: Vec<u8> = Vec::new();
        assert(parts.take(0) =~= Seq::empty());
        for i in 0..self.components.len()
            invariant
                parts == self@.map_values(|p: Part| part_bytes(p)),
                r@ == join(parts.take(i as int), 47u8),
        {
            assert(parts.take(i + 1).drop_last() =~= parts.take(i as int));
            if i > 0 {
                r.push(47u8);
            }
            let mut bytes = self.components[i].bytes();
            r.append(&mut bytes);
            assert(r@ =~= join(parts.take(i + 1), 47u8));
        }
        assert(parts.take(parts.len() as int) =~= parts);
        r
    }
}

/// The first piece of a text is empty just where the text is empty or starts with a slash.
pub proof fn lemma_first_piece(s: Seq<char>)
    ensures
        (split(s, '/')[0].len() == 0) == (s.len() == 0 || s[0] == '/'),
        s.len() > 0 && s[0] == '/' ==> split(s, '/').len() > 1,
    decreases s.len(),
{
    if s.len() > 0 {
        lemma_first_piece(s.drop_last());
        lemma_split_len(s.drop_last(), '/');
    }
}

/// The path as text for people; bytes that are not UTF-8 are replaced.
pub fn debug_path(p: &FilePath) -> (r: String)
    ensures
        r@ == text_of_bytes(path_bytes(p@)),
{
    from_utf8_lossy(p.to_bytes().as_slice())
}

/// Every path with a component at its end other than the root directory has a parent: all its
/// components but that one. The empty path and a path that ends in the root directory have none.
pub proof fn parents_are_all_but_the_last(path: Seq<Part>, last: Part)
    ensures
        !(last is RootDir) ==> parent_of(path.push(last)) == Some(path),
        parent_of(path.push(Part::RootDir)) is None,
        parent_of(Seq::empty()) is None,
{
    assert(path.push(last).drop_last() =~= path);
}

/// A path holds its components one for one, a name by its bytes.
pub proof fn paths_hold_their_components(path: FilePath, i: int)
    requires
        0 <= i < path.components@.len(),
    ensures
        path@.len() == path.components@.len(),
        path@[i] == (match path.components@[i] {
            Component::RootDir => Part::RootDir,
            Component::CurDir => Part::CurDir,
            Component::ParentDir => Part::ParentDir,
            Component::Normal(name) => Part::Normal(name@),
        }),
        optional_path(Some(path)) == Some(path@),
        optional_path(None) is None,
{
}

/// The components that pieces of text between slashes stand for, without those that do not count.
spec fn body_of(s: Seq<char>) -> Seq<Part> {
    split(s, '/').filter(|p: Seq<char>| is_kept(p)).map_values(|p: Seq<char>| part_of(p))
}

proof fn lemma_body_concat(a: Seq<char>, b: Seq<char>)
    ensures
        body_of(a.push('/') + b) == body_of(a) + body_of(b),
        split(a.push('/') + b, '/')[0] == split(a, '/')[0],
{
    let kept = |p: Seq<char>| is_kept(p);
    splitting_goes_by_the_separator(a, b, '/');
    lemma_split_len(a, '/');
    Seq::filter_distributes_over_add(split(a, '/'), split(b, '/'), kept);
    assert(body_of(a.push('/') + b) =~= body_of(a) + body_of(b));
}

proof fn lemma_body_of_nothing()
    ensures
        body_of(Seq::empty()) == Seq::<Part>::empty(),
        body_of(seq!['.']) == Seq::<Part>::empty(),
        split(seq!['.'], '/') == seq![seq!['.']],
{
    let kept = |p: Seq<char>| is_kept(p);
    reveal_with_fuel(Seq::filter, 2);
    splitting_goes_by_the_separator(Seq::empty(), Seq::empty(), '/');
    splitting_goes_by_the_separator(seq!['.'], Seq::empty(), '/');
    assert(seq![Seq::<char>::empty()].drop_last() =~= Seq::empty());
    assert(seq![seq!['.']].drop_last() =~= Seq::empty());
    assert(seq![Seq::<char>::empty()].filter(kept) =~= Seq::empty());
    assert(seq![seq!['.']].filter(kept) =~= Seq::empty());
    assert(body_of(Seq::empty()) =~= Seq::empty());
    assert(body_of(seq!['.']) =~= Seq::empty());
}

/// Joined pieces are parsed as one component each: `..` as the way to the parent, any other piece
/// as a name. A slash in front is the root directory, and a `.` in front the current one.
pub proof fn pieces_become_components(q: Seq<Seq<char>>)
    requires
        q.len() > 0,
        forall|i: int|
            0 <= i < q.len() ==> (#[trigger] q[i]).len() > 0 && !q[i].contains('/') && q[i] != seq![
                '.',
            ],
    ensures
        ({
            let text = join(q, '/');
            &&& parsed(text).len() == q.len()
            &&& forall|i: int|
                0 <= i < q.len() ==> (#[trigger] parsed(text)[i]) == (if q[i] == seq!['.', '.'] {
                    Part::ParentDir
                } else {
                    Part::Normal(encode_utf8(q[i]))
                })
            &&& parsed(seq!['/'] + text) == seq![Part::RootDir] + parsed(text)
            &&& parsed(seq!['.', '/'] + text) == seq![Part::CurDir] + parsed(text)
        }),
        parsed(Seq::empty()) == Seq::<Part>::empty(),
        parsed(seq!['/']) == seq![Part::RootDir],
        parsed(seq!['.']) == seq![Part::CurDir],
{
    let text = join(q, '/');
    let kept = |p: Seq<char>| is_kept(p);
    let none = Seq::<char>::empty();
    lemma_body_of_nothing();
    split_undoes_join(q, '/');
    lemma_filter_all(q, kept);
    lemma_first_piece(text);
    assert(body_of(text) == parsed(text));
    assert(none.push('/') + text =~= seq!['/'] + text);
    lemma_body_concat(none, text);
    assert(body_of(seq!['/'] + text) =~= parsed(text));
    assert(seq!['.'].push('/') + text =~= seq!['.', '/'] + text);
    lemma_body_concat(seq!['.'], text);
    assert(body_of(seq!['.', '/'] + text) =~= parsed(text));
    assert((seq!['.', '/'] + text)[0] == '.');
    assert(parsed(none) =~= Seq::empty()) by {
        splitting_goes_by_the_separator(none, none, '/');
    }
    assert(none.push('/') + none =~= seq!['/']);
    lemma_body_concat(none, none);
    assert(parsed(seq!['/']) =~= seq![Part::RootDir]);
    assert(parsed(seq!['.']) =~= seq![Part::CurDir]);
}

/// Repeated slashes, a `.` between slashes, and a slash or a `.` behind a slash at the end do not
/// count.
pub proof fn spellings_are_parsed_alike(a: Seq<char>, b: Seq<char>)
    ensures
        parsed(a + seq!['/', '/'] + b) == parsed(a + seq!['/'] + b),
        parsed(a + seq!['/', '.', '/'] + b) == parsed(a + seq!['/'] + b),
        a.len() > 0 ==> parsed(a + seq!['/']) == parsed(a),
        a.len() > 0 ==> parsed(a + seq!['/', '.']) == parsed(a),
{
    let none = Seq::<char>::empty();
    let dot = seq!['.'];
    lemma_body_of_nothing();
    lemma_first_piece(a);
    assert(a.push('/') + b =~= a + seq!['/'] + b);
    lemma_body_concat(a, b);
    assert(a.push('/') + none =~= a + seq!['/']);
    lemma_body_concat(a, none);
    assert((a + seq!['/']).push('/') + b =~= a + seq!['/', '/'] + b);
    lemma_body_concat(a + seq!['/'], b);
    assert(a.push('/') + dot =~= a + seq!['/', '.']);
    lemma_body_concat(a, dot);
    assert((a + seq!['/', '.']).push('/') + b =~= a + seq!['/', '.', '/'] + b);
    lemma_body_concat(a + seq!['/', '.'], b);
    assert(body_of(a) + Seq::empty() =~= body_of(a));
    if a.len() == 0 {
        assert((a + seq!['/', '/'] + b)[0] == '/');
        assert((a + seq!['/', '.', '/'] + b)[0] == '/');
        assert((a + seq!['/'] + b)[0] == '/');
    } else {
        assert((a + seq!['/', '/'] + b)[0] == a[0]);
        assert((a + seq!['/', '.', '/'] + b)[0] == a[0]);
        assert((a + seq!['/'] + b)[0] == a[0]);
        assert((a + seq!['/'])[0] == a[0]);
        assert((a + seq!['/', '.'])[0] == a[0]);
    }
}

/// The bytes of a path are those of its components with a slash between each two of them, where the
/// root directory is the slash in front.
pub proof fn paths_are_written_with_slashes(path: Seq<Part>, last: Part)
    ensures
        ({
            let bytes = match last {
                Part::RootDir => Seq::<u8>::empty(),
                Part::CurDir => seq![46u8],
                Part::ParentDir => seq![46u8, 46u8],
                Part::Normal(name) => name,
            };
            &&& path.len() > 0 && path != seq![Part::RootDir] ==> path_bytes(path.push(last))
                == path_bytes(path).push(47u8) + bytes
            &&& path_bytes(seq![Part::RootDir].push(last)) == seq![47u8] + bytes
            &&& !(last is RootDir) ==> path_bytes(seq![last]) == bytes
        }),
        path_bytes(seq![Part::RootDir]) == seq![47u8],
        path_bytes(Seq::empty()) == Seq::<u8>::empty(),
{
    let written = |p: Part| part_bytes(p);
    let top = seq![Part::RootDir];
    joining_puts_separators_between(path.map_values(written), part_bytes(last), 47u8);
    assert(path.push(last).map_values(written) =~= path.map_values(written).push(
        part_bytes(last),
    ));
    assert(path.push(last).len() == path.len() + 1);
    joining_puts_separators_between(top.map_values(written), part_bytes(last), 47u8);
    assert(top.push(last).map_values(written) =~= top.map_values(written).push(part_bytes(last)));
    assert(top.map_values(written) =~= seq![Seq::<u8>::empty()]);
    assert(join(top.map_values(written), 47u8).push(47u8) =~= seq![47u8]);
    assert(top.push(last).len() == 2);
    assert(seq![last].map_values(written) =~= seq![part_bytes(last)]);
    assert(seq![last][0] == last);
    assert(Seq::<Part>::empty().len() != top.len());
}

/// A path is shown as it was written, where it was written without repeated slashes and the like.
pub proof fn paths_are_shown_as_written(q: Seq<Seq<char>>)
    requires
        q.len() > 0,
        forall|i: int|
            0 <= i < q.len() ==> (#[trigger] q[i]).len() > 0 && !q[i].contains('/') && q[i] != seq![
                '.',
            ],
    ensures
        text_of_bytes(path_bytes(parsed(join(q, '/')))) == join(q, '/'),
        text_of_bytes(path_bytes(parsed(seq!['/'] + join(q, '/')))) == seq!['/'] + join(q, '/'),
{
    let text = join(q, '/');
    let path = parsed(text);
    let written = |p: Part| part_bytes(p);
    let encoded = q.map_values(|p: Seq<char>| encode_utf8(p));
    pieces_become_components(q);
    lemma_dots();
    assert forall|i: int| 0 <= i < q.len() implies #[trigger] path.map_values(written)[i]
        == encoded[i] by {
        assert(path[i] == parsed(text)[i]);
    }
    assert(path.map_values(written) =~= encoded);
    lemma_encode_join(q);
    assert(path[0] != Part::RootDir);
    assert(path_bytes(path) == encode_utf8(text));
    encoded_texts_are_read_back(text);
    let whole = seq![Part::RootDir] + path;
    let pieces = seq![Seq::<char>::empty()] + q;
    let none = encode_utf8(Seq::<char>::empty());
    assert(none =~= Seq::<u8>::empty());
    assert(whole.map_values(written) =~= seq![none] + encoded);
    assert(pieces.map_values(|p: Seq<char>| encode_utf8(p)) =~= seq![none] + encoded);
    lemma_encode_join(pieces);
    lemma_join_behind_nothing(q, '/');
    assert(whole.len() > 1);
    assert(path_bytes(whole) == encode_utf8(seq!['/'] + text));
    encoded_texts_are_read_back(seq!['/'] + text);
}

proof fn lemma_dots()
    ensures
        encode_utf8(seq!['.', '.']) == seq![46u8, 46u8],
{
    assert(vstd::utf8::is_ascii_chars(seq!['.', '.']));
    vstd::utf8::is_ascii_chars_encode_utf8(seq!['.', '.']);
    assert(encode_utf8(seq!['.', '.'])[0] == seq!['.', '.'][0] as u8);
    assert(encode_utf8(seq!['.', '.'])[1] == seq!['.', '.'][1] as u8);
    assert(encode_utf8(seq!['.', '.']) =~= seq![46u8, 46u8]);
}

proof fn lemma_join_behind_nothing(q: Seq<Seq<char>>, sep: char)
    requires
        q.len() > 0,
    ensures
        join(seq![Seq::<char>::empty()] + q, sep) == seq![sep] + join(q, sep),
    decreases q.len(),
{
    let none = Seq::<char>::empty();
    let whole = seq![none] + q;
    assert(whole.drop_last() =~= seq![none] + q.drop_last());
    if q.len() == 1 {
        assert(whole.drop_last() =~= seq![none]);
        assert(join(seq![none], sep) == none);
        assert(whole.last() == q[0]);
        assert(join(whole, sep) =~= seq![sep] + join(q, sep));
    } else {
        lemma_join_behind_nothing(q.drop_last(), sep);
        assert(join(whole, sep) =~= seq![sep] + join(q, sep));
    }
}

}
