//! Text: splitting, joining, trimming and decoding of the strings that paths and messages are
//! made of.

use vstd::prelude::*;
use vstd::string::StringExecFns;
use vstd::utf8::{decode_utf8, encode_utf8, valid_utf8};

verus! {

/// The pieces of `s` between the occurrences of `sep`; there is always at least one.
pub open spec fn split(s: Seq<char>, sep: char) -> Seq<Seq<char>>
    decreases s.len(),
{
    if s.len() == 0 {
        seq![Seq::<char>::empty()]
    } else {
        let before = split(s.drop_last(), sep);
        if s.last() == sep {
            before.push(Seq::<char>::empty())
        } else {
            before.drop_last().push(before.last().push(s.last()))
        }
    }
}

/// The parts one after the other, with `sep` between each two of them.
pub open spec fn join<T>(parts: Seq<Seq<T>>, sep: T) -> Seq<T>
    decreases parts.len(),
{
    if parts.len() == 0 {
        Seq::empty()
    } else if parts.len() == 1 {
        parts[0]
    } else {
        join(parts.drop_last(), sep).push(sep) + parts.last()
    }
}

/// The pieces of `s` between slashes, without the empty ones.
pub open spec fn names(s: Seq<char>) -> Seq<Seq<char>> {
    split(s, '/').filter(|p: Seq<char>| p.len() > 0)
}

/// `s` without the slashes that it starts with.
pub open spec fn without_leading_slashes(s: Seq<char>) -> Seq<char>
    decreases s.len(),
{
    if s.len() > 0 && s[0] == '/' {
        without_leading_slashes(s.drop_first())
    } else {
        s
    }
}

/// `s` with a slash in place of each backslash.
pub open spec fn forward_slashes(s: Seq<char>) -> Seq<char> {
    s.map_values(
        |c: char|
            if c == '\\' {
                '/'
            } else {
                c
            },
    )
}

/// Whether a character has the Unicode property White_Space.
pub open spec fn is_white_space(c: char) -> bool {
    let u = c as u32;
    ||| 0x9 <= u <= 0xd
    ||| u == 0x20 || u == 0x85 || u == 0xa0 || u == 0x1680
    ||| 0x2000 <= u <= 0x200a
    ||| u == 0x2028 || u == 0x2029 || u == 0x202f || u == 0x205f || u == 0x3000
}

/// `s` without the white space that it starts with.
pub open spec fn trimmed_start(s: Seq<char>) -> Seq<char>
    decreases s.len(),
{
    if s.len() > 0 && is_white_space(s[0]) {
        trimmed_start(s.drop_first())
    } else {
        s
    }
}

/// `s` without the white space that it ends with.
pub open spec fn trimmed_end(s: Seq<char>) -> Seq<char>
    decreases s.len(),
{
    if s.len() > 0 && is_white_space(s.last()) {
        trimmed_end(s.drop_last())
    } else {
        s
    }
}

/// `s` without the white space around it.
pub open spec fn trimmed(s: Seq<char>) -> Seq<char> {
    trimmed_end(trimmed_start(s))
}

/// `str::trim` of the standard library: the text without leading and trailing white space, as
/// the Unicode property White_Space defines it.
pub assume_specification[ str::trim ](s: &str) -> (r: &str)
    ensures
        r@ == trimmed(s@),
;

/// `String::push` of the standard library: appends one character.
pub assume_specification[ String::push ](s: &mut String, c: char)
    ensures
        final(s)@ == old(s)@.push(c),
;

/// The longest beginning of `bytes` that is UTF-8.
pub open spec fn valid_prefix(bytes: Seq<u8>) -> Seq<u8>
    decreases bytes.len(),
{
    if bytes.len() == 0 || valid_utf8(bytes) {
        bytes
    } else {
        valid_prefix(bytes.drop_last())
    }
}

/// What `String::from_utf8_lossy` puts behind the first replacement character, by the bytes from
/// the first ones on that are not UTF-8.
pub uninterp spec fn lossy_text(bytes: Seq<u8>) -> Seq<char>;

/// Bytes as text: decoded where they are UTF-8; elsewhere their UTF-8 beginning is decoded and a
/// replacement character stands behind it.
pub open spec fn text_of_bytes(bytes: Seq<u8>) -> Seq<char> {
    let start = valid_prefix(bytes);
    if start.len() == bytes.len() {
        decode_utf8(bytes)
    } else {
        decode_utf8(start).push('\u{fffd}') + lossy_text(bytes.skip(start.len() as int))
    }
}

/// `String::from_utf8_lossy` of the standard library: bytes that are UTF-8 are decoded. Of other
/// bytes the beginning up to the first invalid sequence is decoded and that sequence replaced by
/// U+FFFD; what comes behind depends on the bytes from that sequence on alone, and no more is said
/// of it.
#[verifier::external_body]
pub(crate) fn from_utf8_lossy(bytes: &[u8]) -> (r: String)
    ensures
        ({
            let start = valid_prefix(bytes@);
            r@ == if start.len() == bytes@.len() {
                decode_utf8(bytes@)
            } else {
                decode_utf8(start).push('\u{fffd}') + lossy_text(bytes@.skip(start.len() as int))
            }
        }),
{
    String::from_utf8_lossy(bytes).into_owned()
}

/// Splits `s` at each `sep`.
pub fn split_at_each(s: &str, sep: char) -> (r: Vec<String>)
    ensures
        r.deep_view() == split(s@, sep),
{
    let mut done: Vec<String> = Vec::new();
    let mut piece = String::new();
    assert(s@.take(0) =~= Seq::empty());
    assert(done.deep_view().push(piece@) =~= seq![Seq::<char>::empty()]);
    for c in it: s.chars()
        invariant
            it.seq() == s@,
            split(s@.take(it.index()), sep) == done.deep_view().push(piece@),
    {
        let ghost i = it.index();
        let ghost before = done.deep_view();
        assert(s@.take(i + 1).drop_last() =~= s@.take(i));
        if c == sep {
            done.push(piece);
            piece = String::new();
            assert(done.deep_view() =~= before.push(done.deep_view().last()));
        } else {
            piece.push(c);
            assert(before.push(piece@).drop_last() =~= before);
        }
        assert(split(s@.take(i + 1), sep) =~= done.deep_view().push(piece@));
    }
    assert(s@.take(s@.len() as int) =~= s@);
    let ghost before = done.deep_view();
    let ghost last = piece@;
    done.push(piece);
    assert(done.deep_view() =~= before.push(last));
    done
}

/// The pieces of `s` between slashes, without the empty ones.
pub fn split_names(s: &str) -> (r: Vec<String>)
    ensures
        r.deep_view() == names(s@),
{
    let pieces = split_at_each(s, '/');
    let mut kept: Vec<String> = Vec::new();
    let ghost all = pieces.deep_view();
    let ghost full = |p: Seq<char>| p.len() > 0;
    proof {
        reveal(Seq::filter);
        assert(all.take(0).filter(full) =~= kept.deep_view());
    }
    for i in 0..pieces.len()
        invariant
            all == pieces.deep_view(),
            full == (|p: Seq<char>| p.len() > 0),
            kept.deep_view() == all.take(i as int).filter(full),
    {
        let ghost before = kept.deep_view();
        proof {
            reveal(Seq::filter);
            assert(all.take(i + 1).drop_last() =~= all.take(i as int));
            assert(all[i as int] == pieces[i as int]@);
        }
        if !pieces[i].as_str().is_empty() {
            let piece = pieces[i].clone();
            kept.push(piece);
            assert(kept.deep_view() =~= before.push(pieces[i as int]@));
        }
    }
    assert(all.take(all.len() as int) =~= all);
    kept
}

/// `s` without the slashes that it starts with.
pub fn strip_leading_slashes(s: &str) -> (r: String)
    ensures
        r@ == without_leading_slashes(s@),
{
    let mut r = String::new();
    let mut leading = true;
    assert(s@.skip(0) =~= s@);
    for c in it: s.chars()
        invariant
            it.seq() == s@,
            leading ==> r@.len() == 0 && without_leading_slashes(s@)
                == without_leading_slashes(s@.skip(it.index())),
            !leading ==> without_leading_slashes(s@) =~= r@ + s@.skip(it.index()),
    {
        let ghost i = it.index();
        assert(s@.skip(i).drop_first() =~= s@.skip(i + 1));
        if c != '/' {
            leading = false;
        }
        if !leading {
            r.push(c);
        }
    }
    r
}

/// `s` with a slash in place of each backslash.
pub fn with_forward_slashes(s: &str) -> (r: String)
    ensures
        r@ == forward_slashes(s@),
{
    let mut r = String::new();
    for c in it: s.chars()
        invariant
            it.seq() == s@,
            r@ =~= forward_slashes(s@.take(it.index())),
    {
        let ghost i = it.index();
        assert(s@.take(i + 1) =~= s@.take(i).push(c));
        if c == '\\' {
            r.push('/');
        } else {
            r.push(c);
        }
    }
    assert(s@.take(s@.len() as int) =~= s@);
    r
}

/// Whether `wanted` occurs in `s`.
pub fn contains_char(s: &str, wanted: char) -> (r: bool)
    ensures
        r == s@.contains(wanted),
{
    for c in it: s.chars()
        invariant
            it.seq() == s@,
            !s@.take(it.index()).contains(wanted),
    {
        let ghost i = it.index();
        assert(s@.take(i + 1) =~= s@.take(i).push(c));
        if c == wanted {
            assert(s@[i] == wanted);
            return true;
        }
    }
    assert(s@.take(s@.len() as int) =~= s@);
    false
}

/// The two texts one after the other.
pub fn concat(a: &str, b: &str) -> (r: String)
    ensures
        r@ == a@ + b@,
{
    let mut r = a.to_owned();
    r.append(b);
    r
}

/// Every split has a piece.
pub proof fn lemma_split_len(s: Seq<char>, sep: char)
    ensures
        split(s, sep).len() >= 1,
    decreases s.len(),
{
    if s.len() > 0 {
        lemma_split_len(s.drop_last(), sep);
    }
}

/// No piece of a split holds the separator.
pub proof fn lemma_split_pieces(s: Seq<char>, sep: char)
    ensures
        forall|i: int|
            0 <= i < split(s, sep).len() ==> !(#[trigger] split(s, sep)[i]).contains(sep),
    decreases s.len(),
{
    if s.len() > 0 {
        let before = split(s.drop_last(), sep);
        lemma_split_pieces(s.drop_last(), sep);
        lemma_split_len(s.drop_last(), sep);
        assert forall|i: int| 0 <= i < split(s, sep).len() implies !(#[trigger] split(
            s,
            sep,
        )[i]).contains(sep) by {
            if s.last() != sep && i == before.len() - 1 {
                assert(!before[i].contains(sep));
                let piece = before[i].push(s.last());
                if piece.contains(sep) {
                    let k = choose|k: int| 0 <= k < piece.len() && piece[k] == sep;
                    assert(before[i][k] == sep);
                }
            }
        }
    }
}

/// Joining the pieces of a text again gives the text.
pub proof fn join_undoes_split(s: Seq<char>, sep: char)
    ensures
        join(split(s, sep), sep) == s,
    decreases s.len(),
{
    if s.len() > 0 {
        let before = split(s.drop_last(), sep);
        lemma_split_len(s.drop_last(), sep);
        join_undoes_split(s.drop_last(), sep);
        let now = split(s, sep);
        if s.last() == sep {
            assert(now.drop_last() =~= before);
            assert(join(now, sep) =~= s.drop_last().push(sep));
        } else {
            assert(now.drop_last() =~= before.drop_last());
            assert(join(now, sep) =~= join(before, sep).push(s.last()));
        }
        assert(s.drop_last().push(s.last()) =~= s);
    }
}

/// A text with a separator in it splits into the pieces before and the pieces after it.
proof fn lemma_split_concat(a: Seq<char>, b: Seq<char>, sep: char)
    ensures
        split(a.push(sep) + b, sep) == split(a, sep) + split(b, sep),
    decreases b.len(),
{
    let whole = a.push(sep) + b;
    if b.len() == 0 {
        assert(whole.drop_last() =~= a);
        assert(split(whole, sep) =~= split(a, sep) + split(b, sep));
    } else {
        lemma_split_concat(a, b.drop_last(), sep);
        lemma_split_len(b.drop_last(), sep);
        assert(whole.drop_last() =~= a.push(sep) + b.drop_last());
        assert(split(whole, sep) =~= split(a, sep) + split(b, sep));
    }
}

/// A text without the separator is its own only piece.
proof fn lemma_split_whole(s: Seq<char>, sep: char)
    requires
        !s.contains(sep),
    ensures
        split(s, sep) == seq![s],
    decreases s.len(),
{
    if s.len() > 0 {
        assert(s[s.len() - 1] == s.last());
        assert(!s.drop_last().contains(sep)) by {
            if s.drop_last().contains(sep) {
                let k = choose|k: int| 0 <= k < s.len() - 1 && s.drop_last()[k] == sep;
                assert(s[k] == sep);
            }
        }
        lemma_split_whole(s.drop_last(), sep);
        assert(s.drop_last().push(s.last()) =~= s);
        assert(split(s, sep) =~= seq![s]);
    } else {
        assert(s =~= Seq::empty());
    }
}

/// Splitting joined parts gives the parts back, where none of them holds the separator.
pub proof fn split_undoes_join(parts: Seq<Seq<char>>, sep: char)
    requires
        parts.len() > 0,
        forall|i: int| 0 <= i < parts.len() ==> !(#[trigger] parts[i]).contains(sep),
    ensures
        split(join(parts, sep), sep) == parts,
    decreases parts.len(),
{
    lemma_split_whole(parts.last(), sep);
    if parts.len() == 1 {
        assert(parts =~= seq![parts[0]]);
    } else {
        let init = parts.drop_last();
        assert forall|i: int| 0 <= i < init.len() implies !(#[trigger] init[i]).contains(sep) by {
            assert(init[i] == parts[i]);
        }
        split_undoes_join(init, sep);
        lemma_split_concat(join(init, sep), parts.last(), sep);
        assert(init + seq![parts.last()] =~= parts);
    }
}

/// The names in joined names are those names.
pub proof fn names_undoes_join(parts: Seq<Seq<char>>)
    requires
        forall|i: int|
            0 <= i < parts.len() ==> (#[trigger] parts[i]).len() > 0 && !parts[i].contains('/'),
    ensures
        names(join(parts, '/')) == parts,
{
    let full = |p: Seq<char>| p.len() > 0;
    if parts.len() == 0 {
        reveal_with_fuel(Seq::filter, 2);
        assert(split(join(parts, '/'), '/') =~= seq![Seq::<char>::empty()]);
        assert(seq![Seq::<char>::empty()].drop_last() =~= Seq::empty());
        assert(names(join(parts, '/')) =~= parts);
    } else {
        split_undoes_join(parts, '/');
        lemma_filter_all(parts, full);
    }
}

/// A filter that every element passes keeps the sequence.
pub proof fn lemma_filter_all<A>(s: Seq<A>, pred: spec_fn(A) -> bool)
    requires
        forall|i: int| 0 <= i < s.len() ==> pred(#[trigger] s[i]),
    ensures
        s.filter(pred) == s,
    decreases s.len(),
{
    reveal(Seq::filter);
    if s.len() > 0 {
        lemma_filter_all(s.drop_last(), pred);
        assert(s.drop_last().push(s.last()) =~= s);
    }
}

/// Each name is a piece between slashes: it is not empty and holds no slash.
pub proof fn lemma_names(s: Seq<char>)
    ensures
        forall|i: int|
            0 <= i < names(s).len() ==> (#[trigger] names(s)[i]).len() > 0 && !names(s)[i].contains(
                '/',
            ),
{
    let full = |p: Seq<char>| p.len() > 0;
    let all = split(s, '/');
    lemma_split_pieces(s, '/');
    assert forall|i: int| 0 <= i < names(s).len() implies (#[trigger] names(s)[i]).len() > 0
        && !names(s)[i].contains('/') by {
        all.lemma_filter_pred(full, i);
        all.lemma_filter_contains_rev(full, names(s)[i]);
        let k = choose|k: int| 0 <= k < all.len() && all[k] == names(s)[i];
        assert(!all[k].contains('/'));
    }
}

/// The UTF-8 encoding of two texts in a row is the two encodings in a row.
proof fn lemma_encode_concat(a: Seq<char>, b: Seq<char>)
    ensures
        encode_utf8(a + b) == encode_utf8(a) + encode_utf8(b),
    decreases a.len(),
{
    if a.len() == 0 {
        assert(a + b =~= b);
        assert(encode_utf8(a) + encode_utf8(b) =~= encode_utf8(b));
    } else {
        assert((a + b).drop_first() =~= a.drop_first() + b);
        lemma_encode_concat(a.drop_first(), b);
        assert(encode_utf8(a + b) =~= encode_utf8(a) + encode_utf8(b));
    }
}

/// The UTF-8 encoding of joined texts is their encodings, joined.
pub proof fn lemma_encode_join(parts: Seq<Seq<char>>)
    ensures
        encode_utf8(join(parts, '/')) == join(
            parts.map_values(|p: Seq<char>| encode_utf8(p)),
            47u8,
        ),
    decreases parts.len(),
{
    let encoded = parts.map_values(|p: Seq<char>| encode_utf8(p));
    if parts.len() > 1 {
        let init = parts.drop_last();
        lemma_encode_join(init);
        assert(encoded.drop_last() =~= init.map_values(|p: Seq<char>| encode_utf8(p)));
        lemma_encode_concat(join(init, '/').push('/'), parts.last());
        lemma_encode_concat(join(init, '/'), seq!['/']);
        assert(join(init, '/') + seq!['/'] =~= join(init, '/').push('/'));
        lemma_encode_slash();
        assert(join(encoded.drop_last(), 47u8) + seq![47u8] =~= join(
            encoded.drop_last(),
            47u8,
        ).push(47u8));
    }
}

/// The UTF-8 encoding of a slash is one byte.
proof fn lemma_encode_slash()
    ensures
        encode_utf8(seq!['/']) == seq![47u8],
{
    assert(vstd::utf8::is_ascii_chars(seq!['/']));
    vstd::utf8::is_ascii_chars_encode_utf8(seq!['/']);
    assert(seq!['/'][0] as u8 == encode_utf8(seq!['/'])[0]);
    assert(encode_utf8(seq!['/']) =~= seq![47u8]);
}

/// A text without a slash has no slash among the bytes of its UTF-8 encoding.
pub proof fn lemma_encode_without_slash(s: Seq<char>)
    requires
        !s.contains('/'),
    ensures
        !encode_utf8(s).contains(47u8),
{
    lemma_encode_without(s, '/');
}

/// A text without a backslash has no backslash among the bytes of its UTF-8 encoding.
pub proof fn lemma_encode_without_backslash(s: Seq<char>)
    requires
        !s.contains('\\'),
    ensures
        !encode_utf8(s).contains(92u8),
{
    lemma_encode_without(s, '\\');
}

proof fn lemma_encode_without(s: Seq<char>, c: char)
    requires
        c == '/' || c == '\\',
        !s.contains(c),
    ensures
        !encode_utf8(s).contains(c as u8),
{
    let bytes = encode_utf8(s);
    let b = c as u8;
    vstd::utf8::encode_utf8_valid_utf8(s);
    vstd::utf8::encode_utf8_decode_utf8(s);
    if bytes.contains(b) {
        let at = choose|at: int| 0 <= at < bytes.len() && bytes[at] == b;
        vstd::utf8::is_char_boundary_iff_not_is_continuation_byte(bytes, at);
        vstd::utf8::valid_utf8_split(bytes, at);
        vstd::utf8::decode_utf8_split(bytes, at);
        let right = bytes.subrange(at, bytes.len() as int);
        let left = decode_utf8(bytes.subrange(0, at));
        let behind = right.skip(1);
        assert(vstd::utf8::pop_first_scalar(right) =~= behind);
        let rest = decode_utf8(behind);
        lemma_encode_concat(seq![c], rest);
        lemma_encode_one(c);
        vstd::utf8::decode_utf8_encode_utf8(behind);
        assert(seq![b] + behind =~= right);
        vstd::utf8::encode_utf8_decode_utf8(seq![c] + rest);
        assert(s[left.len() as int] == c);
    }
}

proof fn lemma_encode_one(c: char)
    requires
        c as u32 <= 0x7f,
    ensures
        encode_utf8(seq![c]) == seq![c as u8],
{
    assert(vstd::utf8::is_ascii_chars(seq![c]));
    vstd::utf8::is_ascii_chars_encode_utf8(seq![c]);
    assert(seq![c][0] as u8 == encode_utf8(seq![c])[0]);
    assert(encode_utf8(seq![c]) =~= seq![c as u8]);
}

/// Bytes that are text are none just where the text is empty.
pub proof fn lemma_text_is_empty(bytes: Seq<u8>)
    ensures
        text_of_bytes(bytes).len() == 0 <==> bytes.len() == 0,
{
    lemma_valid_prefix(bytes);
    if valid_prefix(bytes).len() == bytes.len() {
        vstd::utf8::decode_utf8_encode_utf8(bytes);
        if decode_utf8(bytes).len() == 0 {
            assert(decode_utf8(bytes) =~= Seq::empty());
        }
        if bytes.len() == 0 {
            assert(bytes =~= encode_utf8(Seq::empty()));
            vstd::utf8::encode_utf8_decode_utf8(Seq::empty());
        }
    }
}

/// The beginning that is UTF-8 is UTF-8, and the whole where it is as long.
proof fn lemma_valid_prefix(bytes: Seq<u8>)
    ensures
        valid_utf8(valid_prefix(bytes)),
        valid_prefix(bytes).len() <= bytes.len(),
        valid_prefix(bytes).len() == bytes.len() ==> valid_prefix(bytes) == bytes,
    decreases bytes.len(),
{
    if bytes.len() > 0 && !valid_utf8(bytes) {
        lemma_valid_prefix(bytes.drop_last());
    }
}

/// An ASCII character that does not occur among the bytes of a text does not occur in the text.
pub proof fn lemma_decode_contains(bytes: Seq<u8>, c: char)
    requires
        valid_utf8(bytes),
        c as u32 <= 0x7f,
        !bytes.contains(c as u8),
    ensures
        !decode_utf8(bytes).contains(c),
{
    let s = decode_utf8(bytes);
    vstd::utf8::decode_utf8_encode_utf8(bytes);
    if s.contains(c) {
        let k = choose|k: int| 0 <= k < s.len() && s[k] == c;
        assert(s =~= s.take(k) + (seq![c] + s.skip(k + 1)));
        lemma_encode_concat(s.take(k), seq![c] + s.skip(k + 1));
        lemma_encode_concat(seq![c], s.skip(k + 1));
        assert(vstd::utf8::is_ascii_chars(seq![c]));
        vstd::utf8::is_ascii_chars_encode_utf8(seq![c]);
        assert(seq![c][0] as u8 == encode_utf8(seq![c])[0]);
        assert(bytes[encode_utf8(s.take(k)).len() as int] == c as u8);
    }
}

/// Texts in a row, with forward slashes.
pub proof fn lemma_forward_slashes(a: Seq<char>, b: Seq<char>)
    ensures
        forward_slashes(a + b) == forward_slashes(a) + forward_slashes(b),
        !a.contains('\\') ==> forward_slashes(a) == a,
{
    assert(forward_slashes(a + b) =~= forward_slashes(a) + forward_slashes(b));
    if !a.contains('\\') {
        assert forall|i: int| 0 <= i < a.len() implies a[i] != '\\' by {}
        assert(forward_slashes(a) =~= a);
    }
}

/// Joined parts start with the first part and, where there are more, a separator.
pub proof fn lemma_join_first<T>(parts: Seq<Seq<T>>, sep: T)
    requires
        parts.len() > 0,
    ensures
        parts.len() == 1 ==> join(parts, sep) == parts[0],
        parts.len() > 1 ==> parts[0].push(sep).is_prefix_of(join(parts, sep)),
    decreases parts.len(),
{
    if parts.len() > 1 {
        lemma_join_first(parts.drop_last(), sep);
    }
}

/// Splitting goes by the separator alone: a text without it is its own only piece, and the pieces
/// of a text with a separator in it are those in front of the separator and those behind it.
pub proof fn splitting_goes_by_the_separator(a: Seq<char>, b: Seq<char>, sep: char)
    ensures
        split(a.push(sep) + b, sep) == split(a, sep) + split(b, sep),
        !a.contains(sep) ==> split(a, sep) == seq![a],
{
    lemma_split_concat(a, b, sep);
    if !a.contains(sep) {
        lemma_split_whole(a, sep);
    }
}

/// Joining puts a separator between each two parts, and nothing else.
pub proof fn joining_puts_separators_between<T>(parts: Seq<Seq<T>>, part: Seq<T>, sep: T)
    ensures
        join(Seq::<Seq<T>>::empty(), sep) == Seq::<T>::empty(),
        join(seq![part], sep) == part,
        parts.len() > 0 ==> join(parts.push(part), sep) == join(parts, sep).push(sep) + part,
{
    assert(parts.push(part).drop_last() =~= parts);
}

/// The names of a text are what stands between slashes: the names in front of a slash and those
/// behind it; a text without a slash is a name, unless it is empty.
pub proof fn names_stand_between_slashes(a: Seq<char>, b: Seq<char>)
    ensures
        names(a.push('/') + b) == names(a) + names(b),
        a.len() > 0 && !a.contains('/') ==> names(a) == seq![a],
        names(Seq::empty()) == Seq::<Seq<char>>::empty(),
{
    let full = |p: Seq<char>| p.len() > 0;
    lemma_split_concat(a, b, '/');
    Seq::filter_distributes_over_add(split(a, '/'), split(b, '/'), full);
    if a.len() > 0 && !a.contains('/') {
        names_undoes_join(seq![a]);
    }
    names_undoes_join(Seq::empty());
}

/// Of a text that starts with `n` slashes and no more, just these are left out.
pub proof fn only_the_slashes_in_front_are_left_out(s: Seq<char>, n: int)
    requires
        0 <= n <= s.len(),
        forall|i: int| 0 <= i < n ==> s[i] == '/',
        n < s.len() ==> s[n] != '/',
    ensures
        without_leading_slashes(s) == s.skip(n),
    decreases n,
{
    if n > 0 {
        let rest = s.drop_first();
        assert forall|i: int| 0 <= i < n - 1 implies rest[i] == '/' by {
            assert(rest[i] == s[i + 1]);
        }
        only_the_slashes_in_front_are_left_out(rest, n - 1);
        assert(rest.skip(n - 1) =~= s.skip(n));
    } else {
        assert(s.skip(0) =~= s);
    }
}

/// With forward slashes a text keeps its length and each character but the backslashes, which
/// become slashes.
pub proof fn only_backslashes_become_slashes(s: Seq<char>)
    ensures
        forward_slashes(s).len() == s.len(),
        forall|i: int|
            0 <= i < s.len() ==> (#[trigger] forward_slashes(s)[i]) == (if s[i] == '\\' {
                '/'
            } else {
                s[i]
            }),
{
}

/// White space are the tab, the line breaks, the space, and the spaces of Unicode.
pub proof fn white_space_is_listed(c: char)
    ensures
        is_white_space(c) <==> {
            ||| c == '\t' || c == '\n' || c == '\u{b}' || c == '\u{c}' || c == '\r' || c == ' '
            ||| c == '\u{85}' || c == '\u{a0}' || c == '\u{1680}'
            ||| '\u{2000}' <= c <= '\u{200a}'
            ||| c == '\u{2028}' || c == '\u{2029}' || c == '\u{202f}' || c == '\u{205f}'
            ||| c == '\u{3000}'
        },
{
}

/// Whether a text is white space through and through.
pub open spec fn is_blank(s: Seq<char>) -> bool {
    forall|i: int| 0 <= i < s.len() ==> is_white_space(#[trigger] s[i])
}

/// Trimming takes away the white space at both ends, and nothing else: what stands between it and
/// does not start or end with white space stays as it is.
pub proof fn trimming_takes_white_space_at_the_ends(a: Seq<char>, s: Seq<char>, b: Seq<char>)
    requires
        is_blank(a),
        is_blank(b),
        s.len() > 0 ==> !is_white_space(s[0]) && !is_white_space(s.last()),
    ensures
        trimmed(a + s + b) == s,
{
    lemma_trimmed_start(a, s + b);
    assert(a + (s + b) =~= a + s + b);
    if s.len() > 0 {
        assert((s + b)[0] == s[0]);
        assert(trimmed_start(s + b) == s + b);
        lemma_trimmed_end(s, b);
    } else {
        assert(s + b =~= b + Seq::empty());
        lemma_trimmed_start(b, Seq::empty());
        assert(trimmed_start(b + Seq::empty()) =~= Seq::empty());
        assert(s =~= Seq::empty());
    }
}

proof fn lemma_trimmed_start(a: Seq<char>, s: Seq<char>)
    requires
        is_blank(a),
    ensures
        trimmed_start(a + s) == trimmed_start(s),
    decreases a.len(),
{
    if a.len() > 0 {
        assert((a + s)[0] == a[0]);
        assert((a + s).drop_first() =~= a.drop_first() + s);
        assert(is_blank(a.drop_first())) by {
            assert forall|i: int| 0 <= i < a.len() - 1 implies is_white_space(
                #[trigger] a.drop_first()[i],
            ) by {
                assert(a.drop_first()[i] == a[i + 1]);
            }
        }
        lemma_trimmed_start(a.drop_first(), s);
    } else {
        assert(a + s =~= s);
    }
}

proof fn lemma_trimmed_end(s: Seq<char>, b: Seq<char>)
    requires
        is_blank(b),
        s.len() > 0,
        !is_white_space(s.last()),
    ensures
        trimmed_end(s + b) == s,
    decreases b.len(),
{
    if b.len() > 0 {
        assert((s + b).last() == b.last());
        assert(b.last() == b[b.len() - 1]);
        assert((s + b).drop_last() =~= s + b.drop_last());
        assert(is_blank(b.drop_last())) by {
            assert forall|i: int| 0 <= i < b.len() - 1 implies is_white_space(
                #[trigger] b.drop_last()[i],
            ) by {
                assert(b.drop_last()[i] == b[i]);
            }
        }
        lemma_trimmed_end(s, b.drop_last());
    } else {
        assert(s + b =~= s);
    }
}

/// Trimming leaves something of a text just where some character of it is not white space.
pub proof fn trimming_empties_blank_texts(s: Seq<char>)
    ensures
        trimmed(s).len() == 0 <==> is_blank(s),
{
    if is_blank(s) {
        assert(s + Seq::empty() + Seq::empty() =~= s);
        trimming_takes_white_space_at_the_ends(s, Seq::empty(), Seq::empty());
    } else {
        let k = choose|k: int| 0 <= k < s.len() && !is_white_space(#[trigger] s[k]);
        lemma_trimmed_keeps(s, k);
    }
}

proof fn lemma_trimmed_keeps(s: Seq<char>, k: int)
    requires
        0 <= k < s.len(),
        !is_white_space(s[k]),
    ensures
        trimmed(s).len() > 0,
    decreases s.len(),
{
    if is_white_space(s[0]) {
        assert(s.drop_first()[k - 1] == s[k]);
        lemma_trimmed_keeps(s.drop_first(), k - 1);
    } else {
        lemma_trimmed_end_keeps(s, 0);
    }
}

proof fn lemma_trimmed_end_keeps(s: Seq<char>, k: int)
    requires
        0 <= k < s.len(),
        !is_white_space(s[k]),
    ensures
        trimmed_end(s).len() > 0,
    decreases s.len(),
{
    if is_white_space(s.last()) {
        assert(s.drop_last()[k] == s[k]);
        lemma_trimmed_end_keeps(s.drop_last(), k);
    }
}

/// Bytes that are UTF-8 are read as the text that they encode.
pub proof fn encoded_texts_are_read_back(s: Seq<char>)
    ensures
        text_of_bytes(encode_utf8(s)) == s,
{
    vstd::utf8::encode_utf8_valid_utf8(s);
    vstd::utf8::encode_utf8_decode_utf8(s);
}

/// Of other bytes the longest beginning that is UTF-8 is read as what it encodes, and a replacement
/// character stands behind it.
pub proof fn other_bytes_are_replaced(bytes: Seq<u8>, n: int)
    requires
        0 <= n < bytes.len(),
        valid_utf8(bytes.take(n)),
        forall|m: int| n < m <= bytes.len() ==> !valid_utf8(#[trigger] bytes.take(m)),
    ensures
        text_of_bytes(bytes) == decode_utf8(bytes.take(n)).push('\u{fffd}') + lossy_text(
            bytes.skip(n),
        ),
{
    lemma_longest_prefix(bytes, n);
}

proof fn lemma_longest_prefix(bytes: Seq<u8>, n: int)
    requires
        0 <= n <= bytes.len(),
        valid_utf8(bytes.take(n)),
        forall|m: int| n < m <= bytes.len() ==> !valid_utf8(#[trigger] bytes.take(m)),
    ensures
        valid_prefix(bytes) == bytes.take(n),
    decreases bytes.len(),
{
    assert(bytes.take(bytes.len() as int) =~= bytes);
    if n < bytes.len() {
        let shorter = bytes.drop_last();
        assert(shorter.take(n) =~= bytes.take(n));
        assert forall|m: int| n < m <= shorter.len() implies !valid_utf8(
            #[trigger] shorter.take(m),
        ) by {
            assert(shorter.take(m) =~= bytes.take(m));
        }
        lemma_longest_prefix(shorter, n);
    }
}

}
