//! Directory paths, as the bytes that the system spells them with.
//!
//! Two paths are the same where their bytes are.

use vstd::prelude::*;
use vstd::utf8::{decode_utf8, valid_utf8};

verus! {

/// The byte between two components of a path.
pub const SEPARATOR: u8 = 0x2f;

/// The byte of a dot.
pub const DOT: u8 = 0x2e;

/// The path without what does not change its last component: separators at its
/// end, and components `.` behind a separator.
pub open spec fn without_trailing(path: Seq<u8>) -> Seq<u8>
    decreases path.len(),
{
    let n = path.len();
    if n > 0 && path[n - 1] == SEPARATOR {
        without_trailing(path.drop_last())
    } else if n > 1 && path[n - 1] == DOT && path[n - 2] == SEPARATOR {
        without_trailing(path.drop_last())
    } else {
        path
    }
}

/// What follows the last separator.
pub open spec fn last_component(path: Seq<u8>) -> Seq<u8>
    decreases path.len(),
{
    if path.len() == 0 || path.last() == SEPARATOR {
        seq![]
    } else {
        last_component(path.drop_last()).push(path.last())
    }
}

/// The name of what the path leads to: its last component. The root has none,
/// nor has a path that ends in `..` or is `.`.
pub open spec fn name_in(path: Seq<u8>) -> Option<Seq<u8>> {
    let name = last_component(without_trailing(path));
    if name.len() == 0 || name == seq![DOT] || name == seq![DOT, DOT] {
        None
    } else {
        Some(name)
    }
}

/// The bytes `from..to` of `path`.
fn bytes_of(path: &[u8], from: usize, to: usize) -> (out: Vec<u8>)
    requires
        from <= to <= path@.len(),
    ensures
        out@ == path@.subrange(from as int, to as int),
{
    let mut out: Vec<u8> = Vec::new();
    let mut i: usize = from;
    while i < to
        invariant
            from <= i <= to <= path@.len(),
            out@ == path@.subrange(from as int, i as int),
        decreases to - i,
    {
        out.push(path[i]);
        assert(path@.subrange(from as int, i + 1) =~= path@.subrange(from as int, i as int).push(
            path@[i as int],
        ));
        i += 1;
    }
    out
}

/// A copy of `path`.
pub fn owned(path: &[u8]) -> (out: Vec<u8>)
    ensures
        out@ == path@,
{
    let out = bytes_of(path, 0, path.len());
    assert(out@ =~= path@);
    out
}

/// Whether `a` and `b` are the same path.
pub fn same_path(a: &[u8], b: &[u8]) -> (same: bool)
    ensures
        same == (a@ == b@),
{
    if a.len() != b.len() {
        return false;
    }
    let mut i: usize = 0;
    while i < a.len()
        invariant
            a@.len() == b@.len(),
            i <= a@.len(),
            forall|k: int| 0 <= k < i ==> a@[k] == b@[k],
        decreases a@.len() - i,
    {
        if a[i] != b[i] {
            return false;
        }
        i += 1;
    }
    assert(a@ =~= b@);
    true
}

/// The name of what `path` leads to.
pub fn file_name(path: &[u8]) -> (name: Option<Vec<u8>>)
    ensures
        match name {
            Some(name) => name_in(path@) == Some(name@),
            None => name_in(path@) is None,
        },
{
    let mut to: usize = path.len();
    assert(path@.take(to as int) =~= path@);
    while to > 0 && (path[to - 1] == SEPARATOR || (to > 1 && path[to - 1] == DOT && path[to - 2]
        == SEPARATOR))
        invariant
            to <= path@.len(),
            without_trailing(path@.take(to as int)) == without_trailing(path@),
        decreases to,
    {
        assert(path@.take(to as int).drop_last() =~= path@.take(to - 1));
        to -= 1;
    }
    let ghost kept = path@.take(to as int);
    let mut from: usize = to;
    assert(kept.skip(to as int) =~= seq![]);
    assert(kept.take(to as int) =~= kept);
    assert(last_component(kept) =~= last_component(kept.take(to as int)) + kept.skip(to as int));
    while from > 0 && path[from - 1] != SEPARATOR
        invariant
            from <= to <= path@.len(),
            kept == path@.take(to as int),
            last_component(kept) == last_component(kept.take(from as int)) + kept.skip(from as int),
        decreases from,
    {
        assert(kept.take(from as int).drop_last() =~= kept.take(from - 1));
        assert(last_component(kept.take(from - 1)) + kept.skip(from - 1) =~= last_component(
            kept.take(from as int),
        ) + kept.skip(from as int));
        from -= 1;
    }
    assert(last_component(kept.take(from as int)) =~= seq![]);
    let name = bytes_of(path, from, to);
    assert(name@ =~= last_component(kept));
    if name.len() == 0 || (name.len() == 1 && name[0] == DOT) || (name.len() == 2 && name[0] == DOT
        && name[1] == DOT) {
        assert(name@ =~= seq![] || name@ =~= seq![DOT] || name@ =~= seq![DOT, DOT]);
        None
    } else {
        assert(name@ != seq![DOT] && name@ != seq![DOT, DOT]) by {
            assert(name@.len() != 0);
            if name@ == seq![DOT] {
                assert(name@[0] == DOT);
            }
            if name@ == seq![DOT, DOT] {
                assert(name@[0] == DOT && name@[1] == DOT);
            }
        }
        Some(name)
    }
}

/// Whether the path starts at the root.
pub open spec fn is_absolute(path: Seq<u8>) -> bool {
    path.len() > 0 && path[0] == SEPARATOR
}

/// The pieces of the path between its separators; one piece where it has none.
pub open spec fn segments(path: Seq<u8>) -> Seq<Seq<u8>>
    decreases path.len(),
{
    if path.len() == 0 {
        seq![seq![]]
    } else {
        let before = segments(path.drop_last());
        if path.last() == SEPARATOR {
            before.push(seq![])
        } else {
            before.drop_last().push(before.last().push(path.last()))
        }
    }
}

/// The pieces that are components: not the empty ones, and `.` only as the very
/// first piece.
pub open spec fn named_segments(segments: Seq<Seq<u8>>) -> Seq<Seq<u8>>
    decreases segments.len(),
{
    if segments.len() == 0 {
        seq![]
    } else {
        let before = named_segments(segments.drop_last());
        let last = segments.last();
        if last.len() == 0 || (last == seq![DOT] && segments.len() > 1) {
            before
        } else {
            before.push(last)
        }
    }
}

/// The components of the path.
pub open spec fn components(path: Seq<u8>) -> Seq<Seq<u8>> {
    named_segments(segments(path))
}

/// The bytes of each path.
pub open spec fn path_bytes(paths: Seq<Vec<u8>>) -> Seq<Seq<u8>> {
    paths.map_values(|p: Vec<u8>| p@)
}

/// Pushing a path pushes its bytes.
pub broadcast proof fn lemma_path_bytes_push(paths: Seq<Vec<u8>>, path: Vec<u8>)
    ensures
        #[trigger] path_bytes(paths.push(path)) == path_bytes(paths).push(path@),
{
    assert(path_bytes(paths.push(path)) =~= path_bytes(paths).push(path@));
}

/// Split `path` into its pieces.
fn split_segments(path: &[u8]) -> (out: Vec<Vec<u8>>)
    ensures
        path_bytes(out@) == segments(path@),
{
    broadcast use lemma_path_bytes_push;

    let mut out: Vec<Vec<u8>> = Vec::new();
    let mut open: Vec<u8> = Vec::new();
    let mut i: usize = 0;
    assert(path_bytes(out@).push(open@) =~= seq![seq![]]);
    assert(path@.take(0) =~= seq![]);
    while i < path.len()
        invariant
            i <= path@.len(),
            path_bytes(out@).push(open@) == segments(path@.take(i as int)),
        decreases path@.len() - i,
    {
        let byte: u8 = path[i];
        let ghost before = path_bytes(out@);
        let ghost piece = open@;
        assert(path@.take(i + 1).drop_last() =~= path@.take(i as int));
        assert(before.push(piece).drop_last() =~= before);
        if byte == SEPARATOR {
            out.push(open);
            open = Vec::new();
        } else {
            open.push(byte);
        }
        assert(path_bytes(out@).push(open@) =~= segments(path@.take(i + 1)));
        i += 1;
    }
    assert(path@.take(i as int) =~= path@);
    out.push(open);
    out
}

/// The components of `path`.
pub fn split_components(path: &[u8]) -> (out: Vec<Vec<u8>>)
    ensures
        path_bytes(out@) == components(path@),
{
    broadcast use lemma_path_bytes_push;

    let all = split_segments(path);
    let ghost views = path_bytes(all@);
    let mut out: Vec<Vec<u8>> = Vec::new();
    let mut i: usize = 0;
    assert(path_bytes(out@) =~= seq![]);
    assert(views.take(0) =~= seq![]);
    while i < all.len()
        invariant
            i <= all@.len(),
            views == path_bytes(all@),
            path_bytes(out@) == named_segments(views.take(i as int)),
        decreases all@.len() - i,
    {
        let piece = all[i].as_slice();
        assert(views.take(i + 1).drop_last() =~= views.take(i as int));
        assert(views.take(i + 1).last() == piece@);
        let dot = piece.len() == 1 && piece[0] == DOT;
        assert(dot == (piece@ == seq![DOT])) by {
            if dot {
                assert(piece@ =~= seq![DOT]);
            }
        }
        if piece.len() != 0 && !(dot && i > 0) {
            out.push(owned(piece));
        }
        i += 1;
    }
    assert(views.take(i as int) =~= views);
    out
}

/// The text that `String::from_utf8_lossy` makes of bytes.
pub uninterp spec fn lossy(bytes: Seq<u8>) -> Seq<char>;

/// `String::from_utf8_lossy` of the standard library: the text depends on the
/// bytes alone, and is what they spell where they are UTF-8.
#[verifier::external_body]
pub(crate) fn lossy_text(bytes: &[u8]) -> (text: String)
    ensures
        text@ == lossy(bytes@),
        valid_utf8(bytes@) ==> text@ == decode_utf8(bytes@),
{
    String::from_utf8_lossy(bytes).into_owned()
}

/// Whether bytes that are UTF-8 read as they are spelled.
pub open spec fn reads_as_spelled(bytes: Seq<u8>) -> bool {
    valid_utf8(bytes) ==> lossy(bytes) == decode_utf8(bytes)
}

/// The bytes that a directory is called by: those of its name, or of its whole path
/// where it has none.
pub open spec fn name_bytes(path: Seq<u8>) -> Seq<u8> {
    match name_in(path) {
        Some(name) => name,
        None => path,
    }
}

/// What a directory is called.
pub open spec fn dir_name(path: Seq<u8>) -> Seq<char> {
    lossy(name_bytes(path))
}

/// What a directory is called.
pub fn called(path: &[u8]) -> (name: String)
    ensures
        name@ == dir_name(path@),
        reads_as_spelled(name_bytes(path@)),
{
    match file_name(path) {
        Some(name) => lossy_text(name.as_slice()),
        None => lossy_text(path),
    }
}

/// `std::str::from_utf8` of the standard library: the text that the bytes spell,
/// exactly where they are UTF-8.
#[verifier::external_body]
pub(crate) fn utf8_text(bytes: &[u8]) -> (text: Option<&str>)
    ensures
        match text {
            Some(text) => valid_utf8(bytes@) && text@ == decode_utf8(bytes@),
            None => !valid_utf8(bytes@),
        },
{
    std::str::from_utf8(bytes).ok()
}

/// Whether bytes can name a component: there are some, and none is a separator.
pub open spec fn is_piece(name: Seq<u8>) -> bool {
    name.len() > 0 && forall|i: int| 0 <= i < name.len() ==> #[trigger] name[i] != SEPARATOR
}

/// What follows the last separator is what stands behind it.
proof fn lemma_last_component(dir: Seq<u8>, name: Seq<u8>)
    requires
        forall|i: int| 0 <= i < name.len() ==> #[trigger] name[i] != SEPARATOR,
    ensures
        last_component(dir.push(SEPARATOR) + name) == name,
        last_component(name) == name,
    decreases name.len(),
{
    let path = dir.push(SEPARATOR) + name;
    if name.len() == 0 {
        assert(path =~= dir.push(SEPARATOR));
        assert(path.last() == SEPARATOR);
    } else {
        let fewer = name.drop_last();
        assert forall|i: int| 0 <= i < fewer.len() implies #[trigger] fewer[i] != SEPARATOR by {
            assert(fewer[i] == name[i]);
        }
        lemma_last_component(dir, fewer);
        assert(path.drop_last() =~= dir.push(SEPARATOR) + fewer);
        assert(path.last() == name[name.len() - 1]);
        assert(fewer.push(name.last()) =~= name);
    }
}

/// Separators at the end change nothing of what is left.
proof fn lemma_trailing_separators(path: Seq<u8>, n: nat)
    ensures
        without_trailing(path + Seq::new(n, |i: int| SEPARATOR)) == without_trailing(path),
    decreases n,
{
    let tail = Seq::new(n, |i: int| SEPARATOR);
    if n == 0 {
        assert(path + tail =~= path);
    } else {
        lemma_trailing_separators(path, (n - 1) as nat);
        assert((path + tail).drop_last() =~= path + Seq::new(
            (n - 1) as nat,
            |i: int| SEPARATOR,
        ));
    }
}

/// The name of a path is its last component, whole, whatever stands before it and
/// however many separators stand behind it.
pub proof fn lemma_a_name_is_the_last_component(dir: Seq<u8>, name: Seq<u8>, n: nat)
    requires
        is_piece(name),
        name != seq![DOT],
        name != seq![DOT, DOT],
    ensures
        name_in(dir.push(SEPARATOR) + name + Seq::new(n, |i: int| SEPARATOR)) == Some(name),
        name_in(name + Seq::new(n, |i: int| SEPARATOR)) == Some(name),
{
    let path = dir.push(SEPARATOR) + name;
    lemma_last_component(dir, name);
    lemma_trailing_separators(path, n);
    lemma_trailing_separators(name, n);
    assert(path.last() == name[name.len() - 1]);
    if name.len() == 1 {
        assert(name[0] != DOT) by {
            if name[0] == DOT {
                assert(name =~= seq![DOT]);
            }
        }
    } else {
        assert(path[path.len() - 2] == name[name.len() - 2]);
    }
    assert(without_trailing(path) == path);
    assert(without_trailing(name) == name);
}

/// A path that leads upwards, and one without a component, has no name.
pub proof fn lemma_some_paths_have_no_name(dir: Seq<u8>, n: nat)
    ensures
        name_in(dir.push(SEPARATOR) + seq![DOT, DOT]) is None,
        name_in(Seq::new(n, |i: int| SEPARATOR)) is None,
        name_in(seq![DOT]) is None,
{
    let up = seq![DOT, DOT];
    let path = dir.push(SEPARATOR) + up;
    lemma_last_component(dir, up);
    assert(path.last() == DOT && path[path.len() - 2] == DOT);
    let none: Seq<u8> = seq![];
    lemma_trailing_separators(none, n);
    assert(none + Seq::new(n, |i: int| SEPARATOR) =~= Seq::new(n, |i: int| SEPARATOR));
    lemma_last_component(dir, seq![DOT]);
    assert(without_trailing(seq![DOT]) == seq![DOT]);
}

/// Separators part a path's pieces: those of two paths with a separator between them
/// are those of the first and then those of the second.
pub proof fn lemma_separators_part_pieces(a: Seq<u8>, b: Seq<u8>)
    ensures
        segments(b).len() > 0,
        segments(a.push(SEPARATOR) + b) == segments(a) + segments(b),
    decreases b.len(),
{
    let path = a.push(SEPARATOR) + b;
    if b.len() == 0 {
        assert(path =~= a.push(SEPARATOR));
        assert(path.drop_last() =~= a);
        assert(segments(path) =~= segments(a) + segments(b));
    } else {
        lemma_separators_part_pieces(a, b.drop_last());
        assert(path.drop_last() =~= a.push(SEPARATOR) + b.drop_last());
        assert(path.last() == b.last());
        assert(segments(path) =~= segments(a) + segments(b));
    }
}

/// A path without a separator is one piece.
pub proof fn lemma_a_name_is_one_piece(name: Seq<u8>)
    requires
        forall|i: int| 0 <= i < name.len() ==> #[trigger] name[i] != SEPARATOR,
    ensures
        segments(name) == seq![name],
    decreases name.len(),
{
    if name.len() > 0 {
        let fewer = name.drop_last();
        assert forall|i: int| 0 <= i < fewer.len() implies #[trigger] fewer[i] != SEPARATOR by {
            assert(fewer[i] == name[i]);
        }
        lemma_a_name_is_one_piece(fewer);
        assert(fewer.push(name.last()) =~= name);
        assert(name[name.len() - 1] != SEPARATOR);
        assert(segments(fewer).drop_last() =~= seq![]);
        assert(segments(fewer).last() == fewer);
        assert(segments(name) == segments(fewer).drop_last().push(
            segments(fewer).last().push(name.last()),
        ));
        assert(segments(name) =~= seq![name]);
    } else {
        assert(name =~= seq![]);
        assert(segments(name) =~= seq![name]);
    }
}

/// A name behind a separator is one component more, and neither a separator at the
/// end nor a dot behind one is any.
pub proof fn lemma_a_name_is_one_component_more(dir: Seq<u8>, name: Seq<u8>)
    requires
        is_piece(name),
        name != seq![DOT],
    ensures
        components(dir.push(SEPARATOR) + name) == components(dir).push(name),
        components(dir.push(SEPARATOR)) == components(dir),
        components(dir.push(SEPARATOR).push(DOT)) == components(dir),
        components(name) == seq![name],
{
    let none: Seq<u8> = seq![];
    let dot = seq![DOT];
    lemma_separators_part_pieces(dir, name);
    lemma_separators_part_pieces(none, dir);
    lemma_a_name_is_one_piece(name);
    assert((segments(dir) + seq![name]).drop_last() =~= segments(dir));
    lemma_separators_part_pieces(dir, none);
    assert(dir.push(SEPARATOR) + none =~= dir.push(SEPARATOR));
    assert((segments(dir) + segments(none)).drop_last() =~= segments(dir));
    lemma_separators_part_pieces(dir, dot);
    assert(dir.push(SEPARATOR) + dot =~= dir.push(SEPARATOR).push(DOT));
    assert(dot[0] != SEPARATOR);
    lemma_a_name_is_one_piece(dot);
    assert((segments(dir) + seq![dot]).drop_last() =~= segments(dir));
    assert(seq![name].drop_last() =~= seq![]);
    assert(named_segments(seq![name].drop_last()) =~= seq![]);
    assert(seq![name].last() == name);
    assert(named_segments(seq![name]) =~= seq![name]);
}

/// What does not change a path's last component does not change its components.
proof fn lemma_trailing_keeps_the_components(path: Seq<u8>)
    ensures
        components(without_trailing(path)) == components(path),
    decreases path.len(),
{
    let n = path.len();
    let none: Seq<u8> = seq![];
    if n > 0 && path[n - 1] == SEPARATOR {
        let dir = path.drop_last();
        lemma_trailing_keeps_the_components(dir);
        lemma_separators_part_pieces(dir, none);
        assert(dir.push(SEPARATOR) + none =~= path);
        assert((segments(dir) + segments(none)).drop_last() =~= segments(dir));
    } else if n > 1 && path[n - 1] == DOT && path[n - 2] == SEPARATOR {
        let with = path.drop_last();
        let dir = with.drop_last();
        let dot = seq![DOT];
        lemma_trailing_keeps_the_components(with);
        lemma_separators_part_pieces(dir, none);
        assert(dir.push(SEPARATOR) + none =~= with);
        assert((segments(dir) + segments(none)).drop_last() =~= segments(dir));
        lemma_separators_part_pieces(dir, dot);
        assert(dir.push(SEPARATOR) + dot =~= path);
        assert(dot[0] != SEPARATOR);
        lemma_a_name_is_one_piece(dot);
        assert((segments(dir) + seq![dot]).drop_last() =~= segments(dir));
        lemma_separators_part_pieces(none, dir);
    }
}

/// What follows the last separator is the last piece.
proof fn lemma_the_last_piece(path: Seq<u8>)
    ensures
        segments(path).len() > 0,
        segments(path).last() == last_component(path),
    decreases path.len(),
{
    if path.len() > 0 {
        lemma_the_last_piece(path.drop_last());
    }
}

/// A path is named by the last of its components, wherever that is a name and no
/// `.` or `..`.
pub proof fn lemma_a_path_is_named_by_its_components(path: Seq<u8>, name: Seq<u8>)
    ensures
        name_in(path) == Some(name) <==> {
            &&& components(path).len() > 0
            &&& components(path).last() == name
            &&& name != seq![DOT]
            &&& name != seq![DOT, DOT]
        },
{
    let kept = without_trailing(path);
    lemma_trailing_keeps_the_components(path);
    lemma_the_last_piece(kept);
    let pieces = segments(kept);
    lemma_kept_ends_in_a_name(path);
    if last_component(kept).len() == 0 {
        assert(kept.len() == 0);
        assert(pieces =~= seq![seq![]]);
        assert(pieces.drop_last() =~= seq![]);
        assert(named_segments(pieces.drop_last()) =~= seq![]);
        assert(components(kept) =~= seq![]);
    }
}

/// What is left of a path is nothing, or ends in a piece; and it ends in a dot alone
/// only where it is one.
proof fn lemma_kept_ends_in_a_name(path: Seq<u8>)
    ensures
        ({
            let kept = without_trailing(path);
            &&& last_component(kept).len() == 0 ==> kept.len() == 0
            &&& last_component(kept) == seq![DOT] ==> segments(kept).len() == 1
        }),
    decreases path.len(),
{
    let n = path.len();
    if n > 0 && path[n - 1] == SEPARATOR {
        lemma_kept_ends_in_a_name(path.drop_last());
    } else if n > 1 && path[n - 1] == DOT && path[n - 2] == SEPARATOR {
        lemma_kept_ends_in_a_name(path.drop_last());
    } else if last_component(path) == seq![DOT] {
        assert(last_component(path).len() == 1);
        let rest = path.drop_last();
        assert(last_component(path).drop_last() =~= last_component(rest));
        assert(last_component(path).last() == DOT);
        assert(last_component(rest) =~= seq![]);
        if n > 1 {
            assert(rest.last() == path[n - 2]);
        } else {
            assert(rest =~= seq![]);
            assert(path =~= seq![DOT]);
            lemma_a_name_is_one_piece(path);
        }
    }
}

/// A directory is called by the last name of its path, whole, whatever stands above it;
/// and one whose path has no name by the path as it is spelled.
pub proof fn lemma_a_directory_is_called_by_its_name(dir: Seq<u8>, name: Seq<u8>, n: nat)
    requires
        is_piece(name),
        name != seq![DOT],
        name != seq![DOT, DOT],
    ensures
        ({
            let path = dir.push(SEPARATOR) + name + Seq::new(n, |i: int| SEPARATOR);
            name_bytes(path) == name && dir_name(path) == lossy(name)
        }),
        name_in(dir) is None ==> dir_name(dir) == lossy(dir),
{
    lemma_a_name_is_the_last_component(dir, name, n);
}

} // verus!
