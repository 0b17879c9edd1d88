//! The shape of the session store on disk.
//!
//! Below the store's root stands one directory for each working directory, and
//! in it one `.jsonl` file for each session. What lies deeper holds no session.

use vstd::prelude::*;
use crate::paths::{
    components, is_absolute, is_piece, lemma_a_name_is_one_component_more, path_bytes, same_path,
    split_components, DOT, SEPARATOR,
};

verus! {

/// Where a path stands in the store.
#[derive(Debug, Clone, Copy, PartialEq, Eq, Structural)]
pub enum StoreDepth {
    /// Not below the store's root.
    Outside,
    /// The root itself.
    Root,
    /// Right below the root, where the directories stand.
    CwdLevel,
    /// Two levels below the root, where the sessions stand.
    SessionLevel,
    /// Deeper than the sessions.
    BelowSession,
}

/// Whether `path` starts with all of `root`'s components.
pub open spec fn is_below(root: Seq<u8>, path: Seq<u8>) -> bool {
    let r = components(root);
    let p = components(path);
    is_absolute(root) == is_absolute(path) && r.len() <= p.len() && p.take(r.len() as int) == r
}

/// Where `path` stands in the store at `root`.
pub open spec fn depth_of(root: Seq<u8>, path: Seq<u8>) -> StoreDepth {
    if !is_below(root, path) {
        StoreDepth::Outside
    } else {
        let levels = components(path).len() - components(root).len();
        if levels == 0 {
            StoreDepth::Root
        } else if levels == 1 {
            StoreDepth::CwdLevel
        } else if levels == 2 {
            StoreDepth::SessionLevel
        } else {
            StoreDepth::BelowSession
        }
    }
}

/// Where `path` stands in the store at `root`.
pub fn store_depth(root: &[u8], path: &[u8]) -> (depth: StoreDepth)
    ensures
        depth == depth_of(root@, path@),
{
    let r = split_components(root);
    let p = split_components(path);
    let root_absolute = root.len() > 0 && root[0] == SEPARATOR;
    let path_absolute = path.len() > 0 && path[0] == SEPARATOR;
    let ghost rs = components(root@);
    let ghost ps = components(path@);
    if root_absolute != path_absolute || r.len() > p.len() {
        return StoreDepth::Outside;
    }
    let mut i: usize = 0;
    while i < r.len()
        invariant
            i <= r@.len() <= p@.len(),
            rs == path_bytes(r@),
            ps == path_bytes(p@),
            forall|k: int| 0 <= k < i ==> rs[k] == ps[k],
            rs == components(root@),
            ps == components(path@),
        decreases r@.len() - i,
    {
        assert(rs[i as int] == r@[i as int]@ && ps[i as int] == p@[i as int]@);
        if !same_path(r[i].as_slice(), p[i].as_slice()) {
            assert(ps.take(rs.len() as int)[i as int] != rs[i as int]);
            return StoreDepth::Outside;
        }
        i += 1;
    }
    assert(ps.take(rs.len() as int) =~= rs);
    let levels: usize = p.len() - r.len();
    if levels == 0 {
        StoreDepth::Root
    } else if levels == 1 {
        StoreDepth::CwdLevel
    } else if levels == 2 {
        StoreDepth::SessionLevel
    } else {
        StoreDepth::BelowSession
    }
}

/// What the name of a session's file ends with: `.jsonl`.
pub open spec fn session_suffix() -> Seq<u8> {
    seq![0x2eu8, 0x6a, 0x73, 0x6f, 0x6e, 0x6c]
}

/// Whether `name` is a name with the suffix of a session's file.
pub open spec fn is_session_name(name: Seq<u8>) -> bool {
    name.len() > 6 && name.skip(name.len() - 6) == session_suffix()
}

/// Whether `name` is a name with the suffix of a session's file.
fn has_session_name(name: &[u8]) -> (session: bool)
    ensures
        session == is_session_name(name@),
{
    if name.len() <= 6 {
        return false;
    }
    let n: usize = name.len() - 6;
    let ghost tail = name@.skip(n as int);
    let session = name[n] == 0x2e && name[n + 1] == 0x6a && name[n + 2] == 0x73 && name[n + 3]
        == 0x6f && name[n + 4] == 0x6e && name[n + 5] == 0x6c;
    proof {
        if session {
            assert(tail =~= session_suffix());
        } else if tail == session_suffix() {
            assert(tail[0] == 0x2e && tail[1] == 0x6a && tail[2] == 0x73 && tail[3] == 0x6f
                && tail[4] == 0x6e && tail[5] == 0x6c);
        }
    }
    session
}

/// Whether `path` is where the store at `root` keeps a session.
pub open spec fn holds_session(root: Seq<u8>, path: Seq<u8>) -> bool {
    depth_of(root, path) == StoreDepth::SessionLevel && is_session_name(components(path).last())
}

/// Whether `path` is where the store at `root` keeps a session.
pub fn is_session_path(root: &[u8], path: &[u8]) -> (session: bool)
    ensures
        session == holds_session(root@, path@),
{
    if store_depth(root, path) != StoreDepth::SessionLevel {
        return false;
    }
    let p = split_components(path);
    assert(path_bytes(p@).last() == p@.last()@);
    has_session_name(p[p.len() - 1].as_slice())
}

/// A store is two levels deep: its root, the directories right below it, the sessions
/// right below those, and whatever lies deeper. A name more is a level more, at any
/// root.
pub proof fn lemma_a_store_is_two_levels_deep(
    root: Seq<u8>,
    cwd: Seq<u8>,
    name: Seq<u8>,
    deeper: Seq<u8>,
)
    requires
        root.len() > 0,
        is_piece(cwd) && cwd != seq![DOT],
        is_piece(name) && name != seq![DOT],
        is_piece(deeper) && deeper != seq![DOT],
    ensures
        depth_of(root, root) == StoreDepth::Root,
        depth_of(root, root.push(SEPARATOR) + cwd) == StoreDepth::CwdLevel,
        depth_of(root, (root.push(SEPARATOR) + cwd).push(SEPARATOR) + name)
            == StoreDepth::SessionLevel,
        depth_of(
            root,
            ((root.push(SEPARATOR) + cwd).push(SEPARATOR) + name).push(SEPARATOR) + deeper,
        ) == StoreDepth::BelowSession,
{
    let r = components(root);
    let one = root.push(SEPARATOR) + cwd;
    let two = one.push(SEPARATOR) + name;
    let three = two.push(SEPARATOR) + deeper;
    lemma_a_name_is_one_component_more(root, cwd);
    lemma_a_name_is_one_component_more(one, name);
    lemma_a_name_is_one_component_more(two, deeper);
    assert(r.take(r.len() as int) =~= r);
    assert(components(one).take(r.len() as int) =~= r);
    assert(components(two).take(r.len() as int) =~= r);
    assert(components(three).take(r.len() as int) =~= r);
    assert(one[0] == root[0] && two[0] == root[0] && three[0] == root[0]);
}

/// A session is kept exactly in a file right below a directory of the store whose name
/// is more than `.jsonl` and ends in it.
pub proof fn lemma_a_session_is_a_named_file_of_its_directory(
    root: Seq<u8>,
    cwd: Seq<u8>,
    name: Seq<u8>,
)
    requires
        root.len() > 0,
        is_piece(cwd) && cwd != seq![DOT],
        is_piece(name) && name != seq![DOT],
    ensures
        !holds_session(root, root),
        !holds_session(root, root.push(SEPARATOR) + name),
        holds_session(root, (root.push(SEPARATOR) + cwd).push(SEPARATOR) + name) <==> {
            let n = name.len();
            &&& n > 6
            &&& name[n - 6] == '.' as u8
            &&& name[n - 5] == 'j' as u8
            &&& name[n - 4] == 's' as u8
            &&& name[n - 3] == 'o' as u8
            &&& name[n - 2] == 'n' as u8
            &&& name[n - 1] == 'l' as u8
        },
        !holds_session(
            root,
            ((root.push(SEPARATOR) + cwd).push(SEPARATOR) + name).push(SEPARATOR) + name,
        ),
{
    let one = root.push(SEPARATOR) + cwd;
    let two = one.push(SEPARATOR) + name;
    lemma_a_store_is_two_levels_deep(root, cwd, name, name);
    lemma_a_store_is_two_levels_deep(root, name, name, name);
    lemma_a_name_is_one_component_more(one, name);
    assert(components(two).last() == name);
    let n = name.len();
    if n > 6 {
        let tail = name.skip(n - 6);
        let suffix = session_suffix();
        assert(tail[0] == name[n - 6] && tail[1] == name[n - 5] && tail[2] == name[n - 4]
            && tail[3] == name[n - 3] && tail[4] == name[n - 2] && tail[5] == name[n - 1]);
        if tail[0] == suffix[0] && tail[1] == suffix[1] && tail[2] == suffix[2] && tail[3]
            == suffix[3] && tail[4] == suffix[4] && tail[5] == suffix[5] {
            assert(tail =~= suffix);
        }
    }
}

/// What stands beside a store is outside it, and so is what its root stands in; and a
/// path is never below one that is spelled from elsewhere.
pub proof fn lemma_what_stands_beside_a_store_is_outside(
    dir: Seq<u8>,
    name: Seq<u8>,
    other: Seq<u8>,
)
    requires
        is_piece(name) && name != seq![DOT],
        is_piece(other) && other != seq![DOT],
        name != other,
    ensures
        depth_of(dir.push(SEPARATOR) + name, dir.push(SEPARATOR) + other) == StoreDepth::Outside,
        depth_of(dir.push(SEPARATOR) + name, dir) == StoreDepth::Outside,
        is_absolute(dir) && !is_absolute(other) ==> depth_of(dir, other) == StoreDepth::Outside,
{
    lemma_a_name_is_one_component_more(dir, name);
    lemma_a_name_is_one_component_more(dir, other);
    let r = components(dir.push(SEPARATOR) + name);
    let p = components(dir.push(SEPARATOR) + other);
    assert(p.take(r.len() as int) =~= p);
    assert(r.last() == name && p.last() == other);
}

/// Spelling a path otherwise moves nothing: a separator at the end, and a dot behind
/// one, leave its place in the store.
pub proof fn lemma_spelling_keeps_the_place(root: Seq<u8>, path: Seq<u8>)
    requires
        root.len() > 0,
        path.len() > 0,
    ensures
        depth_of(root, path.push(SEPARATOR)) == depth_of(root, path),
        depth_of(root, path.push(SEPARATOR).push(DOT)) == depth_of(root, path),
        depth_of(root.push(SEPARATOR), path) == depth_of(root, path),
{
    let name = seq![DOT, DOT];
    assert(name[0] != SEPARATOR && name[1] != SEPARATOR);
    assert(name != seq![DOT]) by {
        assert(name.len() == 2);
    }
    lemma_a_name_is_one_component_more(path, name);
    lemma_a_name_is_one_component_more(root, name);
}

} // verus!
