//! Which project a directory belongs to.
//!
//! Two answers to that one question. The live worktree set is what git reports
//! of a repository now: the roots of its worktrees and the name of the project.
//! The repository root of a path also answers for a worktree that is gone.
//!
//! Whatever goes wrong on the way (no git, no repository, a failed run, output
//! that is not text or holds no worktree) leads to the empty set, which means
//! that nothing is known.

use vstd::prelude::*;
use vstd::utf8::{decode_utf8, encode_utf8, valid_utf8};
use crate::paths::{called, dir_name, name_bytes, owned, path_bytes, reads_as_spelled, same_path, utf8_text};
use crate::text::{
    is_white, lemma_a_line_feed_ends_a_line, lemma_one_line_is_one_piece,
    lemma_trimming_is_exact, lines, same_text, split_lines, starts_with, texts, trim_end,
    trimmed_end, without_prefix,
};

verus! {

/// The roots of one project's worktrees and the name of the project.
#[derive(Debug)]
pub struct WorktreeSet {
    roots: Vec<Vec<u8>>,
    label: Option<String>,
}

/// What a worktree set says.
pub struct WorktreeView {
    /// The roots. None at all means that nothing is known.
    pub roots: Set<Seq<u8>>,
    /// The name of the project.
    pub label: Option<Seq<char>>,
}

/// The characters of a label, where there is one.
pub open spec fn label_text(label: Option<String>) -> Option<Seq<char>> {
    match label {
        Some(label) => Some(label@),
        None => None,
    }
}

/// The set that says that nothing is known.
pub open spec fn nothing_known() -> WorktreeView {
    WorktreeView { roots: Set::empty(), label: None }
}

impl View for WorktreeSet {
    type V = WorktreeView;

    closed spec fn view(&self) -> WorktreeView {
        WorktreeView {
            roots: path_bytes(self.roots@).to_set(),
            label: label_text(self.label),
        }
    }
}

impl WorktreeSet {
    /// No root is held twice.
    #[verifier::type_invariant]
    spec fn distinct(&self) -> bool {
        path_bytes(self.roots@).no_duplicates()
    }

    /// The set that says that nothing is known.
    pub fn empty() -> (set: WorktreeSet)
        ensures
            set@ == nothing_known(),
    {
        let roots: Vec<Vec<u8>> = Vec::new();
        assert(path_bytes(roots@) =~= seq![]);
        assert(path_bytes(roots@).to_set() =~= Set::empty());
        WorktreeSet { roots, label: None }
    }

    /// The set of `roots`, each already in its resolved form.
    pub fn from_resolved(roots: Vec<Vec<u8>>, label: Option<String>) -> (set: WorktreeSet)
        ensures
            set@ == (WorktreeView {
                roots: path_bytes(roots@).to_set(),
                label: label_text(label),
            }),
    {
        let mut kept: Vec<Vec<u8>> = Vec::new();
        let ghost all = path_bytes(roots@);
        let mut i: usize = 0;
        assert(path_bytes(kept@) =~= seq![]);
        assert(all.take(0) =~= seq![]);
        while i < roots.len()
            invariant
                i <= roots@.len(),
                all == path_bytes(roots@),
                path_bytes(kept@).no_duplicates(),
                path_bytes(kept@).to_set() == all.take(i as int).to_set(),
            decreases roots@.len() - i,
        {
            let known = holds_path(&kept, roots[i].as_slice());
            let ghost before = kept@;
            proof {
                assert(all.take(i + 1) =~= all.take(i as int).push(all[i as int]));
                lemma_to_set_push(all.take(i as int), all[i as int]);
            }
            if known {
                assert(path_bytes(kept@).to_set().contains(all[i as int]));
                assert(all.take(i + 1).to_set() =~= all.take(i as int).to_set());
            } else {
                kept.push(owned(roots[i].as_slice()));
                proof {
                    assert(path_bytes(kept@) =~= path_bytes(before).push(all[i as int]));
                    lemma_to_set_push(path_bytes(before), all[i as int]);
                }
            }
            i += 1;
        }
        assert(all.take(i as int) =~= all);
        WorktreeSet { roots: kept, label }
    }

    /// Whether `dir`, in its resolved form, is one of the roots.
    pub fn contains(&self, dir: &[u8]) -> (found: bool)
        ensures
            found == self@.roots.contains(dir@),
    {
        let found = holds_path(&self.roots, dir);
        assert(path_bytes(self.roots@).to_set().contains(dir@) == path_bytes(self.roots@).contains(
            dir@,
        ));
        found
    }

    /// Whether nothing is known.
    pub fn is_empty(&self) -> (empty: bool)
        ensures
            empty == (self@.roots == Set::<Seq<u8>>::empty()),
    {
        proof {
            let all = path_bytes(self.roots@);
            if all.len() > 0 {
                assert(all.contains(all[0]));
                assert(all.to_set().contains(all[0]));
            } else {
                assert(all.to_set() =~= Set::empty());
            }
        }
        self.roots.len() == 0
    }

    /// The name of the project, where it is known.
    pub fn label(&self) -> (label: Option<&str>)
        ensures
            match label {
                Some(label) => self@.label == Some(label@),
                None => self@.label is None,
            },
    {
        match &self.label {
            Some(label) => Some(label.as_str()),
            None => None,
        }
    }

    /// Whether every root of `self` is one of `other`.
    fn within(&self, other: &WorktreeSet) -> (within: bool)
        ensures
            within == self@.roots.subset_of(other@.roots),
    {
        let mut i: usize = 0;
        while i < self.roots.len()
            invariant
                i <= self.roots@.len(),
                forall|k: int|
                    0 <= k < i ==> other@.roots.contains(#[trigger] path_bytes(self.roots@)[k]),
            decreases self.roots@.len() - i,
        {
            let found = other.contains(self.roots[i].as_slice());
            assert(path_bytes(self.roots@)[i as int] == self.roots@[i as int]@);
            if !found {
                proof {
                    let root = path_bytes(self.roots@)[i as int];
                    assert(path_bytes(self.roots@).contains(root));
                    assert(self@.roots.contains(root));
                }
                return false;
            }
            i += 1;
        }
        assert forall|root: Seq<u8>| self@.roots.contains(root) implies other@.roots.contains(
            root,
        ) by {
            assert(path_bytes(self.roots@).contains(root));
        }
        true
    }
}

/// Adding an element to a sequence adds it to the set of its elements.
proof fn lemma_to_set_push(s: Seq<Seq<u8>>, x: Seq<u8>)
    ensures
        s.push(x).to_set() == s.to_set().insert(x),
{
    assert forall|y: Seq<u8>| s.push(x).to_set().contains(y) == s.to_set().insert(x).contains(
        y,
    ) by {
        if s.contains(y) {
            let k = choose|k: int| 0 <= k < s.len() && s[k] == y;
            assert(s.push(x)[k] == y);
        }
        if y == x {
            assert(s.push(x)[s.len() as int] == y);
        }
    }
    assert(s.push(x).to_set() =~= s.to_set().insert(x));
}

/// Whether `path` is one of `paths`.
fn holds_path(paths: &Vec<Vec<u8>>, path: &[u8]) -> (found: bool)
    ensures
        found == path_bytes(paths@).contains(path@),
{
    let mut i: usize = 0;
    while i < paths.len()
        invariant
            i <= paths@.len(),
            forall|k: int| 0 <= k < i ==> #[trigger] path_bytes(paths@)[k] != path@,
        decreases paths@.len() - i,
    {
        assert(path_bytes(paths@)[i as int] == paths@[i as int]@);
        if same_path(paths[i].as_slice(), path) {
            return true;
        }
        i += 1;
    }
    false
}

impl PartialEq for WorktreeSet {
    fn eq(&self, other: &Self) -> (same: bool) {
        let roots = self.within(other) && other.within(self);
        let labels = match (&self.label, &other.label) {
            (Some(a), Some(b)) => same_text(a.as_str(), b.as_str()),
            (None, None) => true,
            _ => false,
        };
        proof {
            if roots {
                assert(self@.roots =~= other@.roots);
            }
        }
        roots && labels
    }
}

impl vstd::std_specs::cmp::PartialEqSpecImpl for WorktreeSet {
    open spec fn obeys_eq_spec() -> bool {
        true
    }

    open spec fn eq_spec(&self, other: &Self) -> bool {
        self@ == other@
    }
}

impl Eq for WorktreeSet {

}

impl Clone for WorktreeSet {
    fn clone(&self) -> (set: WorktreeSet)
        ensures
            set@ == self@,
    {
        let mut roots: Vec<Vec<u8>> = Vec::new();
        let ghost all = path_bytes(self.roots@);
        let mut i: usize = 0;
        assert(path_bytes(roots@) =~= all.take(0));
        while i < self.roots.len()
            invariant
                i <= self.roots@.len(),
                all == path_bytes(self.roots@),
                path_bytes(roots@) == all.take(i as int),
            decreases self.roots@.len() - i,
        {
            let ghost before = roots@;
            roots.push(owned(self.roots[i].as_slice()));
            assert(path_bytes(roots@) =~= path_bytes(before).push(all[i as int]));
            assert(all.take(i + 1) =~= all.take(i as int).push(all[i as int]));
            i += 1;
        }
        assert(all.take(i as int) =~= all);
        proof {
            use_type_invariant(self);
        }
        let label = match &self.label {
            Some(label) => Some(label.clone()),
            None => None,
        };
        WorktreeSet { roots, label }
    }
}

impl Default for WorktreeSet {
    fn default() -> (set: WorktreeSet)
        ensures
            set@ == nothing_known(),
    {
        WorktreeSet::empty()
    }
}

/// What the one line that is read of a worktree's record starts with.
pub const WORKTREE_LINE_PREFIX: &'static str = "worktree ";

/// The path on a line of git's list, where the line names one.
pub open spec fn path_on(line: Seq<char>) -> Option<Seq<char>> {
    if !starts_with(line, WORKTREE_LINE_PREFIX@) {
        None
    } else {
        let path = trim_end(line.skip(WORKTREE_LINE_PREFIX@.len() as int));
        if path.len() == 0 {
            None
        } else {
            Some(path)
        }
    }
}

/// The paths on the lines, in order.
pub open spec fn paths_on(lines: Seq<Seq<char>>) -> Seq<Seq<char>>
    decreases lines.len(),
{
    if lines.len() == 0 {
        seq![]
    } else {
        let before = paths_on(lines.drop_last());
        match path_on(lines.last()) {
            Some(path) => before.push(path),
            None => before,
        }
    }
}

/// Each line counts by itself: two lists one after the other name the paths of
/// the first and then those of the second.
pub proof fn lemma_records_are_independent(a: Seq<Seq<char>>, b: Seq<Seq<char>>)
    ensures
        paths_on(a + b) == paths_on(a) + paths_on(b),
    decreases b.len(),
{
    if b.len() == 0 {
        assert(a + b =~= a);
        assert(paths_on(a) + paths_on(b) =~= paths_on(a));
    } else {
        lemma_records_are_independent(a, b.drop_last());
        assert((a + b).drop_last() =~= a + b.drop_last());
        assert(paths_on(a + b) =~= paths_on(a) + paths_on(b));
    }
}

/// A line that names no path changes nothing, wherever it stands.
pub proof fn lemma_other_lines_are_skipped(a: Seq<Seq<char>>, line: Seq<char>, b: Seq<Seq<char>>)
    requires
        path_on(line) is None,
    ensures
        paths_on(a.push(line) + b) == paths_on(a + b),
{
    lemma_records_are_independent(a.push(line), b);
    lemma_records_are_independent(a, b);
    assert(a.push(line).drop_last() =~= a);
}

/// The paths that git's list names, in order. Lines that name none are skipped,
/// whatever they hold.
pub fn listed_paths(text: &str) -> (paths: Vec<String>)
    ensures
        texts(paths@) == paths_on(lines(text@)),
{
    let all = split_lines(text);
    let ghost views = lines(text@);
    let mut paths: Vec<String> = Vec::new();
    let mut i: usize = 0;
    assert(texts(paths@) =~= seq![]);
    assert(views.take(0) =~= seq![]);
    while i < all.len()
        invariant
            i <= all@.len(),
            views == texts(all@),
            texts(paths@) == paths_on(views.take(i as int)),
        decreases all@.len() - i,
    {
        let line = all[i].as_str();
        assert(views.take(i + 1).drop_last() =~= views.take(i as int));
        assert(views.take(i + 1).last() == line@);
        let ghost before = paths@;
        if let Some(raw) = without_prefix(line, WORKTREE_LINE_PREFIX) {
            let path = trimmed_end(raw.as_str());
            if path.as_str().unicode_len() > 0 {
                let ghost found = path@;
                paths.push(path);
                assert(texts(paths@) =~= texts(before).push(found));
            }
        }
        i += 1;
    }
    assert(views.take(i as int) =~= views);
    paths
}

/// Whether `f` may have answered `root` for `path`.
pub open spec fn answers<F: Fn(&[u8]) -> Vec<u8>>(f: F, path: Seq<u8>, root: Vec<u8>) -> bool {
    exists|p: &[u8]| p@ == path && #[trigger] call_ensures(f, (p,), root)
}

/// Whether `f` may have answered `name` for `path`.
pub open spec fn names<F: Fn(&[u8]) -> String>(f: F, path: Seq<u8>, name: String) -> bool {
    exists|p: &[u8]| p@ == path && #[trigger] call_ensures(f, (p,), name)
}

/// Whether `set` is what git's list says: the paths it names, each resolved by
/// `canonicalize`, and the name that `repo_of` gives to the first, which is the
/// main worktree. A list that names no path says that nothing is known.
pub open spec fn parsed<F: Fn(&[u8]) -> Vec<u8>, G: Fn(&[u8]) -> String>(
    text: Seq<char>,
    canonicalize: F,
    repo_of: G,
    set: WorktreeView,
) -> bool {
    let paths = paths_on(lines(text));
    if paths.len() == 0 {
        set == nothing_known()
    } else {
        exists|roots: Seq<Vec<u8>>, name: String|
            {
                &&& roots.len() == paths.len()
                &&& forall|i: int|
                    0 <= i < roots.len() ==> answers(
                        canonicalize,
                        encode_utf8(paths[i]),
                        #[trigger] roots[i],
                    )
                &&& #[trigger] names(repo_of, roots[0]@, name)
                &&& set.roots == #[trigger] path_bytes(roots).to_set()
                &&& set.label == Some(name@)
            }
    }
}

/// Read git's list of worktrees.
pub fn parse_porcelain(
    text: &str,
    canonicalize: impl Fn(&[u8]) -> Vec<u8>,
    repo_of: impl Fn(&[u8]) -> String,
) -> (set: WorktreeSet)
    requires
        forall|p: &[u8]| #[trigger] call_requires(canonicalize, (p,)),
        forall|p: &[u8]| #[trigger] call_requires(repo_of, (p,)),
    ensures
        parsed(text@, canonicalize, repo_of, set@),
{
    let paths = listed_paths(text);
    let mut roots: Vec<Vec<u8>> = Vec::new();
    let mut i: usize = 0;
    while i < paths.len()
        invariant
            forall|p: &[u8]| #[trigger] call_requires(canonicalize, (p,)),
            i <= paths@.len(),
            roots@.len() == i,
            forall|k: int|
                0 <= k < i ==> answers(
                    canonicalize,
                    encode_utf8(texts(paths@)[k]),
                    #[trigger] roots@[k],
                ),
        decreases paths@.len() - i,
    {
        let path = paths[i].as_str().as_bytes();
        let root = canonicalize(path);
        assert(texts(paths@)[i as int] == paths@[i as int]@);
        assert(answers(canonicalize, encode_utf8(texts(paths@)[i as int]), root));
        roots.push(root);
        i += 1;
    }
    if roots.len() == 0 {
        return WorktreeSet::empty();
    }
    let name = repo_of(roots[0].as_slice());
    let ghost all = roots@;
    let ghost called = name;
    assert(names(repo_of, all[0]@, called));
    let set = WorktreeSet::from_resolved(roots, Some(name));
    assert(set@.roots == path_bytes(all).to_set());
    set
}

/// What a finished run of git says: its list, where the run succeeded and wrote
/// text; else nothing.
pub fn set_from_output(
    success: bool,
    stdout: &[u8],
    canonicalize: impl Fn(&[u8]) -> Vec<u8>,
    repo_of: impl Fn(&[u8]) -> String,
) -> (set: WorktreeSet)
    requires
        forall|p: &[u8]| #[trigger] call_requires(canonicalize, (p,)),
        forall|p: &[u8]| #[trigger] call_requires(repo_of, (p,)),
    ensures
        !success || !valid_utf8(stdout@) ==> set@ == nothing_known(),
        success && valid_utf8(stdout@) ==> parsed(
            decode_utf8(stdout@),
            canonicalize,
            repo_of,
            set@,
        ),
{
    if !success {
        return WorktreeSet::empty();
    }
    match utf8_text(stdout) {
        Some(text) => parse_porcelain(text, canonicalize, repo_of),
        None => WorktreeSet::empty(),
    }
}

/// What a run of git says, where it could be started: what its output says; else
/// nothing.
pub fn set_from_run(
    run: Option<(bool, &[u8])>,
    canonicalize: impl Fn(&[u8]) -> Vec<u8>,
    repo_of: impl Fn(&[u8]) -> String,
) -> (set: WorktreeSet)
    requires
        forall|p: &[u8]| #[trigger] call_requires(canonicalize, (p,)),
        forall|p: &[u8]| #[trigger] call_requires(repo_of, (p,)),
    ensures
        match run {
            Some((success, stdout)) => if success && valid_utf8(stdout@) {
                parsed(decode_utf8(stdout@), canonicalize, repo_of, set@)
            } else {
                set@ == nothing_known()
            },
            None => set@ == nothing_known(),
        },
{
    match run {
        Some((success, stdout)) => set_from_output(success, stdout, canonicalize, repo_of),
        None => WorktreeSet::empty(),
    }
}

/// The one form in which directories are compared: the resolved path, or the path
/// as it is spelled where it does not resolve, so that a directory that is gone
/// still equals itself.
pub fn resolved_or_raw(path: &[u8], resolved: Option<Vec<u8>>) -> (out: Vec<u8>)
    ensures
        match resolved {
            Some(resolved) => out@ == resolved@,
            None => out@ == path@,
        },
{
    match resolved {
        Some(resolved) => resolved,
        None => owned(path),
    }
}

/// The resolved root of the repository that `dir` belongs to. The root is
/// derived from the path as it is spelled, and only then resolved.
pub fn project_root(
    dir: &[u8],
    repo_root_of: impl Fn(&[u8]) -> Vec<u8>,
    resolve_dir: impl Fn(&[u8]) -> Vec<u8>,
) -> (root: Vec<u8>)
    requires
        forall|p: &[u8]| #[trigger] call_requires(repo_root_of, (p,)),
        forall|p: &[u8]| #[trigger] call_requires(resolve_dir, (p,)),
    ensures
        exists|prefix: Vec<u8>|
            #[trigger] answers(repo_root_of, dir@, prefix) && answers(resolve_dir, prefix@, root),
{
    let prefix = repo_root_of(dir);
    assert(answers(repo_root_of, dir@, prefix));
    let root = resolve_dir(prefix.as_slice());
    assert(answers(resolve_dir, prefix@, root));
    root
}

/// Whether `name` is what a root is called that `repo_root_of` may have answered for
/// `launch_dir`.
pub open spec fn names_root<F: Fn(&[u8]) -> Vec<u8>>(
    repo_root_of: F,
    launch_dir: Seq<u8>,
    name: Seq<char>,
) -> bool {
    exists|root: Vec<u8>|
        #[trigger] answers(repo_root_of, launch_dir, root) && name == dir_name(root@)
            && reads_as_spelled(name_bytes(root@))
}

/// What to call the project of `launch_dir` where git gave it no name: what the
/// root of its repository is called.
pub fn project_root_name(
    launch_dir: &[u8],
    repo_root_of: impl Fn(&[u8]) -> Vec<u8>,
) -> (name: String)
    requires
        forall|p: &[u8]| #[trigger] call_requires(repo_root_of, (p,)),
    ensures
        names_root(repo_root_of, launch_dir@, name@),
{
    let root = repo_root_of(launch_dir);
    assert(answers(repo_root_of, launch_dir@, root));
    called(root.as_slice())
}

/// The command that lists a repository's worktrees: git, run as if it had been
/// started in `launch_dir`.
pub open spec fn worktree_command(launch_dir: Seq<u8>) -> Seq<Seq<u8>> {
    seq![
        encode_utf8("git"@),
        encode_utf8("-C"@),
        launch_dir,
        encode_utf8("worktree"@),
        encode_utf8("list"@),
        encode_utf8("--porcelain"@),
    ]
}

/// The command that lists the worktrees of the repository around `launch_dir`,
/// its program first.
pub fn git_worktree_argv(launch_dir: &[u8]) -> (argv: Vec<Vec<u8>>)
    ensures
        path_bytes(argv@) == worktree_command(launch_dir@),
{
    let mut argv: Vec<Vec<u8>> = Vec::new();
    argv.push("git".as_bytes_vec());
    argv.push("-C".as_bytes_vec());
    argv.push(owned(launch_dir));
    argv.push("worktree".as_bytes_vec());
    argv.push("list".as_bytes_vec());
    argv.push("--porcelain".as_bytes_vec());
    assert(path_bytes(argv@) =~= worktree_command(launch_dir@));
    argv
}

/// A line names the path behind its word, whole but for the whitespace at its end; and
/// a line that starts otherwise names none.
pub proof fn lemma_a_line_names_what_follows_its_word(
    path: Seq<char>,
    blank: Seq<char>,
    other: Seq<char>,
)
    requires
        path.len() > 0,
        !is_white(path.last()),
        forall|i: int| 0 <= i < blank.len() ==> is_white(#[trigger] blank[i]),
        other.len() < 9 || other.take(9) != "worktree "@,
    ensures
        path_on("worktree "@ + path + blank) == Some(path),
        path_on("worktree "@ + blank) is None,
        path_on(other) is None,
{
    reveal_strlit("worktree ");
    let word = "worktree "@;
    let line = word + path + blank;
    assert(line.take(9) =~= word);
    assert(line.skip(9) =~= path + blank);
    lemma_trimming_is_exact(path, blank);
    let bare = word + blank;
    let none: Seq<char> = seq![];
    assert(bare.take(9) =~= word);
    assert(bare.skip(9) =~= none + blank);
    lemma_trimming_is_exact(none, blank);
}

/// Git's list names its paths in the order of their lines: a line more that names one
/// is that path more, at the end.
pub proof fn lemma_a_line_more_is_a_path_more(lines: Seq<Seq<char>>, path: Seq<char>)
    requires
        path.len() > 0,
        !is_white(path.last()),
    ensures
        paths_on(lines.push("worktree "@ + path)) == paths_on(lines).push(path),
{
    let none: Seq<char> = seq![];
    lemma_a_line_names_what_follows_its_word(path, none, none);
    assert("worktree "@ + path + none =~= "worktree "@ + path);
    assert(lines.push("worktree "@ + path).drop_last() =~= lines);
}

/// The command asks git about the directory it is given, whatever that is called.
pub proof fn lemma_the_command_asks_about_its_directory(a: Seq<u8>, b: Seq<u8>)
    ensures
        worktree_command(a)[2] == a,
        worktree_command(a) == worktree_command(b) ==> a == b,
        worktree_command(a).len() == 6,
{
    assert(worktree_command(b)[2] == b);
}

/// A record names its worktree: the path on its first line, whole, before those of the
/// records below; and what else the record says changes nothing.
pub proof fn lemma_a_record_names_its_worktree(
    path: Seq<char>,
    other: Seq<char>,
    below: Seq<char>,
)
    requires
        path.len() > 0,
        !is_white(path.last()),
        forall|i: int| 0 <= i < path.len() ==> #[trigger] path[i] != '\n',
        forall|i: int| 0 <= i < other.len() ==> #[trigger] other[i] != '\n',
        other.len() < 9 || other.take(9) != "worktree "@,
    ensures
        paths_on(lines(("worktree "@ + path).push('\n') + (other.push('\n') + below)))
            == seq![path] + paths_on(lines(below)),
{
    reveal_strlit("worktree ");
    let line = "worktree "@ + path;
    let none: Seq<char> = seq![];
    let rest = other.push('\n') + below;
    assert forall|i: int| 0 <= i < line.len() implies #[trigger] line[i] != '\n' by {
        if i >= 9 {
            assert(line[i] == path[i - 9]);
        }
    }
    lemma_one_line_is_one_piece(line);
    lemma_one_line_is_one_piece(other);
    lemma_a_line_feed_ends_a_line(line, rest);
    lemma_a_line_feed_ends_a_line(other, below);
    lemma_a_line_names_what_follows_its_word(path, none, other);
    assert(line + none =~= line);
    lemma_records_are_independent(seq![line], seq![other] + lines(below));
    lemma_records_are_independent(seq![other], lines(below));
    let empty: Seq<Seq<char>> = seq![];
    assert(seq![line].drop_last() =~= empty);
    assert(seq![other].drop_last() =~= empty);
    assert(paths_on(empty) =~= empty);
    assert(paths_on(seq![line]) =~= seq![path]);
    assert(paths_on(seq![other]) =~= empty);
    assert(empty + paths_on(lines(below)) =~= paths_on(lines(below)));
}

/// A set holds a root for every path that git's list names, resolved from the path as it
/// is spelled.
pub proof fn lemma_a_set_holds_every_listed_worktree<
    F: Fn(&[u8]) -> Vec<u8>,
    G: Fn(&[u8]) -> String,
>(text: Seq<char>, canonicalize: F, repo_of: G, set: WorktreeView, i: int)
    requires
        parsed(text, canonicalize, repo_of, set),
        0 <= i < paths_on(lines(text)).len(),
    ensures
        exists|root: Vec<u8>|
            #[trigger] answers(canonicalize, encode_utf8(paths_on(lines(text))[i]), root)
                && set.roots.contains(root@),
{
    let paths = paths_on(lines(text));
    let (roots, name) = choose|roots: Seq<Vec<u8>>, name: String|
        {
            &&& roots.len() == paths.len()
            &&& forall|k: int|
                0 <= k < roots.len() ==> answers(
                    canonicalize,
                    encode_utf8(paths[k]),
                    #[trigger] roots[k],
                )
            &&& #[trigger] names(repo_of, roots[0]@, name)
            &&& set.roots == #[trigger] path_bytes(roots).to_set()
            &&& set.label == Some(name@)
        };
    let all = path_bytes(roots);
    assert(answers(canonicalize, encode_utf8(paths[i]), roots[i]));
    assert(all[i] == roots[i]@);
    assert(all.contains(all[i]));
}

/// And it holds no other: every root of it was resolved from a path of the list.
pub proof fn lemma_a_set_holds_no_other_worktree<
    F: Fn(&[u8]) -> Vec<u8>,
    G: Fn(&[u8]) -> String,
>(text: Seq<char>, canonicalize: F, repo_of: G, set: WorktreeView, dir: Seq<u8>)
    requires
        parsed(text, canonicalize, repo_of, set),
        set.roots.contains(dir),
    ensures
        exists|i: int, root: Vec<u8>|
            0 <= i < paths_on(lines(text)).len() && root@ == dir && #[trigger] answers(
                canonicalize,
                encode_utf8(paths_on(lines(text))[i]),
                root,
            ),
{
    let paths = paths_on(lines(text));
    let (roots, name) = choose|roots: Seq<Vec<u8>>, name: String|
        {
            &&& roots.len() == paths.len()
            &&& forall|k: int|
                0 <= k < roots.len() ==> answers(
                    canonicalize,
                    encode_utf8(paths[k]),
                    #[trigger] roots[k],
                )
            &&& #[trigger] names(repo_of, roots[0]@, name)
            &&& set.roots == #[trigger] path_bytes(roots).to_set()
            &&& set.label == Some(name@)
        };
    let all = path_bytes(roots);
    assert(all.contains(dir));
    let i = choose|i: int| 0 <= i < all.len() && all[i] == dir;
    assert(answers(canonicalize, encode_utf8(paths[i]), roots[i]));
    assert(roots[i]@ == dir);
}

/// A project is called by the root of the first worktree that git lists, and a list that
/// names none says nothing.
pub proof fn lemma_a_project_is_called_by_its_first_worktree<
    F: Fn(&[u8]) -> Vec<u8>,
    G: Fn(&[u8]) -> String,
>(text: Seq<char>, canonicalize: F, repo_of: G, set: WorktreeView)
    requires
        parsed(text, canonicalize, repo_of, set),
    ensures
        paths_on(lines(text)).len() == 0 ==> set == nothing_known(),
        paths_on(lines(text)).len() > 0 ==> exists|root: Vec<u8>, name: String|
            {
                &&& #[trigger] answers(canonicalize, encode_utf8(paths_on(lines(text))[0]), root)
                &&& #[trigger] names(repo_of, root@, name)
                &&& set.label == Some(name@)
            },
{
    if paths_on(lines(text)).len() > 0 {
        let paths = paths_on(lines(text));
        let (roots, name) = choose|roots: Seq<Vec<u8>>, name: String|
            {
                &&& roots.len() == paths.len()
                &&& forall|k: int|
                    0 <= k < roots.len() ==> answers(
                        canonicalize,
                        encode_utf8(paths[k]),
                        #[trigger] roots[k],
                    )
                &&& #[trigger] names(repo_of, roots[0]@, name)
                &&& set.roots == #[trigger] path_bytes(roots).to_set()
                &&& set.label == Some(name@)
            };
        assert(answers(canonicalize, encode_utf8(paths[0]), roots[0]));
        assert(names(repo_of, roots[0]@, name));
    }
}

} // verus!
