//! What the board makes of what happens around it.
//!
//! A batch of changed paths is worth a reload of the store, or is not. A poll for
//! agents is due as long as the board was active a while ago.

use core::time::Duration;
use vstd::prelude::*;
use crate::geometry::floored_difference;
use crate::paths::{
    components, is_piece, lemma_a_name_is_one_component_more, DOT, SEPARATOR,
};
use crate::store::{
    depth_of, holds_session, is_session_name, is_session_path,
    lemma_a_session_is_a_named_file_of_its_directory, lemma_a_store_is_two_levels_deep,
    store_depth, StoreDepth,
};

verus! {

/// For how many milliseconds raw file events are gathered into one batch.
pub const DEBOUNCE_MS: u64 = 200;

/// How many milliseconds lie between two ticks.
pub const TICK_MS: u64 = 250;

/// How many milliseconds lie between two polls for agents.
pub const AGENTS_REFRESH_MS: u64 = 5000;

/// After how many milliseconds without activity the polls are skipped.
pub const AGENTS_IDLE_AFTER_MS: u64 = 60_000;

/// For how many milliseconds the input thread waits before it looks at its
/// shutdown flag again.
pub const INPUT_POLL_INTERVAL_MS: u64 = 50;

/// The whole milliseconds of a duration.
pub uninterp spec fn whole_millis(d: Duration) -> nat;

/// `core::time::Duration::as_millis`: the number of whole milliseconds, which
/// the duration alone determines.
pub assume_specification[ Duration::as_millis ](d: &Duration) -> (millis: u128)
    ensures
        millis == whole_millis(*d),
;

/// Whether the board was active less than `idle_ms` ago. A stamp from the future
/// counts as now.
pub open spec fn recently_active(last_activity_ms: int, now_ms: int, idle_ms: int) -> bool {
    floored_difference(now_ms, last_activity_ms) < idle_ms
}

/// Whether the board was active less than `idle_ms` ago.
pub fn active_within(last_activity_ms: u64, now_ms: u64, idle_ms: u128) -> (active: bool)
    ensures
        active == recently_active(last_activity_ms as int, now_ms as int, idle_ms as int),
{
    (now_ms.saturating_sub(last_activity_ms) as u128) < idle_ms
}

/// Whether a poll for agents is due: the board was active less than `idle_after`
/// ago, in whole milliseconds.
pub fn agents_poll_due(last_activity_ms: u64, now_ms: u64, idle_after: Duration) -> (due: bool)
    ensures
        due == recently_active(
            last_activity_ms as int,
            now_ms as int,
            whole_millis(idle_after) as int,
        ),
{
    active_within(last_activity_ms, now_ms, idle_after.as_millis())
}

/// Activity resumes the polls, and its absence ends them: right after activity a
/// poll is due, at any stamp, zero included; as time passes, what was idle stays
/// idle.
pub proof fn lemma_activity_keeps_the_polls_awake(last: int, now: int, later: int, idle_ms: int)
    requires
        0 <= last <= now <= later,
        0 < idle_ms,
    ensures
        recently_active(now, now, idle_ms),
        !recently_active(last, last + idle_ms, idle_ms),
        !recently_active(last, now, idle_ms) ==> !recently_active(last, later, idle_ms),
{
}

/// What a changed path means for the board.
#[derive(Debug, Clone, Copy, PartialEq, Eq, Structural)]
pub enum WatchPathClass {
    /// It is where the store keeps a session.
    Session,
    /// It holds no session, for certain.
    Ignorable,
    /// It cannot be told.
    Ambiguous,
}

/// What a changed path means, given where it stands, whether a session is kept
/// there, and what is known of it on disk. What is neither a file nor a
/// directory is not known.
pub open spec fn class_of(
    depth: StoreDepth,
    is_session: bool,
    is_file: bool,
    is_dir: bool,
) -> WatchPathClass {
    if is_session {
        WatchPathClass::Session
    } else {
        match depth {
            StoreDepth::Outside => WatchPathClass::Ambiguous,
            StoreDepth::Root => WatchPathClass::Ambiguous,
            StoreDepth::CwdLevel => if is_file {
                WatchPathClass::Ignorable
            } else {
                WatchPathClass::Ambiguous
            },
            StoreDepth::SessionLevel => if is_file || is_dir {
                WatchPathClass::Ignorable
            } else {
                WatchPathClass::Ambiguous
            },
            StoreDepth::BelowSession => WatchPathClass::Ignorable,
        }
    }
}

/// What a changed path means.
pub fn classify_with_metadata(
    depth: StoreDepth,
    is_session: bool,
    is_file: bool,
    is_dir: bool,
) -> (class: WatchPathClass)
    ensures
        class == class_of(depth, is_session, is_file, is_dir),
{
    if is_session {
        return WatchPathClass::Session;
    }
    match depth {
        StoreDepth::Outside => WatchPathClass::Ambiguous,
        StoreDepth::Root => WatchPathClass::Ambiguous,
        StoreDepth::CwdLevel => {
            if is_file {
                WatchPathClass::Ignorable
            } else {
                WatchPathClass::Ambiguous
            }
        },
        StoreDepth::SessionLevel => {
            if is_file || is_dir {
                WatchPathClass::Ignorable
            } else {
                WatchPathClass::Ambiguous
            }
        },
        StoreDepth::BelowSession => WatchPathClass::Ignorable,
    }
}

/// What the changed `path` means for the store at `root`, where it is known to be
/// a file or a directory, or neither is known.
pub open spec fn path_class(
    root: Seq<u8>,
    path: Seq<u8>,
    is_file: bool,
    is_dir: bool,
) -> WatchPathClass {
    class_of(depth_of(root, path), holds_session(root, path), is_file, is_dir)
}

/// What the changed `path` means for the store at `root`.
pub fn classify_watch_path(root: &[u8], path: &[u8], is_file: bool, is_dir: bool) -> (class:
    WatchPathClass)
    ensures
        class == path_class(root@, path@, is_file, is_dir),
{
    let depth = store_depth(root, path);
    let is_session = is_session_path(root, path);
    classify_with_metadata(depth, is_session, is_file, is_dir)
}

/// No session is lost and no deeper file wakes the board: where a session is
/// kept, the class is never `Ignorable`, whatever is known on disk; below the
/// sessions it always is; and where nothing is known on disk, nothing is ignored
/// but what lies below.
pub proof fn lemma_only_certain_paths_are_ignored(
    root: Seq<u8>,
    path: Seq<u8>,
    is_file: bool,
    is_dir: bool,
)
    ensures
        holds_session(root, path) ==> path_class(root, path, is_file, is_dir)
            == WatchPathClass::Session,
        depth_of(root, path) == StoreDepth::BelowSession ==> path_class(
            root,
            path,
            is_file,
            is_dir,
        ) == WatchPathClass::Ignorable,
        path_class(root, path, false, false) == WatchPathClass::Ignorable ==> depth_of(root, path)
            == StoreDepth::BelowSession,
{
}

/// Whether a batch holds a path that may matter.
pub open spec fn any_matters(classes: Seq<WatchPathClass>) -> bool {
    exists|i: int| 0 <= i < classes.len() && #[trigger] classes[i] != WatchPathClass::Ignorable
}

/// Whether a batch calls for a reload of the store: one of its paths may matter.
pub fn batch_needs_reload(classes: Vec<WatchPathClass>) -> (reload: bool)
    ensures
        reload == any_matters(classes@),
{
    let mut i: usize = 0;
    while i < classes.len()
        invariant
            i <= classes@.len(),
            forall|k: int| 0 <= k < i ==> #[trigger] classes@[k] == WatchPathClass::Ignorable,
        decreases classes@.len() - i,
    {
        if classes[i] != WatchPathClass::Ignorable {
            return true;
        }
        i += 1;
    }
    false
}

/// A batch is worth what its parts are: it calls for a reload exactly where one
/// of two halves does, so neither order nor grouping matters, and nothing calls
/// for none.
pub proof fn lemma_batches_add_up(a: Seq<WatchPathClass>, b: Seq<WatchPathClass>)
    ensures
        any_matters(a + b) == (any_matters(a) || any_matters(b)),
        !any_matters(seq![]),
{
    if any_matters(a) {
        let i = choose|i: int| 0 <= i < a.len() && #[trigger] a[i] != WatchPathClass::Ignorable;
        assert((a + b)[i] == a[i]);
    }
    if any_matters(b) {
        let i = choose|i: int| 0 <= i < b.len() && #[trigger] b[i] != WatchPathClass::Ignorable;
        assert((a + b)[a.len() + i] == b[i]);
    }
    if any_matters(a + b) {
        let i = choose|i: int|
            0 <= i < (a + b).len() && #[trigger] (a + b)[i] != WatchPathClass::Ignorable;
        if i < a.len() {
            assert(a[i] == (a + b)[i]);
        } else {
            assert(b[i - a.len()] == (a + b)[i]);
        }
    }
}

/// Where the writes behind a file event stand.
#[derive(Debug, Clone, Copy, PartialEq, Eq, Structural)]
pub enum ChangeKind {
    /// They have come to rest.
    Settled,
    /// They go on.
    Continuous,
}

/// Whether a change of the batch has come to rest.
pub open spec fn any_settled(kinds: Seq<ChangeKind>) -> bool {
    exists|i: int| 0 <= i < kinds.len() && #[trigger] kinds[i] == ChangeKind::Settled
}

/// Whether the batch is worth looking at: one of its changes has come to rest. A
/// batch that could not be read is not, and one that only goes on is not yet.
pub fn batch_settled(kinds: Option<&Vec<ChangeKind>>) -> (settled: bool)
    ensures
        settled == (kinds matches Some(batch) && any_settled(batch@)),
{
    if let Some(batch) = kinds {
        let mut i: usize = 0;
        while i < batch.len()
            invariant
                kinds == Some(batch),
                i <= batch@.len(),
                forall|k: int| 0 <= k < i ==> #[trigger] batch@[k] != ChangeKind::Settled,
            decreases batch@.len() - i,
        {
            if batch[i] == ChangeKind::Settled {
                assert(any_settled(batch@));
                return true;
            }
            i += 1;
        }
    }
    false
}

/// Whether the batch calls for a reload: it could be read, one of its changes has
/// come to rest, and one of its paths may matter.
pub open spec fn reloads(kinds: Option<Seq<ChangeKind>>, classes: Seq<WatchPathClass>) -> bool {
    kinds matches Some(batch) && any_settled(batch) && any_matters(classes)
}

/// Whether the batch calls for a reload. Such a batch stamps the board as active
/// and sends one event, however many changes it holds; any other does neither.
pub fn batch_reloads(kinds: Option<&Vec<ChangeKind>>, classes: Vec<WatchPathClass>) -> (reload:
    bool)
    ensures
        reload == reloads(
            match kinds {
                Some(batch) => Some(batch@),
                None => None,
            },
            classes@,
        ),
{
    batch_settled(kinds) && batch_needs_reload(classes)
}

/// What the watcher has brought about: when the board was last active, and how many
/// reloads were sent.
pub struct WatchState {
    pub activity_ms: int,
    pub sent: nat,
}

/// A batch as the watcher gets it, and the time at which it does.
pub struct WatchedBatch {
    pub kinds: Option<Seq<ChangeKind>>,
    pub classes: Seq<WatchPathClass>,
    pub now_ms: int,
}

impl WatchState {
    /// What the watcher has brought about after one more batch.
    pub open spec fn after(self, batch: WatchedBatch) -> WatchState {
        if reloads(batch.kinds, batch.classes) {
            WatchState { activity_ms: batch.now_ms, sent: self.sent + 1 }
        } else {
            self
        }
    }

    /// What the watcher has brought about after the batches.
    pub open spec fn after_all(self, batches: Seq<WatchedBatch>) -> WatchState
        decreases batches.len(),
    {
        if batches.len() == 0 {
            self
        } else {
            self.after_all(batches.drop_last()).after(batches.last())
        }
    }
}

/// How many of the batches call for a reload.
pub open spec fn reload_count(batches: Seq<WatchedBatch>) -> nat
    decreases batches.len(),
{
    if batches.len() == 0 {
        0
    } else if reloads(batches.last().kinds, batches.last().classes) {
        reload_count(batches.drop_last()) + 1
    } else {
        reload_count(batches.drop_last())
    }
}

/// One reload for each batch that calls for one: as many reloads are sent as there
/// are such batches, the board is stamped at the last of them, and where there is
/// none nothing is sent and the stamp stays.
pub proof fn lemma_one_reload_for_each_batch_that_matters(
    state: WatchState,
    batches: Seq<WatchedBatch>,
)
    ensures
        state.after_all(batches).sent == state.sent + reload_count(batches),
        reload_count(batches) <= batches.len(),
        reload_count(batches) == 0 ==> state.after_all(batches) == state,
        batches.len() > 0 && reloads(batches.last().kinds, batches.last().classes)
            ==> state.after_all(batches).activity_ms == batches.last().now_ms,
    decreases batches.len(),
{
    if batches.len() > 0 {
        lemma_one_reload_for_each_batch_that_matters(state, batches.drop_last());
    }
}

/// What a path of the store means goes by its place: a session's file always is one;
/// another file or directory beside the sessions is nothing, and what is unknown there
/// may be one that is gone; a file beside the directories is nothing, and anything else
/// there, the root, and what stands outside, cannot be told.
pub proof fn lemma_a_path_means_what_its_place_says(
    root: Seq<u8>,
    cwd: Seq<u8>,
    name: Seq<u8>,
    is_file: bool,
    is_dir: bool,
)
    requires
        root.len() > 0,
        is_piece(cwd) && cwd != seq![DOT],
        is_piece(name) && name != seq![DOT],
    ensures
        ({
            let one = root.push(SEPARATOR) + cwd;
            let two = one.push(SEPARATOR) + name;
            &&& path_class(root, root, is_file, is_dir) == WatchPathClass::Ambiguous
            &&& path_class(root, one, true, is_dir) == WatchPathClass::Ignorable
            &&& path_class(root, one, false, is_dir) == WatchPathClass::Ambiguous
            &&& path_class(root, two, is_file, is_dir) == if is_session_name(name) {
                WatchPathClass::Session
            } else if !is_file && !is_dir {
                WatchPathClass::Ambiguous
            } else {
                WatchPathClass::Ignorable
            }
            &&& path_class(root, two.push(SEPARATOR) + name, is_file, is_dir)
                == WatchPathClass::Ignorable
            &&& path_class(two, one, is_file, is_dir) == WatchPathClass::Ambiguous
        }),
{
    let one = root.push(SEPARATOR) + cwd;
    let two = one.push(SEPARATOR) + name;
    lemma_a_store_is_two_levels_deep(root, cwd, name, name);
    lemma_a_session_is_a_named_file_of_its_directory(root, cwd, name);
    lemma_a_name_is_one_component_more(root, cwd);
    lemma_a_name_is_one_component_more(one, name);
    assert(components(two).last() == name);
}

/// A board is active for as long as it is said to be: for every millisecond less than
/// the window after the stamp, at any stamp, and not at the window's end.
pub proof fn lemma_a_window_is_as_long_as_it_says(last: int, passed: int, idle_ms: int)
    requires
        0 <= last,
        0 <= passed,
    ensures
        recently_active(last, last + passed, idle_ms) <==> passed < idle_ms,
        0 < idle_ms ==> recently_active(last + passed, last, idle_ms),
{
}

/// A batch waits until one of its changes comes to rest: what only goes on reloads
/// nothing, whatever its paths are, and neither does a batch that could not be read or
/// one whose paths are all nothing; one change at rest and one path that may matter,
/// wherever they stand in the batch, are enough.
pub proof fn lemma_a_batch_waits_until_it_settles(
    kinds: Seq<ChangeKind>,
    more: Seq<ChangeKind>,
    classes: Seq<WatchPathClass>,
    i: int,
    k: int,
)
    ensures
        any_settled(kinds + more) == (any_settled(kinds) || any_settled(more)),
        !any_settled(seq![]),
        !reloads(None, classes),
        (forall|j: int| 0 <= j < kinds.len() ==> #[trigger] kinds[j] == ChangeKind::Continuous)
            ==> !reloads(Some(kinds), classes),
        (forall|j: int|
            0 <= j < classes.len() ==> #[trigger] classes[j] == WatchPathClass::Ignorable)
            ==> !reloads(Some(kinds), classes),
        0 <= i < kinds.len() && kinds[i] == ChangeKind::Settled && 0 <= k < classes.len()
            && classes[k] != WatchPathClass::Ignorable ==> reloads(Some(kinds), classes),
{
    if any_settled(kinds) {
        let j = choose|j: int| 0 <= j < kinds.len() && #[trigger] kinds[j] == ChangeKind::Settled;
        assert((kinds + more)[j] == kinds[j]);
    }
    if any_settled(more) {
        let j = choose|j: int| 0 <= j < more.len() && #[trigger] more[j] == ChangeKind::Settled;
        assert((kinds + more)[kinds.len() + j] == more[j]);
    }
    if any_settled(kinds + more) {
        let j = choose|j: int|
            0 <= j < (kinds + more).len() && #[trigger] (kinds + more)[j] == ChangeKind::Settled;
        if j < kinds.len() {
            assert(kinds[j] == (kinds + more)[j]);
        } else {
            assert(more[j - kinds.len()] == (kinds + more)[j]);
        }
    }
}

} // verus!
