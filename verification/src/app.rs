//! The state of the board, as far as a frame shows it.

use std::collections::HashSet;
use vstd::prelude::*;
use crate::agents::ReportedAgent;
use crate::geometry::Rect;
use crate::labels::BuildInfo;
use crate::text::same_text;
use crate::worktrees::WorktreeSet;

verus! {

/// Which sessions the board lists.
#[derive(Debug, Clone, Copy, PartialEq, Eq, Structural)]
pub enum Scope {
    /// Those of the directory that the board was started in.
    CurrentFolder,
    /// Those of all the worktrees of its project.
    Project,
    /// All of them.
    All,
}

impl Scope {
    /// The scope that the scope key leads to. All folders can be reached only
    /// where that was enabled.
    #[verifier::allow_in_spec]
    pub fn toggled(self, all_enabled: bool) -> Scope
        returns
            (match self {
                Scope::CurrentFolder => Scope::Project,
                Scope::Project => if all_enabled {
                    Scope::All
                } else {
                    Scope::CurrentFolder
                },
                Scope::All => Scope::CurrentFolder,
            }),
    {
        match self {
            Scope::CurrentFolder => Scope::Project,
            Scope::Project => if all_enabled {
                Scope::All
            } else {
                Scope::CurrentFolder
            },
            Scope::All => Scope::CurrentFolder,
        }
    }
}

/// What the query is looked for in.
#[derive(Debug, Clone, Copy, PartialEq, Eq, Structural)]
pub enum SearchMode {
    NameOnly,
    NameAndContent,
}

/// How many sessions there are.
#[derive(Debug, Clone, Copy, PartialEq, Eq, Structural)]
pub struct SessionCounts {
    /// On the board.
    pub visible: usize,
    /// That the board could show.
    pub total: usize,
    /// That are hidden.
    pub hidden: usize,
}

/// A session as the board knows it.
#[derive(Debug)]
pub struct Session {
    pub session_id: String,
    pub label: String,
    pub timestamp: Option<time::OffsetDateTime>,
    pub msg_count: usize,
    /// The positions of the label's characters that the query matched.
    pub matched: HashSet<usize>,
}

/// A row of the list.
#[derive(Debug)]
pub enum Row {
    /// The head of a group.
    Group { repo: String, branch: String },
    /// A session: which one, how many others the row stands for, and whether it
    /// hangs off the row above.
    Session { index: usize, hidden: usize, child: bool },
}

/// What an open draft is meant for.
#[derive(Debug)]
pub enum ComposeTarget {
    /// A reply to a session. A job that waits is stopped first.
    Reply { session_id: String, stop_job: Option<String> },
    /// The first message of a new background agent.
    NewBackgroundAgent { agent: Option<String> },
}

/// An open draft.
#[derive(Debug)]
pub struct ComposeState {
    pub target: ComposeTarget,
    /// How many rows the text takes in the editor.
    pub screen_rows: usize,
}

/// A session that is to be started.
#[derive(Debug)]
pub struct NewSessionDraft {
    pub agent: Option<String>,
    /// Which launch it was handed to, once it was.
    pub launch_id: Option<u64>,
}

/// A reply that is on its way.
#[derive(Debug)]
pub struct Sending {
    pub session_id: String,
    pub message: String,
    /// How many turns the session had when the reply was sent.
    pub baseline_msg_count: usize,
}

/// How a modal lays its choices out.
#[derive(Debug, Clone, Copy, PartialEq, Eq, Structural)]
pub enum ModalLayout {
    /// Side by side.
    Row,
    /// One below the other.
    List,
}

/// A choice of a modal.
#[derive(Debug)]
pub struct ModalChoice {
    pub label: String,
    pub description: Option<String>,
}

/// A question that lies on top of the board.
#[derive(Debug)]
pub struct Modal {
    pub title: String,
    pub message: String,
    pub layout: ModalLayout,
    pub choices: Vec<ModalChoice>,
    pub selected: usize,
}

/// A session whose agent is to be stopped, once that was confirmed.
#[derive(Debug)]
pub struct PendingStop {
    pub session_id: String,
}

/// The state of the board.
#[derive(Debug)]
pub struct App {
    pub build: BuildInfo,
    pub scope: Scope,
    /// Whether the scope can be widened to all folders.
    pub all_scope_enabled: bool,
    pub search_mode: SearchMode,
    /// The directory that the board was started in.
    pub launch_dir: Vec<u8>,
    /// The root of the repository around it.
    pub repo_root: Vec<u8>,
    pub worktrees: WorktreeSet,
    pub counts: SessionCounts,
    pub sessions: Vec<Session>,
    pub rows: Vec<Row>,
    pub selected_row: Option<usize>,
    /// The ids of the sessions that were hidden.
    pub hidden_ids: Vec<String>,
    /// The agents that were reported, each with its session's id.
    pub reported: Vec<(String, ReportedAgent)>,
    pub tick: u64,
    /// The first row of the list that was in view.
    pub scroll: usize,
    pub query: String,
    pub status: Option<String>,
    /// Whether the leader key was pressed.
    pub pending_chord: bool,
    /// The id of the selected session.
    pub selected: Option<String>,
    pub compose: Option<ComposeState>,
    pub draft: Option<NewSessionDraft>,
    pub sending: Option<Sending>,
    pub modal: Option<Modal>,
    /// The waiting agent that is to be stopped for a reply.
    pub pending_stop: Option<PendingStop>,
    /// The running agent that is to be stopped.
    pub pending_interrupt: Option<PendingStop>,
    pub show_preview: bool,
    pub list_rect: Rect,
    pub preview_rect: Rect,
    /// The first row of the preview that was in view.
    pub preview_scroll: u32,
    /// Whether the preview keeps to its last row.
    pub preview_follow_bottom: bool,
    pub preview_viewport_h: u16,
    /// Whether the preview is to show the next match.
    pub preview_match_jump: bool,
}

/// Where `id` stands first among `ids`.
pub open spec fn first_at(ids: Seq<Seq<char>>, id: Seq<char>) -> Option<int>
    decreases ids.len(),
{
    if ids.len() == 0 {
        None
    } else {
        match first_at(ids.drop_last(), id) {
            Some(i) => Some(i),
            None => if ids.last() == id {
                Some(ids.len() - 1)
            } else {
                None
            },
        }
    }
}

/// The first place is a place, nothing before it is one, and there is one where
/// `id` occurs.
pub proof fn lemma_first_at(ids: Seq<Seq<char>>, id: Seq<char>)
    ensures
        match first_at(ids, id) {
            Some(i) => 0 <= i < ids.len() && ids[i] == id && forall|k: int|
                0 <= k < i ==> ids[k] != id,
            None => !ids.contains(id),
        },
    decreases ids.len(),
{
    if ids.len() > 0 {
        let fewer = ids.drop_last();
        lemma_first_at(fewer, id);
        if first_at(fewer, id) is None {
            assert forall|k: int| 0 <= k < ids.len() - 1 implies ids[k] != id by {
                assert(fewer[k] == ids[k]);
                assert(fewer.contains(fewer[k]));
            }
        } else {
            let i = first_at(fewer, id).unwrap();
            assert(ids[i] == fewer[i]);
            assert forall|k: int| 0 <= k < i implies ids[k] != id by {
                assert(fewer[k] == ids[k]);
            }
        }
    }
}

/// The ids of the sessions.
pub open spec fn session_ids(sessions: Seq<Session>) -> Seq<Seq<char>> {
    sessions.map_values(|s: Session| s.session_id@)
}

/// The ids of the sessions that agents were reported for.
pub open spec fn reported_ids(reported: Seq<(String, ReportedAgent)>) -> Seq<Seq<char>> {
    reported.map_values(|r: (String, ReportedAgent)| r.0@)
}

/// The characters of each id.
pub open spec fn id_texts(ids: Seq<String>) -> Seq<Seq<char>> {
    ids.map_values(|s: String| s@)
}

impl App {
    /// Every row of a session names one.
    pub open spec fn rows_valid(self) -> bool {
        forall|i: int|
            0 <= i < self.rows@.len() ==> match #[trigger] self.rows@[i] {
                Row::Session { index, .. } => index < self.sessions@.len(),
                Row::Group { .. } => true,
            }
    }

    /// The session with the id `id`.
    pub open spec fn session(self, id: Seq<char>) -> Option<Session> {
        match first_at(session_ids(self.sessions@), id) {
            Some(i) => Some(self.sessions@[i]),
            None => None,
        }
    }

    /// The session with the id `id`.
    pub fn session_by_id(&self, id: &str) -> (session: Option<&Session>)
        ensures
            match session {
                Some(session) => self.session(id@) == Some(*session),
                None => self.session(id@) is None,
            },
    {
        let ghost ids = session_ids(self.sessions@);
        let mut i: usize = 0;
        assert(ids.take(0) =~= seq![]);
        while i < self.sessions.len()
            invariant
                ids == session_ids(self.sessions@),
                i <= self.sessions@.len(),
                first_at(ids.take(i as int), id@) is None,
            decreases self.sessions@.len() - i,
        {
            assert(ids.take(i + 1).drop_last() =~= ids.take(i as int));
            assert(ids[i as int] == self.sessions@[i as int].session_id@);
            if same_text(self.sessions[i].session_id.as_str(), id) {
                proof {
                    lemma_first_at_extends(ids, id@, i + 1);
                }
                return Some(&self.sessions[i]);
            }
            i += 1;
        }
        assert(ids.take(i as int) =~= ids);
        None
    }

    /// The agent that was reported for the session `id`.
    pub open spec fn agent(self, id: Seq<char>) -> Option<ReportedAgent> {
        match first_at(reported_ids(self.reported@), id) {
            Some(i) => Some(self.reported@[i].1),
            None => None,
        }
    }

    /// The agent that was reported for the session `id`.
    pub fn reported_agent(&self, id: &str) -> (agent: Option<&ReportedAgent>)
        ensures
            match agent {
                Some(agent) => self.agent(id@) == Some(*agent),
                None => self.agent(id@) is None,
            },
    {
        let ghost ids = reported_ids(self.reported@);
        let mut i: usize = 0;
        assert(ids.take(0) =~= seq![]);
        while i < self.reported.len()
            invariant
                ids == reported_ids(self.reported@),
                i <= self.reported@.len(),
                first_at(ids.take(i as int), id@) is None,
            decreases self.reported@.len() - i,
        {
            assert(ids.take(i + 1).drop_last() =~= ids.take(i as int));
            assert(ids[i as int] == self.reported@[i as int].0@);
            if same_text(self.reported[i].0.as_str(), id) {
                proof {
                    lemma_first_at_extends(ids, id@, i + 1);
                }
                return Some(&self.reported[i].1);
            }
            i += 1;
        }
        assert(ids.take(i as int) =~= ids);
        None
    }

    /// Whether the session `id` was hidden.
    pub open spec fn hidden(self, id: Seq<char>) -> bool {
        id_texts(self.hidden_ids@).contains(id)
    }

    /// Whether the session `id` was hidden.
    pub fn is_hidden(&self, id: &str) -> (hidden: bool)
        ensures
            hidden == self.hidden(id@),
    {
        let mut i: usize = 0;
        while i < self.hidden_ids.len()
            invariant
                i <= self.hidden_ids@.len(),
                forall|k: int| 0 <= k < i ==> #[trigger] id_texts(self.hidden_ids@)[k] != id@,
            decreases self.hidden_ids@.len() - i,
        {
            assert(id_texts(self.hidden_ids@)[i as int] == self.hidden_ids@[i as int]@);
            if same_text(self.hidden_ids[i].as_str(), id) {
                return true;
            }
            i += 1;
        }
        false
    }

    /// The reply that is on its way to the session `id`.
    pub open spec fn reply_to(self, id: Seq<char>) -> Option<Sending> {
        match self.sending {
            Some(sending) => if sending.session_id@ == id {
                Some(sending)
            } else {
                None
            },
            None => None,
        }
    }

    /// The reply that is on its way to the session `id`.
    pub fn sending_to(&self, id: &str) -> (sending: Option<&Sending>)
        ensures
            match sending {
                Some(sending) => self.reply_to(id@) == Some(*sending),
                None => self.reply_to(id@) is None,
            },
    {
        match &self.sending {
            Some(sending) => {
                if same_text(sending.session_id.as_str(), id) {
                    Some(sending)
                } else {
                    None
                }
            },
            None => None,
        }
    }

    /// What to call the session `id`: its label, or the id where it has none.
    pub open spec fn name_of(self, id: Seq<char>) -> Seq<char> {
        match self.session(id) {
            Some(session) => if session.label@.len() > 0 {
                session.label@
            } else {
                id
            },
            None => id,
        }
    }

    /// What to call the session `id`.
    pub fn session_name<'a>(&'a self, id: &'a str) -> (name: &'a str)
        ensures
            name@ == self.name_of(id@),
    {
        match self.session_by_id(id) {
            Some(session) => {
                if session.label.as_str().unicode_len() > 0 {
                    session.label.as_str()
                } else {
                    id
                }
            },
            None => id,
        }
    }
}

/// The first place among fewer ids is the first place among all of them.
proof fn lemma_first_at_extends(ids: Seq<Seq<char>>, id: Seq<char>, n: int)
    requires
        0 <= n <= ids.len(),
        first_at(ids.take(n), id) is Some,
    ensures
        first_at(ids, id) == first_at(ids.take(n), id),
    decreases ids.len(),
{
    if n == ids.len() {
        assert(ids.take(n) =~= ids);
    } else {
        assert(ids.drop_last().take(n) =~= ids.take(n));
        lemma_first_at_extends(ids.drop_last(), id, n);
    }
}

/// The scope key goes round: three steps lead back where all folders can be reached,
/// and two where they cannot; and they are reached only where they can be.
pub proof fn lemma_the_scope_key_goes_round(scope: Scope, all_enabled: bool)
    ensures
        scope.toggled(true).toggled(true).toggled(true) == scope,
        scope.toggled(true) != scope && scope.toggled(true).toggled(true) != scope,
        scope != Scope::All ==> scope.toggled(false).toggled(false) == scope,
        scope.toggled(all_enabled) != scope,
        scope.toggled(all_enabled) == Scope::All ==> all_enabled && scope == Scope::Project,
{
}

/// A session is called by its label, or by its id where it has none; where several
/// share an id, by the first of them; and an id of no session stands for itself.
pub proof fn lemma_a_session_is_called_by_its_label(app: App, id: Seq<char>, i: int)
    requires
        0 <= i < app.sessions@.len(),
        app.sessions@[i].session_id@ == id,
        forall|k: int| 0 <= k < i ==> (#[trigger] app.sessions@[k]).session_id@ != id,
    ensures
        app.session(id) == Some(app.sessions@[i]),
        app.sessions@[i].label@.len() > 0 ==> app.name_of(id) == app.sessions@[i].label@,
        app.sessions@[i].label@.len() == 0 ==> app.name_of(id) == id,
{
    let ids = session_ids(app.sessions@);
    lemma_first_at(ids, id);
    assert(ids[i] == id);
    assert(ids.contains(id));
    let at = first_at(ids, id).unwrap();
    assert(ids[at] == app.sessions@[at].session_id@);
}

/// An id of no session stands for itself.
pub proof fn lemma_an_unknown_session_is_called_by_its_id(app: App, id: Seq<char>)
    requires
        forall|k: int|
            0 <= k < app.sessions@.len() ==> (#[trigger] app.sessions@[k]).session_id@ != id,
    ensures
        app.session(id) is None,
        app.name_of(id) == id,
{
    let ids = session_ids(app.sessions@);
    lemma_first_at(ids, id);
    if first_at(ids, id) is Some {
        let at = first_at(ids, id).unwrap();
        assert(ids[at] == app.sessions@[at].session_id@);
    }
}

/// An agent belongs to the session that it was reported for: the first report for the
/// id, and none where there is no report for it.
pub proof fn lemma_an_agent_belongs_to_its_session(app: App, id: Seq<char>)
    ensures
        match app.agent(id) {
            Some(agent) => exists|i: int|
                #![trigger app.reported@[i]]
                0 <= i < app.reported@.len() && app.reported@[i].0@ == id && app.reported@[i].1
                    == agent && forall|k: int|
                    0 <= k < i ==> (#[trigger] app.reported@[k]).0@ != id,
            None => forall|k: int|
                0 <= k < app.reported@.len() ==> (#[trigger] app.reported@[k]).0@ != id,
        },
{
    let ids = reported_ids(app.reported@);
    lemma_first_at(ids, id);
    assert forall|k: int| 0 <= k < app.reported@.len() implies (#[trigger] app.reported@[k]).0@
        == ids[k] by {}
    match first_at(ids, id) {
        Some(i) => {
            assert(app.reported@[i].0@ == ids[i]);
        },
        None => {
            assert forall|k: int| 0 <= k < app.reported@.len() implies (
            #[trigger] app.reported@[k]).0@ != id by {
                assert(ids.contains(ids[k]));
            }
        },
    }
}

/// A session is hidden where its id is among those that were hidden, and a reply is on
/// its way to the session that it was sent to and to no other.
pub proof fn lemma_ids_tell_sessions_apart(app: App, id: Seq<char>, i: int)
    ensures
        0 <= i < app.hidden_ids@.len() && app.hidden_ids@[i]@ == id ==> app.hidden(id),
        (forall|k: int|
            0 <= k < app.hidden_ids@.len() ==> (#[trigger] app.hidden_ids@[k])@ != id)
            ==> !app.hidden(id),
        app.reply_to(id) is Some ==> app.reply_to(id) == app.sending,
        app.sending matches Some(sending) ==> (app.reply_to(id) is Some <==> sending.session_id@
            == id),
        app.sending is None ==> app.reply_to(id) is None,
{
    let ids = id_texts(app.hidden_ids@);
    if 0 <= i < app.hidden_ids@.len() && app.hidden_ids@[i]@ == id {
        assert(ids[i] == id);
    }
    if app.hidden(id) && forall|k: int|
        0 <= k < app.hidden_ids@.len() ==> (#[trigger] app.hidden_ids@[k])@ != id {
        let k = choose|k: int| 0 <= k < ids.len() && ids[k] == id;
        assert(app.hidden_ids@[k]@ == id);
    }
}

} // verus!
