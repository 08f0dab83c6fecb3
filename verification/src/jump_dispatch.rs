//! `/jump` picker dispatchers: client-side turn navigation over an agent's
//! transcript.

use vstd::prelude::*;

use crate::text::{
    decimal, first_match, lemma_first_match, lemma_first_match_at, lemma_first_match_prefix,
    lemma_first_match_push,
    lemma_first_match_same, usize_to_decimal,
};

verus! {

/// The stable identity of a transcript entry.
pub type EntryId = u64;

/// One row of the turn picker: a turn, named by its prompt entry.
#[derive(Clone, Copy, Debug, PartialEq, Eq)]
pub struct TimelineEntry {
    pub prompt_entry_id: EntryId,
}

/// Where the viewport stood: the entry at its top.
#[derive(Clone, Copy, Debug, PartialEq, Eq)]
pub struct ScrollBookmark {
    pub top: usize,
}

/// The viewport as it was when the picker opened, to go back to.
#[derive(Clone, Copy, Debug, PartialEq, Eq)]
pub struct JumpRestore {
    pub bookmark: ScrollBookmark,
    pub selected: Option<usize>,
    pub follow_mode: bool,
}

/// An open turn picker: its rows (oldest first), the highlighted row, and the
/// viewport to restore when the picker closes without a jump.
pub struct JumpState {
    pub entries: Vec<TimelineEntry>,
    pub selected: usize,
    pub restore: JumpRestore,
}

/// An agent's transcript and its viewport.
pub struct Scrollback {
    /// Every entry of the transcript, in order.
    pub entry_ids: Vec<EntryId>,
    /// The prompt entry of each turn, oldest first.
    pub turns: Vec<EntryId>,
    /// The index of the entry at the viewport top.
    pub top: usize,
    /// The selected entry, if any.
    pub selected: Option<usize>,
    /// Whether the viewport follows new output.
    pub follow_mode: bool,
}

/// One agent's view.
pub struct AgentView {
    pub id: u64,
    pub scrollback: Scrollback,
    /// The open turn picker, if any.
    pub jump_state: Option<JumpState>,
    /// Another prompt overlay (rewind, inline edit, `/btw`, or a pending
    /// permission, question, cancel-turn or plan overlay) owns the input slot.
    pub overlay_owns_input: bool,
}

/// Which view has the screen.
#[derive(Clone, Copy, Debug, PartialEq, Eq)]
pub enum ActiveView {
    /// The agent with this id.
    Agent(u64),
    /// A view that belongs to no agent.
    NoAgent,
}

/// The application's view state.
pub struct AppView {
    pub active_view: ActiveView,
    pub agents: Vec<AgentView>,
    /// Toast messages shown to the user, oldest first.
    pub toasts: Vec<String>,
}

/// The transcript as values.
#[verifier::ext_equal]
pub struct ScrollbackModel {
    pub entry_ids: Seq<EntryId>,
    pub turns: Seq<EntryId>,
    pub top: usize,
    pub selected: Option<usize>,
    pub follow_mode: bool,
}

/// An open picker as values.
#[verifier::ext_equal]
pub struct JumpModel {
    pub entries: Seq<EntryId>,
    pub selected: usize,
    pub restore: JumpRestore,
}

/// An agent's view as values.
#[verifier::ext_equal]
pub struct AgentModel {
    pub id: u64,
    pub scrollback: ScrollbackModel,
    pub jump: Option<JumpModel>,
    pub overlay_owns_input: bool,
}

/// The application's view state as values.
#[verifier::ext_equal]
pub struct AppModel {
    pub active_view: ActiveView,
    pub agents: Seq<AgentModel>,
    pub toasts: Seq<Seq<char>>,
}

/// The prompt entries of picker rows.
pub open spec fn prompt_ids(rows: Seq<TimelineEntry>) -> Seq<EntryId> {
    rows.map_values(|r: TimelineEntry| r.prompt_entry_id)
}

impl View for Scrollback {
    type V = ScrollbackModel;

    open spec fn view(&self) -> ScrollbackModel {
        ScrollbackModel {
            entry_ids: self.entry_ids@,
            turns: self.turns@,
            top: self.top,
            selected: self.selected,
            follow_mode: self.follow_mode,
        }
    }
}

impl View for JumpState {
    type V = JumpModel;

    open spec fn view(&self) -> JumpModel {
        JumpModel { entries: prompt_ids(self.entries@), selected: self.selected, restore: self.restore }
    }
}

impl View for AgentView {
    type V = AgentModel;

    open spec fn view(&self) -> AgentModel {
        AgentModel {
            id: self.id,
            scrollback: self.scrollback@,
            jump: match self.jump_state {
                Some(js) => Some(js@),
                None => None,
            },
            overlay_owns_input: self.overlay_owns_input,
        }
    }
}

impl View for AppView {
    type V = AppModel;

    open spec fn view(&self) -> AppModel {
        AppModel {
            active_view: self.active_view,
            agents: self.agents@.map_values(|a: AgentView| a@),
            toasts: self.toasts@.map_values(|t: String| t@),
        }
    }
}

/// The predicate "is the entry `id`".
pub open spec fn equals_id(id: EntryId) -> spec_fn(EntryId) -> bool {
    |x: EntryId| x == id
}

/// The predicate "is the agent `id`".
pub open spec fn has_agent_id(id: u64) -> spec_fn(AgentModel) -> bool {
    |a: AgentModel| a.id == id
}

/// The turn at the viewport top `top`: the last turn whose prompt entry
/// stands at or above that row.
pub open spec fn turn_at_top(entry_ids: Seq<EntryId>, turns: Seq<EntryId>, top: int) -> Option<int>
    decreases turns.len(),
{
    if turns.len() == 0 {
        None
    } else if (match first_match(entry_ids, equals_id(turns.last())) {
        Some(k) => k <= top,
        None => false,
    }) {
        Some(turns.len() - 1)
    } else {
        turn_at_top(entry_ids, turns.drop_last(), top)
    }
}

impl ScrollbackModel {
    /// The transcript could be held in memory: its lengths fit in `usize`,
    /// as those of any `Vec` do.
    pub open spec fn fits(self) -> bool {
        self.entry_ids.len() <= usize::MAX && self.turns.len() <= usize::MAX
    }

    /// The position of entry `id` in the transcript.
    pub open spec fn index_of(self, id: EntryId) -> Option<int> {
        first_match(self.entry_ids, equals_id(id))
    }

    /// The turn at the viewport top.
    pub open spec fn active_turn(self) -> Option<int> {
        turn_at_top(self.entry_ids, self.turns, self.top as int)
    }

    /// The viewport as a restore point.
    pub open spec fn capture(self) -> JumpRestore {
        JumpRestore {
            bookmark: ScrollBookmark { top: self.top },
            selected: self.selected,
            follow_mode: self.follow_mode,
        }
    }

    /// The transcript with entry `idx` at the viewport top; following stops.
    pub open spec fn scrolled_to(self, idx: usize) -> Self {
        ScrollbackModel { top: idx, follow_mode: false, ..self }
    }

    /// Whether entry `id` is in the transcript.
    pub open spec fn finds_entry(self, id: EntryId) -> bool {
        self.index_of(id) is Some
    }

    /// The transcript after jumping to entry `id`: scrolled to it where it exists.
    pub open spec fn jumped_to_entry(self, id: EntryId) -> Self {
        match self.index_of(id) {
            Some(i) => self.scrolled_to(i as usize),
            None => self,
        }
    }

    /// Whether turn `t` (0-based) exists and its prompt is in the transcript.
    pub open spec fn finds_turn(self, t: usize) -> bool {
        t < self.turns.len() && self.finds_entry(self.turns[t as int])
    }

    /// The transcript after jumping to turn `t` (0-based).
    pub open spec fn jumped_to_turn(self, t: usize) -> Self {
        if t < self.turns.len() {
            self.jumped_to_entry(self.turns[t as int])
        } else {
            self
        }
    }

    /// The viewport put back as `r` recorded it.
    pub open spec fn restored(self, r: JumpRestore) -> Self {
        ScrollbackModel { top: r.bookmark.top, selected: r.selected, follow_mode: r.follow_mode, ..self }
    }
}

impl AgentModel {
    /// The row the picker opens on: the turn at the viewport top, or the
    /// newest turn where none is.
    pub open spec fn picker_row(self) -> usize {
        let last = (self.scrollback.turns.len() - 1) as usize;
        match self.scrollback.active_turn() {
            Some(t) => if t < last { t as usize } else { last },
            None => last,
        }
    }

    /// The agent with the picker open on `picker_row`, previewing that turn
    /// at the viewport top.
    pub open spec fn picker_opened(self) -> Self {
        let row = self.picker_row();
        AgentModel {
            jump: Some(
                JumpModel {
                    entries: self.scrollback.turns,
                    selected: row,
                    restore: self.scrollback.capture(),
                },
            ),
            scrollback: self.scrollback.jumped_to_entry(self.scrollback.turns[row as int]),
            ..self
        }
    }

    /// The agent with the picker closed and its viewport restored.
    pub open spec fn dismissed(self) -> Self {
        match self.jump {
            Some(js) => AgentModel { jump: None, scrollback: self.scrollback.restored(js.restore), ..self },
            None => self,
        }
    }
}

/// The position of the active agent, where the active view is an agent that exists.
pub open spec fn target_agent(app: AppModel) -> Option<int> {
    match app.active_view {
        ActiveView::Agent(id) => first_match(app.agents, has_agent_id(id)),
        ActiveView::NoAgent => None,
    }
}

/// The application with agent `i` replaced.
pub open spec fn with_agent(app: AppModel, i: int, a: AgentModel) -> AppModel {
    AppModel { agents: app.agents.update(i, a), ..app }
}

/// The application with a toast added.
pub open spec fn with_toast(app: AppModel, msg: Seq<char>) -> AppModel {
    AppModel { toasts: app.toasts.push(msg), ..app }
}

/// The toast for a picker with nothing to show.
pub open spec fn nothing_to_jump_message() -> Seq<char> {
    "Nothing to jump to yet"@
}

/// The toast for a turn number that names no turn.
pub open spec fn missing_turn_message(turn_number: usize) -> Seq<char> {
    "Turn "@ + decimal(turn_number as nat) + " doesn't exist"@
}

/// The state after asking for the picker: nothing changes without an active
/// agent or while another overlay owns the input; with fewer than two turns a
/// toast says so; otherwise the picker opens.
pub open spec fn picker_shown(app: AppModel) -> AppModel {
    match target_agent(app) {
        Some(i) => {
            let a = app.agents[i];
            if a.overlay_owns_input {
                app
            } else if a.scrollback.turns.len() < 2 {
                with_toast(app, nothing_to_jump_message())
            } else {
                with_agent(app, i, a.picker_opened())
            }
        },
        None => app,
    }
}

/// The state after choosing prompt `prompt_id` in the open picker: the picker
/// closes, and the transcript jumps to the prompt, or, where the prompt is
/// gone, goes back to the viewport captured when the picker opened.
pub open spec fn picker_selected(app: AppModel, prompt_id: EntryId) -> AppModel {
    match target_agent(app) {
        Some(i) => {
            let a = app.agents[i];
            match a.jump {
                Some(js) => {
                    let sb = a.scrollback;
                    let next = if sb.finds_entry(prompt_id) {
                        sb.jumped_to_entry(prompt_id)
                    } else {
                        sb.restored(js.restore)
                    };
                    with_agent(app, i, AgentModel { jump: None, scrollback: next, ..a })
                },
                None => app,
            }
        },
        None => app,
    }
}

/// The state after dismissing the picker.
pub open spec fn picker_dismissed(app: AppModel) -> AppModel {
    match target_agent(app) {
        Some(i) => with_agent(app, i, app.agents[i].dismissed()),
        None => app,
    }
}

/// The state after `/jump N`: any open picker is dismissed first; then the
/// transcript jumps to turn `N` (1-based), or a toast says the turn does not
/// exist and the viewport stays as it is.
pub open spec fn turn_jumped(app: AppModel, turn_number: usize) -> AppModel {
    match target_agent(app) {
        Some(i) => {
            let a = app.agents[i].dismissed();
            let idx = if turn_number == 0 { 0 } else { (turn_number - 1) as usize };
            let found = turn_number != 0 && a.scrollback.finds_turn(idx);
            let next = if turn_number == 0 {
                a
            } else {
                AgentModel { scrollback: a.scrollback.jumped_to_turn(idx), ..a }
            };
            let app2 = with_agent(app, i, next);
            if found {
                app2
            } else {
                with_toast(app2, missing_turn_message(turn_number))
            }
        },
        None => app,
    }
}

impl Scrollback {
    /// The picker rows: one per turn, oldest first.
    pub fn timeline_entries(&self) -> (r: Vec<TimelineEntry>)
        ensures
            prompt_ids(r@) == self.turns@,
    {
        let mut r: Vec<TimelineEntry> = Vec::new();
        let n = self.turns.len();
        let mut i: usize = 0;
        while i < n
            invariant
                n == self.turns@.len(),
                i <= n,
                prompt_ids(r@) == self.turns@.take(i as int),
            decreases n - i,
        {
            let ghost before = r@;
            r.push(TimelineEntry { prompt_entry_id: self.turns[i] });
            assert(prompt_ids(r@) =~= prompt_ids(before).push(self.turns@[i as int]));
            assert(self.turns@.take(i + 1) =~= self.turns@.take(i as int).push(self.turns@[i as int]));
            i = i + 1;
        }
        assert(self.turns@.take(n as int) =~= self.turns@);
        r
    }

    /// The current viewport top, as a bookmark.
    pub fn capture_scroll_bookmark(&self) -> (r: ScrollBookmark)
        ensures
            r == (ScrollBookmark { top: self.top }),
    {
        ScrollBookmark { top: self.top }
    }

    /// The selected entry.
    pub fn selected(&self) -> (r: Option<usize>)
        ensures
            r == self.selected,
    {
        self.selected
    }

    /// Whether the viewport follows new output.
    pub fn is_follow_mode(&self) -> (r: bool)
        ensures
            r == self.follow_mode,
    {
        self.follow_mode
    }

    /// The position of entry `id` in the transcript.
    pub fn index_of_id(&self, id: EntryId) -> (r: Option<usize>)
        ensures
            match r {
                Some(i) => self@.index_of(id) == Some(i as int),
                None => self@.index_of(id) is None,
            },
    {
        let ghost p = equals_id(id);
        let n = self.entry_ids.len();
        let mut i: usize = 0;
        assert(self.entry_ids@.take(0) =~= Seq::<EntryId>::empty());
        while i < n
            invariant
                n == self.entry_ids@.len(),
                i <= n,
                p == equals_id(id),
                first_match(self.entry_ids@.take(i as int), p) is None,
            decreases n - i,
        {
            let e = self.entry_ids[i];
            proof {
                assert(self.entry_ids@.take(i + 1) =~= self.entry_ids@.take(i as int).push(e));
                lemma_first_match_push(self.entry_ids@.take(i as int), e, p);
            }
            if e == id {
                proof {
                    lemma_first_match_prefix(self.entry_ids@, i + 1, p);
                }
                return Some(i);
            }
            i = i + 1;
        }
        assert(self.entry_ids@.take(n as int) =~= self.entry_ids@);
        None
    }

    /// The turn at the viewport top (rows are oldest-first, so the row index
    /// is the turn index).
    pub fn active_turn_for_viewport(&self) -> (r: Option<usize>)
        ensures
            match r {
                Some(t) => self@.active_turn() == Some(t as int),
                None => self@.active_turn() is None,
            },
    {
        let mut j: usize = self.turns.len();
        assert(self.turns@.take(j as int) =~= self.turns@);
        while j > 0
            invariant
                j <= self.turns@.len(),
                self@.active_turn() == turn_at_top(
                    self.entry_ids@,
                    self.turns@.take(j as int),
                    self.top as int,
                ),
            decreases j,
        {
            let prompt = self.turns[j - 1];
            let ghost prefix = self.turns@.take(j as int);
            assert(prefix.last() == prompt);
            assert(prefix.drop_last() =~= self.turns@.take(j - 1));
            match self.index_of_id(prompt) {
                Some(k) => {
                    if k <= self.top {
                        return Some(j - 1);
                    }
                },
                None => {},
            }
            j = j - 1;
        }
        None
    }

    /// Put entry `idx` at the viewport top; following stops.
    pub fn scroll_to_entry_top(&mut self, idx: usize)
        ensures
            final(self)@ == old(self)@.scrolled_to(idx),
    {
        self.top = idx;
        self.follow_mode = false;
    }

    /// Jump to entry `id`; `false`, with nothing changed, where it is gone.
    pub fn jump_to_entry(&mut self, id: EntryId) -> (found: bool)
        ensures
            found == old(self)@.finds_entry(id),
            final(self)@ == old(self)@.jumped_to_entry(id),
    {
        match self.index_of_id(id) {
            Some(idx) => {
                self.scroll_to_entry_top(idx);
                true
            },
            None => false,
        }
    }

    /// Jump to turn `turn_idx` (0-based); `false`, with nothing changed, where
    /// there is no such turn.
    pub fn jump_to_turn(&mut self, turn_idx: usize) -> (found: bool)
        ensures
            found == old(self)@.finds_turn(turn_idx),
            final(self)@ == old(self)@.jumped_to_turn(turn_idx),
    {
        if turn_idx < self.turns.len() {
            let id = self.turns[turn_idx];
            self.jump_to_entry(id)
        } else {
            false
        }
    }
}

impl AgentView {
    /// Whether another prompt overlay owns the input slot.
    pub fn jump_slot_taken(&self) -> (r: bool)
        ensures
            r == self.overlay_owns_input,
    {
        self.overlay_owns_input
    }

    /// Put the viewport back as `restore` recorded it.
    pub fn restore_jump_viewport(&mut self, restore: JumpRestore)
        ensures
            final(self)@ == (AgentModel {
                scrollback: old(self)@.scrollback.restored(restore),
                ..old(self)@
            }),
    {
        self.scrollback.top = restore.bookmark.top;
        self.scrollback.selected = restore.selected;
        self.scrollback.follow_mode = restore.follow_mode;
    }

    /// Close the picker, if open, and restore the viewport it captured.
    pub fn dismiss_jump_picker(&mut self)
        ensures
            final(self)@ == old(self)@.dismissed(),
    {
        match self.jump_state.take() {
            Some(js) => self.restore_jump_viewport(js.restore),
            None => {},
        }
    }

    /// Open the picker; `false`, with nothing changed, when there are fewer
    /// than two turns.
    fn open_jump_picker(&mut self) -> (opened: bool)
        ensures
            opened == (old(self)@.scrollback.turns.len() >= 2),
            opened ==> final(self)@ == old(self)@.picker_opened(),
            !opened ==> final(self)@ == old(self)@,
    {
        let entries = self.scrollback.timeline_entries();
        if entries.len() < 2 {
            return false;
        }
        let restore = JumpRestore {
            bookmark: self.scrollback.capture_scroll_bookmark(),
            selected: self.scrollback.selected(),
            follow_mode: self.scrollback.is_follow_mode(),
        };
        let last = entries.len() - 1;
        let selected = match self.scrollback.active_turn_for_viewport() {
            Some(t) => if t < last {
                t
            } else {
                last
            },
            None => last,
        };
        let preview_id = entries[selected].prompt_entry_id;
        assert(preview_id == self.scrollback.turns@[selected as int]);
        self.jump_state = Some(JumpState { entries, selected, restore });
        match self.scrollback.index_of_id(preview_id) {
            Some(idx) => self.scrollback.scroll_to_entry_top(idx),
            None => {},
        }
        true
    }
}

impl AppView {
    /// The position of the active agent.
    pub fn target_agent(&self) -> (r: Option<usize>)
        ensures
            match r {
                Some(i) => target_agent(self@) == Some(i as int),
                None => target_agent(self@) is None,
            },
    {
        let id = match self.active_view {
            ActiveView::Agent(id) => id,
            ActiveView::NoAgent => {
                return None;
            },
        };
        let ghost p = has_agent_id(id);
        let ghost models = self@.agents;
        let n = self.agents.len();
        let mut i: usize = 0;
        assert(models.take(0) =~= Seq::<AgentModel>::empty());
        while i < n
            invariant
                n == self.agents@.len() == models.len(),
                models == self@.agents,
                self.active_view == ActiveView::Agent(id),
                i <= n,
                p == has_agent_id(id),
                first_match(models.take(i as int), p) is None,
            decreases n - i,
        {
            proof {
                assert(models.take(i + 1) =~= models.take(i as int).push(models[i as int]));
                lemma_first_match_push(models.take(i as int), models[i as int], p);
            }
            assert(models[i as int] == self.agents@[i as int]@);
            if self.agents[i].id == id {
                proof {
                    lemma_first_match_prefix(models, i + 1, p);
                }
                return Some(i);
            }
            i = i + 1;
        }
        assert(models.take(n as int) =~= models);
        None
    }

    /// Show a toast.
    pub fn show_toast(&mut self, msg: &str)
        ensures
            final(self)@ == with_toast(old(self)@, msg@),
    {
        self.toasts.push(String::from_str(msg));
        assert(self@.toasts =~= old(self)@.toasts.push(msg@));
    }
}

/// Open the turn picker on the active agent's turn at the viewport top.
pub fn dispatch_jump_show_picker(app: &mut AppView)
    ensures
        final(app)@ == picker_shown(old(app)@),
{
    let i = match app.target_agent() {
        Some(i) => i,
        None => {
            return;
        },
    };
    proof {
        lemma_first_match(old(app)@.agents, has_agent_id(old(app)@.active_view->Agent_0));
    }
    // Refuse while another prompt overlay owns the input slot: an opened
    // picker would be hidden but still eat input.
    if app.agents[i].jump_slot_taken() {
        return;
    }
    let opened = app.agents[i].open_jump_picker();
    assert(app@.agents =~= old(app)@.agents.update(i as int, app.agents@[i as int]@));
    if !opened {
        assert(app@ =~= old(app)@);
        app.show_toast("Nothing to jump to yet");
    }
}


/// Close the picker on the chosen prompt: jump to it, or, where the prompt was
/// removed while the picker was open, restore the captured viewport so that a
/// failed jump never strands the transcript at the last preview scroll.
pub fn dispatch_jump_picker_select(app: &mut AppView, prompt_id: EntryId)
    ensures
        final(app)@ == picker_selected(old(app)@, prompt_id),
{
    let i = match app.target_agent() {
        Some(i) => i,
        None => {
            return;
        },
    };
    proof {
        lemma_first_match(old(app)@.agents, has_agent_id(old(app)@.active_view->Agent_0));
    }
    if app.agents[i].jump_state.is_none() {
        return;
    }
    let agent = &mut app.agents[i];
    let js = match agent.jump_state.take() {
        Some(js) => js,
        None => {
            return;
        },
    };
    if !agent.scrollback.jump_to_entry(prompt_id) {
        agent.restore_jump_viewport(js.restore);
    }
    assert(app@.agents =~= old(app)@.agents.update(i as int, app.agents@[i as int]@));
}

/// Close the picker of the active agent, restoring its viewport.
pub fn dispatch_jump_dismiss(app: &mut AppView)
    ensures
        final(app)@ == picker_dismissed(old(app)@),
{
    let i = match app.target_agent() {
        Some(i) => i,
        None => {
            return;
        },
    };
    proof {
        lemma_first_match(old(app)@.agents, has_agent_id(old(app)@.active_view->Agent_0));
    }
    app.agents[i].dismiss_jump_picker();
    assert(app@.agents =~= old(app)@.agents.update(i as int, app.agents@[i as int]@));
}

/// `/jump N`: jump to the 1-based turn number. Out-of-range turns toast and
/// leave the viewport alone. Dismisses an open picker first so the two
/// navigation UIs never fight.
pub fn dispatch_jump_to_turn(app: &mut AppView, turn_number: usize)
    ensures
        final(app)@ == turn_jumped(old(app)@, turn_number),
{
    let i = match app.target_agent() {
        Some(i) => i,
        None => {
            return;
        },
    };
    proof {
        lemma_first_match(old(app)@.agents, has_agent_id(old(app)@.active_view->Agent_0));
    }
    // A leftover picker would still own keys and wheel after a direct jump.
    app.agents[i].dismiss_jump_picker();
    // Display is 1-based, matching `/jump` ordinals.
    let turn_idx = turn_number.saturating_sub(1);
    let found = turn_number != 0 && app.agents[i].scrollback.jump_to_turn(turn_idx);
    assert(app@.agents =~= old(app)@.agents.update(i as int, app.agents@[i as int]@));
    if !found {
        proof {
            reveal_strlit("Turn ");
            reveal_strlit(" doesn't exist");
        }
        let msg = String::from_str("Turn ").concat(usize_to_decimal(turn_number).as_str()).concat(
            " doesn't exist",
        );
        app.show_toast(msg.as_str());
    }
}


/// Replacing an agent by one with the same id keeps the active agent where it is.
proof fn lemma_with_agent_keeps_target(app: AppModel, i: int, a: AgentModel)
    requires
        target_agent(app) == Some(i),
        a.id == app.agents[i].id,
    ensures
        target_agent(with_agent(app, i, a)) == Some(i),
{
    let next = with_agent(app, i, a);
    let id = app.active_view->Agent_0;
    lemma_first_match(app.agents, has_agent_id(id));
    assert forall|j: int| 0 <= j < app.agents.len() implies has_agent_id(id)(#[trigger] app.agents[j])
        == has_agent_id(id)(next.agents[j]) by {}
    lemma_first_match_same(app.agents, next.agents, has_agent_id(id), has_agent_id(id));
}

/// Opening the picker and dismissing it closes the picker and leaves the
/// viewport, the toasts and every other agent as they were.
pub proof fn lemma_open_then_dismiss_restores(app: AppModel)
    requires
        target_agent(app) is Some,
        !app.agents[target_agent(app)->0].overlay_owns_input,
        app.agents[target_agent(app)->0].scrollback.turns.len() >= 2,
    ensures
        picker_dismissed(picker_shown(app)) == with_agent(
            app,
            target_agent(app)->0,
            AgentModel { jump: None, ..app.agents[target_agent(app)->0] },
        ),
{
    let i = target_agent(app)->0;
    lemma_first_match(app.agents, has_agent_id(app.active_view->Agent_0));
    let a = app.agents[i];
    lemma_with_agent_keeps_target(app, i, a.picker_opened());
    let opened = picker_shown(app);
    assert(picker_dismissed(opened).agents[i].scrollback =~= a.scrollback);
    assert(picker_dismissed(opened) =~= with_agent(app, i, AgentModel { jump: None, ..a }));
}

/// Choosing a prompt that is gone from the transcript, right after the picker
/// opened, leaves the viewport as it was before the picker opened: a failed
/// jump never strands the transcript at the preview scroll.
pub proof fn lemma_failed_select_restores(app: AppModel, prompt_id: EntryId)
    requires
        target_agent(app) is Some,
        !app.agents[target_agent(app)->0].overlay_owns_input,
        app.agents[target_agent(app)->0].scrollback.turns.len() >= 2,
        !app.agents[target_agent(app)->0].scrollback.finds_entry(prompt_id),
    ensures
        picker_selected(picker_shown(app), prompt_id) == with_agent(
            app,
            target_agent(app)->0,
            AgentModel { jump: None, ..app.agents[target_agent(app)->0] },
        ),
{
    let i = target_agent(app)->0;
    lemma_first_match(app.agents, has_agent_id(app.active_view->Agent_0));
    let a = app.agents[i];
    lemma_with_agent_keeps_target(app, i, a.picker_opened());
    let opened = picker_shown(app);
    assert(opened.agents[i].scrollback.entry_ids == a.scrollback.entry_ids);
    assert(picker_selected(opened, prompt_id).agents[i].scrollback =~= a.scrollback);
    assert(picker_selected(opened, prompt_id) =~= with_agent(app, i, AgentModel { jump: None, ..a }));
}

/// `/jump N` always leaves the active agent without an open picker.
pub proof fn lemma_turn_jump_closes_picker(app: AppModel, turn_number: usize)
    requires
        target_agent(app) is Some,
    ensures
        target_agent(turn_jumped(app, turn_number)) == target_agent(app),
        turn_jumped(app, turn_number).agents[target_agent(app)->0].jump is None,
{
    let i = target_agent(app)->0;
    lemma_first_match(app.agents, has_agent_id(app.active_view->Agent_0));
    let a = app.agents[i].dismissed();
    let idx = if turn_number == 0 { 0 } else { (turn_number - 1) as usize };
    let next = if turn_number == 0 {
        a
    } else {
        AgentModel { scrollback: a.scrollback.jumped_to_turn(idx), ..a }
    };
    lemma_with_agent_keeps_target(app, i, next);
}

/// `/jump N` for a turn that does not exist, with no picker open, only adds
/// the toast `Turn N doesn't exist`: the viewport stays where it was.
pub proof fn lemma_missing_turn_only_toasts(app: AppModel, turn_number: usize)
    requires
        target_agent(app) is Some,
        app.agents[target_agent(app)->0].jump is None,
        turn_number == 0 || !app.agents[target_agent(app)->0].scrollback.finds_turn(
            (turn_number - 1) as usize,
        ),
    ensures
        turn_jumped(app, turn_number) == with_toast(app, missing_turn_message(turn_number)),
{
    let i = target_agent(app)->0;
    lemma_first_match(app.agents, has_agent_id(app.active_view->Agent_0));
    let a = app.agents[i];
    if turn_number != 0 {
        let idx = (turn_number - 1) as usize;
        if idx < a.scrollback.turns.len() {
            assert(a.scrollback.jumped_to_entry(a.scrollback.turns[idx as int]) == a.scrollback);
        }
        assert(a.scrollback.jumped_to_turn(idx) =~= a.scrollback);
    }
    assert(turn_jumped(app, turn_number).agents =~= app.agents);
    assert(turn_jumped(app, turn_number) =~= with_toast(app, missing_turn_message(turn_number)));
}

/// `/jump N` for an existing turn puts that turn's prompt at the viewport top
/// and shows no toast.
pub proof fn lemma_turn_jump_lands_on_prompt(app: AppModel, turn_number: usize)
    requires
        target_agent(app) is Some,
        turn_number >= 1,
        app.agents[target_agent(app)->0].scrollback.finds_turn((turn_number - 1) as usize),
    ensures
        turn_jumped(app, turn_number).toasts == app.toasts,
        app.agents[target_agent(app)->0].scrollback.index_of(
            app.agents[target_agent(app)->0].scrollback.turns[turn_number - 1],
        ) matches Some(k) && turn_jumped(app, turn_number).agents[target_agent(
            app,
        )->0].scrollback.top == k as usize,
{
    let i = target_agent(app)->0;
    lemma_first_match(app.agents, has_agent_id(app.active_view->Agent_0));
    let sb = app.agents[i].scrollback;
    let id = sb.turns[turn_number - 1];
    let a = app.agents[i].dismissed();
    assert(a.scrollback.entry_ids == sb.entry_ids && a.scrollback.turns == sb.turns);
    assert(a.scrollback.index_of(id) == sb.index_of(id));
    let idx = (turn_number - 1) as usize;
    assert(a.scrollback.finds_turn(idx));
    let next = AgentModel { scrollback: a.scrollback.jumped_to_turn(idx), ..a };
    assert(turn_jumped(app, turn_number) == with_agent(app, i, next));
    assert(with_agent(app, i, next).agents[i] == next);
}


/// `k` is the first position of entry `id` in the transcript.
pub open spec fn first_position(entry_ids: Seq<EntryId>, id: EntryId, k: int) -> bool {
    &&& 0 <= k < entry_ids.len()
    &&& entry_ids[k] == id
    &&& forall|j: int| 0 <= j < k ==> entry_ids[j] != id
}

/// Entry `id` appears nowhere at or above row `top`.
pub open spec fn below_top(entry_ids: Seq<EntryId>, id: EntryId, top: int) -> bool {
    forall|j: int| 0 <= j < entry_ids.len() && entry_ids[j] == id ==> j > top
}

/// The position of an entry is its first position.
proof fn lemma_index_of_at(sb: ScrollbackModel, id: EntryId, k: int)
    requires
        first_position(sb.entry_ids, id, k),
    ensures
        sb.index_of(id) == Some(k),
{
    assert forall|j: int| 0 <= j < k implies !equals_id(id)(#[trigger] sb.entry_ids[j]) by {}
    lemma_first_match_at(sb.entry_ids, k, equals_id(id));
}

/// A turn whose prompt stands nowhere at or above the top has no position at
/// or above the top.
proof fn lemma_index_of_below(sb: ScrollbackModel, id: EntryId)
    requires
        below_top(sb.entry_ids, id, sb.top as int),
    ensures
        match sb.index_of(id) {
            Some(k) => k > sb.top,
            None => true,
        },
{
    lemma_first_match(sb.entry_ids, equals_id(id));
}

/// The turn at the top is turn `t` when its prompt stands at or above the top
/// and the prompt of every later turn stands below it.
proof fn lemma_turn_at_top_is(entry_ids: Seq<EntryId>, turns: Seq<EntryId>, top: int, t: int, k: int)
    requires
        0 <= t < turns.len(),
        first_match(entry_ids, equals_id(turns[t])) == Some(k),
        k <= top,
        forall|t2: int| t < t2 < turns.len() ==> match #[trigger] first_match(entry_ids, equals_id(turns[t2])) {
            Some(k2) => k2 > top,
            None => true,
        },
    ensures
        turn_at_top(entry_ids, turns, top) == Some(t),
    decreases turns.len(),
{
    if t < turns.len() - 1 {
        let init = turns.drop_last();
        assert(first_match(entry_ids, equals_id(turns[turns.len() - 1])) matches Some(k2) ==> k2 > top);
        assert forall|t2: int| t < t2 < init.len() implies match #[trigger] first_match(
            entry_ids,
            equals_id(init[t2]),
        ) {
            Some(k2) => k2 > top,
            None => true,
        } by {
            assert(init[t2] == turns[t2]);
            assert(match first_match(entry_ids, equals_id(turns[t2])) {
                Some(k2) => k2 > top,
                None => true,
            });
        }
        assert(init[t] == turns[t]);
        lemma_turn_at_top_is(entry_ids, init, top, t, k);
    }
}

/// No turn is at the top when every turn's prompt stands below it.
proof fn lemma_turn_at_top_none(entry_ids: Seq<EntryId>, turns: Seq<EntryId>, top: int)
    requires
        forall|t2: int| 0 <= t2 < turns.len() ==> match #[trigger] first_match(entry_ids, equals_id(turns[t2])) {
            Some(k2) => k2 > top,
            None => true,
        },
    ensures
        turn_at_top(entry_ids, turns, top) is None,
    decreases turns.len(),
{
    if turns.len() > 0 {
        let init = turns.drop_last();
        assert(first_match(entry_ids, equals_id(turns[turns.len() - 1])) matches Some(k2) ==> k2 > top);
        assert forall|t2: int| 0 <= t2 < init.len() implies match #[trigger] first_match(
            entry_ids,
            equals_id(init[t2]),
        ) {
            Some(k2) => k2 > top,
            None => true,
        } by {
            assert(init[t2] == turns[t2]);
            assert(match first_match(entry_ids, equals_id(turns[t2])) {
                Some(k2) => k2 > top,
                None => true,
            });
        }
        lemma_turn_at_top_none(entry_ids, init, top);
    }
}

/// The picker opens on the turn at the viewport top: where turn `t`'s prompt
/// first stands at row `k <= top` and every later turn's prompt stands below
/// the top, the picker highlights row `t`, lists every turn, captures the
/// viewport, and previews turn `t` with its prompt (row `k`) at the top.
pub proof fn lemma_picker_opens_on_turn_at_top(app: AppModel, t: int, k: int)
    requires
        target_agent(app) is Some,
        app.agents[target_agent(app)->0].scrollback.fits(),
        !app.agents[target_agent(app)->0].overlay_owns_input,
        app.agents[target_agent(app)->0].scrollback.turns.len() >= 2,
        0 <= t < app.agents[target_agent(app)->0].scrollback.turns.len(),
        first_position(
            app.agents[target_agent(app)->0].scrollback.entry_ids,
            app.agents[target_agent(app)->0].scrollback.turns[t],
            k,
        ),
        k <= app.agents[target_agent(app)->0].scrollback.top,
        forall|t2: int|
            t < t2 < app.agents[target_agent(app)->0].scrollback.turns.len() ==> below_top(
                app.agents[target_agent(app)->0].scrollback.entry_ids,
                #[trigger] app.agents[target_agent(app)->0].scrollback.turns[t2],
                app.agents[target_agent(app)->0].scrollback.top as int,
            ),
    ensures
        ({
            let i = target_agent(app)->0;
            let sb = app.agents[i].scrollback;
            let opened = picker_shown(app).agents[i];
            &&& opened.jump matches Some(js)
            &&& js.selected == t
            &&& js.entries == sb.turns
            &&& js.restore == (JumpRestore {
                bookmark: ScrollBookmark { top: sb.top },
                selected: sb.selected,
                follow_mode: sb.follow_mode,
            })
            &&& opened.scrollback.top == k
            &&& !opened.scrollback.follow_mode
            &&& opened.scrollback.entry_ids == sb.entry_ids
            &&& opened.scrollback.turns == sb.turns
            &&& picker_shown(app).toasts == app.toasts
        }),
{
    let i = target_agent(app)->0;
    lemma_first_match(app.agents, has_agent_id(app.active_view->Agent_0));
    let sb = app.agents[i].scrollback;
    lemma_index_of_at(sb, sb.turns[t], k);
    assert forall|t2: int| t < t2 < sb.turns.len() implies match #[trigger] first_match(
        sb.entry_ids,
        equals_id(sb.turns[t2]),
    ) {
        Some(k2) => k2 > sb.top,
        None => true,
    } by {
        lemma_index_of_below(sb, sb.turns[t2]);
    }
    lemma_turn_at_top_is(sb.entry_ids, sb.turns, sb.top as int, t, k);
    let a = app.agents[i];
    assert(a.picker_row() == t);
    assert(a.scrollback.jumped_to_entry(sb.turns[t]).top == k);
    assert(picker_shown(app) == with_agent(app, i, a.picker_opened()));
    assert(picker_shown(app).agents[i] == a.picker_opened());
}

/// With no turn's prompt at or above the viewport top, the picker opens on
/// the newest turn.
pub proof fn lemma_picker_opens_on_newest_turn(app: AppModel)
    requires
        target_agent(app) is Some,
        app.agents[target_agent(app)->0].scrollback.fits(),
        !app.agents[target_agent(app)->0].overlay_owns_input,
        app.agents[target_agent(app)->0].scrollback.turns.len() >= 2,
        forall|t2: int|
            0 <= t2 < app.agents[target_agent(app)->0].scrollback.turns.len() ==> below_top(
                app.agents[target_agent(app)->0].scrollback.entry_ids,
                #[trigger] app.agents[target_agent(app)->0].scrollback.turns[t2],
                app.agents[target_agent(app)->0].scrollback.top as int,
            ),
    ensures
        picker_shown(app).agents[target_agent(app)->0].jump matches Some(js) && js.selected
            == app.agents[target_agent(app)->0].scrollback.turns.len() - 1,
{
    let i = target_agent(app)->0;
    lemma_first_match(app.agents, has_agent_id(app.active_view->Agent_0));
    let sb = app.agents[i].scrollback;
    assert forall|t2: int| 0 <= t2 < sb.turns.len() implies match #[trigger] first_match(
        sb.entry_ids,
        equals_id(sb.turns[t2]),
    ) {
        Some(k2) => k2 > sb.top,
        None => true,
    } by {
        lemma_index_of_below(sb, sb.turns[t2]);
    }
    lemma_turn_at_top_none(sb.entry_ids, sb.turns, sb.top as int);
    let a = app.agents[i];
    assert(picker_shown(app).agents[i] == a.picker_opened());
}

/// Choosing a prompt that is in the transcript lands on it: the picker
/// closes, the prompt's first row is at the viewport top and following
/// stops, whatever viewport the picker captured.
pub proof fn lemma_select_lands_on_prompt(app: AppModel, prompt_id: EntryId, k: int)
    requires
        target_agent(app) is Some,
        app.agents[target_agent(app)->0].scrollback.fits(),
        app.agents[target_agent(app)->0].jump is Some,
        first_position(app.agents[target_agent(app)->0].scrollback.entry_ids, prompt_id, k),
    ensures
        ({
            let i = target_agent(app)->0;
            let next = picker_selected(app, prompt_id);
            &&& next.agents[i].jump is None
            &&& next.agents[i].scrollback.top == k
            &&& !next.agents[i].scrollback.follow_mode
            &&& next.agents[i].scrollback.entry_ids == app.agents[i].scrollback.entry_ids
            &&& next.toasts == app.toasts
        }),
{
    let i = target_agent(app)->0;
    lemma_first_match(app.agents, has_agent_id(app.active_view->Agent_0));
    lemma_index_of_at(app.agents[i].scrollback, prompt_id, k);
    let a = app.agents[i];
    let next = AgentModel { jump: None, scrollback: a.scrollback.jumped_to_entry(prompt_id), ..a };
    assert(picker_selected(app, prompt_id) == with_agent(app, i, next));
}

/// Choosing a prompt that is gone closes the picker and puts back the
/// viewport it captured.
pub proof fn lemma_select_of_missing_prompt_restores(app: AppModel, prompt_id: EntryId)
    requires
        target_agent(app) is Some,
        app.agents[target_agent(app)->0].jump is Some,
        !app.agents[target_agent(app)->0].scrollback.entry_ids.contains(prompt_id),
    ensures
        ({
            let i = target_agent(app)->0;
            let js = app.agents[i].jump->0;
            let next = picker_selected(app, prompt_id).agents[i];
            &&& next.jump is None
            &&& next.scrollback.top == js.restore.bookmark.top
            &&& next.scrollback.selected == js.restore.selected
            &&& next.scrollback.follow_mode == js.restore.follow_mode
            &&& next.scrollback.entry_ids == app.agents[i].scrollback.entry_ids
        }),
{
    let i = target_agent(app)->0;
    lemma_first_match(app.agents, has_agent_id(app.active_view->Agent_0));
    let sb = app.agents[i].scrollback;
    lemma_first_match(sb.entry_ids, equals_id(prompt_id));
    if sb.index_of(prompt_id) is Some {
        assert(sb.entry_ids.contains(prompt_id));
    }
}

/// `/jump N` for a number that names no turn in the transcript, with a picker
/// open, closes the picker, puts back the viewport the picker captured, and
/// toasts `Turn N doesn't exist`.
pub proof fn lemma_missing_turn_with_picker_restores(app: AppModel, turn_number: usize)
    requires
        target_agent(app) is Some,
        app.agents[target_agent(app)->0].jump is Some,
        turn_number == 0 || turn_number > app.agents[target_agent(app)->0].scrollback.turns.len()
            || !app.agents[target_agent(app)->0].scrollback.entry_ids.contains(
            app.agents[target_agent(app)->0].scrollback.turns[turn_number - 1],
        ),
    ensures
        ({
            let i = target_agent(app)->0;
            let js = app.agents[i].jump->0;
            let next = turn_jumped(app, turn_number);
            &&& next.agents[i].jump is None
            &&& next.agents[i].scrollback.top == js.restore.bookmark.top
            &&& next.agents[i].scrollback.selected == js.restore.selected
            &&& next.agents[i].scrollback.follow_mode == js.restore.follow_mode
            &&& next.agents[i].scrollback.entry_ids == app.agents[i].scrollback.entry_ids
            &&& next.toasts == app.toasts.push(missing_turn_message(turn_number))
        }),
{
    let i = target_agent(app)->0;
    lemma_first_match(app.agents, has_agent_id(app.active_view->Agent_0));
    let sb = app.agents[i].scrollback;
    if turn_number != 0 && turn_number <= sb.turns.len() {
        let id = sb.turns[turn_number - 1];
        lemma_first_match(sb.entry_ids, equals_id(id));
        if sb.index_of(id) is Some {
            assert(sb.entry_ids.contains(id));
        }
    }
}


/// The picker does not open while another overlay owns the input, and with
/// fewer than two turns it only toasts `Nothing to jump to yet`; without an
/// active agent no dispatcher changes anything.
pub proof fn lemma_picker_refusals(app: AppModel, prompt_id: EntryId, turn_number: usize)
    ensures
        target_agent(app) is Some && app.agents[target_agent(app)->0].overlay_owns_input
            ==> picker_shown(app) == app,
        target_agent(app) is Some && !app.agents[target_agent(app)->0].overlay_owns_input
            && app.agents[target_agent(app)->0].scrollback.turns.len() < 2 ==> picker_shown(app)
            == (AppModel { toasts: app.toasts.push("Nothing to jump to yet"@), ..app }),
        target_agent(app) is None ==> picker_shown(app) == app && picker_selected(app, prompt_id)
            == app && picker_dismissed(app) == app && turn_jumped(app, turn_number) == app,
{
}

} // verus!
