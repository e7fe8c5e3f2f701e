//! The state kept for each session, and the tree view state of
//! `tui_tree_widget` it holds.

use std::collections::VecDeque;
use vstd::prelude::*;
use tui_tree_widget::TreeState;
use crate::chat::{ChatMessage, StreamingState};
use crate::flutter_log::FlutterLogEntry;
use crate::protocol::MonitoringEvent;
use crate::types::{InteractionTree, LogEntry};

verus! {

#[verifier::external_type_specification]
#[verifier::external_body]
#[verifier::reject_recursive_types(Identifier)]
pub struct ExTreeState<Identifier>(TreeState<Identifier>);

/// The text of each element of a tree path.
pub open spec fn path_view(p: Seq<String>) -> Seq<Seq<char>> {
    p.map_values(|s: String| s@)
}

/// The paths a tree view state has opened (expanded).
pub uninterp spec fn tree_opened(state: TreeState<String>) -> Set<Seq<Seq<char>>>;

/// The path a tree view state has selected (empty for none).
pub uninterp spec fn tree_selection(state: TreeState<String>) -> Seq<Seq<char>>;

/// `TreeState::default()`: nothing opened, nothing selected.
#[verifier::external_body]
pub(crate) fn new_tree_state() -> (r: TreeState<String>)
    ensures
        tree_opened(r) == Set::<Seq<Seq<char>>>::empty(),
        tree_selection(r) == Seq::<Seq<char>>::empty(),
{
    TreeState::default()
}

/// `TreeState::select`: selects `path`; returns whether the selection
/// changed. The opened paths stay.
#[verifier::external_body]
pub(crate) fn tree_select(state: &mut TreeState<String>, path: Vec<String>) -> (r: bool)
    ensures
        tree_selection(*final(state)) == path_view(path@),
        tree_opened(*final(state)) == tree_opened(*old(state)),
        r == (tree_selection(*old(state)) != path_view(path@)),
{
    state.select(path)
}

/// `TreeState::open`: opens a non-empty `path`; returns whether it was not
/// open before. An empty path changes nothing. The selection stays.
#[verifier::external_body]
pub(crate) fn tree_open(state: &mut TreeState<String>, path: Vec<String>) -> (r: bool)
    ensures
        tree_selection(*final(state)) == tree_selection(*old(state)),
        path@.len() == 0 ==> tree_opened(*final(state)) == tree_opened(*old(state)) && !r,
        path@.len() > 0 ==> tree_opened(*final(state)) == tree_opened(*old(state)).insert(path_view(path@))
            && r == !tree_opened(*old(state)).contains(path_view(path@)),
{
    state.open(path)
}

/// `TreeState::close_all`: closes every path; returns whether any was open.
/// The selection stays.
#[verifier::external_body]
pub(crate) fn tree_close_all(state: &mut TreeState<String>) -> (r: bool)
    ensures
        tree_opened(*final(state)) == Set::<Seq<Seq<char>>>::empty(),
        tree_selection(*final(state)) == tree_selection(*old(state)),
        r == (tree_opened(*old(state)) != Set::<Seq<Seq<char>>>::empty()),
{
    state.close_all()
}

/// `TreeState::selected`, copied out.
#[verifier::external_body]
pub(crate) fn tree_selected_path(state: &TreeState<String>) -> (r: Vec<String>)
    ensures
        path_view(r@) == tree_selection(*state),
{
    state.selected().to_vec()
}

/// The paths of the items the last drawing of the tree showed, top to
/// bottom (what the state kept of that drawing).
pub uninterp spec fn tree_drawn(state: TreeState<String>) -> Seq<Seq<Seq<char>>>;

/// The last item position the last drawing lets a key select.
pub uninterp spec fn tree_drawn_max(state: TreeState<String>) -> usize;

/// The first position of path `p` among the paths `ps`.
pub open spec fn path_position(ps: Seq<Seq<Seq<char>>>, p: Seq<Seq<char>>) -> Option<nat>
    decreases ps.len(),
{
    if ps.len() == 0 {
        None
    } else if ps[0] == p {
        Some(0)
    } else {
        match path_position(ps.drop_first(), p) {
            Some(i) => Some(i + 1),
            None => None,
        }
    }
}

/// The path that moving to position `target` of the last drawing selects:
/// the item there, with `target` cut to the last selectable position, or
/// none past the end.
pub open spec fn drawn_path_at(state: TreeState<String>, target: int) -> Seq<Seq<char>> {
    let ids = tree_drawn(state);
    let i = if target <= tree_drawn_max(state) { target } else { tree_drawn_max(state) as int };
    if 0 <= i < ids.len() {
        ids[i]
    } else {
        seq![]
    }
}

/// The position the up key moves to: the line above the selected one (the
/// top stays), or the end when the selection is not drawn.
pub open spec fn key_up_target(state: TreeState<String>) -> int {
    match path_position(tree_drawn(state), tree_selection(state)) {
        Some(c) => if c == 0 { 0 } else { (c - 1) as int },
        None => usize::MAX as int,
    }
}

/// The position the down key moves to: the line below the selected one, or
/// the top when the selection is not drawn.
pub open spec fn key_down_target(state: TreeState<String>) -> int {
    match path_position(tree_drawn(state), tree_selection(state)) {
        Some(c) => if c + 1 > usize::MAX { usize::MAX as int } else { (c + 1) as int },
        None => 0,
    }
}

/// `TreeState::key_up`: selects the item drawn one line above the selected
/// one in the last drawing (see [`key_up_target`]); returns whether the
/// selection changed. The opened paths and what is kept of the drawing
/// stay.
#[verifier::external_body]
pub(crate) fn tree_key_up(state: &mut TreeState<String>) -> (r: bool)
    ensures
        tree_selection(*final(state)) == drawn_path_at(*old(state), key_up_target(*old(state))),
        r == (tree_selection(*final(state)) != tree_selection(*old(state))),
        tree_opened(*final(state)) == tree_opened(*old(state)),
        tree_drawn(*final(state)) == tree_drawn(*old(state)),
        tree_drawn_max(*final(state)) == tree_drawn_max(*old(state)),
{
    state.key_up()
}

/// `TreeState::key_down`: selects the item drawn one line below the
/// selected one in the last drawing (see [`key_down_target`]); otherwise as
/// `tree_key_up`.
#[verifier::external_body]
pub(crate) fn tree_key_down(state: &mut TreeState<String>) -> (r: bool)
    ensures
        tree_selection(*final(state)) == drawn_path_at(*old(state), key_down_target(*old(state))),
        r == (tree_selection(*final(state)) != tree_selection(*old(state))),
        tree_opened(*final(state)) == tree_opened(*old(state)),
        tree_drawn(*final(state)) == tree_drawn(*old(state)),
        tree_drawn_max(*final(state)) == tree_drawn_max(*old(state)),
{
    state.key_down()
}

/// `TreeState::key_left`: closes the selected path if it is open, else
/// selects its parent.
#[verifier::external_body]
pub(crate) fn tree_key_left(state: &mut TreeState<String>) -> (r: bool)
    ensures
        tree_opened(*old(state)).contains(tree_selection(*old(state))) ==> {
            &&& tree_opened(*final(state)) == tree_opened(*old(state)).remove(tree_selection(*old(state)))
            &&& tree_selection(*final(state)) == tree_selection(*old(state))
            &&& r
        },
        !tree_opened(*old(state)).contains(tree_selection(*old(state))) ==> {
            &&& tree_opened(*final(state)) == tree_opened(*old(state))
            &&& tree_selection(*final(state)) == (if tree_selection(*old(state)).len() > 0 {
                tree_selection(*old(state)).drop_last()
            } else {
                tree_selection(*old(state))
            })
            &&& r == (tree_selection(*old(state)).len() > 0)
        },
{
    state.key_left()
}

/// `TreeState::key_right`: opens the selected path, if any.
#[verifier::external_body]
pub(crate) fn tree_key_right(state: &mut TreeState<String>) -> (r: bool)
    ensures
        tree_selection(*final(state)) == tree_selection(*old(state)),
        tree_selection(*old(state)).len() == 0 ==> tree_opened(*final(state)) == tree_opened(*old(state)) && !r,
        tree_selection(*old(state)).len() > 0 ==> tree_opened(*final(state)) == tree_opened(*old(
            state,
        )).insert(tree_selection(*old(state))) && r == !tree_opened(*old(state)).contains(
            tree_selection(*old(state)),
        ),
{
    state.key_right()
}

/// `TreeState::toggle_selected`: opens the selected path if it is closed,
/// closes it if it is open.
#[verifier::external_body]
pub(crate) fn tree_toggle_selected(state: &mut TreeState<String>) -> (r: bool)
    ensures
        tree_selection(*final(state)) == tree_selection(*old(state)),
        tree_selection(*old(state)).len() == 0 ==> tree_opened(*final(state)) == tree_opened(*old(state)) && !r,
        tree_selection(*old(state)).len() > 0 && tree_opened(*old(state)).contains(tree_selection(*old(state)))
            ==> tree_opened(*final(state)) == tree_opened(*old(state)).remove(tree_selection(*old(state))) && r,
        tree_selection(*old(state)).len() > 0 && !tree_opened(*old(state)).contains(tree_selection(*old(state)))
            ==> tree_opened(*final(state)) == tree_opened(*old(state)).insert(tree_selection(*old(state))) && r,
{
    state.toggle_selected()
}

/// Session-specific state, kept while other sessions are shown.
#[derive(Debug)]
pub struct SessionState {
    /// Output of the `flutter run` process.
    pub flutter_logs: VecDeque<FlutterLogEntry>,
    /// Agent events (tool calls, responses).
    pub agent_events: VecDeque<MonitoringEvent>,
    /// Interactions executed (taps, scrolls, ...).
    pub interaction_logs: VecDeque<LogEntry>,
    /// Messages of the agent chat.
    pub chat_messages: Vec<ChatMessage>,
    /// The agent answer streaming in, if any.
    pub chat_streaming: Option<StreamingState>,
    /// Text being typed in the chat composer.
    pub chat_input: String,
    /// Cursor position in the composer.
    pub chat_cursor: usize,
    /// Lines scrolled back from the end of the chat (0 follows the end).
    pub chat_scroll: usize,
    pub tree: Option<InteractionTree>,
    pub tree_state: TreeState<String>,
    pub conversation_id: Option<String>,
    pub agent_question: Option<String>,
    pub pending_response: bool,
    pub pending_intent: Option<String>,
    pub last_agent_error: Option<String>,
    /// Most entries kept per log.
    pub max_events: usize,
}

/// A session state holds nothing: no logs, no chat, no tree, nothing
/// opened or selected, no conversation.
pub open spec fn is_blank_session(s: SessionState) -> bool {
    &&& s.flutter_logs@.len() == 0
    &&& s.agent_events@.len() == 0
    &&& s.interaction_logs@.len() == 0
    &&& s.chat_messages@.len() == 0
    &&& s.chat_streaming is None
    &&& s.chat_input@.len() == 0
    &&& s.chat_cursor == 0
    &&& s.chat_scroll == 0
    &&& s.tree is None
    &&& tree_opened(s.tree_state) == Set::<Seq<Seq<char>>>::empty()
    &&& tree_selection(s.tree_state) == Seq::<Seq<char>>::empty()
    &&& s.conversation_id is None
    &&& s.agent_question is None
    &&& !s.pending_response
    &&& s.pending_intent is None
    &&& s.last_agent_error is None
}

impl SessionState {
    /// An empty session state keeping at most `max_events` entries per log.
    pub fn new(max_events: usize) -> (r: SessionState)
        ensures
            is_blank_session(r),
            r.max_events == max_events,
    {
        SessionState {
            flutter_logs: VecDeque::with_capacity(max_events),
            agent_events: VecDeque::with_capacity(max_events),
            interaction_logs: VecDeque::with_capacity(max_events),
            chat_messages: Vec::new(),
            chat_streaming: None,
            chat_input: String::new(),
            chat_cursor: 0,
            chat_scroll: 0,
            tree: None,
            tree_state: new_tree_state(),
            conversation_id: None,
            agent_question: None,
            pending_response: false,
            pending_intent: None,
            last_agent_error: None,
            max_events,
        }
    }

    /// Forgets all session data; the limit stays.
    pub fn clear(&mut self)
        ensures
            is_blank_session(*final(self)),
            final(self).max_events == old(self).max_events,
    {
        self.flutter_logs.clear();
        self.agent_events.clear();
        self.interaction_logs.clear();
        self.chat_messages.clear();
        self.chat_streaming = None;
        self.chat_input = String::new();
        self.chat_cursor = 0;
        self.chat_scroll = 0;
        self.tree = None;
        self.tree_state = new_tree_state();
        self.conversation_id = None;
        self.agent_question = None;
        self.pending_response = false;
        self.pending_intent = None;
        self.last_agent_error = None;
    }
}

} // verus!
