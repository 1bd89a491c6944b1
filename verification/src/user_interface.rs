//! The decisions a user interface makes around its widgets: what it keeps
//! between frames, how it assembles the accessibility tree of its widgets
//! and overlays, and where it sends the requests of assistive technologies.
use vstd::prelude::*;
use crate::node::{first_with_id, find_node, lemma_first_with_id, Action, ActionRequest, HasPopup, Node, Role};
use crate::tree::{focus_is_a_node_of_the_tree, focus_of, marks, reset_accesskit_focus, unfocused, unfocused_tree, Tag, Tree};
use crate::widget::Widget;

verus! {

/// The first identifier handed to the nodes of a build; identifier 0 names
/// the window root when the root widget produces no node.
pub const FIRST_NODE_ID: u64 = 1;

/// Reusable data of a specific user interface: its widget state tree.
pub struct Cache<S> {
    /// The widget state tree.
    pub state: Tree<S>,
}

impl<S> Cache<S> {
    /// Creates an empty [`Cache`].
    ///
    /// You should use this to initialize a [`Cache`] before building your
    /// first user interface.
    pub fn new() -> (r: Cache<S>)
        ensures
            r.state.state is Empty,
            r.state.children@.len() == 0,
            r.state.accesskit_node_id is None,
            !r.state.accesskit_focused,
    {
        Cache { state: Tree::empty() }
    }
}

impl<S> Default for Cache<S> {
    fn default() -> (r: Cache<S>)
        ensures
            r.state.state is Empty,
            r.state.children@.len() == 0,
            r.state.accesskit_node_id is None,
            !r.state.accesskit_focused,
    {
        Cache::new()
    }
}

/// The resulting state after updating a user interface.
pub enum State<Interaction, Redraw, Input, Clipboard> {
    /// The user interface is outdated and needs to be rebuilt.
    Outdated,
    /// The user interface is up-to-date and can be reused without
    /// rebuilding.
    Updated {
        /// The current mouse interaction of the user interface.
        mouse_interaction: Interaction,
        /// When a redraw should be performed.
        redraw_request: Redraw,
        /// The current input method strategy of the user interface.
        input_method: Input,
        /// The clipboard requests that the user interface has produced.
        clipboard: Clipboard,
        /// Whether the layout of the user interface has changed.
        has_layout_changed: bool,
    },
}

impl<Interaction, Redraw, Input, Clipboard> State<Interaction, Redraw, Input, Clipboard> {
    /// Returns whether the layout of the user interface has changed: always
    /// when it is outdated.
    pub fn has_layout_changed(&self) -> (r: bool)
        ensures
            r == match self {
                State::Outdated => true,
                State::Updated { has_layout_changed, .. } => *has_layout_changed,
            },
    {
        match self {
            State::Outdated => true,
            State::Updated { has_layout_changed, .. } => *has_layout_changed,
        }
    }
}

/// When a window asks to be redrawn.
#[derive(Debug, Clone, Copy, PartialEq, Eq, Structural)]
pub enum RedrawRequest {
    /// On the next frame.
    NextFrame,
    /// At a moment, in the ticks of the application's clock.
    At(u64),
    /// When some event asks for it.
    Wait,
}

/// The earlier of two redraw requests: the next frame before any moment,
/// an earlier moment before a later one, and any moment before waiting.
pub open spec fn earlier(a: RedrawRequest, b: RedrawRequest) -> RedrawRequest {
    match (a, b) {
        (RedrawRequest::NextFrame, _) => RedrawRequest::NextFrame,
        (_, RedrawRequest::NextFrame) => RedrawRequest::NextFrame,
        (RedrawRequest::At(x), RedrawRequest::At(y)) => RedrawRequest::At(if x <= y {
            x
        } else {
            y
        }),
        (RedrawRequest::At(x), RedrawRequest::Wait) => RedrawRequest::At(x),
        (RedrawRequest::Wait, other) => other,
    }
}

impl RedrawRequest {
    /// Returns the earlier of two redraw requests (see [`earlier`]).
    pub fn min(self, other: RedrawRequest) -> (r: RedrawRequest)
        ensures
            r == earlier(self, other),
    {
        match (self, other) {
            (RedrawRequest::NextFrame, _) => RedrawRequest::NextFrame,
            (_, RedrawRequest::NextFrame) => RedrawRequest::NextFrame,
            (RedrawRequest::At(x), RedrawRequest::At(y)) => RedrawRequest::At(if x <= y {
                x
            } else {
                y
            }),
            (RedrawRequest::At(x), RedrawRequest::Wait) => RedrawRequest::At(x),
            (RedrawRequest::Wait, other) => other,
        }
    }
}

/// What the handling of the events of one update has asked for so far.
#[derive(Debug, Clone, Copy, PartialEq, Eq, Structural)]
pub struct Progress {
    /// Whether some widget asked for the user interface to be rebuilt.
    pub outdated: bool,
    /// Whether the layout was computed anew.
    pub has_layout_changed: bool,
    /// The earliest redraw asked for.
    pub redraw_request: RedrawRequest,
}

impl Progress {
    /// Nothing asked for yet: no rebuild, no new layout, and a redraw only
    /// when some event asks for it.
    pub fn new() -> (r: Progress)
        ensures
            r == (Progress { outdated: false, has_layout_changed: false, redraw_request: RedrawRequest::Wait }),
    {
        Progress { outdated: false, has_layout_changed: false, redraw_request: RedrawRequest::Wait }
    }

    /// Records what the handling of one event asked for: a rebuild when its
    /// widgets were invalidated, whether the layout was computed anew, and
    /// a redraw.
    pub fn record(&mut self, widgets_invalid: bool, layout_changed: bool, redraw_request: RedrawRequest)
        ensures
            final(self).outdated == (old(self).outdated || widgets_invalid),
            final(self).has_layout_changed == (old(self).has_layout_changed || layout_changed),
            final(self).redraw_request == earlier(old(self).redraw_request, redraw_request),
    {
        self.outdated = self.outdated || widgets_invalid;
        self.has_layout_changed = self.has_layout_changed || layout_changed;
        self.redraw_request = self.redraw_request.min(redraw_request);
    }

    /// The state the update leaves: outdated when some widget asked for a
    /// rebuild; else updated, with what was asked for and the given mouse
    /// interaction, input method and clipboard requests.
    pub fn finish<Interaction, Input, Clipboard>(
        self,
        mouse_interaction: Interaction,
        input_method: Input,
        clipboard: Clipboard,
    ) -> (r: State<Interaction, RedrawRequest, Input, Clipboard>)
        ensures
            self.outdated ==> r is Outdated,
            !self.outdated ==> r == (State::Updated {
                mouse_interaction,
                redraw_request: self.redraw_request,
                input_method,
                clipboard,
                has_layout_changed: self.has_layout_changed,
            }),
    {
        if self.outdated {
            State::Outdated
        } else {
            State::Updated {
                mouse_interaction,
                redraw_request: self.redraw_request,
                input_method,
                clipboard,
                has_layout_changed: self.has_layout_changed,
            }
        }
    }
}

/// Where focus moves on a press of the Tab key.
#[derive(Debug, Clone, Copy, PartialEq, Eq, Structural)]
pub enum FocusMove {
    /// To the next focusable widget.
    Next,
    /// To the previous focusable widget (Shift is held).
    Previous,
}

/// Where focus moves for an event (see [`focus_move`]).
pub open spec fn focus_move_spec(ignored: bool, is_tab_press: bool, shift: bool) -> Option<FocusMove> {
    if ignored && is_tab_press {
        Some(
            if shift {
                FocusMove::Previous
            } else {
                FocusMove::Next
            },
        )
    } else {
        None
    }
}

/// Decides the keyboard navigation of an event that the widgets left
/// ignored: a press of Tab moves focus forward, or backward with Shift, and
/// the event is then captured. Nothing happens for any other event, or when
/// a widget captured the event.
pub fn focus_move(ignored: bool, is_tab_press: bool, shift: bool) -> (r: Option<FocusMove>)
    ensures
        r == focus_move_spec(ignored, is_tab_press, shift),
{
    if ignored && is_tab_press {
        if shift {
            Some(FocusMove::Previous)
        } else {
            Some(FocusMove::Next)
        }
    } else {
        None
    }
}

/// Whether an event was handled.
#[derive(Debug, Clone, Copy, PartialEq, Eq, Structural)]
pub enum EventStatus {
    /// The event was not handled.
    Ignored,
    /// The event was handled, and nothing else should handle it.
    Captured,
}

impl EventStatus {
    /// Merges two statuses: the event is captured when either captured it.
    pub fn merge(self, other: EventStatus) -> (r: EventStatus)
        ensures
            r == if self == EventStatus::Captured || other == EventStatus::Captured {
                EventStatus::Captured
            } else {
                EventStatus::Ignored
            },
    {
        match self {
            EventStatus::Captured => EventStatus::Captured,
            EventStatus::Ignored => other,
        }
    }
}

/// What the user interface makes of an event once its overlay and, when it
/// received the event, its root widget had it.
#[derive(Debug, Clone, Copy, PartialEq, Eq, Structural)]
pub struct EventOutcome {
    /// The status of the event.
    pub status: EventStatus,
    /// Where keyboard focus moves, if it does.
    pub focus: Option<FocusMove>,
    /// Whether the overlay is closed, the root widget having captured the
    /// event.
    pub close_overlay: bool,
    /// Whether a redraw is requested for the next frame.
    pub redraw_next_frame: bool,
}

/// Whether the root widget receives an event that the overlay (when there
/// is one, else `Ignored`) answered with `overlay_status`: only when the
/// overlay did not capture it.
pub fn root_receives(overlay_status: EventStatus) -> (r: bool)
    ensures
        r == (overlay_status == EventStatus::Ignored),
{
    overlay_status == EventStatus::Ignored
}

/// Decides what becomes of an event that the overlay answered with
/// `overlay_status` and the root widget, when it received it (see
/// [`root_receives`]), with `root_status`.
///
/// An event the overlay captured stays captured, and nothing else happens.
/// Otherwise the overlay closes when the root widget captured the event; an
/// event the root widget ignored that is a press of Tab moves focus (see
/// [`focus_move`]), asks for a redraw on the next frame and is captured;
/// else the event has the root widget's status.
pub fn event_outcome(overlay_status: EventStatus, root_status: EventStatus, is_tab_press: bool, shift: bool) -> (r:
    EventOutcome)
    ensures
        overlay_status == EventStatus::Captured ==> r == (EventOutcome {
            status: EventStatus::Captured,
            focus: None,
            close_overlay: false,
            redraw_next_frame: false,
        }),
        overlay_status == EventStatus::Ignored ==> {
            &&& r.close_overlay == (root_status == EventStatus::Captured)
            &&& r.focus == focus_move_spec(root_status == EventStatus::Ignored, is_tab_press, shift)
            &&& r.redraw_next_frame == (r.focus is Some)
            &&& r.status == if r.focus is Some {
                EventStatus::Captured
            } else {
                root_status
            }
        },
{
    if !root_receives(overlay_status) {
        return EventOutcome { status: EventStatus::Captured, focus: None, close_overlay: false, redraw_next_frame: false };
    }
    let close_overlay = root_status == EventStatus::Captured;
    let focus = focus_move(root_status == EventStatus::Ignored, is_tab_press, shift);
    match focus {
        Some(_) => EventOutcome { status: EventStatus::Captured, focus, close_overlay, redraw_next_frame: true },
        None => EventOutcome { status: root_status.merge(overlay_status), focus, close_overlay, redraw_next_frame: false },
    }
}

/// Where an action request goes.
#[derive(Debug, Clone, Copy, PartialEq, Eq, Structural)]
pub struct Routing {
    /// Whether every widget loses focus first (a focus request).
    pub unfocus: bool,
    /// Whether the widget tree of the root receives the request: only when
    /// one of its widgets was assigned the target node. Active overlays
    /// always receive it.
    pub to_root: bool,
}

/// Decides where an accessibility action request goes: a focus request
/// first takes focus away from every widget; the root's widgets receive
/// the request only when their state tree holds the target node.
pub fn route_action<S>(state: &Tree<S>, request: &ActionRequest) -> (r: Routing)
    ensures
        r.unfocus == (request.action == Action::Focus),
        r.to_root == state.has_node_id(request.target_node),
{
    Routing {
        unfocus: request.action == Action::Focus,
        to_root: state.contains_accesskit_node_id(request.target_node),
    }
}

/// The root of an accessibility tree and the node with keyboard focus: the
/// root widget's node, or the window root 0 when it produced none; the node
/// of the first focused widget of the state tree, or else the root.
pub fn root_and_focus<S>(state: &Tree<S>, root_id: Option<u64>) -> (r: (u64, u64))
    ensures
        r.0 == match root_id {
            Some(id) => id,
            None => 0,
        },
        r.1 == match focus_of(*state) {
            Some(id) => id,
            None => r.0,
        },
{
    let root = match root_id {
        Some(id) => id,
        None => 0,
    };
    let focus = match crate::tree::find_focused_node_id(state) {
        Some(id) => id,
        None => root,
    };
    (root, focus)
}

/// Whether a node is an expanded combo box (`menu_popup`), or an expanded
/// element that opens a menu.
pub open spec fn opens_popup(n: Node, menu_popup: bool) -> bool {
    &&& n.expanded == Some(true)
    &&& if menu_popup {
        n.role == Role::ComboBox
    } else {
        n.has_popup == Some(HasPopup::Menu)
    }
}

/// The identifier of the last node that opens the popup, if any.
pub open spec fn last_opener(ns: Seq<(u64, Node)>, menu_popup: bool) -> Option<u64>
    decreases ns.len(),
{
    if ns.len() == 0 {
        None
    } else if opens_popup(ns.last().1, menu_popup) {
        Some(ns.last().0)
    } else {
        last_opener(ns.drop_last(), menu_popup)
    }
}

/// Whether some node from index `start` on has the role `role`.
pub open spec fn has_role_from(ns: Seq<(u64, Node)>, start: int, role: Role) -> bool {
    exists|k: int| start <= k < ns.len() && #[trigger] ns[k].1.role == role
}

/// The node that owns the overlay whose nodes start at `start`: for a menu
/// popup, the last expanded combo box before it; for a tooltip, the last
/// expanded element before it that opens a menu; the root otherwise, or
/// when there is no such node.
pub open spec fn popup_parent(ns: Seq<(u64, Node)>, start: int, root: u64) -> u64 {
    let found = if has_role_from(ns, start, Role::MenuListPopup) {
        last_opener(ns.take(start), true)
    } else if has_role_from(ns, start, Role::Tooltip) {
        last_opener(ns.take(start), false)
    } else {
        None
    };
    match found {
        Some(id) => id,
        None => root,
    }
}

/// Whether `m` is `n` with the overlay root `o` attached: `o` is among its
/// children (added last when it was not), it controls `o` alone, and
/// nothing else changed.
pub open spec fn is_attached(n: Node, o: u64, m: Node) -> bool {
    &&& m.children@ == if n.children@.contains(o) {
        n.children@
    } else {
        n.children@.push(o)
    }
    &&& m.controls@ == seq![o]
    &&& m == Node { children: m.children, controls: m.controls, ..n }
}

/// Whether the nodes `after` are the nodes `before` with the overlay root
/// `overlay_root` attached to the first node named by [`popup_parent`]
/// (see [`is_attached`]); nothing changes when there is no such node.
pub open spec fn overlay_attached(
    before: Seq<(u64, Node)>,
    after: Seq<(u64, Node)>,
    start: int,
    overlay_root: u64,
    root: u64,
) -> bool {
    let k = first_with_id(before, popup_parent(before, start, root));
    &&& after.len() == before.len()
    &&& forall|j: int| 0 <= j < before.len() && j != k ==> after[j] == before[j]
    &&& k < before.len() ==> {
        &&& after[k].0 == before[k].0
        &&& is_attached(before[k].1, overlay_root, after[k].1)
    }
}

/// Whether some node from index `start` on has the role `role`.
fn any_role_from(nodes: &Vec<(u64, Node)>, start: usize, role: Role) -> (r: bool)
    requires
        start <= nodes@.len(),
    ensures
        r == has_role_from(nodes@, start as int, role),
{
    let mut k = start;
    while k < nodes.len()
        invariant
            start <= k <= nodes@.len(),
            forall|j: int| start <= j < k ==> nodes@[j].1.role != role,
        decreases nodes@.len() - k,
    {
        if nodes[k].1.role == role {
            return true;
        }
        k += 1;
    }
    false
}

/// Finds the last node before index `end` that opens the popup.
fn find_last_opener(nodes: &Vec<(u64, Node)>, end: usize, menu_popup: bool) -> (r: Option<u64>)
    requires
        end <= nodes@.len(),
    ensures
        r == last_opener(nodes@.take(end as int), menu_popup),
{
    let mut i = end;
    while i > 0
        invariant
            i <= end <= nodes@.len(),
            last_opener(nodes@.take(end as int), menu_popup) == last_opener(nodes@.take(i as int), menu_popup),
        decreases i,
    {
        proof {
            let t = nodes@.take(i as int);
            assert(t.drop_last() =~= nodes@.take(i - 1));
            assert(t.last() == nodes@[i - 1]);
        }
        let n = &nodes[i - 1].1;
        let opens = n.expanded == Some(true) && if menu_popup {
            n.role == Role::ComboBox
        } else {
            n.has_popup == Some(HasPopup::Menu)
        };
        if opens {
            return Some(nodes[i - 1].0);
        }
        i -= 1;
    }
    assert(nodes@.take(0) =~= Seq::<(u64, Node)>::empty());
    None
}

/// Attaches the root `overlay_root` of an overlay, whose nodes start at
/// `overlay_start`, to the node that owns it (see [`popup_parent`]): the
/// first node with that identifier takes it as a child and controls it.
/// Nothing changes when there is no such node.
pub fn attach_overlay(nodes: &mut Vec<(u64, Node)>, overlay_start: usize, overlay_root: u64, root: u64)
    requires
        overlay_start <= old(nodes)@.len(),
    ensures
        overlay_attached(old(nodes)@, final(nodes)@, overlay_start as int, overlay_root, root),
{
    let has_menu_popup = any_role_from(nodes, overlay_start, Role::MenuListPopup);
    let has_tooltip = any_role_from(nodes, overlay_start, Role::Tooltip);
    let found = if has_menu_popup {
        find_last_opener(nodes, overlay_start, true)
    } else if has_tooltip {
        find_last_opener(nodes, overlay_start, false)
    } else {
        None
    };
    let parent = match found {
        Some(id) => id,
        None => root,
    };
    let k = find_node(nodes, parent);
    proof {
        lemma_first_with_id(nodes@, parent);
    }
    if k < nodes.len() {
        let ghost before = nodes@;
        let (id, mut node) = nodes.remove(k);
        let mut contains = false;
        let mut c: usize = 0;
        while c < node.children.len()
            invariant
                c <= node.children@.len(),
                contains == exists|j: int| 0 <= j < c && node.children@[j] == overlay_root,
            decreases node.children@.len() - c,
        {
            if node.children[c] == overlay_root {
                contains = true;
            }
            c += 1;
        }
        assert(contains == node.children@.contains(overlay_root));
        let ghost unattached = node;
        if !contains {
            node.children.push(overlay_root);
        }
        let mut controls: Vec<u64> = Vec::new();
        controls.push(overlay_root);
        node.controls = controls;
        proof {
            assert(node.controls@ =~= seq![overlay_root]);
            assert(node == Node { children: node.children, controls: node.controls, ..unattached });
        }
        nodes.insert(k, (id, node));
        assert forall|j: int| 0 <= j < before.len() && j != k implies nodes@[j] == before[j] by {
            if j < k {
            } else {
            }
        }
    }
}

/// An update of the accessibility tree: its nodes, its root and the node
/// with keyboard focus.
#[derive(Debug)]
pub struct TreeUpdate {
    /// The nodes, each with its identifier.
    pub nodes: Vec<(u64, Node)>,
    /// The root node.
    pub root: u64,
    /// The node with keyboard focus.
    pub focus: u64,
}

/// Assembles the accessibility tree update of a user interface from the
/// nodes its widgets and overlays produced, its root and its focus (see
/// [`root_and_focus`]). When an overlay produced a root node, its nodes
/// start at the index given with it, and that root is attached to the node
/// that owns it (see [`attach_overlay`]).
pub fn accessibility_tree(nodes: Vec<(u64, Node)>, root: u64, focus: u64, overlay: Option<(usize, u64)>) -> (r:
    TreeUpdate)
    requires
        overlay matches Some((start, _)) ==> start <= nodes@.len(),
    ensures
        r.root == root,
        r.focus == focus,
        match overlay {
            None => r.nodes@ == nodes@,
            Some((start, overlay_root)) => overlay_attached(nodes@, r.nodes@, start as int, overlay_root, root),
        },
{
    let mut nodes = nodes;
    if let Some((start, overlay_root)) = overlay {
        attach_overlay(&mut nodes, start, overlay_root, root);
    }
    TreeUpdate { nodes, root, focus }
}

/// Whether the state tree must be diffed again with the widgets.
#[derive(Debug, Clone, Copy, PartialEq, Eq, Structural)]
pub enum Diff {
    /// Diff the widgets with their state tree.
    Perform,
    /// Keep the state tree as it is.
    Skip,
}

/// A set of interactive elements, with the state tree of their widgets.
pub struct UserInterface<W, S> {
    /// The root widget.
    pub root: W,
    /// The state tree of the widgets.
    pub state: Tree<S>,
}

impl<S, W: Widget<S>> UserInterface<W, S> {
    /// Builds a user interface for a root widget, reconciling the state tree
    /// kept in `cache` (from a previous user interface, or empty) with it.
    pub fn build(root: W, cache: Cache<S>) -> (r: Self)
        ensures
            exists|tag: Tag, t: &mut Tree<S>, w: &mut W|
                #![trigger call_ensures(W::tag, (&root,), tag), call_ensures(W::diff, (w, t), ())]
                {
                    &&& call_ensures(W::tag, (&root,), tag)
                    &&& if cache.state.tag == tag {
                        *t == cache.state
                    } else {
                        &&& t.tag == tag
                        &&& call_ensures(W::state, (&root,), t.state)
                        &&& t.children@.len() == 0
                        &&& t.accesskit_node_id is None
                        &&& !t.accesskit_focused
                    }
                    &&& *w == root
                    &&& *final(t) == r.state
                    &&& *final(w) == r.root
                    &&& call_ensures(W::diff, (w, t), ())
                },
    {
        let mut root = root;
        let mut state = cache.state;
        state.diff_widget(&mut root);
        UserInterface { root, state }
    }

    /// Returns the accessibility tree update of the user interface.
    ///
    /// The focus flags of the previous build are reset; the root widget
    /// builds its nodes with identifiers from [`FIRST_NODE_ID`] on; the root
    /// and the focus follow [`root_and_focus`]; the nodes of the overlay the
    /// root widget opens come next, and the overlay's root node is attached
    /// to the node that owns it (see [`accessibility_tree`]).
    pub fn accessibility_tree(&mut self) -> (r: TreeUpdate)
        ensures
            exists|
                cleared: Tree<S>,
                built: (Tree<S>, Seq<(u64, Node)>, u64, Option<u64>),
                opened: (Option<Option<u64>>, Seq<(u64, Node)>),
            |
                #![trigger marks(cleared), built.0, opened.0]
                {
                    let root = match built.3 {
                        Some(id) => id,
                        None => 0,
                    };
                    let start = built.1.len() as int;
                    &&& marks(cleared) == unfocused(marks(old(self).state))
                    &&& unfocused_tree(old(self).state, cleared)
                    &&& exists|t: &mut Tree<S>, n: &mut Vec<(u64, Node)>, c: &mut u64|
                        {
                            &&& *t == cleared
                            &&& n@.len() == 0
                            &&& *c == FIRST_NODE_ID
                            &&& *final(t) == built.0
                            &&& final(n)@ == built.1
                            &&& *final(c) == built.2
                            &&& #[trigger] call_ensures(W::accessibility, (&old(self).root, t, n, c), built.3)
                        }
                    &&& exists|w: &mut W, t: &mut Tree<S>, n: &mut Vec<(u64, Node)>, c: &mut u64|
                        {
                            &&& *w == old(self).root
                            &&& *t == built.0
                            &&& n@ == built.1
                            &&& *c == built.2
                            &&& *final(w) == final(self).root
                            &&& *final(t) == final(self).state
                            &&& final(n)@ == opened.1
                            &&& #[trigger] call_ensures(W::overlay_accessibility, (w, t, n, c), opened.0)
                        }
                    &&& r.root == root
                    &&& r.focus == match focus_of(built.0) {
                        Some(id) => id,
                        None => root,
                    }
                    &&& if opened.0 matches Some(Some(_)) && start <= opened.1.len() {
                        overlay_attached(opened.1, r.nodes@, start, opened.0->0->0, root)
                    } else {
                        r.nodes@ == opened.1
                    }
                },
    {
        reset_accesskit_focus(&mut self.state);
        let ghost cleared = self.state;
        let mut nodes: Vec<(u64, Node)> = Vec::new();
        let mut id_counter: u64 = FIRST_NODE_ID;
        let root_id = self.root.accessibility(&mut self.state, &mut nodes, &mut id_counter);
        assert(exists|t: &mut Tree<S>, n: &mut Vec<(u64, Node)>, c: &mut u64|
            {
                &&& *t == cleared
                &&& n@.len() == 0
                &&& *c == FIRST_NODE_ID
                &&& *final(t) == self.state
                &&& final(n)@ == nodes@
                &&& *final(c) == id_counter
                &&& #[trigger] call_ensures(W::accessibility, (&old(self).root, t, n, c), root_id)
            });
        let ghost built = (self.state, nodes@, id_counter, root_id);
        let (root, focus) = root_and_focus(&self.state, root_id);
        let overlay_start = nodes.len();
        let opened = self.root.overlay_accessibility(&mut self.state, &mut nodes, &mut id_counter);
        assert(exists|w: &mut W, t: &mut Tree<S>, n: &mut Vec<(u64, Node)>, c: &mut u64|
            {
                &&& *w == old(self).root
                &&& *t == built.0
                &&& n@ == built.1
                &&& *c == built.2
                &&& *final(w) == self.root
                &&& *final(t) == self.state
                &&& final(n)@ == nodes@
                &&& #[trigger] call_ensures(W::overlay_accessibility, (w, t, n, c), opened)
            });
        let ghost after = (opened, nodes@);
        let overlay = match opened {
            Some(Some(overlay_root)) => if overlay_start <= nodes.len() {
                Some((overlay_start, overlay_root))
            } else {
                None
            },
            _ => None,
        };
        let r = accessibility_tree(nodes, root, focus, overlay);
        proof {
            let start = built.1.len() as int;
            assert(r.root == match built.3 {
                Some(id) => id,
                None => 0,
            });
            if after.0 matches Some(Some(_)) && start <= after.1.len() {
                assert(overlay_attached(after.1, r.nodes@, start, after.0->0->0, r.root));
            } else {
                assert(r.nodes@ == after.1);
            }
        }
        r
    }

    /// Handles an accessibility action request (see [`route_action`]): a
    /// focus request first takes focus away from every widget; the root
    /// widget handles the request when its state tree holds the target
    /// node; the overlay the root widget opens always receives it.
    pub fn handle_accessibility_action(&mut self, request: &ActionRequest)
        ensures
            exists|first: (W, Tree<S>), second: (W, Tree<S>)|
                #![trigger first.1.has_node_id(request.target_node), second.1]
                {
                    &&& if request.action == Action::Focus {
                        exists|w: &mut W, t: &mut Tree<S>|
                            {
                                &&& *w == old(self).root
                                &&& *t == old(self).state
                                &&& *final(w) == first.0
                                &&& *final(t) == first.1
                                &&& #[trigger] call_ensures(W::unfocus, (w, t), ())
                            }
                    } else {
                        first.0 == old(self).root && first.1 == old(self).state
                    }
                    &&& if first.1.has_node_id(request.target_node) {
                        exists|w: &mut W, t: &mut Tree<S>|
                            {
                                &&& *w == first.0
                                &&& *t == first.1
                                &&& *final(w) == second.0
                                &&& *final(t) == second.1
                                &&& #[trigger] call_ensures(W::accessibility_action, (w, t, request), ())
                            }
                    } else {
                        second.0 == first.0 && second.1 == first.1
                    }
                    &&& exists|w: &mut W, t: &mut Tree<S>|
                        {
                            &&& *w == second.0
                            &&& *t == second.1
                            &&& *final(w) == final(self).root
                            &&& *final(t) == final(self).state
                            &&& #[trigger] call_ensures(W::overlay_accessibility_action, (w, t, request), ())
                        }
                },
    {
        if request.action == Action::Focus {
            self.root.unfocus(&mut self.state);
            assert(exists|w: &mut W, t: &mut Tree<S>|
                {
                    &&& *w == old(self).root
                    &&& *t == old(self).state
                    &&& *final(w) == self.root
                    &&& *final(t) == self.state
                    &&& #[trigger] call_ensures(W::unfocus, (w, t), ())
                });
        }
        let ghost first = (self.root, self.state);
        if self.state.contains_accesskit_node_id(request.target_node) {
            self.root.accessibility_action(&mut self.state, request);
            assert(exists|w: &mut W, t: &mut Tree<S>|
                {
                    &&& *w == first.0
                    &&& *t == first.1
                    &&& *final(w) == self.root
                    &&& *final(t) == self.state
                    &&& #[trigger] call_ensures(W::accessibility_action, (w, t, request), ())
                });
        }
        let ghost second = (self.root, self.state);
        self.root.overlay_accessibility_action(&mut self.state, request);
        assert(exists|w: &mut W, t: &mut Tree<S>|
            {
                &&& *w == second.0
                &&& *t == second.1
                &&& *final(w) == self.root
                &&& *final(t) == self.state
                &&& #[trigger] call_ensures(W::overlay_accessibility_action, (w, t, request), ())
            });
    }

    /// Revalidates the widgets with the given [`Diff`]: the state tree is
    /// reconciled with the root widget again, or kept.
    pub fn revalidate_layout(&mut self, diff: Diff)
        ensures
            diff == Diff::Skip ==> *final(self) == *old(self),
            diff == Diff::Perform ==> exists|tag: Tag, t: &mut Tree<S>, w: &mut W|
                #![trigger call_ensures(W::tag, (&old(self).root,), tag), call_ensures(W::diff, (w, t), ())]
                {
                    &&& call_ensures(W::tag, (&old(self).root,), tag)
                    &&& if old(self).state.tag == tag {
                        *t == old(self).state
                    } else {
                        &&& t.tag == tag
                        &&& call_ensures(W::state, (&old(self).root,), t.state)
                        &&& t.children@.len() == 0
                        &&& t.accesskit_node_id is None
                        &&& !t.accesskit_focused
                    }
                    &&& *w == old(self).root
                    &&& *final(t) == final(self).state
                    &&& *final(w) == final(self).root
                    &&& call_ensures(W::diff, (w, t), ())
                },
    {
        match diff {
            Diff::Perform => self.state.diff_widget(&mut self.root),
            Diff::Skip => {},
        }
    }

    /// Builds the user interface again, with the state tree it holds.
    pub fn relayout(self) -> (r: Self)
        ensures
            exists|tag: Tag, t: &mut Tree<S>, w: &mut W|
                #![trigger call_ensures(W::tag, (&self.root,), tag), call_ensures(W::diff, (w, t), ())]
                {
                    &&& call_ensures(W::tag, (&self.root,), tag)
                    &&& if self.state.tag == tag {
                        *t == self.state
                    } else {
                        &&& t.tag == tag
                        &&& call_ensures(W::state, (&self.root,), t.state)
                        &&& t.children@.len() == 0
                        &&& t.accesskit_node_id is None
                        &&& !t.accesskit_focused
                    }
                    &&& *w == self.root
                    &&& *final(t) == r.state
                    &&& *final(w) == r.root
                    &&& call_ensures(W::diff, (w, t), ())
                },
    {
        Self::build(self.root, Cache { state: self.state })
    }

    /// Extracts the [`Cache`] of the user interface, consuming it.
    pub fn into_cache(self) -> (r: Cache<S>)
        ensures
            r.state == self.state,
    {
        Cache { state: self.state }
    }
}

/// The focus of an accessibility tree update is its root, or a node that
/// one of the widgets of the state tree was assigned.
pub proof fn focus_is_root_or_a_widget_node<S>(state: Tree<S>, root: u64)
    ensures
        ({
            let focus = match focus_of(state) {
                Some(id) => id,
                None => root,
            };
            focus == root || state.has_node_id(focus)
        }),
{
    focus_is_a_node_of_the_tree(state);
}

/// The last node that opens a popup is one of the nodes, and opens it.
proof fn lemma_last_opener(ns: Seq<(u64, Node)>, menu_popup: bool)
    ensures
        last_opener(ns, menu_popup) matches Some(id) ==> exists|k: int|
            0 <= k < ns.len() && #[trigger] ns[k].0 == id && opens_popup(ns[k].1, menu_popup),
    decreases ns.len(),
{
    if ns.len() > 0 && !opens_popup(ns.last().1, menu_popup) {
        lemma_last_opener(ns.drop_last(), menu_popup);
        if let Some(id) = last_opener(ns, menu_popup) {
            let k = choose|k: int|
                0 <= k < ns.drop_last().len() && #[trigger] ns.drop_last()[k].0 == id && opens_popup(
                    ns.drop_last()[k].1,
                    menu_popup,
                );
            assert(ns[k] == ns.drop_last()[k]);
        }
    }
}

/// An overlay is attached to the root, or to a node that comes before the
/// overlay's nodes and opened it: an expanded combo box for a menu popup,
/// an expanded element that opens a menu for a tooltip.
pub proof fn overlay_parent_opened_it(ns: Seq<(u64, Node)>, start: int, root: u64)
    requires
        0 <= start <= ns.len(),
    ensures
        ({
            let parent = popup_parent(ns, start, root);
            parent == root || exists|k: int|
                0 <= k < start && #[trigger] ns[k].0 == parent && opens_popup(
                    ns[k].1,
                    has_role_from(ns, start, Role::MenuListPopup),
                )
        }),
{
    let base = ns.take(start);
    lemma_last_opener(base, true);
    lemma_last_opener(base, false);
    let parent = popup_parent(ns, start, root);
    if parent != root {
        let menu = has_role_from(ns, start, Role::MenuListPopup);
        let k = choose|k: int| 0 <= k < base.len() && #[trigger] base[k].0 == parent && opens_popup(base[k].1, menu);
        assert(ns[k] == base[k]);
    }
}

/// Attaching an overlay keeps the number and the identifiers of the nodes.
pub proof fn attaching_keeps_node_ids(
    before: Seq<(u64, Node)>,
    after: Seq<(u64, Node)>,
    start: int,
    overlay_root: u64,
    root: u64,
)
    requires
        overlay_attached(before, after, start, overlay_root, root),
    ensures
        after.len() == before.len(),
        forall|j: int| 0 <= j < before.len() ==> #[trigger] after[j].0 == before[j].0,
{
}

/// Attaching the same overlay root again changes nothing more: the root is
/// a child once, and the only node controlled.
pub proof fn attaching_again_changes_nothing(n: Node, overlay_root: u64, once: Node, twice: Node)
    requires
        is_attached(n, overlay_root, once),
        is_attached(once, overlay_root, twice),
    ensures
        twice.children@ == once.children@,
        twice.controls@ == once.controls@,
        once.children@.contains(overlay_root),
{
    if !n.children@.contains(overlay_root) {
        assert(n.children@.push(overlay_root)[n.children@.len() as int] == overlay_root);
    }
}

/// Whether the redraw request `a` comes no later than `b`: the next frame
/// comes first, then moments in the order of time, then waiting.
pub open spec fn no_later_than(a: RedrawRequest, b: RedrawRequest) -> bool {
    match (a, b) {
        (RedrawRequest::NextFrame, _) => true,
        (RedrawRequest::At(x), RedrawRequest::At(y)) => x <= y,
        (RedrawRequest::At(_), RedrawRequest::Wait) => true,
        (RedrawRequest::Wait, RedrawRequest::Wait) => true,
        _ => false,
    }
}

/// Combining two redraw requests (see [`RedrawRequest::min`]) gives one of
/// them, the one that comes no later than the other: two moments combine
/// into the earlier one, and the order does not matter.
pub proof fn redraw_requests_combine_to_the_earliest(a: RedrawRequest, b: RedrawRequest)
    ensures
        earlier(a, b) == a || earlier(a, b) == b,
        no_later_than(earlier(a, b), a),
        no_later_than(earlier(a, b), b),
        earlier(a, b) == earlier(b, a),
        forall|x: u64, y: u64|
            #![trigger earlier(RedrawRequest::At(x), RedrawRequest::At(y))]
            earlier(RedrawRequest::At(x), RedrawRequest::At(y)) == RedrawRequest::At(
                if x <= y {
                    x
                } else {
                    y
                },
            ),
{
}

/// The last opener of a popup among some nodes is the identifier of an
/// expanded combo box (for a menu popup) or of an expanded element that
/// opens a menu (for a tooltip), and no node after it is one; there is none
/// when no node is one.
pub proof fn last_opener_is_the_last_expanded_one(ns: Seq<(u64, Node)>, menu_popup: bool)
    ensures
        match last_opener(ns, menu_popup) {
            Some(id) => exists|k: int|
                {
                    &&& 0 <= k < ns.len()
                    &&& #[trigger] ns[k].0 == id
                    &&& ns[k].1.expanded == Some(true)
                    &&& if menu_popup {
                        ns[k].1.role == Role::ComboBox
                    } else {
                        ns[k].1.has_popup == Some(HasPopup::Menu)
                    }
                    &&& forall|j: int| k < j < ns.len() ==> !((#[trigger] ns[j]).1.expanded == Some(true) && if menu_popup { ns[j].1.role == Role::ComboBox } else { ns[j].1.has_popup == Some(HasPopup::Menu) })
                },
            None => forall|j: int| 0 <= j < ns.len() ==> !((#[trigger] ns[j]).1.expanded == Some(true) && if menu_popup { ns[j].1.role == Role::ComboBox } else { ns[j].1.has_popup == Some(HasPopup::Menu) }),
        },
    decreases ns.len(),
{
    if ns.len() > 0 {
        let init = ns.drop_last();
        last_opener_is_the_last_expanded_one(init, menu_popup);
        if !opens_popup(ns.last().1, menu_popup) {
            match last_opener(init, menu_popup) {
                Some(id) => {
                    let k = choose|k: int|
                        {
                            &&& 0 <= k < init.len()
                            &&& #[trigger] init[k].0 == id
                            &&& init[k].1.expanded == Some(true)
                            &&& if menu_popup {
                                init[k].1.role == Role::ComboBox
                            } else {
                                init[k].1.has_popup == Some(HasPopup::Menu)
                            }
                            &&& forall|j: int| k < j < init.len() ==> !((#[trigger] init[j]).1.expanded == Some(true) && if menu_popup { init[j].1.role == Role::ComboBox } else { init[j].1.has_popup == Some(HasPopup::Menu) })
                        };
                    assert(ns[k] == init[k]);
                    assert forall|j: int| k < j < ns.len() implies !((#[trigger] ns[j]).1.expanded == Some(true) && if menu_popup { ns[j].1.role == Role::ComboBox } else { ns[j].1.has_popup == Some(HasPopup::Menu) }) by {
                        if j < init.len() {
                            assert(ns[j] == init[j]);
                        }
                    }
                },
                None => {
                    assert forall|j: int| 0 <= j < ns.len() implies !((#[trigger] ns[j]).1.expanded == Some(true) && if menu_popup { ns[j].1.role == Role::ComboBox } else { ns[j].1.has_popup == Some(HasPopup::Menu) }) by {
                        if j < init.len() {
                            assert(ns[j] == init[j]);
                        }
                    }
                },
            }
        } else {
            assert(ns[ns.len() - 1] == ns.last());
        }
    }
}

/// A tooltip overlay (one that holds a tooltip and no menu popup) whose
/// nodes start at `start` is attached to the last expanded element before
/// it that opens a menu, no later node before `start` being one; to the
/// root when there is no such element.
pub proof fn tooltip_attaches_to_the_last_expanded_menu_opener(ns: Seq<(u64, Node)>, start: int, root: u64)
    requires
        0 <= start <= ns.len(),
        has_role_from(ns, start, Role::Tooltip),
        !has_role_from(ns, start, Role::MenuListPopup),
    ensures
        (exists|k: int|
            {
                &&& 0 <= k < start
                &&& #[trigger] ns[k].0 == popup_parent(ns, start, root)
                &&& ns[k].1.expanded == Some(true)
                &&& ns[k].1.has_popup == Some(HasPopup::Menu)
                &&& forall|j: int|
                    k < j < start ==> !(#[trigger] ns[j].1.expanded == Some(true) && ns[j].1.has_popup == Some(
                        HasPopup::Menu,
                    ))
            }) || {
            &&& popup_parent(ns, start, root) == root
            &&& forall|j: int|
                0 <= j < start ==> !(#[trigger] ns[j].1.expanded == Some(true) && ns[j].1.has_popup == Some(
                    HasPopup::Menu,
                ))
        },
{
    let before = ns.take(start);
    last_opener_is_the_last_expanded_one(before, false);
    match last_opener(before, false) {
        Some(id) => {
            let k = choose|k: int|
                {
                    &&& 0 <= k < before.len()
                    &&& #[trigger] before[k].0 == id
                    &&& before[k].1.expanded == Some(true)
                    &&& before[k].1.has_popup == Some(HasPopup::Menu)
                    &&& forall|j: int| k < j < before.len() ==> !((#[trigger] before[j]).1.expanded == Some(true) && before[j].1.has_popup == Some(HasPopup::Menu))
                };
            assert(ns[k] == before[k]);
            assert forall|j: int| k < j < start implies !(#[trigger] ns[j].1.expanded == Some(true)
                && ns[j].1.has_popup == Some(HasPopup::Menu)) by {
                assert(ns[j] == before[j]);
                assert(!(before[j].1.expanded == Some(true) && before[j].1.has_popup == Some(HasPopup::Menu)));
            }
        },
        None => {
            assert forall|j: int| 0 <= j < start implies !(#[trigger] ns[j].1.expanded == Some(true)
                && ns[j].1.has_popup == Some(HasPopup::Menu)) by {
                assert(ns[j] == before[j]);
                assert(!(before[j].1.expanded == Some(true) && before[j].1.has_popup == Some(HasPopup::Menu)));
            }
        },
    }
}

} // verus!
