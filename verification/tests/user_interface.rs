use iced_accessibility::node::{Action, ActionRequest, HasPopup, Node, Role};
use iced_accessibility::tree::{State as WidgetState, Tag, Tree};
use iced_accessibility::user_interface::{
    accessibility_tree, attach_overlay, event_outcome, focus_move, root_and_focus, root_receives, route_action, Cache, Diff,
    EventOutcome, EventStatus, FocusMove, Progress, RedrawRequest, State,
    UserInterface, FIRST_NODE_ID,
};
use iced_accessibility::widget::Widget;

#[test]
fn tab_moves_focus_forward() {
    assert_eq!(focus_move(true, true, false), Some(FocusMove::Next));
}

#[test]
fn shift_tab_moves_focus_to_previous() {
    assert_eq!(focus_move(true, true, true), Some(FocusMove::Previous));
}

#[test]
fn captured_or_other_events_do_not_move_focus() {
    assert_eq!(focus_move(false, true, false), None);
    assert_eq!(focus_move(true, false, true), None);
}

#[test]
fn outdated_state_has_changed_layout() {
    let outdated: State<(), (), (), ()> = State::Outdated;
    assert!(outdated.has_layout_changed());
    let updated: State<u8, u8, u8, u8> = State::Updated {
        mouse_interaction: 0,
        redraw_request: 0,
        input_method: 0,
        clipboard: 0,
        has_layout_changed: false,
    };
    assert!(!updated.has_layout_changed());
}

#[test]
fn new_cache_holds_an_empty_tree() {
    let cache: Cache<u8> = Cache::new();
    assert!(cache.state.children.is_empty());
    assert_eq!(cache.state.accesskit_node_id(), None);
    let default: Cache<u8> = Cache::default();
    assert!(matches!(default.state.state, WidgetState::Empty));
}

fn tree_with(id: Option<u64>, focused: bool, children: Vec<Tree<()>>) -> Tree<()> {
    let mut tree: Tree<()> = Tree::empty();
    if let Some(id) = id {
        tree.set_accesskit_node_id(id);
    }
    tree.set_accesskit_focused(focused);
    tree.children = children;
    tree
}

#[test]
fn focus_falls_back_to_the_root() {
    let state = tree_with(Some(1), false, vec![tree_with(Some(2), false, vec![])]);
    assert_eq!(root_and_focus(&state, Some(1)), (1, 1));
    assert_eq!(root_and_focus(&state, None), (0, 0));
    let focused = tree_with(Some(1), false, vec![tree_with(Some(2), true, vec![])]);
    assert_eq!(root_and_focus(&focused, Some(1)), (1, 2));
}

#[test]
fn action_routes_to_the_root_only_for_its_nodes() {
    let state = tree_with(Some(1), false, vec![tree_with(Some(2), false, vec![])]);
    let focus = ActionRequest { action: Action::Focus, target_node: 2, data: None };
    let r = route_action(&state, &focus);
    assert!(r.unfocus);
    assert!(r.to_root);
    let other = ActionRequest { action: Action::SetValue, target_node: 9, data: None };
    let r = route_action(&state, &other);
    assert!(!r.unfocus);
    assert!(!r.to_root);
}

fn node(role: Role) -> Node {
    Node::new(role)
}

fn combo_box(expanded: bool) -> Node {
    let mut n = node(Role::ComboBox);
    n.expanded = Some(expanded);
    n
}

#[test]
fn menu_popup_attaches_to_the_expanded_combo_box() {
    let mut root = node(Role::Group);
    root.children = vec![2, 3];
    let mut nodes = vec![(1, root), (2, combo_box(true)), (3, combo_box(false)), (4, node(Role::MenuListPopup))];
    attach_overlay(&mut nodes, 3, 4, 1);
    assert_eq!(nodes[1].1.children, vec![4]);
    assert_eq!(nodes[1].1.controls, vec![4]);
    assert_eq!(nodes[0].1.children, vec![2, 3]);
    assert!(nodes[2].1.controls.is_empty());
    attach_overlay(&mut nodes, 3, 4, 1);
    assert_eq!(nodes[1].1.children, vec![4]);
}

#[test]
fn tooltip_attaches_to_the_expanded_menu_opener() {
    let mut opener = node(Role::Unknown);
    opener.has_popup = Some(HasPopup::Menu);
    opener.expanded = Some(true);
    let mut nodes = vec![(1, node(Role::Group)), (2, opener), (3, node(Role::Tooltip))];
    attach_overlay(&mut nodes, 2, 3, 1);
    assert_eq!(nodes[1].1.children, vec![3]);
    assert!(nodes[0].1.children.is_empty());
}

#[test]
fn other_overlays_attach_to_the_root() {
    let mut nodes = vec![(1, node(Role::Group)), (2, combo_box(true)), (3, node(Role::Group))];
    attach_overlay(&mut nodes, 2, 3, 1);
    assert_eq!(nodes[0].1.children, vec![3]);
    assert_eq!(nodes[0].1.controls, vec![3]);
    assert!(nodes[1].1.children.is_empty());
}

#[test]
fn missing_parent_changes_nothing() {
    let mut nodes = vec![(5, node(Role::Group)), (6, node(Role::Group))];
    attach_overlay(&mut nodes, 1, 6, 0);
    assert!(nodes[0].1.children.is_empty());
    assert!(nodes[1].1.children.is_empty());
}

#[test]
fn tree_update_keeps_root_and_focus() {
    let nodes = vec![(1, node(Role::Group)), (2, node(Role::Tooltip))];
    let update = accessibility_tree(nodes, 1, 1, Some((1, 2)));
    assert_eq!(update.root, 1);
    assert_eq!(update.focus, 1);
    assert_eq!(update.nodes[0].1.children, vec![2]);
    let update = accessibility_tree(vec![(1, node(Role::Group))], 1, 1, None);
    assert!(update.nodes[0].1.children.is_empty());
}

struct Root {
    focused: bool,
    actions: Vec<u64>,
    unfocused: u32,
    overlay_requests: u32,
    opens_menu: bool,
}

impl Widget<()> for Root {
    fn tag(&self) -> Tag {
        Tag::stateless()
    }

    fn state(&self) -> WidgetState<()> {
        WidgetState::Empty
    }

    fn diff(&mut self, tree: &mut Tree<()>) {
        if tree.children.is_empty() {
            tree.children.push(Tree::empty());
        }
    }

    fn accessibility(&self, tree: &mut Tree<()>, nodes: &mut Vec<(u64, Node)>, id_counter: &mut u64) -> Option<u64> {
        let id = *id_counter;
        *id_counter += 2;
        let mut combo = combo_box(self.opens_menu);
        combo.has_popup = Some(HasPopup::Menu);
        nodes.push((id + 1, combo));
        let mut root = node(Role::Group);
        root.children.push(id + 1);
        nodes.push((id, root));
        tree.set_accesskit_node_id(id);
        tree.set_accesskit_focused(self.focused);
        Some(id)
    }

    fn accessibility_action(&mut self, _tree: &mut Tree<()>, request: &ActionRequest) {
        self.actions.push(request.target_node);
    }

    fn unfocus(&mut self, _tree: &mut Tree<()>) {
        self.unfocused += 1;
        self.focused = false;
    }

    fn overlay_accessibility(
        &mut self,
        _tree: &mut Tree<()>,
        nodes: &mut Vec<(u64, Node)>,
        id_counter: &mut u64,
    ) -> Option<Option<u64>> {
        if !self.opens_menu {
            return None;
        }
        let id = *id_counter;
        *id_counter += 1;
        nodes.push((id, node(Role::MenuListPopup)));
        Some(Some(id))
    }

    fn overlay_accessibility_action(&mut self, _tree: &mut Tree<()>, _request: &ActionRequest) {
        self.overlay_requests += 1;
    }
}

fn root(opens_menu: bool) -> Root {
    Root { focused: false, actions: Vec::new(), unfocused: 0, overlay_requests: 0, opens_menu }
}

#[test]
fn built_interface_reconciles_its_state() {
    let ui = UserInterface::build(root(false), Cache::new());
    assert_eq!(ui.state.children.len(), 1);
    let cache = ui.into_cache();
    assert_eq!(cache.state.children.len(), 1);
    let ui = UserInterface::build(root(false), cache).relayout();
    assert_eq!(ui.state.children.len(), 1);
}

#[test]
fn accessibility_tree_starts_at_the_first_id_and_attaches_menus() {
    let mut ui = UserInterface::build(root(true), Cache::new());
    let update = ui.accessibility_tree();
    assert_eq!(update.root, FIRST_NODE_ID);
    assert_eq!(update.focus, FIRST_NODE_ID);
    assert_eq!(update.nodes.len(), 3);
    let combo = &update.nodes.iter().find(|(id, _)| *id == FIRST_NODE_ID + 1).unwrap().1;
    assert_eq!(combo.children, vec![FIRST_NODE_ID + 2]);
    assert_eq!(combo.controls, vec![FIRST_NODE_ID + 2]);
}

#[test]
fn focused_root_is_the_tree_focus() {
    let mut widget = root(false);
    widget.focused = true;
    let mut ui = UserInterface::build(widget, Cache::new());
    ui.state.set_accesskit_focused(true);
    let update = ui.accessibility_tree();
    assert_eq!(update.focus, FIRST_NODE_ID);
    ui.root.focused = false;
    let update = ui.accessibility_tree();
    assert_eq!(update.focus, update.root);
    assert!(!ui.state.accesskit_focused());
}

#[test]
fn closed_menu_adds_no_overlay() {
    let mut ui = UserInterface::build(root(false), Cache::new());
    let update = ui.accessibility_tree();
    assert_eq!(update.nodes.len(), 2);
}

#[test]
fn focus_request_unfocuses_then_dispatches() {
    let mut ui = UserInterface::build(root(false), Cache::new());
    ui.state.set_accesskit_node_id(1);
    ui.handle_accessibility_action(&ActionRequest { action: Action::Focus, target_node: 1, data: None });
    assert_eq!(ui.root.unfocused, 1);
    assert_eq!(ui.root.actions, vec![1]);
    assert_eq!(ui.root.overlay_requests, 1);
    ui.handle_accessibility_action(&ActionRequest { action: Action::SetValue, target_node: 9, data: None });
    assert_eq!(ui.root.unfocused, 1);
    assert_eq!(ui.root.actions, vec![1]);
    assert_eq!(ui.root.overlay_requests, 2);
}

#[test]
fn revalidation_diffs_only_when_asked() {
    let mut ui = UserInterface::build(root(false), Cache::new());
    ui.state.children.clear();
    ui.revalidate_layout(Diff::Skip);
    assert!(ui.state.children.is_empty());
    ui.revalidate_layout(Diff::Perform);
    assert_eq!(ui.state.children.len(), 1);
}

#[test]
fn events_the_overlay_captured_stay_captured() {
    let r = event_outcome(EventStatus::Captured, EventStatus::Ignored, true, false);
    assert_eq!(r, EventOutcome { status: EventStatus::Captured, focus: None, close_overlay: false, redraw_next_frame: false });
    assert!(!root_receives(EventStatus::Captured));
    assert!(root_receives(EventStatus::Ignored));
}

#[test]
fn ignored_tab_moves_focus_and_is_captured() {
    let r = event_outcome(EventStatus::Ignored, EventStatus::Ignored, true, true);
    assert_eq!(r.status, EventStatus::Captured);
    assert_eq!(r.focus, Some(FocusMove::Previous));
    assert!(r.redraw_next_frame);
    assert!(!r.close_overlay);
    let r = event_outcome(EventStatus::Ignored, EventStatus::Ignored, false, false);
    assert_eq!(r.status, EventStatus::Ignored);
    assert_eq!(r.focus, None);
}

#[test]
fn root_capture_closes_the_overlay() {
    let r = event_outcome(EventStatus::Ignored, EventStatus::Captured, true, false);
    assert_eq!(r.status, EventStatus::Captured);
    assert_eq!(r.focus, None);
    assert!(r.close_overlay);
    assert!(!r.redraw_next_frame);
    assert_eq!(EventStatus::Ignored.merge(EventStatus::Captured), EventStatus::Captured);
    assert_eq!(EventStatus::Ignored.merge(EventStatus::Ignored), EventStatus::Ignored);
}

#[test]
fn progress_folds_what_events_asked_for() {
    let mut progress = Progress::new();
    progress.record(false, false, RedrawRequest::At(30));
    progress.record(false, true, RedrawRequest::At(10));
    progress.record(false, false, RedrawRequest::Wait);
    assert_eq!(progress.redraw_request, RedrawRequest::At(10));
    let state: State<u8, RedrawRequest, (), ()> = progress.finish(7, (), ());
    assert!(state.has_layout_changed());
    assert!(matches!(state, State::Updated { mouse_interaction: 7, redraw_request: RedrawRequest::At(10), .. }));
    progress.record(true, false, RedrawRequest::NextFrame);
    assert_eq!(progress.redraw_request, RedrawRequest::NextFrame);
    let state: State<u8, RedrawRequest, (), ()> = progress.finish(7, (), ());
    assert!(matches!(state, State::Outdated));
    assert_eq!(RedrawRequest::Wait.min(RedrawRequest::Wait), RedrawRequest::Wait);
}
