use iced_accessibility::node::{
    Action, ActionData, ActionRequest, Bounds, Node, Role, TextPosition, TextSelection,
};
use iced_accessibility::text::{Position, Preedit};
use iced_accessibility::text_input::{
    accessibility, accessibility_action, checked_accessibility, status, status_change, Editor, Handler, Request, Status,
    StatusChange, TextInput,
};
use iced_accessibility::tree::{Tree};

type Input = TextInput<fn(String) -> String>;

fn echo(text: String) -> String {
    text
}

fn field(value: &str) -> Input {
    TextInput::new("Type here", value).on_input(echo as fn(String) -> String).accessible_label("Name")
}

fn editor(line: usize, index: usize) -> Editor {
    Editor { cursor: Position { line, index }, selection: None, preedit: None, is_focused: false }
}

fn build(field: &Input, editor: &Editor) -> (Tree<()>, Vec<(u64, Node)>, u64, (Option<u64>, u64)) {
    let mut tree: Tree<()> = Tree::empty();
    let mut nodes = Vec::new();
    let mut counter = 1u64;
    let r = accessibility(field, editor, &mut tree, &mut nodes, &mut counter);
    (tree, nodes, counter, r)
}

fn selection_of(node: &Node) -> (usize, usize) {
    let s = node.text_selection.unwrap();
    (s.anchor.character_index, s.focus.character_index)
}

#[test]
fn new_text_input_is_disabled_until_it_has_a_handler() {
    let input: Input = TextInput::new("Search", "");
    assert_eq!(input.placeholder, "Search");
    assert_eq!(input.value, "");
    assert!(input.on_input.is_none());
    assert!(!input.is_secure && !input.is_read_only);
    let input = input.on_input_maybe(Some(echo as fn(String) -> String)).accessible_description("Finds files");
    assert!(input.on_input.is_some());
    assert_eq!(input.accessible_description.as_deref(), Some("Finds files"));
    let input = input.on_input_maybe(None);
    assert!(input.on_input.is_none());
}

#[test]
fn status_prefers_disabled_then_focus_then_hover() {
    assert_eq!(status(false, false, true, true), Status::Disabled);
    assert_eq!(status(true, false, true, true), Status::Focused { is_hovered: true });
    assert_eq!(status(false, true, true, false), Status::Focused { is_hovered: false });
    assert_eq!(status(true, false, false, true), Status::Hovered);
    assert_eq!(status(true, false, false, false), Status::Active);
}

#[test]
fn status_changes_ask_for_a_redraw() {
    assert_eq!(status_change(true, None, Status::Active), StatusChange::Record);
    assert_eq!(status_change(false, Some(Status::Active), Status::Hovered), StatusChange::Redraw);
    assert_eq!(status_change(false, Some(Status::Hovered), Status::Hovered), StatusChange::Keep);
    assert_eq!(status_change(false, None, Status::Hovered), StatusChange::Keep);
}

#[test]
fn text_input_exposes_value_label_and_caret() {
    let f = field("hello");
    let mut e = editor(0, 5);
    e.is_focused = true;
    let (tree, nodes, counter, r) = build(&f, &e);
    assert_eq!(r, (Some(1), 2));
    assert_eq!(counter, 3);
    assert_eq!(nodes.len(), 2);
    let (id, input) = &nodes[0];
    assert_eq!(*id, 1);
    assert_eq!(input.role, Role::TextInput);
    assert!(matches!(input.bounds, Bounds::Widget));
    assert_eq!(input.value.as_deref(), Some("hello"));
    assert_eq!(input.label.as_deref(), Some("Name"));
    assert_eq!(input.placeholder, None);
    assert_eq!(input.children, vec![2]);
    assert_eq!(selection_of(input), (5, 5));
    assert_eq!(input.text_selection.unwrap().focus.node, 2);
    assert_eq!(
        input.actions,
        vec![Action::SetTextSelection, Action::ReplaceSelectedText, Action::SetValue, Action::Focus]
    );
    assert!(!input.disabled);
    assert!(!input.read_only);
    let (run_id, run) = &nodes[1];
    assert_eq!(*run_id, 2);
    assert_eq!(run.role, Role::TextRun);
    assert_eq!(run.value.as_deref(), Some("hello"));
    assert_eq!(run.character_lengths, vec![1, 1, 1, 1, 1]);
    assert_eq!(run.word_starts, vec![0]);
    assert_eq!(tree.accesskit_node_id(), Some(1));
    assert!(tree.accesskit_focused());
}

#[test]
fn selection_is_counted_in_clusters() {
    let f = field("ab\ncé");
    let mut e = editor(1, 3);
    e.selection = Some(Position { line: 0, index: 1 });
    let (_, nodes, _, _) = build(&f, &e);
    assert_eq!(selection_of(&nodes[0].1), (1, 5));
}

#[test]
fn secure_input_hides_its_value() {
    let f = field("ab").secure(true).accessible_value("visible");
    let (_, nodes, _, _) = build(&f, &editor(0, 0));
    assert_eq!(nodes[0].1.role, Role::PasswordInput);
    assert_eq!(nodes[0].1.value.as_deref(), Some("••"));
    assert_eq!(nodes[1].1.value.as_deref(), Some("••"));
}

#[test]
fn accessible_value_replaces_the_text() {
    let f = field("ab").accessible_value("two letters");
    let (_, nodes, _, _) = build(&f, &editor(0, 0));
    assert_eq!(nodes[0].1.value.as_deref(), Some("two letters"));
    assert_eq!(nodes[1].1.value.as_deref(), Some("ab"));
}

#[test]
fn empty_input_shows_its_placeholder() {
    let f = field("");
    let (tree, nodes, _, _) = build(&f, &editor(0, 0));
    assert_eq!(nodes[0].1.value, None);
    assert_eq!(nodes[0].1.placeholder.as_deref(), Some("Type here"));
    assert!(!tree.accesskit_focused());
}

#[test]
fn disabled_input_only_takes_focus() {
    let mut f = field("x");
    f.on_input = None;
    let (_, nodes, _, _) = build(&f, &editor(0, 0));
    assert!(nodes[0].1.disabled);
    assert_eq!(nodes[0].1.actions, vec![Action::Focus]);
}

#[test]
fn read_only_input_can_be_selected_not_edited() {
    let f = field("x").read_only(true);
    let (_, nodes, _, _) = build(&f, &editor(0, 0));
    assert!(nodes[0].1.read_only);
    assert!(!nodes[0].1.disabled);
    assert_eq!(nodes[0].1.actions, vec![Action::SetTextSelection, Action::Focus]);
}

#[test]
fn composed_text_is_exposed_and_marked() {
    let f = field("ac");
    let mut e = editor(0, 1);
    e.preedit = Some(Preedit { content: String::from("b"), selection: None });
    let (_, nodes, _, _) = build(&f, &e);
    assert!(nodes[0].1.text_input_marked);
    assert_eq!(nodes[0].1.value.as_deref(), Some("abc"));
    assert_eq!(selection_of(&nodes[0].1), (2, 2));
}

fn owned_tree(id: u64) -> Tree<()> {
    let mut tree: Tree<()> = Tree::empty();
    tree.set_accesskit_node_id(id);
    tree
}

fn request(action: Action, target: u64, data: Option<ActionData>) -> ActionRequest {
    ActionRequest { action, target_node: target, data }
}

fn select(run: u64, anchor: usize, focus: usize) -> Option<ActionData> {
    Some(ActionData::SetTextSelection(TextSelection {
        anchor: TextPosition { node: run, character_index: anchor },
        focus: TextPosition { node: run, character_index: focus },
    }))
}

#[test]
fn requests_for_other_nodes_only_unfocus() {
    let f = field("hello");
    let tree = owned_tree(1);
    assert!(matches!(accessibility_action(&f, &tree, &request(Action::Focus, 9, None), false, Some(2)), Request::Unfocus));
    assert!(matches!(
        accessibility_action(&f, &tree, &request(Action::SetValue, 9, Some(ActionData::Value(String::from("x")))), false, Some(2)),
        Request::Ignore
    ));
}

#[test]
fn set_value_publishes_new_input() {
    let f = field("hello");
    let tree = owned_tree(1);
    let r = accessibility_action(
        &f,
        &tree,
        &request(Action::SetValue, 1, Some(ActionData::Value(String::from("bye")))),
        false,
        Some(2),
    );
    assert!(matches!(r, Request::Input(ref v) if v == "bye"));
    let r = accessibility_action(
        &f,
        &tree,
        &request(Action::ReplaceSelectedText, 1, Some(ActionData::Value(String::from("z")))),
        false,
        Some(2),
    );
    assert!(matches!(r, Request::Input(ref v) if v == "z"));
}

#[test]
fn set_value_is_ignored_without_input_handler() {
    let mut f = field("hello");
    f.on_input = None;
    let tree = owned_tree(1);
    let r = accessibility_action(&f, &tree, &request(Action::SetValue, 1, Some(ActionData::Value(String::from("x")))), false, None);
    assert!(matches!(r, Request::Ignore));
}

#[test]
fn text_selection_selects_clamped_range() {
    let f = field("hello");
    let tree = owned_tree(1);
    let r = accessibility_action(&f, &tree, &request(Action::SetTextSelection, 1, select(2, 1, 3)), false, Some(2));
    match r {
        Request::Select { start, end } => {
            assert_eq!(start, Position { line: 0, index: 3 });
            assert_eq!(end, Position { line: 0, index: 1 });
        },
        _ => panic!("expected a selection"),
    }
    let r = accessibility_action(&f, &tree, &request(Action::SetTextSelection, 1, select(2, 0, 99)), false, Some(2));
    match r {
        Request::Select { start, end } => {
            assert_eq!(start, Position { line: 0, index: 5 });
            assert_eq!(end, Position { line: 0, index: 0 });
        },
        _ => panic!("expected a selection"),
    }
}

#[test]
fn text_selection_is_ignored_while_composing_or_elsewhere() {
    let f = field("hello");
    let tree = owned_tree(1);
    let composing = accessibility_action(&f, &tree, &request(Action::SetTextSelection, 1, select(2, 1, 3)), true, Some(2));
    assert!(matches!(composing, Request::Ignore));
    let other_run = accessibility_action(&f, &tree, &request(Action::SetTextSelection, 1, select(7, 1, 3)), false, Some(2));
    assert!(matches!(other_run, Request::Ignore));
}

#[test]
fn focus_request_takes_focus() {
    let f = field("hello");
    let tree = owned_tree(1);
    assert!(matches!(accessibility_action(&f, &tree, &request(Action::Focus, 1, None), false, Some(2)), Request::Focus));
    assert!(matches!(accessibility_action(&f, &tree, &request(Action::ScrollDown, 1, None), false, Some(2)), Request::Ignore));
}

#[test]
fn selecting_then_exposing_gives_the_same_index() {
    let f = field("ab\ncé d");
    let tree = owned_tree(1);
    for k in 0..8usize {
        let r = accessibility_action(&f, &tree, &request(Action::SetTextSelection, 1, select(2, k, k)), false, Some(2));
        let Request::Select { start, .. } = r else { panic!("expected a selection") };
        let (_, nodes, _, _) = build(&f, &editor(start.line, start.index));
        assert_eq!(selection_of(&nodes[0].1).1, k.min(7));
    }
}

#[test]
fn checked_accessibility_builds_when_composition_fits() {
    let f = field("ab");
    let mut tree: Tree<()> = Tree::empty();
    let mut nodes = Vec::new();
    let mut counter = 4u64;
    let mut e = editor(0, 1);
    e.preedit = Some(Preedit { content: String::from("x"), selection: None });
    assert_eq!(checked_accessibility(&f, &e, &mut tree, &mut nodes, &mut counter), Some((Some(4), 5)));
    assert_eq!(counter, 6);
    assert_eq!(nodes[1].1.value.as_deref(), Some("axb"));
}

#[test]
fn checked_accessibility_refuses_a_split_character() {
    let mut value = String::from("e");
    for _ in 0..100 {
        value.push('\u{20D0}');
    }
    let f = field(&value);
    let mut tree: Tree<()> = Tree::empty();
    let mut nodes = Vec::new();
    let mut counter = 4u64;
    let mut e = editor(0, 301);
    e.preedit = Some(Preedit { content: String::from("x"), selection: None });
    assert_eq!(checked_accessibility(&f, &e, &mut tree, &mut nodes, &mut counter), None);
    assert!(nodes.is_empty());
    assert_eq!(counter, 4);
    assert_eq!(tree.accesskit_node_id(), None);
}

#[test]
fn paste_handler_publishes_pasted_text() {
    let f = field("ab");
    assert!(f.takes_edits());
    assert_eq!(f.edit_handler(true), Some(Handler::Input));
    let f = f.on_paste(echo as fn(String) -> String);
    assert_eq!(f.edit_handler(true), Some(Handler::Paste));
    assert_eq!(f.edit_handler(false), Some(Handler::Input));
    let f = f.read_only(true);
    assert!(!f.takes_edits());
    assert_eq!(f.edit_handler(true), None);
    let g: Input = TextInput::new("", "").on_paste_maybe(None);
    assert_eq!(g.edit_handler(false), None);
}
