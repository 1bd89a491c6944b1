use iced_accessibility::container;
use iced_accessibility::node::{Action, ActionData, ActionRequest, Bounds, Node, Role};
use iced_accessibility::table::{self, ColumnSemantics};
use iced_accessibility::text::Position;
use iced_accessibility::text_input::{self, Editor, Request, TextInput};
use iced_accessibility::tree::{State, Tag, Tree};
use iced_accessibility::user_interface::{Cache, TreeUpdate, UserInterface};
use iced_accessibility::widget::Widget;

/// A stand-in for a text widget: a label node.
struct Text {
    content: String,
}

/// A text input with its editor, recording the messages it publishes.
struct Input {
    input: TextInput<fn(String) -> String>,
    editor: Editor,
    text_run: Option<u64>,
    messages: Vec<String>,
}

/// A container around a text.
struct Container {
    content: Text,
}

fn no_overlay() -> Option<Option<u64>> {
    None
}

impl Widget<()> for Text {
    fn tag(&self) -> Tag {
        Tag::stateless()
    }
    fn state(&self) -> State<()> {
        State::Empty
    }
    fn diff(&mut self, _tree: &mut Tree<()>) {}
    fn accessibility(&self, tree: &mut Tree<()>, nodes: &mut Vec<(u64, Node)>, id_counter: &mut u64) -> Option<u64> {
        let id = *id_counter;
        *id_counter += 1;
        let mut node = Node::new(Role::Label);
        node.value = Some(self.content.clone());
        nodes.push((id, node));
        tree.set_accesskit_node_id(id);
        Some(id)
    }
    fn accessibility_action(&mut self, _tree: &mut Tree<()>, _request: &ActionRequest) {}
    fn unfocus(&mut self, _tree: &mut Tree<()>) {}
    fn overlay_accessibility(&mut self, _: &mut Tree<()>, _: &mut Vec<(u64, Node)>, _: &mut u64) -> Option<Option<u64>> {
        no_overlay()
    }
    fn overlay_accessibility_action(&mut self, _tree: &mut Tree<()>, _request: &ActionRequest) {}
}

impl Widget<()> for Input {
    fn tag(&self) -> Tag {
        Tag::stateless()
    }
    fn state(&self) -> State<()> {
        State::Empty
    }
    fn diff(&mut self, _tree: &mut Tree<()>) {}
    fn accessibility(&self, tree: &mut Tree<()>, nodes: &mut Vec<(u64, Node)>, id_counter: &mut u64) -> Option<u64> {
        text_input::accessibility(&self.input, &self.editor, tree, nodes, id_counter).0
    }
    fn accessibility_action(&mut self, tree: &mut Tree<()>, request: &ActionRequest) {
        let composing = self.editor.preedit.as_ref().is_some_and(|p| !p.content.is_empty());
        match text_input::accessibility_action(&self.input, tree, request, composing, self.text_run) {
            Request::Input(value) => {
                if let Some(on_input) = &self.input.on_input {
                    self.messages.push(on_input(value));
                }
            },
            Request::Focus => self.editor.is_focused = true,
            Request::Unfocus => self.editor.is_focused = false,
            Request::Select { start, end } => {
                self.editor.cursor = start;
                self.editor.selection = Some(end);
            },
            Request::Ignore => {},
        }
    }
    fn unfocus(&mut self, _tree: &mut Tree<()>) {
        self.editor.is_focused = false;
    }
    fn overlay_accessibility(&mut self, _: &mut Tree<()>, _: &mut Vec<(u64, Node)>, _: &mut u64) -> Option<Option<u64>> {
        no_overlay()
    }
    fn overlay_accessibility_action(&mut self, _tree: &mut Tree<()>, _request: &ActionRequest) {}
}

impl Widget<()> for Container {
    fn tag(&self) -> Tag {
        Tag::stateless()
    }
    fn state(&self) -> State<()> {
        State::Empty
    }
    fn diff(&mut self, tree: &mut Tree<()>) {
        if tree.children.is_empty() {
            tree.children.push(Tree::empty());
        }
    }
    fn accessibility(&self, tree: &mut Tree<()>, nodes: &mut Vec<(u64, Node)>, id_counter: &mut u64) -> Option<u64> {
        let child = self.content.accessibility(&mut tree.children[0], nodes, id_counter);
        container::accessibility(child, &None, false, false, tree, nodes, id_counter)
    }
    fn accessibility_action(&mut self, _tree: &mut Tree<()>, _request: &ActionRequest) {}
    fn unfocus(&mut self, _tree: &mut Tree<()>) {}
    fn overlay_accessibility(&mut self, _: &mut Tree<()>, _: &mut Vec<(u64, Node)>, _: &mut u64) -> Option<Option<u64>> {
        no_overlay()
    }
    fn overlay_accessibility_action(&mut self, _tree: &mut Tree<()>, _request: &ActionRequest) {}
}

/// A button, as the widget docs describe a custom one: a labelled node
/// that can be clicked.
struct Button {
    label: &'static str,
    presses: u32,
}

impl Widget<()> for Button {
    fn tag(&self) -> Tag {
        Tag::stateless()
    }
    fn state(&self) -> State<()> {
        State::Empty
    }
    fn diff(&mut self, _tree: &mut Tree<()>) {}
    fn accessibility(&self, tree: &mut Tree<()>, nodes: &mut Vec<(u64, Node)>, id_counter: &mut u64) -> Option<u64> {
        let id = *id_counter;
        tree.set_accesskit_node_id(id);
        *id_counter += 1;
        let mut node = Node::new(Role::Button);
        node.label = Some(String::from(self.label));
        node.actions.push(Action::Click);
        nodes.push((id, node));
        Some(id)
    }
    fn accessibility_action(&mut self, _tree: &mut Tree<()>, request: &ActionRequest) {
        if request.action == Action::Click {
            self.presses += 1;
        }
    }
    fn unfocus(&mut self, _tree: &mut Tree<()>) {}
    fn overlay_accessibility(&mut self, _: &mut Tree<()>, _: &mut Vec<(u64, Node)>, _: &mut u64) -> Option<Option<u64>> {
        no_overlay()
    }
    fn overlay_accessibility_action(&mut self, _tree: &mut Tree<()>, _request: &ActionRequest) {}
}

/// A table of texts.
struct Table {
    columns: Vec<ColumnSemantics>,
    cells: Vec<Text>,
}

impl Widget<()> for Table {
    fn tag(&self) -> Tag {
        Tag::stateless()
    }
    fn state(&self) -> State<()> {
        State::Empty
    }
    fn diff(&mut self, tree: &mut Tree<()>) {
        tree.diff_children(&mut self.cells);
    }
    fn accessibility(&self, tree: &mut Tree<()>, nodes: &mut Vec<(u64, Node)>, id_counter: &mut u64) -> Option<u64> {
        let laid_out = self.cells.len();
        table::accessibility(&self.cells, &mut tree.children, laid_out, &self.columns, &None, &None, &None, &None, nodes, id_counter)
    }
    fn accessibility_action(&mut self, _tree: &mut Tree<()>, _request: &ActionRequest) {}
    fn unfocus(&mut self, _tree: &mut Tree<()>) {}
    fn overlay_accessibility(&mut self, _: &mut Tree<()>, _: &mut Vec<(u64, Node)>, _: &mut u64) -> Option<Option<u64>> {
        no_overlay()
    }
    fn overlay_accessibility_action(&mut self, _tree: &mut Tree<()>, _request: &ActionRequest) {}
}

fn has_non_empty_bounds(node: &Node) -> bool {
    match &node.bounds {
        Bounds::UnionOf(ids) => !ids.is_empty(),
        _ => false,
    }
}

fn text_input(placeholder: &str, value: &str) -> TextInput<fn(String) -> String> {
    TextInput::new(placeholder, value)
}

fn echo(value: String) -> String {
    value
}

fn input(input: TextInput<fn(String) -> String>) -> Input {
    let end = input.value.len();
    Input {
        input,
        editor: Editor { cursor: Position { line: 0, index: end }, selection: None, preedit: None, is_focused: false },
        text_run: None,
        messages: Vec::new(),
    }
}

fn find_node(tree: &TreeUpdate, role: Role) -> Option<&Node> {
    tree.nodes.iter().find(|(_, n)| n.role == role).map(|(_, n)| n)
}

#[test]
fn text_input_value_and_label() {
    let mut ui = UserInterface::build(input(text_input("", "Hello").accessible_label("Name")), Cache::new());
    let tree = ui.accessibility_tree();
    let node = find_node(&tree, Role::TextInput).expect("TextInput node");
    assert_eq!(node.value.as_deref(), Some("Hello"));
    assert!(node.label.is_some());
}

#[test]
fn text_input_accessible_metadata_and_set_value() {
    let widget = input(
        text_input("", "old")
            .accessible_label("Name")
            .accessible_description("Full name")
            .accessible_value("Display value")
            .on_input(echo as fn(String) -> String),
    );
    let mut ui = UserInterface::build(widget, Cache::new());
    let tree = ui.accessibility_tree();
    let (input_id, node) = tree.nodes.iter().find(|(_, n)| n.role == Role::TextInput).expect("TextInput node");
    assert_eq!(node.label.as_deref(), Some("Name"));
    assert_eq!(node.description.as_deref(), Some("Full name"));
    assert_eq!(node.value.as_deref(), Some("Display value"));
    assert!(node.actions.contains(&Action::SetValue));

    ui.handle_accessibility_action(&ActionRequest {
        action: Action::SetValue,
        target_node: *input_id,
        data: Some(ActionData::Value(String::from("new"))),
    });

    assert_eq!(ui.root.messages, vec![String::from("new")]);
}

#[test]
fn container_wraps_child() {
    let mut ui = UserInterface::build(Container { content: Text { content: String::from("Content") } }, Cache::new());
    let tree = ui.accessibility_tree();
    assert_eq!(tree.nodes.len(), 2);
    assert!(find_node(&tree, Role::GenericContainer).is_some());
    assert!(find_node(&tree, Role::Label).is_some());
}

#[test]
fn tree_has_root_and_focus() {
    let mut ui = UserInterface::build(Button { label: "Click", presses: 0 }, Cache::new());
    let tree = ui.accessibility_tree();
    let root_id = tree.root;
    assert!(tree.nodes.iter().any(|(id, _)| *id == root_id));
    assert!(tree.nodes.iter().any(|(id, _)| *id == tree.focus));
}

#[test]
fn focus_tracking_focus_exists() {
    let mut ui = UserInterface::build(input(text_input("", "Hello")), Cache::new());
    let tree = ui.accessibility_tree();
    assert!(tree.nodes.iter().any(|(id, _)| *id == tree.focus), "Focus should point to an existing node");
}

#[test]
fn focus_tracking_text_input_sets_focus_flag() {
    let mut ui = UserInterface::build(input(text_input("", "Hello")), Cache::new());
    let tree = ui.accessibility_tree();
    assert_eq!(tree.focus, tree.root, "Initially focus defaults to root");

    ui.root.editor.is_focused = true;
    let tree = ui.accessibility_tree();
    let input_id = tree.nodes.iter().find(|(_, n)| n.role == Role::TextInput).map(|(id, _)| *id);
    assert_eq!(Some(tree.focus), input_id);
}

#[test]
fn table_roles_and_indices() {
    let columns = vec![table::column(Text { content: String::from("Name") }, |s: String| Text { content: s })];
    let rows = vec![String::from("Alice"), String::from("Bob")];
    let (columns, cells) = table::table_cells(columns, rows);
    let mut ui = UserInterface::build(Table { columns, cells }, Cache::new());

    let tree = ui.accessibility_tree();
    assert!(find_node(&tree, Role::Grid).is_some(), "Grid node should exist");
    let table_node = find_node(&tree, Role::Grid).unwrap();
    // row_count includes the header row + data rows
    assert_eq!(table_node.row_count, Some(3));
    assert_eq!(table_node.column_count, Some(1));

    let row_nodes: Vec<&Node> = tree.nodes.iter().filter(|(_, n)| n.role == Role::TreeItem).map(|(_, n)| n).collect();
    assert_eq!(row_nodes.len(), 3, "Should have 3 TreeItem row nodes (1 header + 2 data)");
    assert!(row_nodes.iter().all(|node| has_non_empty_bounds(node)));
    assert_eq!(row_nodes[0].row_index, Some(0));
    assert_eq!(row_nodes[1].row_index, Some(1));
    assert_eq!(row_nodes[2].row_index, Some(2));

    let cells: Vec<&Node> = tree.nodes.iter().filter(|(_, n)| n.role == Role::Cell).map(|(_, n)| n).collect();
    assert_eq!(cells.len(), 2, "Should have 2 Cell nodes (data rows)");

    let headers: Vec<&Node> = tree.nodes.iter().filter(|(_, n)| n.role == Role::ColumnHeader).map(|(_, n)| n).collect();
    assert_eq!(headers.len(), 1, "Should have 1 ColumnHeader node");
    assert_eq!(headers[0].label.as_deref(), Some("Name"));
    assert_eq!(headers[0].row_index, Some(0));
    assert_eq!(headers[0].column_index, Some(0));
    assert_eq!(cells[0].label.as_deref(), Some("Alice"));
    assert_eq!(cells[0].row_index, Some(1));
    assert_eq!(cells[0].column_index, Some(0));
}

#[test]
fn custom_button_is_clicked() {
    let mut ui = UserInterface::build(Button { label: "Click me", presses: 0 }, Cache::new());
    let tree = ui.accessibility_tree();
    let (id, node) = tree.nodes.iter().find(|(_, n)| n.role == Role::Button).expect("Button node");
    assert_eq!(node.label.as_deref(), Some("Click me"));
    assert!(node.actions.contains(&Action::Click));
    ui.handle_accessibility_action(&ActionRequest { action: Action::Click, target_node: *id, data: None });
    ui.handle_accessibility_action(&ActionRequest { action: Action::Focus, target_node: *id, data: None });
    assert_eq!(ui.root.presses, 1);
}
