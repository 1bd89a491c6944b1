use iced_accessibility::container::{self, Catalog, Dispatch, Style};
use iced_accessibility::content::Content;
use iced_accessibility::group::{build_group_node, Element, Group, Overlay};
use iced_accessibility::node::{Action, ActionRequest, Bounds, Node, Role};
use iced_accessibility::table::{self, cell_for_action, ColumnSemantics, Horizontal, SortDirection, TableAccessibility, Vertical};
use iced_accessibility::tree::{State, Tag, Tree};
use iced_accessibility::widget::Widget;

fn tree_with(id: Option<u64>, children: Vec<Tree<()>>) -> Tree<()> {
    let mut tree: Tree<()> = Tree::empty();
    if let Some(id) = id {
        tree.set_accesskit_node_id(id);
    }
    tree.children = children;
    tree
}

#[test]
fn container_wraps_its_content() {
    let mut tree = tree_with(None, vec![tree_with(Some(1), vec![])]);
    let mut nodes = Vec::new();
    let mut counter = 2u64;
    let id = container::accessibility(Some(1), &None, false, false, &mut tree, &mut nodes, &mut counter);
    assert_eq!(id, Some(2));
    assert_eq!(counter, 3);
    let (nid, node) = &nodes[0];
    assert_eq!(*nid, 2);
    assert_eq!(node.role, Role::GenericContainer);
    assert_eq!(node.children, vec![1]);
    assert!(node.actions.is_empty());
    assert_eq!(tree.accesskit_node_id(), Some(2));
    assert!(!tree.accesskit_focused());
}

#[test]
fn labelled_focusable_container_is_a_group() {
    let mut tree = tree_with(None, vec![]);
    let mut nodes = Vec::new();
    let mut counter = 7u64;
    let id = container::accessibility(None, &Some(String::from("Panel")), true, true, &mut tree, &mut nodes, &mut counter);
    assert_eq!(id, Some(7));
    let node = &nodes[0].1;
    assert_eq!(node.role, Role::Group);
    assert_eq!(node.label.as_deref(), Some("Panel"));
    assert!(node.children.is_empty());
    assert_eq!(node.actions, vec![Action::Focus]);
    assert_eq!(node.child_actions, vec![Action::Focus]);
    assert!(tree.accesskit_focused());
}

fn request(action: Action, target: u64) -> ActionRequest {
    ActionRequest { action, target_node: target, data: None }
}

#[test]
fn container_dispatches_requests() {
    let tree = tree_with(Some(5), vec![tree_with(Some(4), vec![])]);
    assert_eq!(container::accessibility_action(true, &tree, true, &request(Action::Focus, 5)), Dispatch::TakeFocus);
    assert_eq!(container::accessibility_action(true, &tree, true, &request(Action::SetValue, 5)), Dispatch::Ignore);
    assert_eq!(container::accessibility_action(false, &tree, true, &request(Action::Focus, 4)), Dispatch::Forward);
    assert_eq!(container::accessibility_action(false, &tree, false, &request(Action::Focus, 4)), Dispatch::Ignore);
    assert_eq!(container::accessibility_action(true, &tree, true, &request(Action::Focus, 8)), Dispatch::Ignore);
}

#[test]
fn style_builders_set_one_field() {
    let style: Style<u32, &str, u8, i8> = Style { text_color: None, background: None, border: 0, shadow: 0, snap: true };
    let style = style.color(7u32).background("blue").border(2u8).shadow(-1i8);
    assert_eq!(style.text_color, Some(7));
    assert_eq!(style.background, Some("blue"));
    assert_eq!(style.border, 2);
    assert_eq!(style.shadow, -1);
    assert!(style.snap);
}

struct Theme;

impl Catalog for Theme {
    type Class = &'static str;

    fn default() -> &'static str {
        "default"
    }
}

#[test]
fn content_builders() {
    let content: Content<u32, &str, Theme> = Content::new(5);
    assert_eq!(content.class, "default");
    assert!(content.title_bar.is_none());
    let content = content.title_bar("title").class("custom").accessible_label("Editor");
    assert_eq!(content.title_bar, Some("title"));
    assert_eq!(content.class, "custom");
    assert_eq!(content.accessible_label.as_deref(), Some("Editor"));
    assert_eq!(content.body, 5);
    let styled = content.style("styled");
    assert_eq!(styled.class, "styled");
}

#[test]
fn labelled_pane_wraps_its_body() {
    let content: Content<(), (), Theme> = Content::new(()).accessible_label("Terminal");
    let mut nodes = Vec::new();
    let mut counter = 10u64;
    assert_eq!(content.accessibility(Some(3), &mut nodes, &mut counter), Some(10));
    assert_eq!(nodes[0].1.role, Role::GenericContainer);
    assert_eq!(nodes[0].1.children, vec![3]);
    assert_eq!(nodes[0].1.label.as_deref(), Some("Terminal"));
    assert_eq!(content.accessibility(None, &mut nodes, &mut counter), None);
    assert_eq!(counter, 11);
}

#[test]
fn unlabelled_pane_is_its_body() {
    let content: Content<(), (), Theme> = Content::new(());
    let mut nodes = Vec::new();
    let mut counter = 10u64;
    assert_eq!(content.accessibility(Some(3), &mut nodes, &mut counter), Some(3));
    assert!(nodes.is_empty());
    assert_eq!(counter, 10);
}

#[test]
fn pane_without_a_node_to_add_works_with_a_full_counter() {
    let content: Content<(), (), Theme> = Content::new(());
    let mut nodes = Vec::new();
    let mut counter = u64::MAX;
    assert_eq!(content.accessibility(Some(3), &mut nodes, &mut counter), Some(3));
    let labelled: Content<(), (), Theme> = Content::new(()).accessible_label("Terminal");
    assert_eq!(labelled.accessibility(None, &mut nodes, &mut counter), None);
    assert!(nodes.is_empty());
    assert_eq!(counter, u64::MAX);
}

#[test]
fn table_without_identifiers_left_has_no_node() {
    let cells: Vec<Cell> = Vec::new();
    let mut trees: Vec<Tree<()>> = Vec::new();
    let mut nodes = Vec::new();
    let mut counter = u64::MAX;
    let id = table::accessibility(&cells, &mut trees, 0, &Vec::new(), &None, &None, &None, &None, &mut nodes, &mut counter);
    assert_eq!(id, None);
    assert!(nodes.is_empty());
    assert_eq!(counter, u64::MAX);
}

#[test]
fn group_node_holds_present_children() {
    let mut nodes = Vec::new();
    let mut counter = 4u64;
    assert_eq!(build_group_node(&vec![None, Some(2), None, Some(3)], &mut nodes, &mut counter), Some(4));
    assert_eq!(nodes[0].1.role, Role::Group);
    assert!(matches!(nodes[0].1.bounds, Bounds::NonEmptyWidget));
    assert_eq!(nodes[0].1.children, vec![2, 3]);
    assert_eq!(build_group_node(&vec![None], &mut nodes, &mut counter), None);
    assert_eq!(counter, 5);
}

#[test]
fn group_orders_children_by_rank() {
    let group = Group::with_children(vec![(3u32, 'c'), (1, 'a'), (2, 'b'), (1, 'z')]);
    let ranks: Vec<u32> = group.children.iter().map(|c| c.0).collect();
    assert_eq!(ranks, vec![1, 1, 2, 3]);
    let mut items: Vec<char> = group.children.iter().map(|c| c.1).collect();
    items.sort();
    assert_eq!(items, vec!['a', 'b', 'c', 'z']);
    assert!(Group::<char>::new().children.is_empty());
}

struct Popup {
    produces: bool,
    requests: u32,
}

impl Overlay for Popup {
    fn accessibility(&mut self, nodes: &mut Vec<(u64, Node)>, id_counter: &mut u64) -> Option<u64> {
        if !self.produces {
            return None;
        }
        let id = *id_counter;
        *id_counter += 1;
        nodes.push((id, Node::new(Role::MenuListPopup)));
        Some(id)
    }

    fn accessibility_action(&mut self, _request: &ActionRequest) {
        self.requests += 1;
    }
}

#[test]
fn group_overlay_groups_its_children() {
    let group = Group::with_children(vec![
        (2, Popup { produces: true, requests: 0 }),
        (1, Popup { produces: false, requests: 0 }),
        (3, Popup { produces: true, requests: 0 }),
    ]);
    let mut element: Element = group.overlay();
    let mut nodes = Vec::new();
    let mut counter = 1u64;
    assert_eq!(element.overlay.accessibility(&mut nodes, &mut counter), Some(3));
    assert_eq!(nodes.len(), 3);
    assert_eq!(nodes[2].1.role, Role::Group);
    assert_eq!(nodes[2].1.children, vec![1, 2]);
    element.overlay.accessibility_action(&request(Action::Focus, 1));
}

#[test]
fn group_hands_requests_to_every_child() {
    let mut group = Group::with_children(vec![
        (2, Popup { produces: true, requests: 0 }),
        (1, Popup { produces: false, requests: 0 }),
    ]);
    Overlay::accessibility_action(&mut group, &request(Action::Focus, 7));
    assert!(group.children.iter().all(|(_, popup)| popup.requests == 1));
    let mut nodes = Vec::new();
    let mut counter = 5u64;
    assert_eq!(Overlay::accessibility(&mut group, &mut nodes, &mut counter), Some(6));
    assert_eq!(counter, 7);
    assert_eq!(nodes[0].0, 5);
    assert_eq!(nodes[1].1.children, vec![5]);
}

#[test]
fn group_without_child_nodes_has_no_node() {
    let mut group = Group::with_children(vec![(1, Popup { produces: false, requests: 0 })]);
    let mut nodes = Vec::new();
    let mut counter = 3u64;
    assert_eq!(Overlay::accessibility(&mut group, &mut nodes, &mut counter), None);
    assert!(nodes.is_empty());
    assert_eq!(counter, 3);
    let mut empty: Group<Popup> = Group::new();
    assert_eq!(Overlay::accessibility(&mut empty, &mut nodes, &mut counter), None);
    assert!(nodes.is_empty());
}

#[test]
fn column_builders() {
    let c = table::column("Name", |x: u32| x + 1);
    assert!(!c.row_header);
    assert_eq!(c.sort_direction, None);
    assert_eq!(c.align_x, Horizontal::Left);
    assert_eq!(c.align_y, Vertical::Top);
    let c = c.row_header(true).sort_direction(SortDirection::Descending).align_x(Horizontal::Center).align_y(Vertical::Bottom);
    assert!(c.row_header);
    assert_eq!(c.sort_direction, Some(SortDirection::Descending));
    assert_eq!(c.align_x, Horizontal::Center);
    assert_eq!(c.align_y, Vertical::Bottom);
    assert_eq!((c.view)(1), 2);
    assert_eq!(c.header, "Name");
}

fn cell_node(label: &str) -> Node {
    let mut n = Node::new(Role::Unknown);
    n.label = Some(String::from(label));
    n
}

#[test]
fn table_rows_include_the_header() {
    let columns = vec![
        ColumnSemantics { row_header: true, sort_direction: None },
        ColumnSemantics { row_header: false, sort_direction: Some(SortDirection::Ascending) },
    ];
    let mut nodes: Vec<(u64, Node)> = Vec::new();
    let mut counter = 1u64;
    let mut table = TableAccessibility::new(2);
    let selected_cells = Some(vec![(0usize, 1usize)]);
    let labels = ["Name", "Age", "Ada", "36", "Alan", "41"];
    for label in labels {
        let id = counter;
        counter += 1;
        nodes.push((id, cell_node(label)));
        table.visit_cell(Some(id), &columns, &None, &selected_cells, &mut nodes, &mut counter);
    }
    let selected_rows = Some(vec![1usize]);
    let table_id = table.finish(6, &Some(String::from("People")), &selected_rows, &selected_cells, &None, &mut nodes, &mut counter);
    let find = |id: u64| &nodes.iter().find(|(n, _)| *n == id).unwrap().1;
    let table_node = find(table_id);
    assert_eq!(table_node.role, Role::Grid);
    assert_eq!(table_node.row_count, Some(3));
    assert_eq!(table_node.column_count, Some(2));
    assert_eq!(table_node.label.as_deref(), Some("People"));
    assert_eq!(table_node.children.len(), 3);
    let header_row = find(table_node.children[0]);
    assert_eq!(header_row.role, Role::TreeItem);
    assert_eq!(header_row.row_index, Some(0));
    assert_eq!(header_row.selected, None);
    let first_header = find(header_row.children[0]);
    assert_eq!(first_header.role, Role::ColumnHeader);
    assert_eq!(first_header.label.as_deref(), Some("Name"));
    assert_eq!(first_header.row_index, Some(0));
    let second_header = find(header_row.children[1]);
    assert_eq!(second_header.sort_direction, Some(SortDirection::Ascending));
    let row1 = find(table_node.children[1]);
    assert_eq!(row1.role, Role::TreeItem);
    assert_eq!(row1.row_index, Some(1));
    assert_eq!(row1.selected, Some(false));
    let row2 = find(table_node.children[2]);
    assert_eq!(row2.row_index, Some(2));
    assert_eq!(row2.selected, Some(true));
    let row_header = find(row1.children[0]);
    assert_eq!(row_header.role, Role::RowHeader);
    assert_eq!(row_header.label.as_deref(), Some("Ada"));
    let cell = find(row1.children[1]);
    assert_eq!(cell.role, Role::Cell);
    assert_eq!(cell.row_index, Some(1));
    assert_eq!(cell.column_index, Some(1));
    assert_eq!(cell.selected, Some(true));
    assert!(!table_node.multiselectable);
}

#[test]
fn table_cells_put_the_headers_first() {
    let views: [fn(u32) -> u32; 2] = [|x| x + 1, |x| x * 2];
    let columns = vec![table::column(10u32, views[0]), table::column(20u32, views[1]).row_header(true)];
    let (semantics, cells) = table::table_cells(columns, vec![3u32, 5]);
    assert_eq!(semantics.len(), 2);
    assert!(!semantics[0].row_header);
    assert!(semantics[1].row_header);
    assert_eq!(cells, vec![10, 20, 4, 6, 6, 10]);
}

struct Cell {
    label: &'static str,
}

impl Widget<()> for Cell {
    fn tag(&self) -> Tag {
        Tag::stateless()
    }

    fn state(&self) -> State<()> {
        State::Empty
    }

    fn diff(&mut self, _tree: &mut Tree<()>) {}

    fn accessibility(&self, _tree: &mut Tree<()>, nodes: &mut Vec<(u64, Node)>, id_counter: &mut u64) -> Option<u64> {
        let id = *id_counter;
        *id_counter += 1;
        nodes.push((id, cell_node(self.label)));
        Some(id)
    }

    fn accessibility_action(&mut self, _tree: &mut Tree<()>, _request: &ActionRequest) {}

    fn unfocus(&mut self, _tree: &mut Tree<()>) {}

    fn overlay_accessibility(
        &mut self,
        _tree: &mut Tree<()>,
        _nodes: &mut Vec<(u64, Node)>,
        _id_counter: &mut u64,
    ) -> Option<Option<u64>> {
        None
    }

    fn overlay_accessibility_action(&mut self, _tree: &mut Tree<()>, _request: &ActionRequest) {}
}

#[test]
fn table_accessibility_visits_its_cells() {
    let cells = vec![Cell { label: "A" }, Cell { label: "B" }, Cell { label: "1" }, Cell { label: "2" }];
    let mut trees: Vec<Tree<()>> = (0..4).map(|_| Tree::empty()).collect();
    let columns = vec![ColumnSemantics { row_header: false, sort_direction: None }; 2];
    let mut nodes = Vec::new();
    let mut counter = 1u64;
    let id = table::accessibility(&cells, &mut trees, 4, &columns, &None, &None, &None, &Some(vec![0, 1]), &mut nodes, &mut counter);
    let id = id.unwrap();
    let (last_id, table_node) = nodes.last().unwrap();
    assert_eq!(*last_id, id);
    assert_eq!(table_node.row_count, Some(2));
    assert_eq!(table_node.column_count, Some(2));
    assert!(table_node.multiselectable);
    assert_eq!(table_node.children.len(), 2);
    assert_eq!(counter, id + 1);
}

#[test]
fn table_without_columns_has_no_rows() {
    let cells: Vec<Cell> = Vec::new();
    let mut trees: Vec<Tree<()>> = Vec::new();
    let mut nodes = Vec::new();
    let mut counter = 1u64;
    let id = table::accessibility(&cells, &mut trees, 0, &Vec::new(), &None, &None, &None, &None, &mut nodes, &mut counter);
    assert_eq!(id, Some(1));
    assert_eq!(nodes[0].1.row_count, Some(0));
    assert_eq!(nodes[0].1.column_count, Some(0));
}

#[test]
fn action_goes_to_the_first_cell_holding_the_target() {
    let trees = vec![tree_with(Some(1), vec![]), tree_with(Some(2), vec![tree_with(Some(3), vec![])]), tree_with(Some(3), vec![])];
    assert_eq!(cell_for_action(&trees, 3, 3), Some(1));
    assert_eq!(cell_for_action(&trees, 1, 3), None);
    assert_eq!(cell_for_action(&trees, 3, 9), None);
}
