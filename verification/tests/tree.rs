use iced_accessibility::node::{ActionRequest, Node};
use iced_accessibility::tree::{
    diff_children_custom_with_search, find_focused_node_id, reset_accesskit_focus, search_children, State,
    Tag, Tree,
};
use iced_accessibility::widget::Widget;

fn leaf(value: u32) -> Tree<u32> {
    Tree::new(Tag::of::<u32>(), State::new(value))
}

fn value_of(tree: &Tree<u32>) -> u32 {
    *tree.state.downcast_ref()
}

fn values(trees: &[Tree<u32>]) -> Vec<u32> {
    trees.iter().map(value_of).collect()
}

#[test]
fn empty_tree_is_stateless() {
    let tree: Tree<u32> = Tree::empty();
    assert!(matches!(tree.state, State::Empty));
    assert!(tree.children.is_empty());
    assert_eq!(tree.accesskit_node_id(), None);
    assert!(!tree.accesskit_focused());
    assert!(tree.tag.same(&Tag::stateless()));
    assert!(!tree.tag.same(&Tag::of::<u32>()));
}

#[test]
fn tags_tell_state_types_apart() {
    assert!(Tag::of::<u32>().same(&Tag::of::<u32>()));
    assert!(!Tag::of::<u32>().same(&Tag::of::<String>()));
    assert!(Tag::stateless().same(&Tag::of::<()>()));
}

#[test]
fn state_downcasts_to_held_value() {
    let mut state = State::new(7u32);
    assert_eq!(*state.downcast_ref(), 7);
    *state.downcast_mut() = 9;
    assert_eq!(*state.downcast_ref(), 9);
}

#[test]
fn node_ids_are_found_in_descendants() {
    let mut root = leaf(0);
    let mut child = leaf(1);
    let mut grandchild = leaf(2);
    grandchild.set_accesskit_node_id(30);
    child.set_accesskit_node_id(20);
    child.children.push(grandchild);
    root.set_accesskit_node_id(10);
    root.children.push(child);
    root.children.push(leaf(3));
    assert_eq!(root.accesskit_node_id(), Some(10));
    for id in [10, 20, 30] {
        assert!(root.contains_accesskit_node_id(id));
        assert!(root.owns_accesskit_node_id(id));
    }
    assert!(!root.contains_accesskit_node_id(40));
    assert!(!root.children[1].contains_accesskit_node_id(20));
}

#[test]
fn first_focused_widget_reports_its_node() {
    let mut root = leaf(0);
    root.set_accesskit_node_id(1);
    let mut a = leaf(1);
    a.set_accesskit_node_id(2);
    let mut b = leaf(2);
    b.set_accesskit_node_id(3);
    b.set_accesskit_focused(true);
    let mut c = leaf(3);
    c.set_accesskit_node_id(4);
    c.set_accesskit_focused(true);
    a.children.push(b);
    root.children.push(a);
    root.children.push(c);
    assert_eq!(find_focused_node_id(&root), Some(3));
}

#[test]
fn focused_widget_without_node_reports_none() {
    let mut root = leaf(0);
    root.set_accesskit_focused(true);
    let mut child = leaf(1);
    child.set_accesskit_node_id(5);
    child.set_accesskit_focused(true);
    root.children.push(child);
    assert_eq!(find_focused_node_id(&root), None);
}

#[test]
fn reset_clears_focus_but_keeps_ids() {
    let mut root = leaf(0);
    root.set_accesskit_node_id(1);
    root.set_accesskit_focused(true);
    let mut child = leaf(1);
    child.set_accesskit_node_id(2);
    child.set_accesskit_focused(true);
    root.children.push(child);
    reset_accesskit_focus(&mut root);
    assert_eq!(find_focused_node_id(&root), None);
    assert!(!root.accesskit_focused());
    assert!(!root.children[0].accesskit_focused());
    assert!(root.contains_accesskit_node_id(1));
    assert!(root.contains_accesskit_node_id(2));
}

#[test]
fn diff_keeps_tree_of_same_tag() {
    let mut tree = leaf(5);
    tree.set_accesskit_node_id(3);
    tree.diff(Tag::of::<u32>(), || State::new(0u32), |t: &mut Tree<u32>| {
        *t.state.downcast_mut() += 1;
    });
    assert_eq!(value_of(&tree), 6);
    assert_eq!(tree.accesskit_node_id(), Some(3));
}

#[test]
fn diff_recreates_tree_of_other_tag() {
    let mut tree: Tree<u32> = Tree::empty();
    tree.set_accesskit_node_id(3);
    tree.children.push(leaf(1));
    tree.diff(Tag::of::<u32>(), || State::new(40u32), |t: &mut Tree<u32>| {
        *t.state.downcast_mut() += 2;
    });
    assert_eq!(value_of(&tree), 42);
    assert!(tree.children.is_empty());
    assert_eq!(tree.accesskit_node_id(), None);
}

#[test]
fn diff_children_custom_fits_and_diffs() {
    let mut tree: Tree<u32> = Tree::empty();
    tree.children.push(leaf(1));
    let mut widgets = vec![10u32, 20, 30];
    tree.diff_children_custom(
        &mut widgets,
        |t: &mut Tree<u32>, w: &mut u32| {
            *t.state.downcast_mut() += *w;
        },
        |w: &u32| leaf(*w * 100),
    );
    assert_eq!(values(&tree.children), vec![11, 2020, 3030]);

    let mut fewer = vec![1u32];
    tree.diff_children_custom(
        &mut fewer,
        |t: &mut Tree<u32>, w: &mut u32| {
            *t.state.downcast_mut() += *w;
        },
        |w: &u32| leaf(*w),
    );
    assert_eq!(values(&tree.children), vec![12]);
}

#[test]
fn fit_children_keeps_existing_trees() {
    let mut tree: Tree<u32> = Tree::empty();
    tree.children.push(leaf(7));
    tree.fit_children(&[1u32, 2, 3], &|w: &u32| leaf(*w));
    assert_eq!(values(&tree.children), vec![7, 2, 3]);
    tree.fit_children(&[1u32, 2], &|w: &u32| leaf(*w));
    assert_eq!(values(&tree.children), vec![7, 2]);
}

fn trees(values: &[u32]) -> Vec<Tree<u32>> {
    values.iter().map(|v| leaf(*v)).collect()
}

#[test]
fn search_clears_for_no_widgets() {
    let mut current = trees(&[1, 2]);
    search_children(&mut current, &[] as &[u32], &|_i: usize| false, &|w: &u32| leaf(*w));
    assert!(current.is_empty());
}

#[test]
fn search_creates_all_for_no_trees() {
    let mut current: Vec<Tree<u32>> = Vec::new();
    search_children(&mut current, &[4u32, 5], &|_i: usize| false, &|w: &u32| leaf(*w));
    assert_eq!(values(&current), vec![4, 5]);
}

#[test]
fn search_truncates_when_the_end_changed() {
    let mut current = trees(&[1, 2, 3, 4]);
    search_children(&mut current, &[0u32, 0], &|i: usize| i == 3, &|w: &u32| leaf(*w));
    assert_eq!(values(&current), vec![1, 2]);
}

#[test]
fn search_removes_at_first_change() {
    let mut current = trees(&[1, 2, 3, 4, 5]);
    search_children(&mut current, &[0u32, 0, 0], &|i: usize| i == 1, &|w: &u32| leaf(*w));
    assert_eq!(values(&current), vec![1, 4, 5]);
}

#[test]
fn search_removes_at_front_when_first_changed() {
    let mut current = trees(&[1, 2, 3]);
    search_children(&mut current, &[0u32], &|i: usize| i == 0, &|w: &u32| leaf(*w));
    assert_eq!(values(&current), vec![3]);
}

#[test]
fn search_appends_when_the_end_changed() {
    let mut current = trees(&[1, 2]);
    search_children(&mut current, &[10u32, 20, 30, 40], &|i: usize| i == 1, &|w: &u32| leaf(*w));
    assert_eq!(values(&current), vec![1, 2, 30, 40]);
}

#[test]
fn search_inserts_at_first_change() {
    let mut current = trees(&[1, 2, 3]);
    search_children(&mut current, &[10u32, 20, 30, 40, 50], &|i: usize| i == 1, &|w: &u32| leaf(*w));
    assert_eq!(values(&current), vec![1, 20, 30, 2, 3]);
}

#[test]
fn search_keeps_trees_of_equal_count() {
    let mut current = trees(&[1, 2, 3]);
    search_children(&mut current, &[7u32, 8, 9], &|_i: usize| true, &|w: &u32| leaf(*w));
    assert_eq!(values(&current), vec![1, 2, 3]);
}

#[test]
fn diff_with_search_rearranges_then_diffs() {
    let mut current = trees(&[1, 2, 3]);
    let mut widgets = vec![100u32, 200, 300, 400];
    diff_children_custom_with_search(
        &mut current,
        &mut widgets,
        |t: &mut Tree<u32>, w: &mut u32| {
            *t.state.downcast_mut() += *w;
        },
        |i: usize| i == 0,
        |w: &u32| leaf(*w / 100),
    );
    assert_eq!(values(&current), vec![101, 201, 302, 403]);
}

struct Counter {
    tag_is_u32: bool,
    start: u32,
    diffs: u32,
}

impl Widget<u32> for Counter {
    fn tag(&self) -> Tag {
        if self.tag_is_u32 {
            Tag::of::<u32>()
        } else {
            Tag::stateless()
        }
    }

    fn state(&self) -> State<u32> {
        State::new(self.start)
    }

    fn diff(&mut self, tree: &mut Tree<u32>) {
        self.diffs += 1;
        if let State::Held(v) = &mut tree.state {
            *v += 1;
        }
    }

    fn accessibility(&self, _tree: &mut Tree<u32>, _nodes: &mut Vec<(u64, Node)>, _id_counter: &mut u64) -> Option<u64> {
        None
    }

    fn accessibility_action(&mut self, _tree: &mut Tree<u32>, _request: &ActionRequest) {}

    fn unfocus(&mut self, _tree: &mut Tree<u32>) {}

    fn overlay_accessibility(
        &mut self,
        _tree: &mut Tree<u32>,
        _nodes: &mut Vec<(u64, Node)>,
        _id_counter: &mut u64,
    ) -> Option<Option<u64>> {
        None
    }

    fn overlay_accessibility_action(&mut self, _tree: &mut Tree<u32>, _request: &ActionRequest) {}
}

#[test]
fn diff_widget_recreates_on_tag_change() {
    let mut tree: Tree<u32> = Tree::empty();
    let mut widget = Counter { tag_is_u32: true, start: 10, diffs: 0 };
    tree.diff_widget(&mut widget);
    assert_eq!(value_of(&tree), 11);
    tree.diff_widget(&mut widget);
    assert_eq!(value_of(&tree), 12);
    assert_eq!(widget.diffs, 2);
}

#[test]
fn diff_children_creates_from_widgets() {
    let mut tree: Tree<u32> = Tree::empty();
    let mut widgets = vec![
        Counter { tag_is_u32: true, start: 1, diffs: 0 },
        Counter { tag_is_u32: true, start: 5, diffs: 0 },
    ];
    tree.diff_children(&mut widgets);
    assert_eq!(values(&tree.children), vec![2, 6]);
    assert_eq!(widgets[0].diffs, 1);
    assert_eq!(widgets[1].diffs, 1);
}
