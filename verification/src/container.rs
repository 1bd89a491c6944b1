//! The accessibility of containers, which align a widget inside their
//! boundaries.
use vstd::prelude::*;
use vstd::std_specs::convert::IntoSpec;
use crate::node::{next_id, Action, ActionRequest, Bounds, Node, Role};
use crate::tree::Tree;

verus! {

/// Whether two optional texts hold the same characters.
pub open spec fn same_text(a: Option<String>, b: Option<String>) -> bool {
    match (a, b) {
        (None, None) => true,
        (Some(x), Some(y)) => x@ == y@,
        _ => false,
    }
}

/// Copies an optional text.
pub fn copy_text(text: &Option<String>) -> (r: Option<String>)
    ensures
        same_text(r, *text),
{
    match text {
        Some(t) => Some(t.clone()),
        None => None,
    }
}

/// Whether `n` is the node of a container: a group when it has a label, a
/// generic container otherwise; with the content's node as its only child,
/// if the content produced one; able to take focus, itself and for its
/// children, when it is focusable; nothing else set.
pub open spec fn is_container_node(
    n: Node,
    child_id: Option<u64>,
    label: Option<String>,
    focusable: bool,
) -> bool {
    &&& n.role == if label is Some {
        Role::Group
    } else {
        Role::GenericContainer
    }
    &&& n.bounds is Widget
    &&& same_text(n.label, label)
    &&& n.children@ == match child_id {
        Some(c) => seq![c],
        None => Seq::<u64>::empty(),
    }
    &&& n.actions@ == if focusable {
        seq![Action::Focus]
    } else {
        Seq::<Action>::empty()
    }
    &&& n.child_actions@ == n.actions@
    &&& n.description is None
    &&& n.value is None
    &&& n.placeholder is None
    &&& n.controls@.len() == 0
    &&& !n.disabled
    &&& !n.read_only
    &&& !n.text_input_marked
    &&& !n.multiselectable
    &&& n.selected is None
    &&& n.expanded is None
    &&& n.has_popup is None
    &&& n.row_index is None
    &&& n.column_index is None
    &&& n.row_span is None
    &&& n.column_span is None
    &&& n.row_count is None
    &&& n.column_count is None
    &&& n.sort_direction is None
    &&& n.text_selection is None
    &&& n.character_lengths@.len() == 0
    &&& n.word_starts@.len() == 0
}

/// Builds the accessibility node of a container, after its content
/// produced `child_id`.
///
/// The container takes the next identifier, records it in its state tree,
/// and marks the tree focused when it is focusable and its focus state
/// (`is_focused`) says it has focus.
pub fn accessibility<S>(
    child_id: Option<u64>,
    accessible_label: &Option<String>,
    focusable: bool,
    is_focused: bool,
    tree: &mut Tree<S>,
    nodes: &mut Vec<(u64, Node)>,
    id_counter: &mut u64,
) -> (r: Option<u64>)
    requires
        *old(id_counter) < u64::MAX,
    ensures
        r == Some(*old(id_counter)),
        *final(id_counter) == *old(id_counter) + 1,
        final(nodes)@.len() == old(nodes)@.len() + 1,
        final(nodes)@.take(old(nodes)@.len() as int) == old(nodes)@,
        final(nodes)@.last().0 == *old(id_counter),
        is_container_node(final(nodes)@.last().1, child_id, *accessible_label, focusable),
        final(tree).accesskit_node_id == Some(*old(id_counter)),
        final(tree).accesskit_focused == (old(tree).accesskit_focused || (focusable && is_focused)),
        final(tree).tag == old(tree).tag,
        final(tree).state == old(tree).state,
        final(tree).children == old(tree).children,
{
    let id = next_id(id_counter);
    tree.set_accesskit_node_id(id);
    let role = if accessible_label.is_some() {
        Role::Group
    } else {
        Role::GenericContainer
    };
    let mut builder = Node::new(role);
    builder.bounds = Bounds::Widget;
    if let Some(child) = child_id {
        builder.children.push(child);
    }
    builder.label = copy_text(accessible_label);
    if focusable {
        builder.actions.push(Action::Focus);
        builder.child_actions.push(Action::Focus);
        if is_focused {
            tree.set_accesskit_focused(true);
        }
    }
    proof {
        assert(builder.children@ =~= match child_id {
            Some(c) => seq![c],
            None => Seq::<u64>::empty(),
        });
        assert(builder.actions@ =~= if focusable {
            seq![Action::Focus]
        } else {
            Seq::<Action>::empty()
        });
        assert(builder.child_actions@ =~= builder.actions@);
    }
    nodes.push((id, builder));
    proof {
        assert(nodes@.take(old(nodes)@.len() as int) =~= old(nodes)@);
    }
    Some(id)
}

/// What a container does with an action request.
#[derive(Debug, Clone, Copy, PartialEq, Eq, Structural)]
pub enum Dispatch {
    /// The container takes focus (and asks for a redraw).
    TakeFocus,
    /// The container ignores the request.
    Ignore,
    /// The request goes on to the container's content.
    Forward,
}

/// Decides what a container does with an action request: a focusable
/// container that owns the target handles it, taking focus on a focus
/// request and ignoring any other; otherwise the request is forwarded to
/// the content when the content's state tree contains the target (and the
/// content has a layout, `has_content_layout`).
pub fn accessibility_action<S>(
    focusable: bool,
    tree: &Tree<S>,
    has_content_layout: bool,
    request: &ActionRequest,
) -> (r: Dispatch)
    ensures
        r == if focusable && tree.has_node_id(request.target_node) {
            if request.action == Action::Focus {
                Dispatch::TakeFocus
            } else {
                Dispatch::Ignore
            }
        } else if tree.children@.len() > 0 && has_content_layout && tree.children@[0].has_node_id(
            request.target_node,
        ) {
            Dispatch::Forward
        } else {
            Dispatch::Ignore
        },
{
    if focusable && tree.owns_accesskit_node_id(request.target_node) {
        if request.action == Action::Focus {
            return Dispatch::TakeFocus;
        }
        return Dispatch::Ignore;
    }
    if tree.children.len() > 0 && has_content_layout {
        if !tree.children[0].contains_accesskit_node_id(request.target_node) {
            return Dispatch::Ignore;
        }
        return Dispatch::Forward;
    }
    Dispatch::Ignore
}

/// The theme catalog of a container: the style classes a theme offers.
pub trait Catalog {
    /// The item class of the [`Catalog`].
    type Class;

    /// The default class produced by the [`Catalog`].
    fn default() -> Self::Class;
}

/// The appearance of a container, over the types of its colors,
/// backgrounds, borders and shadows.
pub struct Style<Color, Background, Border, Shadow> {
    /// The text color of the container.
    pub text_color: Option<Color>,
    /// The background of the container.
    pub background: Option<Background>,
    /// The border of the container.
    pub border: Border,
    /// The shadow of the container.
    pub shadow: Shadow,
    /// Whether the container should be snapped to the pixel grid.
    pub snap: bool,
}

impl<Color, Background, Border, Shadow> Style<Color, Background, Border, Shadow> {
    /// Updates the text color of the [`Style`].
    pub fn color<C: Into<Color>>(self, color: C) -> (r: Self)
        ensures
            r.text_color is Some,
            <C as IntoSpec<Color>>::obeys_into_spec() ==> r.text_color == Some(color.into_spec()),
            r.background == self.background,
            r.border == self.border,
            r.shadow == self.shadow,
            r.snap == self.snap,
    {
        Style { text_color: Some(color.into()), ..self }
    }

    /// Updates the border of the [`Style`].
    pub fn border<B: Into<Border>>(self, border: B) -> (r: Self)
        ensures
            <B as IntoSpec<Border>>::obeys_into_spec() ==> r.border == border.into_spec(),
            r.text_color == self.text_color,
            r.background == self.background,
            r.shadow == self.shadow,
            r.snap == self.snap,
    {
        Style { border: border.into(), ..self }
    }

    /// Updates the background of the [`Style`].
    pub fn background<B: Into<Background>>(self, background: B) -> (r: Self)
        ensures
            r.background is Some,
            <B as IntoSpec<Background>>::obeys_into_spec() ==> r.background == Some(background.into_spec()),
            r.text_color == self.text_color,
            r.border == self.border,
            r.shadow == self.shadow,
            r.snap == self.snap,
    {
        Style { background: Some(background.into()), ..self }
    }

    /// Updates the shadow of the [`Style`].
    pub fn shadow<S: Into<Shadow>>(self, shadow: S) -> (r: Self)
        ensures
            <S as IntoSpec<Shadow>>::obeys_into_spec() ==> r.shadow == shadow.into_spec(),
            r.text_color == self.text_color,
            r.background == self.background,
            r.border == self.border,
            r.snap == self.snap,
    {
        Style { shadow: shadow.into(), ..self }
    }
}

} // verus!
