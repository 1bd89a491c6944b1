//! The accessibility of the content of a pane in a pane grid.
use vstd::prelude::*;
use vstd::string::StringExecFns;
use vstd::std_specs::convert::{FromSpec, IntoSpec};
use crate::container::{copy_text, same_text, Catalog};
use crate::node::{next_id, Node, Role};

verus! {

/// Whether `n` is the node that names a pane: a generic container holding
/// the pane's body, with the pane's label, and nothing else set.
pub open spec fn is_pane_node(n: Node, body: u64, label: Option<String>) -> bool {
    &&& n.role == Role::GenericContainer
    &&& n.bounds is Unset
    &&& n.children@ == seq![body]
    &&& same_text(n.label, label)
    &&& n.description is None
    &&& n.value is None
    &&& n.placeholder is None
    &&& n.controls@.len() == 0
    &&& n.actions@.len() == 0
    &&& n.child_actions@.len() == 0
    &&& !n.disabled
    &&& !n.read_only
    &&& !n.text_input_marked
    &&& !n.multiselectable
    &&& n.selected is None
    &&& n.expanded is None
    &&& n.has_popup is None
    &&& n.row_index is None
    &&& n.column_index is None
    &&& n.row_span is None
    &&& n.column_span is None
    &&& n.row_count is None
    &&& n.column_count is None
    &&& n.sort_direction is None
    &&& n.text_selection is None
    &&& n.character_lengths@.len() == 0
    &&& n.word_starts@.len() == 0
}

/// The content of a pane: its body, its title bar, if any, its style class
/// and the accessible label that names it.
pub struct Content<Body, TitleBar, Theme: Catalog> {
    /// The title bar, if any.
    pub title_bar: Option<TitleBar>,
    /// The body.
    pub body: Body,
    /// The style class.
    pub class: Theme::Class,
    /// The accessible label of the pane, if any.
    pub accessible_label: Option<String>,
}

impl<Body, TitleBar, Theme: Catalog> Content<Body, TitleBar, Theme> {
    /// Creates a new [`Content`] with the provided body, no title bar, the
    /// theme's default class and no label.
    pub fn new(body: Body) -> (r: Self)
        ensures
            r.body == body,
            r.title_bar is None,
            r.accessible_label is None,
    {
        Content { title_bar: None, body, class: Theme::default(), accessible_label: None }
    }

    /// Sets the title bar of the [`Content`].
    pub fn title_bar(self, title_bar: TitleBar) -> (r: Self)
        ensures
            r.title_bar == Some(title_bar),
            r.body == self.body,
            r.class == self.class,
            r.accessible_label == self.accessible_label,
    {
        Content { title_bar: Some(title_bar), ..self }
    }

    /// Sets the style of the [`Content`]: the style function, turned into a
    /// class of the theme.
    pub fn style<F>(self, style: F) -> (r: Self) where Theme::Class: From<F>
        ensures
            <Theme::Class as FromSpec<F>>::obeys_from_spec() ==> r.class == <Theme::Class as FromSpec<F>>::from_spec(style),
            r.title_bar == self.title_bar,
            r.body == self.body,
            r.accessible_label == self.accessible_label,
    {
        Content { class: Theme::Class::from(style), ..self }
    }

    /// Sets the style class of the [`Content`].
    pub fn class<C: Into<Theme::Class>>(self, class: C) -> (r: Self)
        ensures
            <C as IntoSpec<Theme::Class>>::obeys_into_spec() ==> r.class == class.into_spec(),
            r.title_bar == self.title_bar,
            r.body == self.body,
            r.accessible_label == self.accessible_label,
    {
        Content { class: class.into(), ..self }
    }

    /// Sets the accessible label of the pane, enabling screen readers to
    /// identify the pane by name.
    pub fn accessible_label(self, label: &str) -> (r: Self)
        ensures
            r.accessible_label matches Some(l) && l@ == label@,
            r.title_bar == self.title_bar,
            r.body == self.body,
            r.class == self.class,
    {
        Content { accessible_label: Some(String::from_str(label)), ..self }
    }

    /// Builds the accessibility node of the pane, after its body produced
    /// `body_id` (or none).
    ///
    /// Without a body node there is none for the pane. A labelled pane wraps
    /// its body in a labelled container, so that screen readers can tell
    /// panes apart by name; an unlabelled one is represented by its body.
    pub fn accessibility(&self, body_id: Option<u64>, nodes: &mut Vec<(u64, Node)>, id_counter: &mut u64) -> (r:
        Option<u64>)
        requires
            body_id is Some && self.accessible_label is Some ==> *old(id_counter) < u64::MAX,
        ensures
            (body_id is None || self.accessible_label is None) ==> r == body_id && *final(id_counter)
                == *old(id_counter) && final(nodes)@ == old(nodes)@,
            body_id matches Some(body) ==> self.accessible_label is Some ==> {
                &&& r == Some(*old(id_counter))
                &&& *final(id_counter) == *old(id_counter) + 1
                &&& final(nodes)@.len() == old(nodes)@.len() + 1
                &&& final(nodes)@.take(old(nodes)@.len() as int) == old(nodes)@
                &&& final(nodes)@.last().0 == *old(id_counter)
                &&& is_pane_node(final(nodes)@.last().1, body, self.accessible_label)
            },
    {
        let body = match body_id {
            Some(body) => body,
            None => {
                return None;
            },
        };
        if self.accessible_label.is_none() {
            return Some(body);
        }
        let id = next_id(id_counter);
        let mut builder = Node::new(Role::GenericContainer);
        builder.children.push(body);
        builder.label = copy_text(&self.accessible_label);
        proof {
            assert(builder.children@ =~= seq![body]);
        }
        nodes.push((id, builder));
        proof {
            assert(nodes@.take(old(nodes)@.len() as int) =~= old(nodes)@);
        }
        Some(id)
    }
}

} // verus!
