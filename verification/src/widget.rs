//! The widgets, as the state tree and the user interface see them.
use vstd::prelude::*;
use crate::node::{ActionRequest, Node};
use crate::tree::{State, Tag, Tree};

verus! {

/// A widget, as its state tree and a user interface drive it, with the
/// overlay it may open; the widgets of an application implement it.
pub trait Widget<S> {
    /// The tag of the widget's state.
    fn tag(&self) -> Tag;

    /// The initial state of the widget.
    fn state(&self) -> State<S>;

    /// Reconciles the widget's state tree with the widget.
    fn diff(&mut self, tree: &mut Tree<S>);

    /// Builds the accessibility nodes of the widget and its descendants,
    /// taking identifiers from `id_counter`, records in the tree the nodes
    /// and the focus of its widgets, and returns the identifier of its own
    /// node, if it produced one.
    fn accessibility(&self, tree: &mut Tree<S>, nodes: &mut Vec<(u64, Node)>, id_counter: &mut u64) -> Option<u64>;

    /// Handles an accessibility action request.
    fn accessibility_action(&mut self, tree: &mut Tree<S>, request: &ActionRequest);

    /// Takes keyboard focus away from the widget and its descendants, and
    /// from its overlay.
    fn unfocus(&mut self, tree: &mut Tree<S>);

    /// Builds the accessibility nodes of the overlay the widget opens, if it
    /// opens one (`None` otherwise), and returns the identifier of the
    /// overlay's root node, if it produced one.
    fn overlay_accessibility(
        &mut self,
        tree: &mut Tree<S>,
        nodes: &mut Vec<(u64, Node)>,
        id_counter: &mut u64,
    ) -> Option<Option<u64>>;

    /// Hands an accessibility action request to the overlay the widget
    /// opens, if it opens one.
    fn overlay_accessibility_action(&mut self, tree: &mut Tree<S>, request: &ActionRequest);
}

} // verus!
