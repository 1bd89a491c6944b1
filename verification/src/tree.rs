//! Store internal widget state in a state tree to ensure continuity.
use vstd::prelude::*;
use crate::widget::Widget;

verus! {

#[verifier::external_type_specification]
#[verifier::external_body]
pub struct ExTypeId(std::any::TypeId);

/// Calls `std::any::TypeId::of`; nothing is claimed of the identifier it
/// returns besides its being a value of the type.
#[verifier::external_body]
fn type_id_of<T: ?Sized + 'static>() -> std::any::TypeId {
    std::any::TypeId::of::<T>()
}

/// Compares two identifiers with `<TypeId as PartialEq>::eq`, which compares
/// the identifiers' contents; the result is claimed to be their equality.
#[verifier::external_body]
fn type_id_eq(a: &std::any::TypeId, b: &std::any::TypeId) -> (r: bool)
    ensures
        r == (*a == *b),
{
    *a == *b
}

/// The identifier of some widget state.
#[derive(Debug, Clone, Copy, PartialOrd, Ord, PartialEq, Eq, Hash)]
pub struct Tag(std::any::TypeId);

impl Tag {
    /// Creates a [`Tag`] for a state of type `T`.
    pub fn of<T: 'static>() -> Self {
        Tag(type_id_of::<T>())
    }

    /// Creates a [`Tag`] for a stateless widget.
    pub fn stateless() -> Self {
        Self::of::<()>()
    }

    /// Returns whether both tags identify the same kind of state.
    pub fn same(&self, other: &Tag) -> (r: bool)
        ensures
            r == (*self == *other),
    {
        type_id_eq(&self.0, &other.0)
    }
}

/// The internal [`State`] of a widget.
pub enum State<S> {
    /// No meaningful internal state.
    Empty,
    /// Some meaningful internal state.
    Held(S),
}

impl<S> State<S> {
    /// Creates a new [`State`].
    pub fn new(state: S) -> (r: Self)
        ensures
            r == State::Held(state),
    {
        State::Held(state)
    }

    /// Returns a reference to the state held.
    pub fn downcast_ref(&self) -> (r: &S)
        requires
            self is Held,
        ensures
            *self == State::Held(*r),
    {
        match self {
            State::Held(s) => s,
            State::Empty => vstd::pervasive::unreached(),
        }
    }

    /// Returns a mutable reference to the state held.
    pub fn downcast_mut(&mut self) -> (r: &mut S)
        requires
            *old(self) is Held,
        ensures
            *old(self) == State::Held(*r),
            *final(self) == State::Held(*final(r)),
    {
        match self {
            State::Held(s) => s,
            State::Empty => vstd::pervasive::unreached(),
        }
    }
}

/// What the accessibility tree build recorded of one widget: whether it had
/// keyboard focus, and the node identifier it was assigned.
pub type Mark = (bool, Option<u64>);

/// A persistent state widget tree.
///
/// A [`Tree`] is normally associated with a specific widget in the widget tree.
pub struct Tree<S> {
    /// The tag of the [`Tree`].
    pub tag: Tag,
    /// The [`State`] of the [`Tree`].
    pub state: State<S>,
    /// The children of the root widget of the [`Tree`].
    pub children: Vec<Tree<S>>,
    /// The node identifier assigned to this widget during the last
    /// accessibility tree build, if any.
    pub accesskit_node_id: Option<u64>,
    /// Whether this widget had keyboard focus during the last accessibility
    /// tree build.
    pub accesskit_focused: bool,
}

/// The marks of a tree, its root first, then those of each child's subtree
/// in order (pre-order).
pub open spec fn marks<S>(t: Tree<S>) -> Seq<Mark>
    decreases t, 1int,
{
    seq![(t.accesskit_focused, t.accesskit_node_id)] + marks_of(t.children@)
}

/// The marks of a sequence of trees, one subtree after the other.
pub open spec fn marks_of<S>(ts: Seq<Tree<S>>) -> Seq<Mark>
    decreases ts, 0int,
{
    if ts.len() == 0 {
        Seq::empty()
    } else {
        marks_of(ts.drop_last()) + marks(ts.last())
    }
}

/// Whether some mark carries the node identifier `id`.
pub open spec fn holds_id(ms: Seq<Mark>, id: u64) -> bool {
    exists|k: int| 0 <= k < ms.len() && #[trigger] ms[k].1 == Some(id)
}

/// The marks of the first `i + 1` trees are those of the first `i`, then
/// those of tree `i`.
pub proof fn lemma_marks_of_take<S>(ts: Seq<Tree<S>>, i: int)
    requires
        0 <= i < ts.len(),
    ensures
        marks_of(ts.take(i + 1)) == marks_of(ts.take(i)) + marks(ts[i]),
{
    assert(ts.take(i + 1).drop_last() =~= ts.take(i));
    assert(ts.take(i + 1).last() == ts[i]);
}

/// An identifier held by the marks of some first trees is held by the marks
/// of them all.
pub proof fn lemma_holds_id_take<S>(ts: Seq<Tree<S>>, j: int, id: u64)
    requires
        0 <= j <= ts.len(),
        holds_id(marks_of(ts.take(j)), id),
    ensures
        holds_id(marks_of(ts), id),
    decreases ts.len() - j,
{
    if j == ts.len() {
        assert(ts.take(j) =~= ts);
    } else {
        lemma_marks_of_take(ts, j);
        lemma_holds_id_concat(marks_of(ts.take(j)), marks(ts[j]), id);
        lemma_holds_id_take(ts, j + 1, id);
    }
}

/// An identifier is held by a concatenation exactly when one of its parts
/// holds it.
pub proof fn lemma_holds_id_concat(a: Seq<Mark>, b: Seq<Mark>, id: u64)
    ensures
        holds_id(a + b, id) == (holds_id(a, id) || holds_id(b, id)),
{
    if holds_id(a + b, id) {
        let k = choose|k: int| 0 <= k < (a + b).len() && #[trigger] (a + b)[k].1 == Some(id);
        if k < a.len() {
            assert(a[k].1 == Some(id));
        } else {
            assert(b[k - a.len()].1 == Some(id));
        }
    }
    if holds_id(a, id) {
        let k = choose|k: int| 0 <= k < a.len() && #[trigger] a[k].1 == Some(id);
        assert((a + b)[k].1 == Some(id));
    }
    if holds_id(b, id) {
        let k = choose|k: int| 0 <= k < b.len() && #[trigger] b[k].1 == Some(id);
        assert((a + b)[k + a.len()].1 == Some(id));
    }
}

/// Whether some mark is focused.
pub open spec fn any_focused(ms: Seq<Mark>) -> bool {
    exists|k: int| 0 <= k < ms.len() && #[trigger] ms[k].0
}

/// The identifier that a focus search reports for a tree: a focused widget
/// reports its own identifier (which may be absent) without looking below
/// it; otherwise the first child subtree that reports one.
pub open spec fn focus_of<S>(t: Tree<S>) -> Option<u64>
    decreases t, 1int,
{
    if t.accesskit_focused {
        t.accesskit_node_id
    } else {
        focus_of_all(t.children@)
    }
}

/// The first identifier that the subtrees of a sequence report, in order.
pub open spec fn focus_of_all<S>(ts: Seq<Tree<S>>) -> Option<u64>
    decreases ts, 0int,
{
    if ts.len() == 0 {
        None
    } else {
        match focus_of_all(ts.drop_last()) {
            Some(id) => Some(id),
            None => focus_of(ts.last()),
        }
    }
}

/// Marks with their focus flag cleared.
pub open spec fn unfocused(ms: Seq<Mark>) -> Seq<Mark> {
    ms.map_values(|m: Mark| (false, m.1))
}

/// A reported focus identifier is one that the tree holds.
pub proof fn lemma_focus_is_held<S>(t: Tree<S>)
    ensures
        focus_of(t) matches Some(id) ==> holds_id(marks(t), id),
    decreases t, 1int,
{
    lemma_focus_all_is_held(t.children@);
    if let Some(id) = focus_of(t) {
        if t.accesskit_focused {
            assert(marks(t)[0].1 == Some(id));
        } else {
            lemma_holds_id_concat(seq![(t.accesskit_focused, t.accesskit_node_id)], marks_of(t.children@), id);
        }
    }
}

/// A reported focus identifier of a sequence is one that the sequence holds.
pub proof fn lemma_focus_all_is_held<S>(ts: Seq<Tree<S>>)
    ensures
        focus_of_all(ts) matches Some(id) ==> holds_id(marks_of(ts), id),
    decreases ts, 0int,
{
    if ts.len() > 0 {
        lemma_focus_all_is_held(ts.drop_last());
        lemma_focus_is_held(ts.last());
        if let Some(id) = focus_of_all(ts) {
            lemma_holds_id_concat(marks_of(ts.drop_last()), marks(ts.last()), id);
        }
    }
}

/// Without a focused widget, nothing is reported.
pub proof fn lemma_focus_needs_focused<S>(t: Tree<S>)
    ensures
        !any_focused(marks(t)) ==> focus_of(t) is None,
    decreases t, 1int,
{
    lemma_focus_all_needs_focused(t.children@);
    if !any_focused(marks(t)) {
        assert(!marks(t)[0].0);
        assert forall|k: int| 0 <= k < marks_of(t.children@).len() implies !(
        #[trigger] marks_of(t.children@)[k]).0 by {
            assert(marks(t)[k + 1] == marks_of(t.children@)[k]);
        }
    }
}

/// Without a focused widget in a sequence, nothing is reported.
pub proof fn lemma_focus_all_needs_focused<S>(ts: Seq<Tree<S>>)
    ensures
        !any_focused(marks_of(ts)) ==> focus_of_all(ts) is None,
    decreases ts, 0int,
{
    if ts.len() > 0 {
        lemma_focus_all_needs_focused(ts.drop_last());
        lemma_focus_needs_focused(ts.last());
        if !any_focused(marks_of(ts)) {
            let a = marks_of(ts.drop_last());
            let b = marks(ts.last());
            assert forall|k: int| 0 <= k < a.len() implies !(#[trigger] a[k]).0 by {
                assert((a + b)[k] == a[k]);
            }
            assert forall|k: int| 0 <= k < b.len() implies !(#[trigger] b[k]).0 by {
                assert((a + b)[k + a.len()] == b[k]);
            }
        }
    }
}

/// Clearing the focus flags of each tree of a sequence clears them in the
/// marks of the whole sequence.
pub proof fn lemma_unfocused_all<S>(a: Seq<Tree<S>>, b: Seq<Tree<S>>)
    requires
        a.len() == b.len(),
        forall|j: int| 0 <= j < a.len() ==> marks(#[trigger] a[j]) == unfocused(marks(b[j])),
    ensures
        marks_of(a) == unfocused(marks_of(b)),
    decreases a.len(),
{
    if a.len() > 0 {
        lemma_unfocused_all(a.drop_last(), b.drop_last());
        assert(marks(a.last()) == unfocused(marks(b.last())));
        assert(unfocused(marks_of(b.drop_last()) + marks(b.last())) =~= unfocused(
            marks_of(b.drop_last()),
        ) + unfocused(marks(b.last())));
    }
}

/// The focus that a tree reports is a node that one of its widgets was
/// assigned.
pub proof fn focus_is_a_node_of_the_tree<S>(t: Tree<S>)
    ensures
        focus_of(t) matches Some(id) ==> t.has_node_id(id),
{
    lemma_focus_is_held(t);
}

/// Resetting the focus flags of a tree leaves no focus to report, and keeps
/// every node identifier its widgets were assigned.
pub proof fn reset_clears_focus_and_keeps_nodes<S>(before: Tree<S>, after: Tree<S>)
    requires
        marks(after) == unfocused(marks(before)),
    ensures
        focus_of(after) is None,
        forall|id: u64| after.has_node_id(id) == before.has_node_id(id),
{
    let ms = marks(before);
    assert forall|k: int| 0 <= k < marks(after).len() implies !(#[trigger] marks(after)[k]).0 by {}
    lemma_focus_needs_focused(after);
    assert forall|id: u64| after.has_node_id(id) == before.has_node_id(id) by {
        if before.has_node_id(id) {
            let k = choose|k: int| 0 <= k < ms.len() && #[trigger] ms[k].1 == Some(id);
            assert(marks(after)[k].1 == Some(id));
        }
        if after.has_node_id(id) {
            let k = choose|k: int| 0 <= k < marks(after).len() && #[trigger] marks(after)[k].1 == Some(id);
            assert(ms[k].1 == Some(id));
        }
    }
}

/// Recursively walks the widget [`Tree`] to find the first widget that has
/// keyboard focus, returning its node identifier.
pub fn find_focused_node_id<S>(tree: &Tree<S>) -> (r: Option<u64>)
    ensures
        r == focus_of(*tree),
    decreases tree,
{
    if tree.accesskit_focused() {
        return tree.accesskit_node_id();
    }
    let n = tree.children.len();
    let mut i: usize = 0;
    assert(tree.children@.take(0) =~= Seq::<Tree<S>>::empty());
    while i < n
        invariant
            n == tree.children@.len(),
            i <= n,
            !tree.accesskit_focused,
            focus_of_all(tree.children@.take(i as int)) is None,
        decreases n - i,
    {
        let found = find_focused_node_id(&tree.children[i]);
        proof {
            let ts = tree.children@.take(i as int + 1);
            assert(ts.drop_last() =~= tree.children@.take(i as int));
            assert(ts.last() == tree.children@[i as int]);
        }
        if let Some(id) = found {
            proof {
                lemma_focus_all_prefix(tree.children@, i as int + 1);
            }
            return Some(id);
        }
        i += 1;
    }
    assert(tree.children@.take(n as int) =~= tree.children@);
    None
}

/// Once some first trees report an identifier, the whole sequence reports it.
pub proof fn lemma_focus_all_prefix<S>(ts: Seq<Tree<S>>, j: int)
    requires
        0 <= j <= ts.len(),
        focus_of_all(ts.take(j)) is Some,
    ensures
        focus_of_all(ts) == focus_of_all(ts.take(j)),
    decreases ts.len() - j,
{
    if j == ts.len() {
        assert(ts.take(j) =~= ts);
    } else {
        let t1 = ts.take(j + 1);
        assert(t1.drop_last() =~= ts.take(j));
        lemma_focus_all_prefix(ts, j + 1);
    }
}

/// Whether `after` is `before` with every focus flag cleared: the same
/// tags, states and node identifiers, in the same shape.
pub open spec fn unfocused_tree<S>(before: Tree<S>, after: Tree<S>) -> bool
    decreases before,
{
    &&& after.tag == before.tag
    &&& after.state == before.state
    &&& after.accesskit_node_id == before.accesskit_node_id
    &&& !after.accesskit_focused
    &&& after.children@.len() == before.children@.len()
    &&& forall|i: int|
        0 <= i < before.children@.len() ==> #[trigger] unfocused_tree(before.children@[i], after.children@[i])
}

/// Resets the focus flag on every widget of the tree.
///
/// This is done before each accessibility tree build so that focus flags
/// from the previous frame don't persist.
pub fn reset_accesskit_focus<S>(tree: &mut Tree<S>)
    ensures
        marks(*final(tree)) == unfocused(marks(*old(tree))),
        unfocused_tree(*old(tree), *final(tree)),
    decreases *old(tree),
{
    tree.set_accesskit_focused(false);
    let ghost before = tree.children@;
    let n = tree.children.len();
    let mut i: usize = 0;
    while i < n
        invariant
            n == tree.children@.len(),
            n == before.len(),
            i <= n,
            forall|j: int| 0 <= j < i ==> marks(#[trigger] tree.children@[j]) == unfocused(marks(before[j])),
            forall|j: int| 0 <= j < i ==> unfocused_tree(before[j], #[trigger] tree.children@[j]),
            forall|j: int| i <= j < n ==> #[trigger] tree.children@[j] == before[j],
            forall|j: int| 0 <= j < n ==> decreases_to!(*old(tree) => #[trigger] before[j]),
            tree.tag == old(tree).tag,
            tree.state == old(tree).state,
            tree.accesskit_node_id == old(tree).accesskit_node_id,
            !tree.accesskit_focused,
        decreases n - i,
    {
        let ghost prev = tree.children@;
        reset_accesskit_focus(&mut tree.children[i]);
        assert forall|j: int| 0 <= j < i + 1 implies unfocused_tree(before[j], #[trigger] tree.children@[j]) by {
            if j < i {
                assert(tree.children@[j] == prev[j]);
            }
        }
        i += 1;
    }
    proof {
        assert forall|j: int| 0 <= j < n implies #[trigger] unfocused_tree(before[j], tree.children@[j]) by {}
        lemma_unfocused_all(tree.children@, before);
        let head = seq![(false, tree.accesskit_node_id)];
        assert(unfocused(seq![(old(tree).accesskit_focused, old(tree).accesskit_node_id)] + marks_of(before))
            =~= head + unfocused(marks_of(before)));
    }
}

/// Whether `new_state` may create `tree` for the widget `widget`.
pub open spec fn created<S, T, N: Fn(&T) -> Tree<S>>(new_state: N, widget: T, tree: Tree<S>) -> bool {
    new_state.ensures((&widget,), tree)
}

/// Whether `i` is a position among `len` items.
pub open spec fn is_position(i: int, len: int) -> bool {
    0 <= i < len
}

/// Diffs each tree against the widget at the same position, in order.
fn diff_pairs<S, T, D: Fn(&mut Tree<S>, &mut T)>(trees: &mut Vec<Tree<S>>, widgets: &mut [T], diff: &D)
    requires
        old(trees)@.len() == old(widgets)@.len(),
        forall|a: &mut Tree<S>, b: &mut T| diff.requires((a, b)),
    ensures
        final(trees)@.len() == old(trees)@.len(),
        final(widgets)@.len() == old(widgets)@.len(),
        forall|i: int|
            #![trigger is_position(i, old(trees)@.len() as int)]
            is_position(i, old(trees)@.len() as int) ==> exists|t: &mut Tree<S>, w: &mut T|
                {
                    &&& *t == old(trees)@[i]
                    &&& *w == old(widgets)@[i]
                    &&& *final(t) == final(trees)@[i]
                    &&& *final(w) == final(widgets)@[i]
                    &&& diff.ensures((t, w), ())
                },
{
    let n = trees.len();
    let mut i: usize = 0;
    while i < n
        invariant
            n == trees@.len(),
            n == widgets@.len(),
            n == old(trees)@.len(),
            i <= n,
            forall|a: &mut Tree<S>, b: &mut T| diff.requires((a, b)),
            forall|j: int| i <= j < n ==> #[trigger] trees@[j] == old(trees)@[j],
            forall|j: int| i <= j < n ==> #[trigger] widgets@[j] == old(widgets)@[j],
            forall|j: int|
                #![trigger is_position(j, i as int)]
                is_position(j, i as int) ==> exists|t: &mut Tree<S>, w: &mut T|
                    {
                        &&& *t == old(trees)@[j]
                        &&& *w == old(widgets)@[j]
                        &&& *final(t) == trees@[j]
                        &&& *final(w) == widgets@[j]
                        &&& diff.ensures((t, w), ())
                    },
        decreases n - i,
    {
        let ghost trees_before = trees@;
        let ghost widgets_before = widgets@;
        diff(&mut trees[i], &mut widgets[i]);
        assert(exists|t: &mut Tree<S>, w: &mut T|
            {
                &&& *t == old(trees)@[i as int]
                &&& *w == old(widgets)@[i as int]
                &&& *final(t) == trees@[i as int]
                &&& *final(w) == widgets@[i as int]
                &&& diff.ensures((t, w), ())
            });
        let ghost i0 = i;
        i += 1;
        assert forall|j: int|
            #![trigger is_position(j, i as int)]
            is_position(j, i as int) implies exists|t: &mut Tree<S>, w: &mut T|
                {
                    &&& *t == old(trees)@[j]
                    &&& *w == old(widgets)@[j]
                    &&& *final(t) == trees@[j]
                    &&& *final(w) == widgets@[j]
                    &&& diff.ensures((t, w), ())
                } by {
            if j < i0 {
                assert(is_position(j, i0 as int));
                assert(trees@[j] == trees_before[j]);
                assert(widgets@[j] == widgets_before[j]);
            }
        }
    }
    assert forall|j: int|
        #![trigger is_position(j, n as int)]
        is_position(j, n as int) implies exists|t: &mut Tree<S>, w: &mut T|
            {
                &&& *t == old(trees)@[j]
                &&& *w == old(widgets)@[j]
                &&& *final(t) == trees@[j]
                &&& *final(w) == widgets@[j]
                &&& diff.ensures((t, w), ())
            } by {
        assert(is_position(j, n as int));
    }
}

/// Whether `answer` is an answer that `maybe_changed` gives for the child
/// at `i`, which tells whether it may have changed.
pub open spec fn answered<F: Fn(usize) -> bool>(maybe_changed: F, i: int, answer: bool) -> bool {
    maybe_changed.ensures((i as usize,), answer)
}

/// Whether `d` is where children are removed or inserted among `count`
/// current ones, the first child having answered `first_changed`: the front
/// when the first child may have changed; else the first child after it that
/// answered that it may have, each one between having answered that it did
/// not; else, when every child after the first answered that it did not, the
/// front.
pub open spec fn is_difference_index<F: Fn(usize) -> bool>(
    maybe_changed: F,
    first_changed: bool,
    count: int,
    d: int,
) -> bool {
    if first_changed {
        d == 0
    } else {
        &&& d == 0 || (1 <= d < count && answered(maybe_changed, d, true))
        &&& forall|k: int|
            1 <= k < (if d == 0 {
                count
            } else {
                d
            }) ==> #[trigger] answered(maybe_changed, k, false)
    }
}

/// Whether the trees `r` are the current trees `cur` fitted to the widgets
/// `new` at the end: the surplus dropped, or the missing ones created for
/// the last widgets.
pub open spec fn fitted_at_end<S, T, N: Fn(&T) -> Tree<S>>(cur: Seq<Tree<S>>, new: Seq<T>, new_state: N, r: Seq<Tree<S>>) -> bool {
    let c = cur.len() as int;
    let m = new.len() as int;
    &&& r.len() == m
    &&& forall|i: int| 0 <= i < m && i < c ==> #[trigger] r[i] == cur[i]
    &&& forall|i: int| c <= i < m ==> created(new_state, new[i], #[trigger] r[i])
}

/// Whether the trees `r` are the current trees `cur` fitted to the widgets
/// `new` at `d`: the surplus dropped from `d` on, or the missing ones
/// created for the widgets from `d` on, the others kept in order.
pub open spec fn fitted_at<S, T, N: Fn(&T) -> Tree<S>>(cur: Seq<Tree<S>>, new: Seq<T>, new_state: N, d: int, r: Seq<Tree<S>>) -> bool {
    let c = cur.len() as int;
    let m = new.len() as int;
    if c > m {
        r == cur.take(d) + cur.skip(d + c - m)
    } else {
        &&& r.len() == m
        &&& r.take(d) == cur.take(d)
        &&& r.skip(d + m - c) == cur.skip(d)
        &&& forall|i: int| d <= i < d + m - c ==> created(new_state, new[i], #[trigger] r[i])
    }
}

/// Whether the trees `r` are made, for the widgets `new`, of the current
/// trees `cur`, as the answers of `maybe_changed` decide: all of them
/// dropped when there is no widget; one created for each widget when there
/// is no tree; kept when there are as many; else, when the first child
/// answered that it did not change and the last that it may have, fitted at
/// the end; otherwise fitted at the difference index.
pub open spec fn searched<S, T, F: Fn(usize) -> bool, N: Fn(&T) -> Tree<S>>(
    cur: Seq<Tree<S>>,
    new: Seq<T>,
    maybe_changed: F,
    new_state: N,
    r: Seq<Tree<S>>,
) -> bool {
    let c = cur.len() as int;
    let m = new.len() as int;
    if m == 0 {
        r.len() == 0
    } else if c == 0 {
        &&& r.len() == m
        &&& forall|i: int| 0 <= i < m ==> created(new_state, new[i], #[trigger] r[i])
    } else if c == m {
        r == cur
    } else {
        ||| {
            &&& answered(maybe_changed, 0, false)
            &&& answered(maybe_changed, c - 1, true)
            &&& fitted_at_end(cur, new, new_state, r)
        }
        ||| exists|first: bool, last: bool, d: int|
            #![trigger is_difference_index(maybe_changed, first, c, d), answered(maybe_changed, c - 1, last)]
            {
                &&& answered(maybe_changed, 0, first)
                &&& answered(maybe_changed, c - 1, last)
                &&& (first || !last)
                &&& is_difference_index(maybe_changed, first, c, d)
                &&& fitted_at(cur, new, new_state, d, r)
            }
    }
}

/// Whether surplus children can be removed at every difference index that
/// the answers of `maybe_changed` may give: with fewer widgets than the
/// `count` current children, no such index lies past `new_count`.
pub open spec fn search_fits<F: Fn(usize) -> bool>(maybe_changed: F, count: int, new_count: int) -> bool {
    forall|first: bool, last: bool, d: int|
        #![trigger is_difference_index(maybe_changed, first, count, d), answered(maybe_changed, count - 1, last)]
        0 < new_count < count && answered(maybe_changed, 0, first) && answered(maybe_changed, count - 1, last)
            && (first || !last) && is_difference_index(maybe_changed, first, count, d) ==> d <= new_count
}

/// Whether `maybe_changed` gives one answer for each index.
pub open spec fn answers_once<F: Fn(usize) -> bool>(maybe_changed: F) -> bool {
    forall|i: int, a: bool, b: bool|
        #![trigger answered(maybe_changed, i, a), answered(maybe_changed, i, b)]
        answered(maybe_changed, i, a) && answered(maybe_changed, i, b) ==> a == b
}

/// When the first child did not change, children are removed or inserted
/// at the first index from 1 on whose child answered that it may have
/// changed: every child between answered that it did not, and none of them
/// could have answered otherwise when `maybe_changed` answers once per
/// index; at the front when no child after the first may have changed.
pub proof fn difference_index_is_the_first_change<F: Fn(usize) -> bool>(maybe_changed: F, count: int, d: int)
    requires
        is_difference_index(maybe_changed, false, count, d),
    ensures
        0 <= d,
        d > 0 ==> d < count && maybe_changed.ensures((d as usize,), true),
        forall|k: int|
            1 <= k < (if d == 0 {
                count
            } else {
                d
            }) ==> #[trigger] maybe_changed.ensures((k as usize,), false),
        answers_once(maybe_changed) ==> forall|k: int|
            1 <= k < (if d == 0 {
                count
            } else {
                d
            }) ==> !#[trigger] maybe_changed.ensures((k as usize,), true),
{
    if answers_once(maybe_changed) {
        assert forall|k: int|
            1 <= k < (if d == 0 {
                count
            } else {
                d
            }) implies !#[trigger] maybe_changed.ensures((k as usize,), true) by {
            assert(answered(maybe_changed, k, false));
            if maybe_changed.ensures((k as usize,), true) {
                assert(answered(maybe_changed, k, true));
            }
        }
    }
    assert forall|k: int|
        1 <= k < (if d == 0 {
            count
        } else {
            d
        }) implies #[trigger] maybe_changed.ensures((k as usize,), false) by {
        assert(answered(maybe_changed, k, false));
    }
}

/// When `maybe_changed` answers once per index, the first child did not
/// change and neither did the last, and the first child from 1 on that
/// changed is at `k` (no later than the number of widgets when there are
/// fewer widgets than trees): with fewer widgets, the surplus trees are
/// removed from `k` on; with more, the new trees are inserted at `k`; the
/// trees before `k` and after the removed or inserted ones stay in order.
pub proof fn search_changes_at_the_first_change<S, T, F: Fn(usize) -> bool, N: Fn(&T) -> Tree<S>>(
    cur: Seq<Tree<S>>,
    new: Seq<T>,
    maybe_changed: F,
    new_state: N,
    r: Seq<Tree<S>>,
    k: int,
)
    requires
        searched(cur, new, maybe_changed, new_state, r),
        answers_once(maybe_changed),
        cur.len() > 0,
        new.len() > 0,
        cur.len() != new.len(),
        maybe_changed.ensures((0usize,), false),
        maybe_changed.ensures(((cur.len() - 1) as usize,), false),
        1 <= k < cur.len(),
        maybe_changed.ensures((k as usize,), true),
        forall|j: int| 1 <= j < k ==> #[trigger] maybe_changed.ensures((j as usize,), false),
    ensures
        cur.len() > new.len() ==> r == cur.take(k) + cur.skip(k + cur.len() - new.len()),
        cur.len() < new.len() ==> {
            &&& r.len() == new.len()
            &&& r.take(k) == cur.take(k)
            &&& r.skip(k + new.len() - cur.len()) == cur.skip(k)
        },
{
    let c = cur.len() as int;
    assert(answered(maybe_changed, 0, false));
    assert(answered(maybe_changed, c - 1, false));
    assert(answered(maybe_changed, k, true));
    if answered(maybe_changed, c - 1, true) {
        assert(false);
    }
    let (first, last, d) = choose|first: bool, last: bool, d: int|
        #![trigger is_difference_index(maybe_changed, first, c, d), answered(maybe_changed, c - 1, last)]
        {
            &&& answered(maybe_changed, 0, first)
            &&& answered(maybe_changed, c - 1, last)
            &&& (first || !last)
            &&& is_difference_index(maybe_changed, first, c, d)
            &&& fitted_at(cur, new, new_state, d, r)
        };
    assert(first == false);
    if d == 0 {
        assert(answered(maybe_changed, k, false));
        assert(false);
    } else if d < k {
        assert(answered(maybe_changed, d, false));
        assert(false);
    } else if d > k {
        assert(answered(maybe_changed, k, false));
        assert(false);
    }
}

/// Asks `maybe_changed` about the child at `i`.
fn ask<F: Fn(usize) -> bool>(maybe_changed: &F, i: usize) -> (r: bool)
    requires
        maybe_changed.requires((i,)),
    ensures
        answered(*maybe_changed, i as int, r),
{
    maybe_changed(i)
}

/// Finds the difference index of `count` current children, the first child
/// having answered `first_changed` (see [`is_difference_index`]).
fn find_difference_index<F: Fn(usize) -> bool>(maybe_changed: &F, first_changed: bool, count: usize) -> (r: usize)
    requires
        count > 0,
        forall|i: usize| i < count ==> maybe_changed.requires((i,)),
    ensures
        is_difference_index(*maybe_changed, first_changed, count as int, r as int),
        r < count,
{
    if first_changed {
        return 0;
    }
    let mut i: usize = 1;
    while i < count
        invariant
            1 <= i <= count,
            !first_changed,
            forall|k: usize| k < count ==> maybe_changed.requires((k,)),
            forall|k: int| 1 <= k < i ==> #[trigger] answered(*maybe_changed, k, false),
        decreases count - i,
    {
        let changed = ask(maybe_changed, i);
        if changed {
            assert(answered(*maybe_changed, i as int, true));
            return i;
        }
        i += 1;
    }
    0
}

/// Creates a tree with `new_state` for each widget of `widgets` from `from`
/// to `to`, and pushes them onto `trees`.
fn push_created<S, T, N: Fn(&T) -> Tree<S>>(trees: &mut Vec<Tree<S>>, widgets: &[T], from: usize, to: usize, new_state: &N)
    requires
        from <= to <= widgets@.len(),
        forall|w: &T| new_state.requires((w,)),
    ensures
        final(trees)@.len() == old(trees)@.len() + (to - from),
        final(trees)@.take(old(trees)@.len() as int) == old(trees)@,
        forall|i: int|
            0 <= i < to - from ==> created(
                *new_state,
                widgets@[from + i],
                #[trigger] final(trees)@[old(trees)@.len() + i],
            ),
{
    let ghost start = trees@;
    let mut k = from;
    while k < to
        invariant
            from <= k <= to <= widgets@.len(),
            forall|w: &T| new_state.requires((w,)),
            trees@.len() == start.len() + (k - from),
            trees@.take(start.len() as int) == start,
            forall|i: int|
                0 <= i < k - from ==> created(*new_state, widgets@[from + i], #[trigger] trees@[start.len() + i]),
        decreases to - k,
    {
        let fresh = new_state(&widgets[k]);
        let ghost prev = trees@;
        trees.push(fresh);
        assert(trees@.take(start.len() as int) =~= prev.take(start.len() as int));
        assert forall|i: int| 0 <= i < k + 1 - from implies created(
            *new_state,
            widgets@[from + i],
            #[trigger] trees@[start.len() + i],
        ) by {
            if i < k - from {
                assert(trees@[start.len() + i] == prev[start.len() + i]);
            }
        }
        k += 1;
    }
}

/// Rearranges the trees `current` for the widgets `new_children`, asking
/// `maybe_changed` where children were removed or inserted so as to keep
/// as many trees as possible with the widgets they belong to (see
/// [`searched`]). Missing trees are created with `new_state`.
pub fn search_children<S, T, F: Fn(usize) -> bool, N: Fn(&T) -> Tree<S>>(
    current: &mut Vec<Tree<S>>,
    new_children: &[T],
    maybe_changed: &F,
    new_state: &N,
)
    requires
        forall|i: usize| i < old(current)@.len() ==> maybe_changed.requires((i,)),
        forall|w: &T| new_state.requires((w,)),
        search_fits(*maybe_changed, old(current)@.len() as int, new_children@.len() as int),
    ensures
        searched(old(current)@, new_children@, *maybe_changed, *new_state, final(current)@),
        final(current)@.len() == new_children@.len(),
{
    let ghost cur = current@;
    let m = new_children.len();
    if m == 0 {
        current.clear();
        return;
    }
    let c = current.len();
    if c == 0 {
        push_created(current, new_children, 0, m, new_state);
        assert forall|i: int| 0 <= i < m implies created(*new_state, new_children@[i], #[trigger] current@[i]) by {
            assert(current@[0 + i] == current@[i]);
        }
        return;
    }
    let first_changed = ask(maybe_changed, 0);
    let last_changed = ask(maybe_changed, c - 1);
    if c > m {
        if !first_changed && last_changed {
            current.truncate(m);
            assert(fitted_at_end(cur, new_children@, *new_state, current@));
        } else {
            let d = find_difference_index(maybe_changed, first_changed, c);
            assert(d <= m) by {
                assert(is_difference_index(*maybe_changed, first_changed, c as int, d as int));
                assert(answered(*maybe_changed, c - 1, last_changed));
            }
            let mut tail = current.split_off(d + (c - m));
            current.truncate(d);
            current.append(&mut tail);
            assert(current@ =~= cur.take(d as int) + cur.skip(d + c - m));
            assert(is_difference_index(*maybe_changed, first_changed, c as int, d as int));
            assert(answered(*maybe_changed, c - 1, last_changed));
            assert(fitted_at(cur, new_children@, *new_state, d as int, current@));
        }
    } else if c < m {
        let first_changed = ask(maybe_changed, 0);
        let last_changed = ask(maybe_changed, c - 1);
        if !first_changed && last_changed {
            push_created(current, new_children, c, m, new_state);
            assert forall|i: int| c <= i < m implies created(*new_state, new_children@[i], #[trigger] current@[i]) by {
                assert(current@[c + (i - c)] == current@[i]);
            }
            assert forall|i: int| 0 <= i < m && i < c implies #[trigger] current@[i] == cur[i] by {
                assert(current@.take(c as int)[i] == current@[i]);
            }
            assert(fitted_at_end(cur, new_children@, *new_state, current@));
        } else {
            let d = find_difference_index(maybe_changed, first_changed, c);
            let mut tail = current.split_off(d);
            push_created(current, new_children, d, d + (m - c), new_state);
            let ghost middle = current@;
            current.append(&mut tail);
            assert(current@.take(d as int) =~= cur.take(d as int));
            assert(current@.skip(d + m - c) =~= cur.skip(d as int));
            assert forall|i: int| d <= i < d + m - c implies created(
                *new_state,
                new_children@[i],
                #[trigger] current@[i],
            ) by {
                assert(current@[i] == middle[d + (i - d)]);
            }
            assert(is_difference_index(*maybe_changed, first_changed, c as int, d as int));
            assert(answered(*maybe_changed, c - 1, last_changed));
            assert(fitted_at(cur, new_children@, *new_state, d as int, current@));
        }
    }
}

/// Reconciles the `current_children` with the provided list of widgets
/// using custom logic both for diffing and creating new widget state.
///
/// The algorithm tries to minimize the impact of diffing by querying the
/// `maybe_changed` closure: the trees are first rearranged (see
/// [`search_children`]), then each is diffed against its widget.
pub fn diff_children_custom_with_search<S, T, D: Fn(&mut Tree<S>, &mut T), F: Fn(usize) -> bool, N: Fn(&T) -> Tree<S>>(
    current_children: &mut Vec<Tree<S>>,
    new_children: &mut [T],
    diff: D,
    maybe_changed: F,
    new_state: N,
)
    requires
        forall|a: &mut Tree<S>, b: &mut T| diff.requires((a, b)),
        forall|i: usize| i < old(current_children)@.len() ==> maybe_changed.requires((i,)),
        forall|w: &T| new_state.requires((w,)),
        search_fits(maybe_changed, old(current_children)@.len() as int, old(new_children)@.len() as int),
    ensures
        final(current_children)@.len() == old(new_children)@.len(),
        final(new_children)@.len() == old(new_children)@.len(),
        exists|r: Seq<Tree<S>>|
            #![trigger searched(old(current_children)@, old(new_children)@, maybe_changed, new_state, r)]
            {
                &&& searched(old(current_children)@, old(new_children)@, maybe_changed, new_state, r)
                &&& r.len() == old(new_children)@.len()
                &&& forall|i: int|
                    #![trigger is_position(i, r.len() as int)]
                    is_position(i, r.len() as int) ==> exists|t: &mut Tree<S>, w: &mut T|
                        {
                            &&& *t == r[i]
                            &&& *w == old(new_children)@[i]
                            &&& *final(t) == final(current_children)@[i]
                            &&& *final(w) == final(new_children)@[i]
                            &&& diff.ensures((t, w), ())
                        }
            },
{
    search_children(current_children, new_children, &maybe_changed, &new_state);
    let ghost r = current_children@;
    assert(searched(old(current_children)@, old(new_children)@, maybe_changed, new_state, r));
    diff_pairs(current_children, new_children, &diff);
    assert forall|i: int|
        #![trigger is_position(i, r.len() as int)]
        is_position(i, r.len() as int) implies exists|t: &mut Tree<S>, w: &mut T|
            {
                &&& *t == r[i]
                &&& *w == old(new_children)@[i]
                &&& *final(t) == current_children@[i]
                &&& *final(w) == new_children@[i]
                &&& diff.ensures((t, w), ())
            } by {
        assert(is_position(i, r.len() as int));
    }
}

/// Diffs `tree` with `widget` (see [`Tree::diff_widget`]).
fn diff_one<S, W: Widget<S>>(tree: &mut Tree<S>, widget: &mut W)
    ensures
        exists|t: &mut Tree<S>, w: &mut W|
            {
                &&& *t == *old(tree)
                &&& *w == *old(widget)
                &&& *final(t) == *final(tree)
                &&& *final(w) == *final(widget)
                &&& call_ensures(Tree::diff_widget, (t, w), ())
            },
{
    tree.diff_widget(widget)
}

/// Creates a tree from the tag and the initial state of `widget`.
fn new_tree_for<S, W: Widget<S>>(widget: &W) -> (r: Tree<S>)
    ensures
        call_ensures(W::tag, (widget,), r.tag),
        call_ensures(W::state, (widget,), r.state),
        r.children@.len() == 0,
        r.accesskit_node_id is None,
        !r.accesskit_focused,
{
    Tree::new(widget.tag(), widget.state())
}

impl<S> Tree<S> {
    /// Whether this tree, or one of its descendants, was assigned `id`.
    pub open spec fn has_node_id(self, id: u64) -> bool {
        holds_id(marks(self), id)
    }

    /// Creates an empty, stateless [`Tree`] with no children.
    pub fn empty() -> (r: Self)
        ensures
            r.state is Empty,
            r.children@.len() == 0,
            r.accesskit_node_id is None,
            !r.accesskit_focused,
    {
        Tree {
            tag: Tag::stateless(),
            state: State::Empty,
            children: Vec::new(),
            accesskit_node_id: None,
            accesskit_focused: false,
        }
    }

    /// Creates a new [`Tree`] for a widget of the given [`Tag`] and initial
    /// [`State`].
    pub fn new(tag: Tag, state: State<S>) -> (r: Self)
        ensures
            r.tag == tag,
            r.state == state,
            r.children@.len() == 0,
            r.accesskit_node_id is None,
            !r.accesskit_focused,
    {
        Tree { tag, state, children: Vec::new(), accesskit_node_id: None, accesskit_focused: false }
    }

    /// Sets the node identifier assigned to this widget.
    pub fn set_accesskit_node_id(&mut self, id: u64)
        ensures
            final(self).accesskit_node_id == Some(id),
            final(self).tag == old(self).tag,
            final(self).state == old(self).state,
            final(self).children == old(self).children,
            final(self).accesskit_focused == old(self).accesskit_focused,
    {
        self.accesskit_node_id = Some(id);
    }

    /// Returns the node identifier assigned to this widget, if any.
    pub fn accesskit_node_id(&self) -> (r: Option<u64>)
        ensures
            r == self.accesskit_node_id,
    {
        self.accesskit_node_id
    }

    /// Returns whether this tree, or any of its children, contains the
    /// provided node identifier.
    pub fn contains_accesskit_node_id(&self, id: u64) -> (r: bool)
        ensures
            r == self.has_node_id(id),
        decreases self,
    {
        proof {
            lemma_holds_id_concat(
                seq![(self.accesskit_focused, self.accesskit_node_id)],
                marks_of(self.children@),
                id,
            );
        }
        if let Some(own) = self.accesskit_node_id {
            if own == id {
                assert(marks(*self)[0].1 == Some(id));
                return true;
            }
        }
        assert(!holds_id(seq![(self.accesskit_focused, self.accesskit_node_id)], id));
        let n = self.children.len();
        let mut i: usize = 0;
        assert(self.children@.take(0) =~= Seq::<Tree<S>>::empty());
        while i < n
            invariant
                n == self.children@.len(),
                i <= n,
                !holds_id(marks_of(self.children@.take(i as int)), id),
                holds_id(marks(*self), id) == holds_id(marks_of(self.children@), id),
            decreases n - i,
        {
            proof {
                lemma_marks_of_take(self.children@, i as int);
                lemma_holds_id_concat(
                    marks_of(self.children@.take(i as int)),
                    marks(self.children@[i as int]),
                    id,
                );
            }
            if self.children[i].contains_accesskit_node_id(id) {
                proof {
                    lemma_holds_id_take(self.children@, i + 1, id);
                }
                return true;
            }
            i += 1;
        }
        assert(self.children@.take(n as int) =~= self.children@);
        false
    }

    /// Returns whether this tree itself, or any of its descendants, owns the
    /// provided node identifier.
    pub fn owns_accesskit_node_id(&self, id: u64) -> (r: bool)
        ensures
            r == self.has_node_id(id),
    {
        self.contains_accesskit_node_id(id)
    }

    /// Sets whether this widget has keyboard focus.
    pub fn set_accesskit_focused(&mut self, focused: bool)
        ensures
            final(self).accesskit_focused == focused,
            final(self).tag == old(self).tag,
            final(self).state == old(self).state,
            final(self).children == old(self).children,
            final(self).accesskit_node_id == old(self).accesskit_node_id,
    {
        self.accesskit_focused = focused;
    }

    /// Reconciles the current tree with a widget of the given [`Tag`].
    ///
    /// If the tag of the widget matches the tag of the [`Tree`], the widget
    /// proceeds with the reconciliation (`reconcile` is called on the tree).
    /// Otherwise, the whole [`Tree`] is recreated with the widget's initial
    /// `state` first.
    pub fn diff(
        &mut self,
        tag: Tag,
        state: impl FnOnce() -> State<S>,
        reconcile: impl FnOnce(&mut Tree<S>),
    )
        requires
            state.requires(()),
            forall|t: &mut Tree<S>| reconcile.requires((t,)),
        ensures
            exists|a: &mut Tree<S>|
                {
                    &&& if old(self).tag == tag {
                        *a == *old(self)
                    } else {
                        &&& a.tag == tag
                        &&& state.ensures((), a.state)
                        &&& a.children@.len() == 0
                        &&& a.accesskit_node_id is None
                        &&& !a.accesskit_focused
                    }
                    &&& *final(a) == *final(self)
                    &&& #[trigger] reconcile.ensures((a,), ())
                },
    {
        if !self.tag.same(&tag) {
            *self = Tree::new(tag, state());
        }
        reconcile(self);
    }

    /// Reconciles the tree with the provided widget: when the widget's tag
    /// differs from the tree's, the tree is first recreated from the
    /// widget's tag and initial state; the widget then diffs itself with the
    /// tree.
    pub fn diff_widget<W: Widget<S>>(&mut self, new: &mut W)
        ensures
            exists|tag: Tag, t: &mut Tree<S>, w: &mut W|
                #![trigger call_ensures(W::tag, (&*old(new),), tag), call_ensures(W::diff, (w, t), ())]
                {
                    &&& call_ensures(W::tag, (&*old(new),), tag)
                    &&& if old(self).tag == tag {
                        *t == *old(self)
                    } else {
                        &&& t.tag == tag
                        &&& call_ensures(W::state, (&*old(new),), t.state)
                        &&& t.children@.len() == 0
                        &&& t.accesskit_node_id is None
                        &&& !t.accesskit_focused
                    }
                    &&& *w == *old(new)
                    &&& *final(t) == *final(self)
                    &&& *final(w) == *final(new)
                    &&& call_ensures(W::diff, (w, t), ())
                },
    {
        let tag = new.tag();
        if !self.tag.same(&tag) {
            *self = Tree::new(tag, new.state());
        }
        new.diff(self);
    }

    /// Reconciles the children of the tree with the provided list of
    /// widgets: surplus children are dropped, missing ones are created from
    /// their widgets' tags and initial states, and each child is then diffed
    /// with its widget (see [`Tree::diff_widget`]).
    pub fn diff_children<W: Widget<S>>(&mut self, new_children: &mut [W])
        ensures
            final(self).children@.len() == old(new_children)@.len(),
            final(new_children)@.len() == old(new_children)@.len(),
            final(self).tag == old(self).tag,
            final(self).state == old(self).state,
            final(self).accesskit_node_id == old(self).accesskit_node_id,
            final(self).accesskit_focused == old(self).accesskit_focused,
            forall|i: int|
                #![trigger is_position(i, old(new_children)@.len() as int)]
                is_position(i, old(new_children)@.len() as int) ==> exists|t: &mut Tree<S>, w: &mut W|
                    {
                        &&& if i < old(self).children@.len() {
                            *t == old(self).children@[i]
                        } else {
                            &&& call_ensures(W::tag, (&old(new_children)@[i],), t.tag)
                            &&& call_ensures(W::state, (&old(new_children)@[i],), t.state)
                            &&& t.children@.len() == 0
                            &&& t.accesskit_node_id is None
                            &&& !t.accesskit_focused
                        }
                        &&& *w == old(new_children)@[i]
                        &&& *final(t) == final(self).children@[i]
                        &&& *final(w) == final(new_children)@[i]
                        &&& call_ensures(Tree::diff_widget, (t, w), ())
                    },
    {
        self.diff_children_custom(new_children, diff_one, new_tree_for);
    }

    /// Reconciles the children of the tree with the provided list of widgets
    /// using custom logic both for diffing and creating new widget state.
    ///
    /// Surplus children are dropped, missing ones are created with
    /// `new_state` (see [`Tree::fit_children`]), and then each child is
    /// diffed against its widget, in order.
    pub fn diff_children_custom<T, D: Fn(&mut Tree<S>, &mut T), N: Fn(&T) -> Tree<S>>(
        &mut self,
        new_children: &mut [T],
        diff: D,
        new_state: N,
    )
        requires
            forall|a: &mut Tree<S>, b: &mut T| diff.requires((a, b)),
            forall|w: &T| new_state.requires((w,)),
        ensures
            final(self).children@.len() == old(new_children)@.len(),
            final(new_children)@.len() == old(new_children)@.len(),
            final(self).tag == old(self).tag,
            final(self).state == old(self).state,
            final(self).accesskit_node_id == old(self).accesskit_node_id,
            final(self).accesskit_focused == old(self).accesskit_focused,
            forall|i: int|
                #![trigger is_position(i, old(new_children)@.len() as int)]
                is_position(i, old(new_children)@.len() as int) ==> exists|t: &mut Tree<S>, w: &mut T|
                    {
                        &&& if i < old(self).children@.len() {
                            *t == old(self).children@[i]
                        } else {
                            created(new_state, old(new_children)@[i], *t)
                        }
                        &&& *w == old(new_children)@[i]
                        &&& *final(t) == final(self).children@[i]
                        &&& *final(w) == final(new_children)@[i]
                        &&& diff.ensures((t, w), ())
                    },
    {
        self.fit_children(new_children, &new_state);
        let ghost fitted = self.children@;
        diff_pairs(&mut self.children, new_children, &diff);
        assert forall|i: int|
            #![trigger is_position(i, old(new_children)@.len() as int)]
            is_position(i, old(new_children)@.len() as int) implies exists|t: &mut Tree<S>, w: &mut T|
                {
                    &&& if i < old(self).children@.len() {
                        *t == old(self).children@[i]
                    } else {
                        created(new_state, old(new_children)@[i], *t)
                    }
                    &&& *w == old(new_children)@[i]
                    &&& *final(t) == self.children@[i]
                    &&& *final(w) == new_children@[i]
                    &&& diff.ensures((t, w), ())
                } by {
            assert(is_position(i, fitted.len() as int));
            if i < old(self).children@.len() {
                assert(fitted[i] == old(self).children@[i]);
            } else {
                assert(created(new_state, old(new_children)@[i], fitted[i]));
            }
        }
    }

    /// Makes the children as many as `new_children`: surplus children are
    /// dropped and missing ones are created with `new_state`, the others kept.
    pub fn fit_children<T, N: Fn(&T) -> Tree<S>>(&mut self, new_children: &[T], new_state: &N)
        requires
            forall|w: &T| new_state.requires((w,)),
        ensures
            final(self).children@.len() == new_children@.len(),
            forall|i: int|
                0 <= i < new_children@.len() && i < old(self).children@.len()
                    ==> #[trigger] final(self).children@[i] == old(self).children@[i],
            forall|i: int|
                old(self).children@.len() <= i < new_children@.len() ==> created(
                    *new_state,
                    new_children@[i],
                    #[trigger] final(self).children@[i],
                ),
            final(self).tag == old(self).tag,
            final(self).state == old(self).state,
            final(self).accesskit_node_id == old(self).accesskit_node_id,
            final(self).accesskit_focused == old(self).accesskit_focused,
    {
        let ghost before = self.children@;
        let n = new_children.len();
        if self.children.len() > n {
            self.children.truncate(n);
        }
        let mut j = self.children.len();
        while j < n
            invariant
                n == new_children@.len(),
                j <= n,
                j < n ==> before.len() <= j,
                self.children@.len() == j,
                forall|i: int| 0 <= i < j && i < before.len() ==> self.children@[i] == before[i],
                forall|i: int|
                    before.len() <= i < j ==> created(
                        *new_state,
                        new_children@[i],
                        #[trigger] self.children@[i],
                    ),
                forall|w: &T| new_state.requires((w,)),
                self.tag == old(self).tag,
                self.state == old(self).state,
                self.accesskit_node_id == old(self).accesskit_node_id,
                self.accesskit_focused == old(self).accesskit_focused,
            decreases n - j,
        {
            let fresh = new_state(&new_children[j]);
            let ghost prev = self.children@;
            self.children.push(fresh);
            assert forall|i: int| 0 <= i < j && i < before.len() implies self.children@[i] == before[i] by {
                assert(self.children@[i] == prev[i]);
            }
            j += 1;
        }
    }

    /// Returns whether this widget has keyboard focus.
    pub fn accesskit_focused(&self) -> (r: bool)
        ensures
            r == self.accesskit_focused,
    {
        self.accesskit_focused
    }
}

} // verus!
