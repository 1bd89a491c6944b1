//! The accessibility of an overlay group, which displays several overlays.
use vstd::prelude::*;
use vstd::multiset::Multiset;
use crate::node::{next_id, ActionRequest, Bounds, Node, Role};

verus! {

/// The identifiers that are present, in order.
pub open spec fn present(ids: Seq<Option<u64>>) -> Seq<u64>
    decreases ids.len(),
{
    if ids.len() == 0 {
        Seq::empty()
    } else {
        match ids.last() {
            Some(id) => present(ids.drop_last()).push(id),
            None => present(ids.drop_last()),
        }
    }
}

/// Whether `n` is the node of a group holding `children`, with non-empty
/// bounds, and nothing else set.
pub open spec fn is_group_node(n: Node, children: Seq<u64>) -> bool {
    &&& n.role == Role::Group
    &&& n.bounds is NonEmptyWidget
    &&& n.children@ == children
    &&& n.label is None
    &&& n.description is None
    &&& n.value is None
    &&& n.placeholder is None
    &&& n.controls@.len() == 0
    &&& n.actions@.len() == 0
    &&& n.child_actions@.len() == 0
    &&& !n.disabled
    &&& !n.read_only
    &&& !n.text_input_marked
    &&& !n.multiselectable
    &&& n.selected is None
    &&& n.expanded is None
    &&& n.has_popup is None
    &&& n.row_index is None
    &&& n.column_index is None
    &&& n.row_span is None
    &&& n.column_span is None
    &&& n.row_count is None
    &&& n.column_count is None
    &&& n.sort_direction is None
    &&& n.text_selection is None
    &&& n.character_lengths@.len() == 0
    &&& n.word_starts@.len() == 0
}

/// Builds the accessibility node of an overlay group, after each of its
/// children produced a node identifier or none (`child_ids`, in order).
///
/// Without any child node there is no group node; otherwise the group takes
/// the next identifier and holds the children's nodes in order.
pub fn build_group_node(
    child_ids: &Vec<Option<u64>>,
    nodes: &mut Vec<(u64, Node)>,
    id_counter: &mut u64,
) -> (r: Option<u64>)
    requires
        *old(id_counter) < u64::MAX,
    ensures
        present(child_ids@).len() == 0 ==> r is None && *final(id_counter) == *old(id_counter)
            && final(nodes)@ == old(nodes)@,
        present(child_ids@).len() > 0 ==> {
            &&& r == Some(*old(id_counter))
            &&& *final(id_counter) == *old(id_counter) + 1
            &&& final(nodes)@.len() == old(nodes)@.len() + 1
            &&& final(nodes)@.take(old(nodes)@.len() as int) == old(nodes)@
            &&& final(nodes)@.last().0 == *old(id_counter)
            &&& is_group_node(final(nodes)@.last().1, present(child_ids@))
        },
{
    let mut ids: Vec<u64> = Vec::new();
    let mut i: usize = 0;
    assert(child_ids@.take(0) =~= Seq::<Option<u64>>::empty());
    while i < child_ids.len()
        invariant
            i <= child_ids@.len(),
            ids@ == present(child_ids@.take(i as int)),
        decreases child_ids@.len() - i,
    {
        proof {
            let t = child_ids@.take(i as int + 1);
            assert(t.drop_last() =~= child_ids@.take(i as int));
            assert(t.last() == child_ids@[i as int]);
        }
        if let Some(id) = child_ids[i] {
            ids.push(id);
        }
        i += 1;
    }
    assert(child_ids@.take(child_ids@.len() as int) =~= child_ids@);
    if ids.len() == 0 {
        return None;
    }
    let id = next_id(id_counter);
    let mut node = Node::new(Role::Group);
    node.bounds = Bounds::NonEmptyWidget;
    node.children = ids;
    nodes.push((id, node));
    proof {
        assert(nodes@.take(old(nodes)@.len() as int) =~= old(nodes)@);
    }
    Some(id)
}

/// Whether the children come in the order of their ranks.
pub open spec fn in_rank_order<E>(children: Seq<(u32, E)>) -> bool {
    forall|i: int, j: int| 0 <= i < j < children.len() ==> children[i].0 <= children[j].0
}

/// An overlay container that displays several overlay children, each with
/// the rank that orders it among the others (the place of its overlay
/// index among all indices).
pub struct Group<E> {
    /// The children, each with its rank, in the order of their ranks.
    pub children: Vec<(u32, E)>,
}

impl<E> Group<E> {
    /// Creates an empty [`Group`].
    pub fn new() -> (r: Self)
        ensures
            r.children@.len() == 0,
    {
        Self::with_children(Vec::new())
    }

    /// Creates a [`Group`] with the given children, ordered by their ranks.
    pub fn with_children(children: Vec<(u32, E)>) -> (r: Self)
        ensures
            r.children@.to_multiset() == children@.to_multiset(),
            r.children@.len() == children@.len(),
            in_rank_order(r.children@),
    {
        broadcast use vstd::seq_lib::group_to_multiset_ensures;

        let mut rest = children;
        let mut sorted: Vec<(u32, E)> = Vec::new();
        proof {
            assert(sorted@.to_multiset() =~= Multiset::empty());
            assert(sorted@.to_multiset().add(rest@.to_multiset()) =~= children@.to_multiset());
        }
        while rest.len() > 0
            invariant
                sorted@.to_multiset().add(rest@.to_multiset()) == children@.to_multiset(),
                in_rank_order(sorted@),
            decreases rest@.len(),
        {
            let ghost before = rest@;
            let item = rest.pop().unwrap();
            proof {
                assert(before =~= rest@.push(item));
            }
            let rank = item.0;
            let mut pos: usize = 0;
            while pos < sorted.len() && sorted[pos].0 <= rank
                invariant
                    pos <= sorted@.len(),
                    forall|j: int| 0 <= j < pos ==> sorted@[j].0 <= rank,
                decreases sorted@.len() - pos,
            {
                pos += 1;
            }
            let ghost prev = sorted@;
            sorted.insert(pos, item);
            proof {
                assert(sorted@ == prev.insert(pos as int, item));
                assert(pos < prev.len() ==> prev[pos as int].0 > rank);
                assert forall|i: int, j: int| 0 <= i < j < sorted@.len() implies sorted@[i].0 <= sorted@[j].0 by {
                    if j < pos {
                    } else if j == pos {
                    } else if i < pos {
                        assert(sorted@[j] == prev[j - 1]);
                    } else if i == pos {
                        assert(sorted@[j] == prev[j - 1]);
                        assert(prev[pos as int].0 <= prev[j - 1].0);
                    } else {
                        assert(sorted@[j] == prev[j - 1]);
                        assert(sorted@[i] == prev[i - 1]);
                    }
                }
                broadcast use vstd::multiset::group_multiset_axioms;

                vstd::seq_lib::to_multiset_insert(prev, pos as int, item);
                vstd::seq_lib::to_multiset_build(rest@, item);
                assert(sorted@.to_multiset() == prev.to_multiset().insert(item));
                assert(before.to_multiset() == rest@.to_multiset().insert(item));
                assert(sorted@.to_multiset().add(rest@.to_multiset()) =~= prev.to_multiset().add(
                    before.to_multiset(),
                ));
            }
        }
        proof {
            assert(rest@.to_multiset() =~= Multiset::empty());
            assert(sorted@.to_multiset().add(rest@.to_multiset()) =~= sorted@.to_multiset());
            assert(sorted@.len() == sorted@.to_multiset().len());
            assert(children@.len() == children@.to_multiset().len());
        }
        Group { children: sorted }
    }
}

impl<E> Default for Group<E> {
    fn default() -> (r: Self)
        ensures
            r.children@.len() == 0,
    {
        Self::with_children(Vec::new())
    }
}

/// What a group needs of the overlays it displays; the overlays of an
/// application implement it.
pub trait Overlay {
    /// Builds the accessibility nodes of the overlay, taking identifiers
    /// from `id_counter`, and returns the identifier of its root node, if it
    /// produced one.
    fn accessibility(&mut self, nodes: &mut Vec<(u64, Node)>, id_counter: &mut u64) -> Option<u64>;

    /// Handles an accessibility action request.
    fn accessibility_action(&mut self, request: &ActionRequest);
}

/// An overlay, whatever its type.
pub struct Element {
    /// The overlay.
    pub overlay: Box<dyn Overlay>,
}

impl<E: Overlay + 'static> Group<E> {
    /// Turns the [`Group`] into an overlay [`Element`].
    pub fn overlay(self) -> (r: Element) {
        Element { overlay: Box::new(self) }
    }
}

impl<E: Overlay> Overlay for Group<E> {
    /// Builds the nodes of each child in order, then the group's node (see
    /// [`build_group_node`]) when some child produced a node and an
    /// identifier is left.
    ///
    /// Child `j` is asked with the nodes `ns[j]` and the counter `cs[j]` that
    /// the children before it left, and leaves `ns[j + 1]` and `cs[j + 1]`;
    /// the group node holds the identifiers the children answered, in order.
    fn accessibility(&mut self, nodes: &mut Vec<(u64, Node)>, id_counter: &mut u64) -> (r: Option<u64>)
        ensures
            final(self).children@.len() == old(self).children@.len(),
            forall|i: int|
                0 <= i < old(self).children@.len() ==> (#[trigger] final(self).children@[i]).0
                    == old(self).children@[i].0,
            exists|answers: Seq<Option<u64>>, ns: Seq<Seq<(u64, Node)>>, cs: Seq<u64>|
                #![trigger answers.len(), ns.len(), cs.len()]
                {
                    &&& answers.len() == old(self).children@.len()
                    &&& ns.len() == answers.len() + 1
                    &&& cs.len() == answers.len() + 1
                    &&& ns[0] == old(nodes)@
                    &&& cs[0] == *old(id_counter)
                    &&& forall|j: int|
                        #![trigger final(self).children@[j]]
                        0 <= j < answers.len() ==> final(self).children@[j].0 == old(self).children@[j].0
                            && exists|w: &mut E, nv: &mut Vec<(u64, Node)>, c: &mut u64|
                            {
                                &&& *w == old(self).children@[j].1
                                &&& *final(w) == final(self).children@[j].1
                                &&& (*nv)@ == ns[j]
                                &&& final(nv)@ == ns[j + 1]
                                &&& *c == cs[j]
                                &&& *final(c) == cs[j + 1]
                                &&& call_ensures(E::accessibility, (w, nv, c), answers[j])
                            }
                    &&& match r {
                        None => {
                            &&& present(answers).len() == 0 || cs.last() == u64::MAX
                            &&& final(nodes)@ == ns.last()
                            &&& *final(id_counter) == cs.last()
                        },
                        Some(id) => {
                            &&& present(answers).len() > 0
                            &&& id == cs.last()
                            &&& *final(id_counter) == id + 1
                            &&& final(nodes)@.len() == ns.last().len() + 1
                            &&& final(nodes)@.take(ns.last().len() as int) == ns.last()
                            &&& final(nodes)@.last().0 == id
                            &&& is_group_node(final(nodes)@.last().1, present(answers))
                        },
                    }
                },
    {
        let mut child_ids: Vec<Option<u64>> = Vec::new();
        let ghost mut ns: Seq<Seq<(u64, Node)>> = seq![nodes@];
        let ghost mut cs: Seq<u64> = seq![*id_counter];
        let mut i: usize = 0;
        while i < self.children.len()
            invariant
                self.children@.len() == old(self).children@.len(),
                i <= self.children@.len(),
                child_ids@.len() == i,
                ns.len() == i + 1,
                cs.len() == i + 1,
                ns[0] == old(nodes)@,
                cs[0] == *old(id_counter),
                ns.last() == nodes@,
                cs.last() == *id_counter,
                forall|j: int|
                    0 <= j < old(self).children@.len() ==> (#[trigger] self.children@[j]).0
                        == old(self).children@[j].0,
                forall|j: int| i <= j < old(self).children@.len() ==> #[trigger] self.children@[j] == old(self).children@[j],
                forall|j: int|
                    #![trigger self.children@[j]]
                    0 <= j < i ==> self.children@[j].0 == old(self).children@[j].0
                        && exists|w: &mut E, nv: &mut Vec<(u64, Node)>, c: &mut u64|
                        {
                            &&& *w == old(self).children@[j].1
                            &&& *final(w) == self.children@[j].1
                            &&& (*nv)@ == ns[j]
                            &&& final(nv)@ == ns[j + 1]
                            &&& *c == cs[j]
                            &&& *final(c) == cs[j + 1]
                            &&& call_ensures(E::accessibility, (w, nv, c), child_ids@[j])
                        },
            decreases self.children@.len() - i,
        {
            let ghost before = self.children@;
            let ghost ns0 = nodes@;
            let ghost c0 = *id_counter;
            let id = self.children[i].1.accessibility(nodes, id_counter);
            assert(exists|w: &mut E, nv: &mut Vec<(u64, Node)>, c: &mut u64|
                {
                    &&& *w == old(self).children@[i as int].1
                    &&& *final(w) == self.children@[i as int].1
                    &&& (*nv)@ == ns0
                    &&& final(nv)@ == nodes@
                    &&& *c == c0
                    &&& *final(c) == *id_counter
                    &&& call_ensures(E::accessibility, (w, nv, c), id)
                });
            let ghost ids_before = child_ids@;
            let ghost ns_before = ns;
            let ghost cs_before = cs;
            child_ids.push(id);
            proof {
                ns = ns.push(nodes@);
                cs = cs.push(*id_counter);
            }
            assert forall|j: int|
                #![trigger self.children@[j]]
                0 <= j < i + 1 implies self.children@[j].0 == old(self).children@[j].0
                    && exists|w: &mut E, nv: &mut Vec<(u64, Node)>, c: &mut u64|
                    {
                        &&& *w == old(self).children@[j].1
                        &&& *final(w) == self.children@[j].1
                        &&& (*nv)@ == ns[j]
                        &&& final(nv)@ == ns[j + 1]
                        &&& *c == cs[j]
                        &&& *final(c) == cs[j + 1]
                        &&& call_ensures(E::accessibility, (w, nv, c), child_ids@[j])
                    } by {
                if j < i {
                    assert(self.children@[j] == before[j]);
                    assert(child_ids@[j] == ids_before[j]);
                    assert(ns[j] == ns_before[j] && ns[j + 1] == ns_before[j + 1]);
                    assert(cs[j] == cs_before[j] && cs[j + 1] == cs_before[j + 1]);
                } else {
                    assert(child_ids@[j] == id);
                    assert(ns[j] == ns0 && ns[j + 1] == nodes@);
                    assert(cs[j] == c0 && cs[j + 1] == *id_counter);
                }
            }
            i += 1;
        }
        if *id_counter == u64::MAX {
            assert(ns.len() == child_ids@.len() + 1 && cs.len() == child_ids@.len() + 1);
            return None;
        }
        let r = build_group_node(&child_ids, nodes, id_counter);
        assert(ns.len() == child_ids@.len() + 1 && cs.len() == child_ids@.len() + 1);
        r
    }

    /// Hands the request to each child in order.
    fn accessibility_action(&mut self, request: &ActionRequest)
        ensures
            final(self).children@.len() == old(self).children@.len(),
            forall|i: int|
                0 <= i < old(self).children@.len() ==> (#[trigger] final(self).children@[i]).0
                    == old(self).children@[i].0,
            forall|i: int|
                #![trigger final(self).children@[i]]
                0 <= i < old(self).children@.len() ==> final(self).children@[i].0 == old(self).children@[i].0
                    && exists|c: &mut E|
                    {
                        &&& *c == old(self).children@[i].1
                        &&& *final(c) == final(self).children@[i].1
                        &&& call_ensures(E::accessibility_action, (c, request), ())
                    },
    {
        act_from(&mut self.children, 0, request);
    }
}

/// Hands the request to each overlay of `children` from the `i`-th on, in
/// order.
fn act_from<E: Overlay>(children: &mut Vec<(u32, E)>, i: usize, request: &ActionRequest)
    requires
        i <= old(children)@.len(),
    ensures
        final(children)@.len() == old(children)@.len(),
        forall|j: int|
            0 <= j < old(children)@.len() ==> (#[trigger] final(children)@[j]).0 == old(children)@[j].0,
        forall|j: int| 0 <= j < i ==> #[trigger] final(children)@[j] == old(children)@[j],
        forall|j: int|
            #![trigger final(children)@[j]]
            i <= j < old(children)@.len() ==> final(children)@[j].0 == old(children)@[j].0
                && exists|c: &mut E|
                {
                    &&& *c == old(children)@[j].1
                    &&& *final(c) == final(children)@[j].1
                    &&& call_ensures(E::accessibility_action, (c, request), ())
                },
    decreases old(children)@.len() - i,
{
    if i < children.len() {
        children[i].1.accessibility_action(request);
        let ghost mid = children@;
        assert(exists|c: &mut E|
            {
                &&& *c == old(children)@[i as int].1
                &&& *final(c) == mid[i as int].1
                &&& call_ensures(E::accessibility_action, (c, request), ())
            });
        act_from(children, i + 1, request);
        assert(children@[i as int] == mid[i as int]);
        assert(forall|j: int| i + 1 <= j < old(children)@.len() ==> mid[j] == old(children)@[j]);
    }
}

} // verus!
