//! The scene graph: a growable array of elements addressed by identity, and
//! the depth-first walk that turns it into a frame's canvas operations.

use vstd::prelude::*;
use crate::counting::{lemma_occurrences_absent, occurrences};
use crate::types::{Identity, Position};

verus! {

/// One node of the scene graph.
#[derive(Debug)]
pub enum UiElement {
    /// A text leaf: its anchor and its payload.  It has no children.
    Text(Position, String),
    /// A rectangular container: two corners and the identities of its
    /// children, in insertion order.
    Square(Position, Position, Vec<Identity>),
}

/// What a [`UiElement`] is, as a mathematical value.
pub enum ElementView {
    /// A text leaf: its anchor and its characters.
    Text(Position, Seq<char>),
    /// A container: its two corners and its children in insertion order.
    Square(Position, Position, Seq<Identity>),
}

impl View for UiElement {
    type V = ElementView;

    open spec fn view(&self) -> ElementView {
        match self {
            UiElement::Text(anchor, text) => ElementView::Text(*anchor, text@),
            UiElement::Square(corner1, corner2, children) => ElementView::Square(
                *corner1,
                *corner2,
                children@,
            ),
        }
    }
}

impl ElementView {
    /// The child list; a text leaf has none.
    pub open spec fn children(self) -> Seq<Identity> {
        match self {
            ElementView::Text(..) => Seq::empty(),
            ElementView::Square(_, _, children) => children,
        }
    }

    /// The element without the last entry of its child list.
    pub open spec fn without_last_child(self) -> ElementView {
        match self {
            ElementView::Text(..) => self,
            ElementView::Square(corner1, corner2, children) => ElementView::Square(
                corner1,
                corner2,
                children.drop_last(),
            ),
        }
    }

    /// The element after `child` was offered to it: a container appends it, a
    /// text leaf stays as it is.
    pub open spec fn with_child(self, child: Identity) -> ElementView {
        match self {
            ElementView::Text(..) => self,
            ElementView::Square(corner1, corner2, children) => ElementView::Square(
                corner1,
                corner2,
                children.push(child),
            ),
        }
    }
}

impl UiElement {
    /// Appends `child_index` to a container's child list.  A text leaf cannot
    /// gain children and is left unchanged.
    pub fn add_child(&mut self, child_index: Identity)
        ensures
            final(self)@ == old(self)@.with_child(child_index),
    {
        match self {
            UiElement::Text(..) => (),
            UiElement::Square(_, _, children) => children.push(child_index),
        }
    }
}

/// The views of the elements of a scene graph, index by index.
pub open spec fn views(ui: Seq<UiElement>) -> Seq<ElementView> {
    Seq::new(ui.len(), |i: int| ui[i]@)
}

/// Every child was created after its parent and exists: its identity lies
/// strictly between the parent's and the length of the graph.
pub open spec fn links_forward(g: Seq<ElementView>) -> bool {
    forall|i: int, j: int|
        0 <= i < g.len() && 0 <= j < g[i].children().len() ==> i < (
        #[trigger] g[i].children()[j]).0 < g.len()
}

/// The order in which the walk visits the subtree of `id`: the element
/// itself, then the subtrees of its children, the last child first.
pub open spec fn visit_order(g: Seq<ElementView>, id: Identity) -> Seq<Identity>
    decreases g.len() - id.0, 1int, 0int,
{
    if id.0 < g.len() {
        seq![id] + visit_children(g, id, g[id.0 as int].children().len() as int)
    } else {
        Seq::empty()
    }
}

/// The visits below the first `k` children of `id`: the subtree of child
/// `k - 1`, then that of child `k - 2`, down to the first child's.
pub open spec fn visit_children(g: Seq<ElementView>, id: Identity, k: int) -> Seq<Identity>
    decreases g.len() - id.0, 0int, k,
{
    if id.0 < g.len() && 0 < k <= g[id.0 as int].children().len() {
        let child = g[id.0 as int].children()[k - 1];
        let below = if id.0 < child.0 < g.len() {
            visit_order(g, child)
        } else {
            Seq::empty()
        };
        below + visit_children(g, id, k - 1)
    } else {
        Seq::empty()
    }
}

/// The visits still owed by a work stack: the subtree of its top, then what
/// the rest of the stack owes.
pub open spec fn pending(g: Seq<ElementView>, stack: Seq<Identity>) -> Seq<Identity>
    decreases stack.len(),
{
    if stack.len() == 0 {
        Seq::empty()
    } else {
        visit_order(g, stack.last()) + pending(g, stack.drop_last())
    }
}

/// Some element lists the identity `x` among its children.
pub open spec fn listed(g: Seq<ElementView>, x: int) -> bool {
    exists|i: int, j: int|
        0 <= i < g.len() && 0 <= j < g[i].children().len() && (#[trigger] g[i].children()[j]).0
            == x
}

/// Every child list is in the order of creation: identities ascend along it.
pub open spec fn lists_ascend(g: Seq<ElementView>) -> bool {
    forall|i: int, j: int, k: int|
        0 <= i < g.len() && 0 <= j < k < g[i].children().len() ==> (
        #[trigger] g[i].children()[j]).0 < (#[trigger] g[i].children()[k]).0
}

/// No identity is listed by two different elements.
pub open spec fn parents_differ(g: Seq<ElementView>) -> bool {
    forall|i1: int, j1: int, i2: int, j2: int|
        0 <= i1 < g.len() && 0 <= i2 < g.len() && i1 != i2 && 0 <= j1 < g[i1].children().len()
            && 0 <= j2 < g[i2].children().len() ==> (#[trigger] g[i1].children()[j1]) != (
        #[trigger] g[i2].children()[j2])
}

/// Every element but the root is listed by some element.
pub open spec fn all_listed(g: Seq<ElementView>) -> bool {
    forall|x: int| 1 <= x < g.len() ==> #[trigger] listed(g, x)
}

/// The graph is a tree rooted at identity 0, as the creation protocol builds
/// it: small enough for its identities, every child created after its parent,
/// every child list in creation order, and every element but the root listed
/// by exactly one parent, once.
pub open spec fn tree_shaped(g: Seq<ElementView>) -> bool {
    &&& 1 <= g.len() <= u16::MAX
    &&& links_forward(g)
    &&& lists_ascend(g)
    &&& parents_differ(g)
    &&& all_listed(g)
}

/// A tree whose root is a container.
pub open spec fn graph_wf(g: Seq<ElementView>) -> bool {
    tree_shaped(g) && g[0] is Square
}

/// The graph with only the root container in it.
pub open spec fn root_graph() -> Seq<ElementView> {
    seq![ElementView::Square(Position(0, 0), Position(400, 400), Seq::empty())]
}

/// The graph after `leaf` was appended and its identity, the old length,
/// offered to `parent` as a child.
pub open spec fn grafted(g: Seq<ElementView>, parent: Identity, leaf: ElementView) -> Seq<
    ElementView,
> {
    g.update(parent.0 as int, g[parent.0 as int].with_child(Identity(g.len() as u16))).push(leaf)
}

/// The graph after a childless container with the corners `corner1` and
/// `corner2` was appended as the last child of `parent`.
pub open spec fn extended(
    g: Seq<ElementView>,
    parent: Identity,
    corner1: Position,
    corner2: Position,
) -> Seq<ElementView> {
    grafted(g, parent, ElementView::Square(corner1, corner2, Seq::empty()))
}

/// The root alone is a well-formed graph.
pub proof fn lemma_root_graph_wf()
    ensures
        graph_wf(root_graph()),
{
    let g = root_graph();
    assert(g[0].children() =~= Seq::<Identity>::empty());
}

/// Grafting a childless element below a container of a tree gives a tree, in
/// which the new identity stands once, and last, among the parent's children.
pub proof fn lemma_grafted_tree(g: Seq<ElementView>, parent: Identity, leaf: ElementView)
    requires
        tree_shaped(g),
        g.len() < u16::MAX,
        parent.0 < g.len(),
        g[parent.0 as int] is Square,
        leaf.children().len() == 0,
    ensures
        tree_shaped(grafted(g, parent, leaf)),
        grafted(g, parent, leaf)[parent.0 as int].children() == g[parent.0 as int].children().push(
            Identity(g.len() as u16),
        ),
        occurrences(grafted(g, parent, leaf)[parent.0 as int].children(), Identity(g.len() as u16))
            == 1,
{
    let h = grafted(g, parent, leaf);
    let fresh = Identity(g.len() as u16);
    let kids = g[parent.0 as int].children();
    assert(h[parent.0 as int].children() == kids.push(fresh));
    assert(h[fresh.0 as int].children() =~= Seq::<Identity>::empty());
    assert forall|i: int, j: int| 0 <= i < g.len() && 0 <= j < g[i].children().len() implies (
    #[trigger] h[i].children()[j]) == g[i].children()[j] by {}
    assert forall|i: int, j: int| 0 <= i < h.len() && 0 <= j < h[i].children().len() implies i < (
    #[trigger] h[i].children()[j]).0 < h.len() && (h[i].children()[j] == fresh <==> i == parent.0
        && j == kids.len()) by {
        if !(i == parent.0 && j == kids.len()) {
            assert(h[i].children()[j] == g[i].children()[j]);
        }
    }
    assert(links_forward(h));
    assert(lists_ascend(h)) by {
        assert forall|i: int, j: int, k: int|
            0 <= i < h.len() && 0 <= j < k < h[i].children().len() implies (
        #[trigger] h[i].children()[j]).0 < (#[trigger] h[i].children()[k]).0 by {
            assert(h[i].children()[j] == g[i].children()[j]);
            if !(i == parent.0 && k == kids.len()) {
                assert(h[i].children()[k] == g[i].children()[k]);
            }
        }
    }
    assert(parents_differ(h)) by {
        assert forall|i1: int, j1: int, i2: int, j2: int|
            0 <= i1 < h.len() && 0 <= i2 < h.len() && i1 != i2 && 0 <= j1 < h[i1].children().len()
                && 0 <= j2 < h[i2].children().len() implies (#[trigger] h[i1].children()[j1]) != (
        #[trigger] h[i2].children()[j2]) by {
            if !(i1 == parent.0 && j1 == kids.len()) {
                assert(h[i1].children()[j1] == g[i1].children()[j1]);
            }
            if !(i2 == parent.0 && j2 == kids.len()) {
                assert(h[i2].children()[j2] == g[i2].children()[j2]);
            }
        }
    }
    assert(all_listed(h)) by {
        assert forall|x: int| 1 <= x < h.len() implies #[trigger] listed(h, x) by {
            if x == g.len() {
                assert(h[parent.0 as int].children()[kids.len() as int].0 == x);
            } else {
                assert(listed(g, x));
                let (i, j) = choose|i: int, j: int|
                    0 <= i < g.len() && 0 <= j < g[i].children().len() && (
                    #[trigger] g[i].children()[j]).0 == x;
                assert(h[i].children()[j].0 == x);
            }
        }
    }
    assert(kids.push(fresh).drop_last() =~= kids);
    lemma_occurrences_absent(kids, fresh);
}

} // verus!
