//! Why the walk over a tree meets every element exactly once: a tree is its
//! root with leaves grafted on one by one, and a graft adds one visit.

use vstd::prelude::*;
use crate::counting::{lemma_occurrences_concat, lemma_occurrences_single, occurrences};
use crate::scene::{
    all_listed, grafted, links_forward, listed, lists_ascend, parents_differ, tree_shaped,
    visit_children, visit_order, ElementView,
};
use crate::types::Identity;

verus! {

/// The walk from the root comes by every element of the graph exactly once,
/// and by nothing else.
pub open spec fn visits_each_once(g: Seq<ElementView>) -> bool {
    forall|x: Identity| #[trigger]
        occurrences(visit_order(g, Identity(0)), x) == if x.0 < g.len() {
            1nat
        } else {
            0nat
        }
}

/// The element that lists the youngest element of the graph.
pub open spec fn parent_of_last(g: Seq<ElementView>) -> int {
    choose|i: int|
        0 <= i < g.len() && g[i].children().len() > 0 && (#[trigger] g[i].children()).last().0
            == g.len() - 1
}

/// The graph as it was before its youngest element was grafted on.
pub open spec fn pruned(g: Seq<ElementView>) -> Seq<ElementView> {
    let parent = parent_of_last(g);
    g.drop_last().update(parent, g[parent].without_last_child())
}

/// Grafting changes the walk below `id` in one way only: the new element is
/// met as often as its parent was.
pub proof fn lemma_grafted_order(
    g: Seq<ElementView>,
    parent: Identity,
    leaf: ElementView,
    id: Identity,
    x: Identity,
)
    requires
        links_forward(g),
        g.len() <= u16::MAX,
        parent.0 < g.len(),
        g[parent.0 as int] is Square,
        leaf.children().len() == 0,
        id.0 < g.len(),
    ensures
        occurrences(visit_order(grafted(g, parent, leaf), id), x) == occurrences(
            visit_order(g, id),
            x,
        ) + if x.0 == g.len() {
            occurrences(visit_order(g, id), parent)
        } else {
            0nat
        },
    decreases g.len() - id.0, 1int, 0int,
{
    let h = grafted(g, parent, leaf);
    let fresh = Identity(g.len() as u16);
    let kids = g[id.0 as int].children();
    let n = kids.len() as int;
    let below = visit_children(g, id, n);
    lemma_grafted_children(g, parent, leaf, id, n, x);
    lemma_occurrences_single(id, x);
    lemma_occurrences_single(id, parent);
    lemma_occurrences_concat(seq![id], below, x);
    lemma_occurrences_concat(seq![id], below, parent);
    if id == parent {
        let tail = visit_children(h, id, n);
        assert(h[id.0 as int].children() == kids.push(fresh));
        assert(h[fresh.0 as int].children() =~= Seq::<Identity>::empty());
        assert(visit_children(h, fresh, 0) =~= Seq::<Identity>::empty());
        assert(visit_order(h, fresh) =~= seq![fresh]);
        assert(visit_children(h, id, n + 1) == visit_order(h, fresh) + tail);
        assert(visit_order(h, id) =~= seq![id] + (seq![fresh] + tail));
        lemma_occurrences_single(fresh, x);
        lemma_occurrences_concat(seq![fresh], tail, x);
        lemma_occurrences_concat(seq![id], seq![fresh] + tail, x);
    } else {
        assert(h[id.0 as int].children() == kids);
        lemma_occurrences_concat(seq![id], visit_children(h, id, n), x);
    }
}

/// The same for the walk below the first `k` children of `id`.
pub proof fn lemma_grafted_children(
    g: Seq<ElementView>,
    parent: Identity,
    leaf: ElementView,
    id: Identity,
    k: int,
    x: Identity,
)
    requires
        links_forward(g),
        g.len() <= u16::MAX,
        parent.0 < g.len(),
        g[parent.0 as int] is Square,
        leaf.children().len() == 0,
        id.0 < g.len(),
        0 <= k <= g[id.0 as int].children().len(),
    ensures
        occurrences(visit_children(grafted(g, parent, leaf), id, k), x) == occurrences(
            visit_children(g, id, k),
            x,
        ) + if x.0 == g.len() {
            occurrences(visit_children(g, id, k), parent)
        } else {
            0nat
        },
    decreases g.len() - id.0, 0int, k,
{
    let h = grafted(g, parent, leaf);
    if k > 0 {
        let child = g[id.0 as int].children()[k - 1];
        assert(h[id.0 as int].children()[k - 1] == child);
        assert(id.0 < child.0 < g.len());
        lemma_grafted_order(g, parent, leaf, child, x);
        lemma_grafted_children(g, parent, leaf, id, k - 1, x);
        lemma_occurrences_concat(visit_order(g, child), visit_children(g, id, k - 1), x);
        lemma_occurrences_concat(visit_order(g, child), visit_children(g, id, k - 1), parent);
        lemma_occurrences_concat(visit_order(h, child), visit_children(h, id, k - 1), x);
    } else {
        assert(visit_children(h, id, k) =~= Seq::<Identity>::empty());
        assert(visit_children(g, id, k) =~= Seq::<Identity>::empty());
    }
}

/// If the walk of a graph meets every element once, so does the walk of the
/// graph with one more leaf grafted on.
pub proof fn lemma_grafted_visits(g: Seq<ElementView>, parent: Identity, leaf: ElementView)
    requires
        links_forward(g),
        visits_each_once(g),
        1 <= g.len() < u16::MAX,
        parent.0 < g.len(),
        g[parent.0 as int] is Square,
        leaf.children().len() == 0,
    ensures
        visits_each_once(grafted(g, parent, leaf)),
{
    let h = grafted(g, parent, leaf);
    let root = Identity(0);
    assert forall|x: Identity| #[trigger]
        occurrences(visit_order(h, root), x) == if x.0 < h.len() {
            1nat
        } else {
            0nat
        } by {
        lemma_grafted_order(g, parent, leaf, root, x);
        assert(occurrences(visit_order(g, root), parent) == 1);
        assert(occurrences(visit_order(g, root), x) == if x.0 < g.len() {
            1nat
        } else {
            0nat
        });
    }
}

/// A tree of more than one element is the tree without its youngest element,
/// with that element grafted back below its parent.
pub proof fn lemma_pruned(g: Seq<ElementView>)
    requires
        tree_shaped(g),
        g.len() >= 2,
    ensures
        tree_shaped(pruned(g)),
        pruned(g).len() == g.len() - 1,
        0 <= parent_of_last(g) < g.len() - 1,
        pruned(g)[parent_of_last(g)] is Square,
        g.last().children().len() == 0,
        g == grafted(pruned(g), Identity(parent_of_last(g) as u16), g.last()),
{
    let last = g.len() - 1;
    let h = pruned(g);
    assert(g.last().children().len() == 0) by {
        if g[last].children().len() > 0 {
            assert(last < g[last].children()[0].0 < g.len());
        }
    }
    assert(listed(g, last));
    let (pi, pj) = choose|i: int, j: int|
        0 <= i < g.len() && 0 <= j < g[i].children().len() && (#[trigger] g[i].children()[j]).0
            == last;
    assert(pj == g[pi].children().len() - 1) by {
        if pj < g[pi].children().len() - 1 {
            let k = g[pi].children().len() - 1;
            assert(g[pi].children()[pj].0 < g[pi].children()[k].0 < g.len());
        }
    }
    assert(g[pi].children().last() == g[pi].children()[pj]);
    let p = parent_of_last(g);
    let kids = g[p].children();
    assert(0 <= p < g.len() && kids.len() > 0 && kids.last().0 == last);
    assert(p != last);
    assert(kids.last() == kids[kids.len() - 1]);
    assert(h[p].children() == kids.drop_last());
    assert forall|i: int, j: int| 0 <= i < h.len() && 0 <= j < h[i].children().len() implies (
    #[trigger] h[i].children()[j]) == g[i].children()[j] && g[i].children()[j].0 != last by {
        if i == p {
            assert(g[p].children()[j].0 < g[p].children()[kids.len() - 1].0);
        } else {
            assert(g[i].children()[j] != g[p].children()[kids.len() - 1]);
        }
    }
    assert(links_forward(h)) by {
        assert forall|i: int, j: int|
            0 <= i < h.len() && 0 <= j < h[i].children().len() implies i < (
        #[trigger] h[i].children()[j]).0 < h.len() by {
            assert(h[i].children()[j] == g[i].children()[j]);
        }
    }
    assert(lists_ascend(h)) by {
        assert forall|i: int, j: int, k: int|
            0 <= i < h.len() && 0 <= j < k < h[i].children().len() implies (
        #[trigger] h[i].children()[j]).0 < (#[trigger] h[i].children()[k]).0 by {
            assert(h[i].children()[j] == g[i].children()[j]);
            assert(h[i].children()[k] == g[i].children()[k]);
        }
    }
    assert(parents_differ(h)) by {
        assert forall|i1: int, j1: int, i2: int, j2: int|
            0 <= i1 < h.len() && 0 <= i2 < h.len() && i1 != i2 && 0 <= j1 < h[i1].children().len()
                && 0 <= j2 < h[i2].children().len() implies (#[trigger] h[i1].children()[j1]) != (
        #[trigger] h[i2].children()[j2]) by {
            assert(h[i1].children()[j1] == g[i1].children()[j1]);
            assert(h[i2].children()[j2] == g[i2].children()[j2]);
        }
    }
    assert(all_listed(h)) by {
        assert forall|x: int| 1 <= x < h.len() implies #[trigger] listed(h, x) by {
            assert(listed(g, x));
            let (i, j) = choose|i: int, j: int|
                0 <= i < g.len() && 0 <= j < g[i].children().len() && (
                #[trigger] g[i].children()[j]).0 == x;
            assert(i != last);
            if i == p {
                assert(j != kids.len() - 1);
            }
            assert(h[i].children()[j].0 == x);
        }
    }
    let back = grafted(h, Identity(p as u16), g.last());
    assert(kids.drop_last().push(kids.last()) =~= kids);
    assert(kids.last() == Identity(last as u16));
    assert(back[p] == g[p]);
    assert(back =~= g);
}

/// The walk from the root of a tree meets every element exactly once and
/// nothing else.
pub proof fn lemma_tree_walk(g: Seq<ElementView>)
    requires
        tree_shaped(g),
    ensures
        visits_each_once(g),
    decreases g.len(),
{
    let root = Identity(0);
    if g.len() == 1 {
        assert(g[0].children().len() == 0) by {
            if g[0].children().len() > 0 {
                assert(0 < g[0].children()[0].0 < g.len());
            }
        }
        assert(visit_children(g, root, 0) =~= Seq::<Identity>::empty());
        assert(visit_order(g, root) =~= seq![root]);
        assert forall|x: Identity| #[trigger]
            occurrences(visit_order(g, root), x) == if x.0 < g.len() {
                1nat
            } else {
                0nat
            } by {
            lemma_occurrences_single(root, x);
        }
    } else {
        lemma_pruned(g);
        lemma_tree_walk(pruned(g));
        lemma_grafted_visits(pruned(g), Identity(parent_of_last(g) as u16), g.last());
    }
}

} // verus!
