//! What holds of the scene whatever its state: the laws of selection, of
//! growth, of the command queue and of the walk over the graph.

use vstd::prelude::*;
use crate::counting::{lemma_occurrences_absent, occurrences};
use crate::creator::SceneView;
use crate::scene::{tree_shaped, visit_children, visit_order, ElementView};
use crate::walk::lemma_tree_walk;
use crate::selection::{grown, highlights, hit, within, MARGIN};
use crate::types::{DrawCommand, Entry, Identity, MousePosition, Pos};

verus! {

/// The box after `n` frames of growth.
pub open spec fn grown_by(pos: Pos, n: nat) -> Pos
    decreases n,
{
    if n == 0 {
        pos
    } else {
        grown(grown_by(pos, (n - 1) as nat))
    }
}

/// A coordinate after it moved towards zero by `MARGIN` in each of `n` frames.
pub open spec fn lowered_by(c: u32, n: nat) -> u32 {
    if c >= MARGIN * n {
        (c - MARGIN * n) as u32
    } else {
        0
    }
}

/// A coordinate after it moved away from zero by `MARGIN` in each of `n`
/// frames.
pub open spec fn raised_by(c: u32, n: nat) -> u32 {
    if c + MARGIN * n <= u32::MAX {
        (c + MARGIN * n) as u32
    } else {
        u32::MAX
    }
}

/// After the selection system ran, an entity is selected exactly if the
/// pointer lay inside the box that the entity had before the frame, edges
/// included.  This holds of every state, and so of every frame.
pub proof fn lemma_selected_iff_pointer_inside(s: SceneView, i: int)
    requires
        0 <= i < s.entries.len(),
    ensures
        s.after_selection().entries.len() == s.entries.len(),
        s.after_selection().entries[i].id == s.entries[i].id,
        s.after_selection().entries[i].selected.0 <==> {
            &&& s.entries[i].pos.0 <= s.pointer.0 <= s.entries[i].pos.2
            &&& s.entries[i].pos.1 <= s.pointer.1 <= s.entries[i].pos.3
        },
{
}

/// Growth never shrinks a box: the old box lies within the grown one, and a
/// pointer inside the old box is inside the grown one.
pub proof fn lemma_grown_contains(pos: Pos, pointer: MousePosition)
    ensures
        within(pos, grown(pos)),
        hit(pointer, pos) ==> hit(pointer, grown(pos)),
{
}

/// Growth moves each edge outward by exactly `MARGIN` where the coordinate
/// range has room, and so strictly expands every box but the one that
/// already spans the whole range.
pub proof fn lemma_grown_expands(pos: Pos)
    ensures
        pos.0 >= MARGIN ==> grown(pos).0 == pos.0 - MARGIN,
        pos.1 >= MARGIN ==> grown(pos).1 == pos.1 - MARGIN,
        pos.2 <= u32::MAX - MARGIN ==> grown(pos).2 == pos.2 + MARGIN,
        pos.3 <= u32::MAX - MARGIN ==> grown(pos).3 == pos.3 + MARGIN,
        grown(pos) == pos <==> pos == Pos(0, 0, u32::MAX, u32::MAX),
{
}

/// After `n` frames of growth each edge has moved outward by `n` margins, as
/// far as the coordinate range lets it.
pub proof fn lemma_grown_by_margins(pos: Pos, n: nat)
    ensures
        grown_by(pos, n) == Pos(
            lowered_by(pos.0, n),
            lowered_by(pos.1, n),
            raised_by(pos.2, n),
            raised_by(pos.3, n),
        ),
    decreases n,
{
    if n > 0 {
        lemma_grown_by_margins(pos, (n - 1) as nat);
    }
}

/// While the pointer rests inside an entity's box, the entity stays selected
/// and its box grows by the margin in every frame.
pub proof fn lemma_resting_pointer_grows(s: SceneView, i: int, n: nat)
    requires
        0 <= i < s.entries.len(),
        hit(s.pointer, s.entries[i].pos),
    ensures
        s.after_frames(n).pointer == s.pointer,
        s.after_frames(n).entries.len() == s.entries.len(),
        s.after_frames(n).entries[i].id == s.entries[i].id,
        s.after_frames(n).entries[i].pos == grown_by(s.entries[i].pos, n),
        n >= 1 ==> s.after_frames(n).entries[i].selected.0,
        hit(s.pointer, s.after_frames(n).entries[i].pos),
        within(s.entries[i].pos, s.after_frames(n).entries[i].pos),
    decreases n,
{
    if n > 0 {
        lemma_resting_pointer_grows(s, i, (n - 1) as nat);
    }
}

/// While the pointer rests outside an entity's box, the entity stays
/// unselected and its box stays as it is.
pub proof fn lemma_resting_pointer_freezes(s: SceneView, i: int, n: nat)
    requires
        0 <= i < s.entries.len(),
        !hit(s.pointer, s.entries[i].pos),
    ensures
        s.after_frames(n).pointer == s.pointer,
        s.after_frames(n).entries.len() == s.entries.len(),
        s.after_frames(n).entries[i].id == s.entries[i].id,
        s.after_frames(n).entries[i].pos == s.entries[i].pos,
        n >= 1 ==> !s.after_frames(n).entries[i].selected.0,
    decreases n,
{
    if n > 0 {
        lemma_resting_pointer_freezes(s, i, (n - 1) as nat);
    }
}

/// An entity that a frame left selected stays selected while the pointer
/// rests, and every further frame grows its box by the margin; the box never
/// shrinks.
pub proof fn lemma_selected_keeps_growing(s: SceneView, i: int, n: nat)
    requires
        0 <= i < s.entries.len(),
        s.after_frame().entries[i].selected.0,
    ensures
        s.after_frame().after_frames(n).entries[i].selected.0,
        s.after_frame().after_frames(n).entries[i].pos == grown_by(
            s.after_frame().entries[i].pos,
            n,
        ),
        within(s.entries[i].pos, s.after_frame().after_frames(n).entries[i].pos),
{
    lemma_resting_pointer_grows(s.after_frame(), i, n);
}

/// An entity that a frame left unselected stays unselected while the pointer
/// rests, and its box stays as it is.
pub proof fn lemma_unselected_stays_frozen(s: SceneView, i: int, n: nat)
    requires
        0 <= i < s.entries.len(),
        !s.after_frame().entries[i].selected.0,
    ensures
        !s.after_frame().after_frames(n).entries[i].selected.0,
        s.after_frame().after_frames(n).entries[i].pos == s.entries[i].pos,
{
    lemma_resting_pointer_freezes(s.after_frame(), i, n);
}

/// A frame leaves the queue empty, so a scene that starts with an empty queue
/// finds it empty whenever the pointer is updated for the next frame.
pub proof fn lemma_queue_empty_between_frames(s: SceneView, moves: Seq<MousePosition>)
    requires
        s.commands.len() == 0,
    ensures
        s.played(moves).commands.len() == 0,
        s.after_frame().commands.len() == 0,
    decreases moves.len(),
{
}

/// Every command that the selection system queues selects an entity that the
/// pointer hit.
pub proof fn lemma_highlights_name_hit_entries(
    pointer: MousePosition,
    entries: Seq<Entry>,
    k: int,
)
    requires
        0 <= k < highlights(pointer, entries).len(),
    ensures
        exists|i: int|
            0 <= i < entries.len() && hit(pointer, entries[i].pos) && highlights(
                pointer,
                entries,
            )[k] == DrawCommand::Select(#[trigger] entries[i].id),
    decreases entries.len(),
{
    let front = entries.drop_last();
    let last = entries.len() - 1;
    if hit(pointer, entries.last().pos) && k == highlights(pointer, front).len() {
        assert(highlights(pointer, entries)[k] == DrawCommand::Select(entries[last].id));
    } else {
        lemma_highlights_name_hit_entries(pointer, front, k);
        let i = choose|i: int|
            0 <= i < front.len() && hit(pointer, front[i].pos) && highlights(pointer, front)[k]
                == DrawCommand::Select(#[trigger] front[i].id);
        assert(entries[i] == front[i]);
    }
}

/// Among entities with distinct identities, the selection system queues one
/// command for an entity that the pointer hit and none for any other.
pub proof fn lemma_highlights_once_per_hit(pointer: MousePosition, entries: Seq<Entry>, i: int)
    requires
        0 <= i < entries.len(),
        forall|a: int, b: int|
            0 <= a < b < entries.len() ==> (#[trigger] entries[a]).id != (#[trigger] entries[b]).id,
    ensures
        occurrences(highlights(pointer, entries), DrawCommand::Select(entries[i].id)) == if hit(
            pointer,
            entries[i].pos,
        ) {
            1nat
        } else {
            0nat
        },
    decreases entries.len(),
{
    let front = entries.drop_last();
    let last = entries.len() - 1;
    let wanted = DrawCommand::Select(entries[i].id);
    let queued = highlights(pointer, front);
    assert forall|a: int, b: int| 0 <= a < b < front.len() implies (#[trigger] front[a]).id != (
    #[trigger] front[b]).id by {
        assert(front[a] == entries[a] && front[b] == entries[b]);
    }
    if i == last {
        assert forall|k: int| 0 <= k < queued.len() implies queued[k] != wanted by {
            lemma_highlights_name_hit_entries(pointer, front, k);
            let j = choose|j: int|
                0 <= j < front.len() && hit(pointer, front[j].pos) && queued[k]
                    == DrawCommand::Select(#[trigger] front[j].id);
            assert(front[j] == entries[j]);
        }
        lemma_occurrences_absent(queued, wanted);
    } else {
        assert(front[i] == entries[i]);
        lemma_highlights_once_per_hit(pointer, front, i);
        assert(entries[i].id != entries[last].id);
    }
    if hit(pointer, entries.last().pos) {
        assert(queued.push(DrawCommand::Select(entries.last().id)).drop_last() =~= queued);
    }
}

/// After the selection system ran on an empty queue, the queue holds exactly
/// one `Select` for every entity selected in that frame and none for the
/// others.
pub proof fn lemma_one_command_per_selected(s: SceneView, i: int)
    requires
        s.entries_wf(),
        s.commands.len() == 0,
        0 <= i < s.entries.len(),
    ensures
        occurrences(s.after_selection().commands, DrawCommand::Select(s.entries[i].id))
            == if s.after_selection().entries[i].selected.0 {
            1nat
        } else {
            0nat
        },
{
    assert(s.after_selection().commands =~= highlights(s.pointer, s.entries));
    lemma_highlights_once_per_hit(s.pointer, s.entries, i);
}

/// The walk from the root of a tree visits every element exactly once and
/// nothing else, however deep the tree is.
pub proof fn lemma_walk_visits_each_once(g: Seq<ElementView>, x: Identity)
    requires
        tree_shaped(g),
    ensures
        occurrences(visit_order(g, Identity(0)), x) == if x.0 < g.len() {
            1nat
        } else {
            0nat
        },
{
    lemma_tree_walk(g);
}

/// The walk below a childless element visits the element alone.
pub proof fn lemma_childless_walk(g: Seq<ElementView>, id: Identity)
    requires
        id.0 < g.len(),
        g[id.0 as int].children().len() == 0,
    ensures
        visit_order(g, id) == seq![id],
{
    assert(visit_children(g, id, 0) =~= Seq::<Identity>::empty());
    assert(visit_order(g, id) =~= seq![id]);
}

} // verus!
