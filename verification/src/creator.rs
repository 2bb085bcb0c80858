//! The element creator: the object that owns the world and the scene graph,
//! keeps their identities in step, and advances the scene frame by frame.

use vstd::prelude::*;
use crate::canvas::{frame_ops, render, CanvasOp};
use crate::counting::occurrences;
use crate::scene::{
    extended, graph_wf, lemma_grafted_tree, lemma_root_graph_wf, root_graph, views, ElementView,
    UiElement,
};
use crate::selection::{highlights, stepped_all, SysA};
use crate::store::{
    fresh_world, read_commands, read_entries, read_pointer, spawn, world_commands, world_entries,
    world_issued, world_pointer, world_ready, write_commands, write_entries, write_pointer,
};
use crate::types::{DrawCommand, Entry, Identity, MousePosition, Pos, Position, Selected};

verus! {

/// The parent named in a call does not resolve to a container of the graph.
#[derive(Debug, Clone, Copy, PartialEq, Eq, Structural)]
pub struct InvalidParentError {
    /// The identity that was given as parent.
    pub parent: Identity,
}

/// What the input source reports.
#[derive(Debug, Clone, Copy, PartialEq, Eq, Structural)]
pub enum InputEvent {
    /// The pointer is now at `(x, y)`.
    PointerMoved(u32, u32),
    /// The user asked to quit.
    CancelRequested,
}

/// The first request to cancel among `events` stands at index `n`.
pub open spec fn first_cancel(events: Seq<InputEvent>, n: int) -> bool {
    &&& 0 <= n < events.len()
    &&& events[n] == InputEvent::CancelRequested
    &&& forall|j: int| 0 <= j < n ==> events[j] != InputEvent::CancelRequested
}

/// The state of an [`ElementCreator`] as mathematical values.
pub struct SceneView {
    /// The identity that the next element will get.
    pub next_id: nat,
    /// The scene graph, addressed by identity.
    pub elements: Seq<ElementView>,
    /// The entities that carry a box and a flag, in the world's join order.
    pub entries: Seq<Entry>,
    /// The pointer resource.
    pub pointer: MousePosition,
    /// The queue of pending draw commands.
    pub commands: Seq<DrawCommand>,
}

impl SceneView {
    /// A scene as [`ElementCreator::new`] makes it: the root alone, no
    /// entity, the pointer at the origin, nothing queued.
    pub open spec fn initial() -> SceneView {
        SceneView {
            next_id: 1,
            elements: root_graph(),
            entries: Seq::empty(),
            pointer: MousePosition(0, 0),
            commands: Seq::empty(),
        }
    }

    /// Every entity carries an identity that was issued after the root's, and
    /// no two carry the same.
    pub open spec fn entries_wf(self) -> bool {
        &&& forall|i: int|
            0 <= i < self.entries.len() ==> 1 <= (#[trigger] self.entries[i]).id.0 < self.next_id
        &&& forall|i: int, j: int|
            0 <= i < j < self.entries.len() ==> (#[trigger] self.entries[i]).id != (
            #[trigger] self.entries[j]).id
    }

    /// The graph is well-formed and holds no element for an identity that
    /// was not issued yet.
    pub open spec fn scene_wf(self) -> bool {
        graph_wf(self.elements) && self.elements.len() <= self.next_id
    }

    /// The graph holds an element for every identity issued so far.
    pub open spec fn caught_up(self) -> bool {
        self.elements.len() == self.next_id
    }

    /// `parent` names a container of the graph.
    pub open spec fn accepts_parent(self, parent: Identity) -> bool {
        parent.0 < self.elements.len() && self.elements[parent.0 as int] is Square
    }

    /// The scene after the pointer moved to `(x, y)`.
    pub open spec fn after_move(self, x: u32, y: u32) -> SceneView {
        SceneView { pointer: MousePosition(x, y), ..self }
    }

    /// The scene after the selection system ran once: every entity stepped,
    /// the frame's highlights appended to the queue.
    pub open spec fn after_selection(self) -> SceneView {
        SceneView {
            entries: stepped_all(self.pointer, self.entries),
            commands: self.commands + highlights(self.pointer, self.entries),
            ..self
        }
    }

    /// The scene after the queue was cleared.
    pub open spec fn after_clear(self) -> SceneView {
        SceneView { commands: Seq::empty(), ..self }
    }

    /// The scene after one whole frame: the selection system, then the
    /// renderer's clearing of the queue.
    pub open spec fn after_frame(self) -> SceneView {
        self.after_selection().after_clear()
    }

    /// The scene after `n` frames during which the pointer rests.
    pub open spec fn after_frames(self, n: nat) -> SceneView
        decreases n,
    {
        if n == 0 {
            self
        } else {
            self.after_frames((n - 1) as nat).after_frame()
        }
    }

    /// The scene after one frame for each position in `moves`, the pointer
    /// being set to that position before the frame runs.
    pub open spec fn played(self, moves: Seq<MousePosition>) -> SceneView
        decreases moves.len(),
    {
        if moves.len() == 0 {
            self
        } else {
            self.played(moves.drop_last()).after_move(moves.last().0, moves.last().1).after_frame()
        }
    }

    /// The scene after the input source reported `events`, none of them a
    /// request to cancel: the pointer rests where the last motion put it.
    pub open spec fn after_moves(self, events: Seq<InputEvent>) -> SceneView
        decreases events.len(),
    {
        if events.len() == 0 {
            self
        } else {
            let heard = self.after_moves(events.drop_last());
            match events.last() {
                InputEvent::PointerMoved(x, y) => heard.after_move(x, y),
                InputEvent::CancelRequested => heard,
            }
        }
    }

    /// `next` is this scene after one more identity was issued to a new
    /// entity.  The entity joins the entries exactly if it got both a box and
    /// a flag; the world decides its place among them.
    pub open spec fn bootstraps(
        self,
        next: SceneView,
        pos: Option<Pos>,
        selected: Option<Selected>,
    ) -> bool {
        &&& next.next_id == self.next_id + 1
        &&& next.elements == self.elements
        &&& next.pointer == self.pointer
        &&& next.commands == self.commands
        &&& match (pos, selected) {
            (Some(p), Some(s)) => exists|k: int|
                0 <= k <= self.entries.len() && next.entries == #[trigger] self.entries.insert(
                    k,
                    Entry { id: Identity(self.next_id as u16), pos: p, selected: s },
                ),
            _ => next.entries == self.entries,
        }
    }

    /// `next` is this scene after a rectangle with the corners `corner1` and
    /// `corner2` was added below `parent`: a new entity with that box, not
    /// selected, and a new childless container at the end of the graph, listed
    /// last among the parent's children.
    pub open spec fn adds_square(
        self,
        next: SceneView,
        corner1: Position,
        corner2: Position,
        parent: Identity,
    ) -> bool {
        &&& next.next_id == self.next_id + 1
        &&& next.elements == extended(self.elements, parent, corner1, corner2)
        &&& next.pointer == self.pointer
        &&& next.commands == self.commands
        &&& exists|k: int|
            0 <= k <= self.entries.len() && next.entries == #[trigger] self.entries.insert(
                k,
                Entry {
                    id: Identity(self.next_id as u16),
                    pos: Pos(corner1.0, corner1.1, corner2.0, corner2.1),
                    selected: Selected(false),
                },
            )
    }
}

/// Owner of the simulation world and of the scene graph.
pub struct ElementCreator {
    latest_id: u16,
    world: specs::World,
    ui: Vec<UiElement>,
}

impl View for ElementCreator {
    type V = SceneView;

    closed spec fn view(&self) -> SceneView {
        SceneView {
            next_id: self.latest_id as nat,
            elements: views(self.ui@),
            entries: world_entries(self.world),
            pointer: world_pointer(self.world),
            commands: world_commands(self.world),
        }
    }
}

/// Inserting `e`, whose identity is the next to issue, keeps the entries
/// well-formed under the raised counter.
proof fn lemma_insert_keeps_entries_wf(before: SceneView, after: SceneView, k: int, e: Entry)
    requires
        before.entries_wf(),
        0 <= k <= before.entries.len(),
        1 <= e.id.0 == before.next_id,
        after.next_id == before.next_id + 1,
        after.entries == before.entries.insert(k, e),
    ensures
        after.entries_wf(),
{
    let old_entries = before.entries;
    let new_entries = after.entries;
    assert forall|i: int| 0 <= i < new_entries.len() implies 1 <= (#[trigger] new_entries[i]).id.0
        < after.next_id by {
        if i < k {
            assert(new_entries[i] == old_entries[i]);
        } else if i > k {
            assert(new_entries[i] == old_entries[i - 1]);
        }
    }
    assert forall|i: int, j: int| 0 <= i < j < new_entries.len() implies (
    #[trigger] new_entries[i]).id != (#[trigger] new_entries[j]).id by {
        let a = if i < k {
            i
        } else {
            i - 1
        };
        let b = if j < k {
            j
        } else {
            j - 1
        };
        if i != k {
            assert(new_entries[i] == old_entries[a]);
        }
        if j != k {
            assert(new_entries[j] == old_entries[b]);
        }
    }
}

impl ElementCreator {
    /// The world is set up for the three component kinds and the two
    /// resources, and has room for as many entities as identities can be
    /// issued.
    pub closed spec fn store_ready(&self) -> bool {
        world_ready(self.world) && world_issued(self.world) <= self.latest_id && 1
            <= self.latest_id
    }

    /// The world is usable and its entities carry distinct, issued identities.
    pub open spec fn store_wf(&self) -> bool {
        self.store_ready() && self@.entries_wf()
    }

    /// The whole object is consistent: the world, and the scene graph with
    /// elements for issued identities only.
    pub open spec fn wf(&self) -> bool {
        self.store_wf() && self@.scene_wf()
    }

    /// A creator with the root container alone, spanning `(0, 0)` to
    /// `(400, 400)` at identity 0.
    pub fn new() -> (creator: Self)
        ensures
            creator.wf(),
            creator@ == SceneView::initial(),
    {
        let world = fresh_world(MousePosition(0, 0), Vec::new());
        let mut ui: Vec<UiElement> = Vec::new();
        ui.push(UiElement::Square(Position(0, 0), Position(400, 400), Vec::new()));
        let creator = ElementCreator { latest_id: 1, world, ui };
        proof {
            lemma_root_graph_wf();
            assert(creator@.elements =~= root_graph());
        }
        creator
    }

    /// Issues the next identity and creates an entity that carries it,
    /// together with the components given.  The scene graph is not touched, so
    /// it lags behind the identities from then on unless the caller is
    /// [`ElementCreator::add_square`], which stores the element.
    pub fn bootstrap_new_entity(&mut self, pos: Option<Pos>, selected: Option<Selected>) -> (id:
        Identity)
        requires
            old(self).store_wf(),
            old(self)@.next_id < u16::MAX,
        ensures
            final(self).store_wf(),
            id.0 == old(self)@.next_id,
            old(self)@.bootstraps(final(self)@, pos, selected),
    {
        let id = Identity(self.latest_id);
        let ghost before = self@;
        self.latest_id += 1;
        spawn(&mut self.world, id, pos, selected);
        proof {
            match (pos, selected) {
                (Some(p), Some(s)) => {
                    let e = Entry { id: id, pos: p, selected: s };
                    let k = choose|k: int|
                        0 <= k <= before.entries.len() && self@.entries
                            == #[trigger] before.entries.insert(k, e);
                    lemma_insert_keeps_entries_wf(before, self@, k, e);
                },
                _ => {},
            }
        }
        id
    }

    /// Hands out the world itself.  Whatever the caller does to it shows in
    /// the entries, the pointer and the queue of this creator afterwards.
    pub fn expose_world(&mut self) -> (world: &mut specs::World)
        ensures
            old(self).store_ready() ==> world_ready(*world) && world_issued(*world) <= old(
                self,
            )@.next_id,
            old(self).store_ready() && world_ready(*final(world)) && world_issued(*final(world))
                <= old(self)@.next_id ==> final(self).store_ready(),
            world_entries(*world) == old(self)@.entries,
            world_pointer(*world) == old(self)@.pointer,
            world_commands(*world) == old(self)@.commands,
            final(self)@ == (SceneView {
                entries: world_entries(*final(world)),
                pointer: world_pointer(*final(world)),
                commands: world_commands(*final(world)),
                ..old(self)@
            }),
    {
        &mut self.world
    }

    /// Adds a rectangle with the corners `corners.0` and `corners.1` as the
    /// last child of `child_of`, and returns its identity.  The rectangle gets
    /// an entity whose box spans the corners and whose flag is off.  If
    /// `child_of` names no container of the graph, nothing changes.  The graph
    /// must not lag behind the identities: the element is stored at the slot
    /// of its identity, which has to be the end of the graph.
    pub fn add_square(&mut self, corners: (Position, Position), child_of: Identity) -> (r: Result<
        Identity,
        InvalidParentError,
    >)
        requires
            old(self).wf(),
            old(self)@.caught_up(),
            old(self)@.next_id < u16::MAX,
        ensures
            final(self).wf(),
            final(self)@.caught_up(),
            match r {
                Ok(id) => {
                    &&& old(self)@.accepts_parent(child_of)
                    &&& id.0 == old(self)@.next_id
                    &&& old(self)@.adds_square(final(self)@, corners.0, corners.1, child_of)
                    &&& id.0 < final(self)@.elements.len()
                    &&& occurrences(final(self)@.elements[child_of.0 as int].children(), id) == 1
                },
                Err(e) => {
                    &&& !old(self)@.accepts_parent(child_of)
                    &&& e.parent == child_of
                    &&& final(self)@ == old(self)@
                },
            },
    {
        let (corner1, corner2) = corners;
        let parent = child_of.0 as usize;
        if parent >= self.ui.len() {
            return Err(InvalidParentError { parent: child_of });
        }
        match &self.ui[parent] {
            UiElement::Text(..) => {
                return Err(InvalidParentError { parent: child_of });
            },
            UiElement::Square(..) => {},
        }
        let ghost before = self@;
        let pos = Pos(corner1.0, corner1.1, corner2.0, corner2.1);
        let id = self.bootstrap_new_entity(Some(pos), Some(Selected(false)));
        self.ui[parent].add_child(id);
        self.ui.insert(id.0 as usize, UiElement::Square(corner1, corner2, Vec::new()));
        proof {
            assert(self@.elements =~= extended(before.elements, child_of, corner1, corner2));
            lemma_grafted_tree(
                before.elements,
                child_of,
                ElementView::Square(corner1, corner2, Seq::empty()),
            );
        }
        Ok(id)
    }

    /// The canvas operations that draw the scene graph, with the elements
    /// that `dc` selects highlighted.  The commands are only read.
    pub fn draw_to_canvas(&self, dc: &mut Vec<DrawCommand>) -> (ops: Vec<CanvasOp>)
        requires
            self@.scene_wf(),
        ensures
            ops@ == frame_ops(self@.elements, old(dc)@),
            *final(dc) == *old(dc),
    {
        render(&self.ui, dc)
    }

    /// Runs the selection system once on the world.
    pub fn dispatch(&mut self)
        requires
            old(self).store_wf(),
        ensures
            final(self).store_wf(),
            final(self)@ == old(self)@.after_selection(),
    {
        let pointer = read_pointer(&self.world);
        let mut entries = read_entries(&self.world);
        let mut commands = read_commands(&self.world);
        let mut system = SysA;
        system.run(&pointer, &mut entries, &mut commands);
        write_entries(&mut self.world, &entries);
        write_commands(&mut self.world, commands);
        proof {
            let before = old(self)@.entries;
            assert forall|i: int| 0 <= i < before.len() implies (#[trigger] self@.entries[i]).id
                == before[i].id by {}
        }
    }

    /// Tells the world where the pointer is now.
    pub fn update_pointer(&mut self, x: u32, y: u32)
        requires
            old(self).store_ready(),
        ensures
            final(self).store_ready(),
            final(self)@ == old(self)@.after_move(x, y),
    {
        let mut pointer = read_pointer(&self.world);
        pointer.update_position(x, y);
        write_pointer(&mut self.world, pointer);
    }

    /// Takes one event from the input source and says whether the frame loop
    /// goes on.  A pointer motion updates the pointer resource; a request to
    /// cancel changes nothing and ends the loop.
    pub fn handle_event(&mut self, event: InputEvent) -> (running: bool)
        requires
            old(self).store_ready(),
        ensures
            final(self).store_ready(),
            match event {
                InputEvent::PointerMoved(x, y) => running && final(self)@ == old(
                    self,
                )@.after_move(x, y),
                InputEvent::CancelRequested => !running && final(self)@ == old(self)@,
            },
    {
        match event {
            InputEvent::PointerMoved(x, y) => {
                self.update_pointer(x, y);
                true
            },
            InputEvent::CancelRequested => false,
        }
    }

    /// Empties the queue of draw commands.
    pub fn clear_draw_commands(&mut self)
        requires
            old(self).store_ready(),
        ensures
            final(self).store_ready(),
            final(self)@ == old(self)@.after_clear(),
    {
        write_commands(&mut self.world, Vec::new());
    }

    /// Advances the scene by one frame: runs the selection system, renders
    /// the graph with the queued highlights, and clears the queue.  Returns
    /// the canvas operations of the frame.
    pub fn step(&mut self) -> (ops: Vec<CanvasOp>)
        requires
            old(self).wf(),
        ensures
            final(self).wf(),
            final(self)@ == old(self)@.after_frame(),
            ops@ == frame_ops(old(self)@.elements, old(self)@.after_selection().commands),
    {
        self.dispatch();
        let mut dc = read_commands(&self.world);
        let ops = self.draw_to_canvas(&mut dc);
        self.clear_draw_commands();
        ops
    }

    /// One turn of the frame loop.  The events that the input source has
    /// pending are taken in order; a request to cancel ends the turn at once
    /// and the loop with it, and nothing is returned.  Otherwise the frame runs
    /// as in [`ElementCreator::step`] and its canvas operations are returned.
    pub fn frame(&mut self, events: &Vec<InputEvent>) -> (drawn: Option<Vec<CanvasOp>>)
        requires
            old(self).wf(),
        ensures
            final(self).wf(),
            match drawn {
                Some(ops) => {
                    let ready = old(self)@.after_moves(events@);
                    &&& forall|j: int|
                        0 <= j < events.len() ==> events@[j] != InputEvent::CancelRequested
                    &&& final(self)@ == ready.after_frame()
                    &&& ops@ == frame_ops(ready.elements, ready.after_selection().commands)
                },
                None => exists|n: int| #[trigger]
                    first_cancel(events@, n) && final(self)@ == old(self)@.after_moves(
                        events@.take(n),
                    ),
            },
    {
        let mut i: usize = 0;
        while i < events.len()
            invariant
                i <= events.len(),
                self.wf(),
                forall|j: int| 0 <= j < i ==> events@[j] != InputEvent::CancelRequested,
                self@ == old(self)@.after_moves(events@.take(i as int)),
            decreases events.len() - i,
        {
            let running = self.handle_event(events[i]);
            if !running {
                assert(first_cancel(events@, i as int));
                return None;
            }
            proof {
                assert(events@.take(i + 1).drop_last() =~= events@.take(i as int));
            }
            i += 1;
        }
        proof {
            assert(events@.take(i as int) =~= events@);
        }
        Some(self.step())
    }

    /// The pointer resource.
    pub fn pointer(&self) -> (pointer: MousePosition)
        requires
            self.store_ready(),
        ensures
            pointer == self@.pointer,
    {
        read_pointer(&self.world)
    }

    /// The entities that carry a box and a flag, in the world's join order.
    pub fn entries(&self) -> (entries: Vec<Entry>)
        requires
            self.store_ready(),
        ensures
            entries@ == self@.entries,
    {
        read_entries(&self.world)
    }

    /// The box and flag attached to `id`, if an entity carries them.
    pub fn entry(&self, id: Identity) -> (found: Option<Entry>)
        requires
            self.store_ready(),
        ensures
            match found {
                Some(e) => e.id == id && exists|i: int|
                    0 <= i < self@.entries.len() && #[trigger] self@.entries[i] == e && forall|
                        j: int,
                    | 0 <= j < i ==> (#[trigger] self@.entries[j]).id != id,
                None => forall|i: int|
                    0 <= i < self@.entries.len() ==> (#[trigger] self@.entries[i]).id != id,
            },
    {
        let entries = read_entries(&self.world);
        let mut i: usize = 0;
        while i < entries.len()
            invariant
                i <= entries.len(),
                entries@ == self@.entries,
                forall|j: int| 0 <= j < i ==> (#[trigger] entries@[j]).id != id,
            decreases entries.len() - i,
        {
            if entries[i].id.0 == id.0 {
                return Some(entries[i]);
            }
            i += 1;
        }
        None
    }

    /// A copy of the queue of draw commands.
    pub fn draw_commands(&self) -> (commands: Vec<DrawCommand>)
        requires
            self.store_ready(),
        ensures
            commands@ == self@.commands,
    {
        read_commands(&self.world)
    }

    /// The identity that the next element will get, as a number.
    pub fn latest_id(&self) -> (next: u16)
        ensures
            next == self@.next_id,
    {
        self.latest_id
    }

    /// How many elements the scene graph holds.
    pub fn len(&self) -> (n: usize)
        ensures
            n == self@.elements.len(),
    {
        self.ui.len()
    }

    /// The element stored for `id`, if one is.
    pub fn element(&self, id: Identity) -> (found: Option<&UiElement>)
        ensures
            match found {
                Some(e) => id.0 < self@.elements.len() && e@ == self@.elements[id.0 as int],
                None => id.0 >= self@.elements.len(),
            },
    {
        let index = id.0 as usize;
        if index < self.ui.len() {
            Some(&self.ui[index])
        } else {
            None
        }
    }
}

} // verus!
