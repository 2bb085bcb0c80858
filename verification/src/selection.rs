//! The selection system: the per-frame rule that decides which entities lie
//! under the pointer, grows their boxes and queues their highlights.

use vstd::prelude::*;
use crate::types::{DrawCommand, Entry, MousePosition, Pos, Selected};

verus! {

/// By how much a selected box moves each of its four edges outward per frame.
pub const MARGIN: u32 = 5;

/// The pointer lies inside the box, edges included.
pub open spec fn hit(pointer: MousePosition, pos: Pos) -> bool {
    pointer.0 >= pos.0 && pointer.1 >= pos.1 && pointer.0 <= pos.2 && pointer.1 <= pos.3
}

/// A coordinate moved `MARGIN` towards zero, stopping at zero.
pub open spec fn lowered(c: u32) -> u32 {
    if c >= MARGIN {
        (c - MARGIN) as u32
    } else {
        0
    }
}

/// A coordinate moved `MARGIN` away from zero, stopping at the largest one.
pub open spec fn raised(c: u32) -> u32 {
    if c <= u32::MAX - MARGIN {
        (c + MARGIN) as u32
    } else {
        u32::MAX
    }
}

/// The box after one frame of growth: every edge moved outward by `MARGIN`,
/// as far as the coordinate range lets it.
pub open spec fn grown(pos: Pos) -> Pos {
    Pos(lowered(pos.0), lowered(pos.1), raised(pos.2), raised(pos.3))
}

/// The first box lies inside the second.
pub open spec fn within(inner: Pos, outer: Pos) -> bool {
    outer.0 <= inner.0 && outer.1 <= inner.1 && inner.2 <= outer.2 && inner.3 <= outer.3
}

/// One entity after the frame: selected and grown if the pointer hit its box
/// as it was before the frame, deselected and unchanged otherwise.
pub open spec fn stepped(pointer: MousePosition, e: Entry) -> Entry {
    if hit(pointer, e.pos) {
        Entry { id: e.id, pos: grown(e.pos), selected: Selected(true) }
    } else {
        Entry { id: e.id, pos: e.pos, selected: Selected(false) }
    }
}

/// All entities after the frame, each in its place.
pub open spec fn stepped_all(pointer: MousePosition, entries: Seq<Entry>) -> Seq<Entry> {
    Seq::new(entries.len(), |i: int| stepped(pointer, entries[i]))
}

/// The commands of the frame: one `Select` for each entity that the pointer
/// hit, in the order of the entities.
pub open spec fn highlights(pointer: MousePosition, entries: Seq<Entry>) -> Seq<DrawCommand>
    decreases entries.len(),
{
    if entries.len() == 0 {
        Seq::empty()
    } else {
        let before = highlights(pointer, entries.drop_last());
        if hit(pointer, entries.last().pos) {
            before.push(DrawCommand::Select(entries.last().id))
        } else {
            before
        }
    }
}

impl Pos {
    /// Whether the pointer lies inside the box, edges included.
    pub fn contains(&self, pointer: &MousePosition) -> (inside: bool)
        ensures
            inside == hit(*pointer, *self),
    {
        pointer.0 >= self.0 && pointer.1 >= self.1 && pointer.0 <= self.2 && pointer.1 <= self.3
    }

    /// Moves every edge outward by `MARGIN`, stopping at the ends of the
    /// coordinate range.
    pub fn grow(&mut self)
        ensures
            *final(self) == grown(*old(self)),
    {
        self.0 = self.0.saturating_sub(MARGIN);
        self.1 = self.1.saturating_sub(MARGIN);
        self.2 = self.2.saturating_add(MARGIN);
        self.3 = self.3.saturating_add(MARGIN);
    }
}

/// The selection system.
pub struct SysA;

impl SysA {
    /// Runs one frame over the joined entities.  Each entity's flag is set to
    /// whether the pointer lies in its box as the box was before the frame;
    /// a selected entity's box grows, and a `Select` command with its identity
    /// is appended to the queue.  Entities do not influence each other.
    pub fn run(
        &mut self,
        mouse_position: &MousePosition,
        entries: &mut Vec<Entry>,
        draw_commands: &mut Vec<DrawCommand>,
    )
        ensures
            final(entries)@ == stepped_all(*mouse_position, old(entries)@),
            final(draw_commands)@ == old(draw_commands)@ + highlights(
                *mouse_position,
                old(entries)@,
            ),
    {
        let ghost before = entries@;
        let ghost queue = draw_commands@;
        let mut i: usize = 0;
        while i < entries.len()
            invariant
                i <= entries.len(),
                entries.len() == before.len(),
                forall|k: int| 0 <= k < i ==> entries@[k] == stepped(*mouse_position, before[k]),
                forall|k: int| i <= k < entries.len() ==> entries@[k] == before[k],
                draw_commands@ == queue + highlights(*mouse_position, before.take(i as int)),
            decreases entries.len() - i,
        {
            let mut entry = entries[i];
            entry.selected = Selected(entry.pos.contains(mouse_position));
            if entry.selected.0 {
                entry.pos.grow();
                draw_commands.push(DrawCommand::Select(entry.id));
            }
            entries.set(i, entry);
            proof {
                let seen = before.take(i + 1);
                assert(seen.drop_last() =~= before.take(i as int));
                assert(seen.last() == before[i as int]);
                assert(draw_commands@ =~= queue + highlights(*mouse_position, seen));
            }
            i += 1;
        }
        proof {
            assert(before.take(i as int) =~= before);
            assert(entries@ =~= stepped_all(*mouse_position, before));
        }
    }
}

} // verus!
