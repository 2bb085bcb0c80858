//! The plain values that the world, the selection system and the scene graph
//! exchange.

use vstd::prelude::*;

verus! {

/// Handle naming one scene element.  The same number is the element's index in
/// the scene graph and the value of the `Identity` component of its entity.
#[derive(Debug, Clone, Copy, PartialEq, Eq, PartialOrd, Ord, Structural)]
pub struct Identity(pub u16);

/// A point of the screen.
#[derive(Debug, Clone, Copy, PartialEq, Eq, Structural)]
pub struct Position(pub u32, pub u32);

/// The bounding box of an entity: `(x_min, y_min, x_max, y_max)`, both edges
/// included.
#[derive(Debug, Clone, Copy, PartialEq, Eq, Structural)]
pub struct Pos(pub u32, pub u32, pub u32, pub u32);

/// Whether the pointer was inside the entity's box in the last frame.
#[derive(Debug, Clone, Copy, PartialEq, Eq, Structural)]
pub struct Selected(pub bool);

/// The latest known pointer position, a resource shared by the whole world.
#[derive(Debug, Clone, Copy, PartialEq, Eq, Structural)]
pub struct MousePosition(pub u32, pub u32);

/// An instruction from the selection system to the renderer.
#[derive(Debug, Clone, Copy, PartialEq, Eq, Structural)]
pub enum DrawCommand {
    /// Draw the element with this identity highlighted.
    Select(Identity),
}

/// One entity as the selection system sees it: the three components that the
/// join yields together.
#[derive(Debug, Clone, Copy, PartialEq, Eq, Structural)]
pub struct Entry {
    /// The identity that the entity carries.
    pub id: Identity,
    /// Its bounding box.
    pub pos: Pos,
    /// Its selection flag.
    pub selected: Selected,
}

impl Default for MousePosition {
    fn default() -> (p: MousePosition)
        ensures
            p == MousePosition(0, 0),
    {
        MousePosition(0, 0)
    }
}

impl MousePosition {
    /// Replaces the stored position by `(x, y)`.
    pub fn update_position(&mut self, x: u32, y: u32)
        ensures
            *final(self) == MousePosition(x, y),
    {
        self.0 = x;
        self.1 = y;
    }
}

} // verus!
