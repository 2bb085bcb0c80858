//! A minimal interactive scene engine.
//!
//! Rectangular elements live twice: as entities of a `specs` world, where a
//! bounding box and a selection flag are attached to each, and as nodes of a
//! scene graph that is walked to draw them.  Once per frame the selection
//! system marks the elements under the pointer, grows their boxes and queues a
//! highlight command for each; the traversal then turns the graph and the
//! queue into the sequence of canvas operations of that frame.

pub mod canvas;
pub mod counting;
pub mod creator;
pub mod laws;
pub mod scene;
pub mod selection;
pub mod store;
pub mod types;
pub mod walk;

pub use canvas::{render, CanvasOp};
pub use creator::{ElementCreator, InputEvent, InvalidParentError, SceneView};
pub use scene::{ElementView, UiElement};
pub use selection::{SysA, MARGIN};
pub use types::{DrawCommand, Entry, Identity, MousePosition, Pos, Position, Selected};
