//! Rendering: the walk over the scene graph that produces, in order, the
//! operations a canvas has to perform for one frame.

use vstd::prelude::*;
use crate::scene::{
    links_forward, pending, views, visit_children, visit_order, ElementView, UiElement,
};
use crate::types::{DrawCommand, Identity};

verus! {

/// One call on the canvas.
#[derive(Debug, Clone, Copy, PartialEq, Eq, Structural)]
pub enum CanvasOp {
    /// Choose the stroke colour, as red, green, blue.
    SetDrawColor(u8, u8, u8),
    /// Fill the canvas with the current colour.
    Clear,
    /// Outline the rectangle at `(x, y)` with the given width and height.
    DrawRect(u32, u32, u32, u32),
    /// Show the finished frame.
    Present,
}

/// The colour the canvas is cleared with.
pub open spec fn background() -> CanvasOp {
    CanvasOp::SetDrawColor(0, 0, 0)
}

/// The stroke of an element that no command refers to.
pub open spec fn default_stroke() -> CanvasOp {
    CanvasOp::SetDrawColor(255, 0, 0)
}

/// The stroke of an element that a command selects.
pub open spec fn highlight_stroke() -> CanvasOp {
    CanvasOp::SetDrawColor(0, 0, 255)
}

/// Some pending command selects `id`.
pub open spec fn highlighted(commands: Seq<DrawCommand>, id: Identity) -> bool {
    commands.contains(DrawCommand::Select(id))
}

/// The extent from `lo` to `hi` along one axis: `hi - lo`, and nothing where
/// `hi` lies before `lo`.
pub open spec fn span(lo: u32, hi: u32) -> u32 {
    if hi >= lo {
        (hi - lo) as u32
    } else {
        0
    }
}

/// What visiting one element sends to the canvas: the default stroke, the
/// highlight stroke if the element is `lit`, and for a container its outline.
pub open spec fn element_ops(e: ElementView, lit: bool) -> Seq<CanvasOp> {
    let stroke = if lit {
        seq![default_stroke(), highlight_stroke()]
    } else {
        seq![default_stroke()]
    };
    match e {
        ElementView::Text(..) => stroke,
        ElementView::Square(corner1, corner2, _) => stroke.push(
            CanvasOp::DrawRect(
                corner1.0,
                corner1.1,
                span(corner1.0, corner2.0),
                span(corner1.1, corner2.1),
            ),
        ),
    }
}

/// The operations of the visits in `order`, one element after the other.
pub open spec fn ops_along(
    g: Seq<ElementView>,
    commands: Seq<DrawCommand>,
    order: Seq<Identity>,
) -> Seq<CanvasOp>
    decreases order.len(),
{
    if order.len() == 0 {
        Seq::empty()
    } else {
        ops_along(g, commands, order.drop_last()) + element_ops(
            g[order.last().0 as int],
            highlighted(commands, order.last()),
        )
    }
}

/// A whole frame: clear to the background, visit the graph from the root,
/// present.
pub open spec fn frame_ops(g: Seq<ElementView>, commands: Seq<DrawCommand>) -> Seq<CanvasOp> {
    seq![background(), CanvasOp::Clear] + ops_along(
        g,
        commands,
        visit_order(g, Identity(0)),
    ) + seq![CanvasOp::Present]
}

/// Whether some command in `dc` selects `id`.
pub fn is_highlighted(dc: &Vec<DrawCommand>, id: Identity) -> (lit: bool)
    ensures
        lit == highlighted(dc@, id),
{
    let mut i: usize = 0;
    while i < dc.len()
        invariant
            i <= dc.len(),
            forall|k: int| 0 <= k < i ==> dc@[k] != DrawCommand::Select(id),
        decreases dc.len() - i,
    {
        match dc[i] {
            DrawCommand::Select(selected) => {
                if selected.0 == id.0 {
                    return true;
                }
            },
        }
        i += 1;
    }
    false
}

/// The extent between two coordinates, as [`span`] defines it.
pub fn extent(lo: u32, hi: u32) -> (d: u32)
    ensures
        d == span(lo, hi),
{
    if hi >= lo {
        hi - lo
    } else {
        0
    }
}

/// Walks the scene graph depth-first from the root with an explicit work
/// stack and returns the canvas operations of the frame.  Children are pushed
/// in list order and popped last first, so among siblings the youngest is
/// drawn first.
pub fn render(ui: &Vec<UiElement>, dc: &Vec<DrawCommand>) -> (ops: Vec<CanvasOp>)
    requires
        ui.len() >= 1,
        links_forward(views(ui@)),
    ensures
        ops@ == frame_ops(views(ui@), dc@),
{
    let ghost g = views(ui@);
    let mut ops: Vec<CanvasOp> = Vec::new();
    ops.push(CanvasOp::SetDrawColor(0, 0, 0));
    ops.push(CanvasOp::Clear);
    let mut element_stack: Vec<Identity> = Vec::new();
    element_stack.push(Identity(0));
    let ghost mut visited: Seq<Identity> = Seq::empty();
    proof {
        assert(element_stack@.drop_last() =~= Seq::<Identity>::empty());
        assert(element_stack@.last() == Identity(0));
        assert(pending(g, Seq::<Identity>::empty()) =~= Seq::<Identity>::empty());
        assert(pending(g, element_stack@) =~= visit_order(g, Identity(0)));
    }
    while element_stack.len() > 0
        invariant
            g == views(ui@),
            links_forward(g),
            forall|i: int| 0 <= i < element_stack.len() ==> element_stack@[i].0 < ui.len(),
            visited + pending(g, element_stack@) == visit_order(g, Identity(0)),
            ops@ == seq![background(), CanvasOp::Clear] + ops_along(g, dc@, visited),
        decreases pending(g, element_stack@).len(),
    {
        let ghost before = element_stack@;
        let current_element = element_stack.pop().unwrap();
        let ghost rest = element_stack@;
        let ui_element = &ui[current_element.0 as usize];
        let lit = is_highlighted(dc, current_element);
        let ghost ops_before = ops@;
        ops.push(CanvasOp::SetDrawColor(255, 0, 0));
        if lit {
            ops.push(CanvasOp::SetDrawColor(0, 0, 255));
        }
        proof {
            assert(before.drop_last() == rest);
            assert(pending(g, before) == visit_order(g, current_element) + pending(g, rest));
            assert(g[current_element.0 as int] == ui_element@);
        }
        match ui_element {
            UiElement::Square(corner1, corner2, children) => {
                let mut j: usize = 0;
                while j < children.len()
                    invariant
                        j <= children.len(),
                        links_forward(g),
                        current_element.0 < g.len(),
                        g[current_element.0 as int].children() == children@,
                        g.len() == ui.len(),
                        forall|i: int|
                            0 <= i < element_stack.len() ==> element_stack@[i].0 < ui.len(),
                        pending(g, element_stack@) == visit_children(g, current_element, j as int)
                            + pending(g, rest),
                    decreases children.len() - j,
                {
                    let child = children[j];
                    let ghost below = element_stack@;
                    element_stack.push(child);
                    proof {
                        assert(child == g[current_element.0 as int].children()[j as int]);
                        assert(element_stack@.drop_last() == below);
                        assert(pending(g, element_stack@) == visit_order(g, child) + pending(
                            g,
                            below,
                        ));
                        assert(visit_children(g, current_element, j + 1) == visit_order(g, child)
                            + visit_children(g, current_element, j as int));
                    }
                    j += 1;
                }
                let width = extent(corner1.0, corner2.0);
                let height = extent(corner1.1, corner2.1);
                ops.push(CanvasOp::DrawRect(corner1.0, corner1.1, width, height));
            },
            UiElement::Text(..) => {},
        }
        proof {
            assert(ops@ =~= ops_before + element_ops(
                g[current_element.0 as int],
                highlighted(dc@, current_element),
            ));
            assert(pending(g, element_stack@) == visit_children(
                g,
                current_element,
                g[current_element.0 as int].children().len() as int,
            ) + pending(g, rest));
            let longer = visited.push(current_element);
            assert(longer.drop_last() == visited);
            assert(longer + pending(g, element_stack@) =~= visited + pending(g, before));
            assert(ops@ =~= seq![background(), CanvasOp::Clear] + ops_along(g, dc@, longer));
            visited = longer;
        }
    }
    proof {
        assert(pending(g, element_stack@) =~= Seq::<Identity>::empty());
        assert(visited =~= visit_order(g, Identity(0)));
    }
    ops.push(CanvasOp::Present);
    ops
}

} // verus!
