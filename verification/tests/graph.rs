use ecs_gui::canvas::{extent, is_highlighted};
use ecs_gui::{render, CanvasOp, DrawCommand, ElementCreator, Identity, Position, UiElement};

fn square(x1: u32, y1: u32, x2: u32, y2: u32, children: &[u16]) -> UiElement {
    UiElement::Square(
        Position(x1, y1),
        Position(x2, y2),
        children.iter().map(|c| Identity(*c)).collect(),
    )
}

fn rects(ops: &[CanvasOp]) -> Vec<CanvasOp> {
    ops.iter().filter(|op| matches!(op, CanvasOp::DrawRect(..))).cloned().collect()
}

#[test]
fn add_child_appends_to_a_container() {
    let mut e = square(0, 0, 1, 1, &[4]);
    e.add_child(Identity(7));
    e.add_child(Identity(4));
    match e {
        UiElement::Square(_, _, children) => {
            assert_eq!(children, vec![Identity(4), Identity(7), Identity(4)])
        }
        _ => panic!("not a container"),
    }
}

#[test]
fn add_child_leaves_a_text_leaf_alone() {
    let mut e = UiElement::Text(Position(3, 4), String::from("label"));
    e.add_child(Identity(1));
    match e {
        UiElement::Text(anchor, text) => {
            assert_eq!(anchor, Position(3, 4));
            assert_eq!(text, "label");
        }
        _ => panic!("not a text leaf"),
    }
}

#[test]
fn extent_is_the_difference_or_nothing() {
    assert_eq!(extent(5, 25), 20);
    assert_eq!(extent(7, 7), 0);
    assert_eq!(extent(25, 5), 0);
    assert_eq!(extent(0, u32::MAX), u32::MAX);
}

#[test]
fn highlight_needs_a_matching_command() {
    let dc = vec![DrawCommand::Select(Identity(2)), DrawCommand::Select(Identity(5))];
    assert!(is_highlighted(&dc, Identity(2)));
    assert!(is_highlighted(&dc, Identity(5)));
    assert!(!is_highlighted(&dc, Identity(0)));
    assert!(!is_highlighted(&Vec::new(), Identity(2)));
}

#[test]
fn lone_root_renders_only_itself() {
    let ui = vec![square(0, 0, 400, 400, &[])];
    assert_eq!(
        render(&ui, &Vec::new()),
        vec![
            CanvasOp::SetDrawColor(0, 0, 0),
            CanvasOp::Clear,
            CanvasOp::SetDrawColor(255, 0, 0),
            CanvasOp::DrawRect(0, 0, 400, 400),
            CanvasOp::Present,
        ]
    );
}

#[test]
fn deep_tree_is_walked_once_per_element() {
    // 0 -> [1, 2], 1 -> [3, 4], 2 -> [5], 4 -> [6]
    let ui = vec![
        square(0, 0, 100, 100, &[1, 2]),
        square(1, 0, 100, 100, &[3, 4]),
        square(2, 0, 100, 100, &[5]),
        square(3, 0, 100, 100, &[]),
        square(4, 0, 100, 100, &[6]),
        square(5, 0, 100, 100, &[]),
        square(6, 0, 100, 100, &[]),
    ];
    let ops = render(&ui, &Vec::new());
    let order: Vec<u32> = rects(&ops)
        .iter()
        .map(|op| match op {
            CanvasOp::DrawRect(x, _, _, _) => *x,
            _ => unreachable!(),
        })
        .collect();
    assert_eq!(order, vec![0, 2, 5, 1, 4, 6, 3]);
    assert_eq!(ops.len(), 2 + 7 * 2 + 1);
}

#[test]
fn text_leaf_is_visited_without_a_draw_call() {
    let ui = vec![
        square(0, 0, 10, 10, &[1, 2]),
        UiElement::Text(Position(1, 1), String::from("a")),
        square(2, 2, 6, 8, &[]),
    ];
    let dc = vec![DrawCommand::Select(Identity(1))];
    assert_eq!(
        render(&ui, &dc),
        vec![
            CanvasOp::SetDrawColor(0, 0, 0),
            CanvasOp::Clear,
            CanvasOp::SetDrawColor(255, 0, 0),
            CanvasOp::DrawRect(0, 0, 10, 10),
            CanvasOp::SetDrawColor(255, 0, 0),
            CanvasOp::DrawRect(2, 2, 4, 6),
            CanvasOp::SetDrawColor(255, 0, 0),
            CanvasOp::SetDrawColor(0, 0, 255),
            CanvasOp::Present,
        ]
    );
}

#[test]
fn repeated_command_highlights_once() {
    let ui = vec![square(0, 0, 10, 10, &[])];
    let dc = vec![DrawCommand::Select(Identity(0)), DrawCommand::Select(Identity(0))];
    assert_eq!(
        render(&ui, &dc),
        vec![
            CanvasOp::SetDrawColor(0, 0, 0),
            CanvasOp::Clear,
            CanvasOp::SetDrawColor(255, 0, 0),
            CanvasOp::SetDrawColor(0, 0, 255),
            CanvasOp::DrawRect(0, 0, 10, 10),
            CanvasOp::Present,
        ]
    );
}

#[test]
fn child_listed_twice_is_visited_twice() {
    let ui = vec![square(0, 0, 10, 10, &[1, 1]), square(1, 1, 2, 2, &[])];
    assert_eq!(
        rects(&render(&ui, &Vec::new())),
        vec![
            CanvasOp::DrawRect(0, 0, 10, 10),
            CanvasOp::DrawRect(1, 1, 1, 1),
            CanvasOp::DrawRect(1, 1, 1, 1),
        ]
    );
}

#[test]
fn inverted_corners_draw_an_empty_outline() {
    let ui = vec![square(30, 40, 10, 50, &[])];
    assert_eq!(rects(&render(&ui, &Vec::new())), vec![CanvasOp::DrawRect(30, 40, 0, 10)]);
}

#[test]
fn walk_of_a_built_scene_meets_every_element_once() {
    let mut creator = ElementCreator::new();
    let mut parents = vec![Identity(0)];
    for i in 0..20u32 {
        let parent = parents[(i as usize * 7) % parents.len()];
        let id = creator.add_square((Position(i + 1, 0), Position(500, 500)), parent).unwrap();
        parents.push(id);
    }
    let mut dc = Vec::new();
    let ops = creator.draw_to_canvas(&mut dc);
    let mut seen: Vec<u32> = rects(&ops)
        .iter()
        .map(|op| match op {
            CanvasOp::DrawRect(x, _, _, _) => *x,
            _ => unreachable!(),
        })
        .collect();
    assert_eq!(seen.len(), 21);
    seen.sort();
    assert_eq!(seen, (0..=20).collect::<Vec<u32>>());
}
