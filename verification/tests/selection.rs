use ecs_gui::{DrawCommand, Entry, Identity, MousePosition, Pos, Selected, SysA, MARGIN};

fn entry(id: u16, pos: Pos, selected: bool) -> Entry {
    Entry { id: Identity(id), pos, selected: Selected(selected) }
}

#[test]
fn margin_is_five() {
    assert_eq!(MARGIN, 5);
}

#[test]
fn box_contains_its_edges() {
    let b = Pos(10, 20, 30, 40);
    assert!(b.contains(&MousePosition(10, 20)));
    assert!(b.contains(&MousePosition(30, 40)));
    assert!(b.contains(&MousePosition(10, 40)));
    assert!(b.contains(&MousePosition(20, 30)));
    assert!(!b.contains(&MousePosition(9, 30)));
    assert!(!b.contains(&MousePosition(31, 30)));
    assert!(!b.contains(&MousePosition(20, 19)));
    assert!(!b.contains(&MousePosition(20, 41)));
}

#[test]
fn inverted_box_contains_nothing() {
    let b = Pos(30, 30, 10, 10);
    assert!(!b.contains(&MousePosition(20, 20)));
    assert!(!b.contains(&MousePosition(30, 30)));
    assert!(!b.contains(&MousePosition(10, 10)));
}

#[test]
fn grow_moves_every_edge_outward() {
    let mut b = Pos(10, 20, 30, 40);
    b.grow();
    assert_eq!(b, Pos(5, 15, 35, 45));
    b.grow();
    assert_eq!(b, Pos(0, 10, 40, 50));
    b.grow();
    assert_eq!(b, Pos(0, 5, 45, 55));
}

#[test]
fn grow_saturates() {
    let mut b = Pos(4, 5, u32::MAX - 5, u32::MAX - 4);
    b.grow();
    assert_eq!(b, Pos(0, 0, u32::MAX, u32::MAX));
    b.grow();
    assert_eq!(b, Pos(0, 0, u32::MAX, u32::MAX));
}

#[test]
fn run_steps_every_entry_and_queues_the_hits_in_order() {
    let mut entries = vec![
        entry(1, Pos(0, 0, 50, 50), false),
        entry(2, Pos(200, 200, 300, 300), true),
        entry(3, Pos(5, 5, 25, 25), false),
    ];
    let mut queue = vec![DrawCommand::Select(Identity(9))];
    SysA.run(&MousePosition(10, 10), &mut entries, &mut queue);
    assert_eq!(
        entries,
        vec![
            entry(1, Pos(0, 0, 55, 55), true),
            entry(2, Pos(200, 200, 300, 300), false),
            entry(3, Pos(0, 0, 30, 30), true),
        ]
    );
    assert_eq!(
        queue,
        vec![
            DrawCommand::Select(Identity(9)),
            DrawCommand::Select(Identity(1)),
            DrawCommand::Select(Identity(3)),
        ]
    );
}

#[test]
fn run_on_nothing_changes_nothing() {
    let mut entries: Vec<Entry> = Vec::new();
    let mut queue: Vec<DrawCommand> = Vec::new();
    SysA.run(&MousePosition(1, 1), &mut entries, &mut queue);
    assert!(entries.is_empty());
    assert!(queue.is_empty());
}

#[test]
fn overlapping_entities_are_all_selected() {
    let mut entries = vec![entry(1, Pos(0, 0, 10, 10), false), entry(2, Pos(0, 0, 10, 10), false)];
    let mut queue = Vec::new();
    SysA.run(&MousePosition(10, 0), &mut entries, &mut queue);
    assert_eq!(entries[0].selected, Selected(true));
    assert_eq!(entries[1].selected, Selected(true));
    assert_eq!(queue, vec![DrawCommand::Select(Identity(1)), DrawCommand::Select(Identity(2))]);
}
