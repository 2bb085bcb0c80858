use ecs_gui::{
    DrawCommand, ElementCreator, Entry, Identity, MousePosition, Pos, Position, Selected,
};
use specs::WorldExt;

#[test]
fn bootstrap_issues_the_next_identity() {
    let mut creator = ElementCreator::new();
    let first = creator.bootstrap_new_entity(Some(Pos(1, 2, 3, 4)), Some(Selected(true)));
    let second = creator.bootstrap_new_entity(Some(Pos(5, 6, 7, 8)), Some(Selected(false)));
    assert_eq!(first, Identity(1));
    assert_eq!(second, Identity(2));
    let entries = creator.entries();
    assert_eq!(entries.len(), 2);
    let one = Entry { id: first, pos: Pos(1, 2, 3, 4), selected: Selected(true) };
    let two = Entry { id: second, pos: Pos(5, 6, 7, 8), selected: Selected(false) };
    assert!(entries.contains(&one));
    assert!(entries.contains(&two));
    assert_eq!(creator.len(), 1);
    assert_eq!(creator.latest_id(), 3);
}

#[test]
fn entity_without_all_components_is_skipped() {
    let mut creator = ElementCreator::new();
    let bare = creator.bootstrap_new_entity(None, None);
    let boxed = creator.bootstrap_new_entity(Some(Pos(0, 0, 10, 10)), None);
    let flagged = creator.bootstrap_new_entity(None, Some(Selected(false)));
    let full = creator.bootstrap_new_entity(Some(Pos(0, 0, 10, 10)), Some(Selected(false)));
    assert_eq!((bare, boxed, flagged, full), (Identity(1), Identity(2), Identity(3), Identity(4)));
    assert_eq!(creator.entry(bare), None);
    assert_eq!(creator.entry(boxed), None);
    assert_eq!(creator.entry(flagged), None);
    creator.update_pointer(5, 5);
    creator.dispatch();
    assert_eq!(
        creator.entries(),
        vec![Entry { id: full, pos: Pos(0, 0, 15, 15), selected: Selected(true) }]
    );
    assert_eq!(creator.draw_commands(), vec![DrawCommand::Select(full)]);
}

#[test]
fn pointer_written_is_pointer_read() {
    let mut creator = ElementCreator::new();
    creator.update_pointer(123, 456);
    assert_eq!(creator.pointer(), MousePosition(123, 456));
    creator.update_pointer(0, u32::MAX);
    assert_eq!(creator.pointer(), MousePosition(0, u32::MAX));
}

#[test]
fn exposed_world_is_the_creators_world() {
    let mut creator = ElementCreator::new();
    let a = creator.add_square((Position(0, 0), Position(50, 50)), Identity(0)).unwrap();
    creator.expose_world().write_resource::<MousePosition>().update_position(10, 10);
    assert_eq!(creator.pointer(), MousePosition(10, 10));
    creator.dispatch();
    let queued: Vec<DrawCommand> =
        creator.expose_world().read_resource::<Vec<DrawCommand>>().to_vec();
    assert_eq!(queued, vec![DrawCommand::Select(a)]);
    creator.expose_world().write_resource::<Vec<DrawCommand>>().clear();
    assert!(creator.draw_commands().is_empty());
}

#[test]
fn mouse_position_starts_at_the_origin() {
    assert_eq!(MousePosition::default(), MousePosition(0, 0));
    let mut p = MousePosition::default();
    p.update_position(8, 9);
    assert_eq!(p, MousePosition(8, 9));
}

#[test]
fn frames_go_on_after_a_bare_bootstrap() {
    let mut creator = ElementCreator::new();
    let a = creator.add_square((Position(0, 0), Position(50, 50)), Identity(0)).unwrap();
    let loose = creator.bootstrap_new_entity(Some(Pos(0, 0, 20, 20)), Some(Selected(false)));
    creator.update_pointer(10, 10);
    let ops = creator.step();
    assert_eq!(ops.len(), 2 + 2 + 3 + 1);
    assert_eq!(creator.entry(a).unwrap().pos, Pos(0, 0, 55, 55));
    assert_eq!(creator.entry(loose).unwrap().pos, Pos(0, 0, 25, 25));
    assert!(creator.element(loose).is_none());
}
