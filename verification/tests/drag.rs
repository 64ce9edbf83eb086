use bevy_hover::drag::{Drag, DragMove, DragState};
use bevy_hover::entity::EntityId;
use bevy_hover::hover::Hovered;
use bevy_hover::ray::Vec3;
use std::time::Duration;

const E: EntityId = EntityId(7);

fn v(x: f32, y: f32, z: f32) -> Vec3<f32> {
    Vec3 { x, y, z }
}

fn hovering(e: EntityId) -> Hovered {
    let mut hovered = Hovered::new();
    hovered.update(Some(e), Duration::from_millis(1));
    hovered
}

#[test]
fn press_drag_release() {
    let hovered = hovering(E);
    let mut drag: DragState<f32> = DragState::new();
    assert_eq!(drag, DragState::NotDragging);
    drag.press(&hovered, Some(v(1.0, 0.0, 1.0)));
    assert_eq!(drag, DragState::Dragging { entity: E, record: Drag { start: v(1.0, 0.0, 1.0) } });
    assert_eq!(drag.plane_height(), Some(0.0));
    let moved = drag.ray_moved(Some(v(2.0, 0.0, 1.0)));
    assert_eq!(moved, Some(DragMove { entity: E, position: v(2.0, 0.0, 1.0) }));
    drag.release();
    assert_eq!(drag, DragState::NotDragging);
    assert_eq!(drag.ray_moved(Some(v(3.0, 0.0, 3.0))), None);
    assert_eq!(drag.plane_height(), None);
}

#[test]
fn drag_keeps_the_starting_height() {
    let hovered = hovering(E);
    let mut drag: DragState<f32> = DragState::new();
    drag.press(&hovered, Some(v(1.0, 2.5, 1.0)));
    assert_eq!(drag.plane_height(), Some(2.5));
    let moved = drag.ray_moved(Some(v(-4.0, 9.0, 6.0)));
    assert_eq!(moved, Some(DragMove { entity: E, position: v(-4.0, 2.5, 6.0) }));
}

#[test]
fn ray_that_misses_the_plane_moves_nothing() {
    let hovered = hovering(E);
    let mut drag: DragState<f32> = DragState::new();
    drag.press(&hovered, Some(v(1.0, 0.0, 1.0)));
    assert_eq!(drag.ray_moved(None), None);
    assert_eq!(drag, DragState::Dragging { entity: E, record: Drag { start: v(1.0, 0.0, 1.0) } });
}

#[test]
fn press_needs_a_hovered_entity_that_can_be_dragged() {
    let mut drag: DragState<f32> = DragState::new();
    drag.press(&Hovered::new(), Some(v(1.0, 0.0, 1.0)));
    assert_eq!(drag, DragState::NotDragging);
    drag.press(&hovering(E), None);
    assert_eq!(drag, DragState::NotDragging);
}

#[test]
fn press_while_dragging_changes_nothing() {
    let mut drag: DragState<f32> = DragState::new();
    drag.press(&hovering(E), Some(v(1.0, 0.0, 1.0)));
    drag.press(&hovering(EntityId(8)), Some(v(5.0, 5.0, 5.0)));
    assert_eq!(drag, DragState::Dragging { entity: E, record: Drag { start: v(1.0, 0.0, 1.0) } });
}

#[test]
fn release_at_rest_stays_at_rest() {
    let mut drag: DragState<f32> = DragState::new();
    drag.release();
    assert_eq!(drag, DragState::NotDragging);
}
