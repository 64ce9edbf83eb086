//! The drag state machine.

use vstd::prelude::*;
use crate::entity::EntityId;
use crate::hover::Hovered;
use crate::ray::Vec3;

verus! {

/// The drag record: the world position that the entity had when the drag
/// began.
#[derive(Debug, PartialEq)]
pub struct Drag<S> {
    pub start: Vec3<S>,
}

impl<S: Copy> Clone for Drag<S> {
    fn clone(&self) -> (r: Self)
        ensures
            r == *self,
    {
        *self
    }
}

impl<S: Copy> Copy for Drag<S> {

}

/// Where a dragged entity is to be put.
#[derive(Debug, PartialEq)]
pub struct DragMove<S> {
    pub entity: EntityId,
    pub position: Vec3<S>,
}

/// Whether an entity is being dragged, and which. The drag record exists from
/// the press to the release.
#[derive(Debug, PartialEq)]
pub enum DragState<S> {
    NotDragging,
    Dragging { entity: EntityId, record: Drag<S> },
}

impl<S: Copy> DragState<S> {
    /// The state after a press, when `hovered` is the hover reference and
    /// `position` is the world position of the hovered entity if that entity
    /// can be dragged. A drag begins only from rest, on a hovered entity that
    /// can be dragged.
    pub open spec fn after_press(self, hovered: Option<EntityId>, position: Option<Vec3<S>>) -> Self {
        match (self, hovered, position) {
            (DragState::NotDragging, Some(entity), Some(start)) => DragState::Dragging {
                entity,
                record: Drag { start },
            },
            _ => self,
        }
    }

    /// Where the dragged entity goes when the ray crosses the horizontal
    /// plane through its starting height at `crossing`: to the crossing,
    /// at the height at which it started. Nothing moves at rest, nor where
    /// the ray does not cross the plane.
    pub open spec fn move_for(self, crossing: Option<Vec3<S>>) -> Option<DragMove<S>> {
        match (self, crossing) {
            (DragState::Dragging { entity, record }, Some(point)) => Some(
                DragMove { entity, position: Vec3 { x: point.x, y: record.start.y, z: point.z } },
            ),
            _ => None,
        }
    }

    /// Nothing is being dragged.
    pub fn new() -> (r: Self)
        ensures
            r is NotDragging,
    {
        DragState::NotDragging
    }

    /// A press-input edge.
    pub fn press(&mut self, hovered: &Hovered, position: Option<Vec3<S>>)
        ensures
            *final(self) == old(self).after_press(hovered.inner, position),
    {
        match (&*self, hovered.inner, position) {
            (DragState::NotDragging, Some(entity), Some(start)) => {
                *self = DragState::Dragging { entity, record: Drag { start } };
            },
            _ => {},
        }
    }

    /// The height of the horizontal plane in which the dragged entity moves:
    /// that of its starting position. None at rest.
    pub fn plane_height(&self) -> (r: Option<S>)
        ensures
            r == match *self {
                DragState::Dragging { entity, record } => Some(record.start.y),
                DragState::NotDragging => None,
            },
    {
        match self {
            DragState::Dragging { entity: _, record } => Some(record.start.y),
            DragState::NotDragging => None,
        }
    }

    /// A ray update. `crossing` is the point at which the ray crosses the
    /// plane at [`plane_height`](Self::plane_height), or nothing where the
    /// ray runs too nearly parallel to the plane to cross it.
    pub fn ray_moved(&self, crossing: Option<Vec3<S>>) -> (r: Option<DragMove<S>>)
        ensures
            r == self.move_for(crossing),
    {
        match (self, crossing) {
            (DragState::Dragging { entity, record }, Some(point)) => Some(
                DragMove {
                    entity: *entity,
                    position: Vec3 { x: point.x, y: record.start.y, z: point.z },
                },
            ),
            _ => None,
        }
    }

    /// A release-input edge: the drag ends and its record is discarded.
    pub fn release(&mut self)
        ensures
            *final(self) is NotDragging,
    {
        *self = DragState::NotDragging;
    }
}

} // verus!
