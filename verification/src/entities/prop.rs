//! Map props: any placed object, possibly controlled by a player.
use vstd::prelude::*;

use crate::entities::entity::EntityBody;
use crate::game_config::{ObjectConfig, PrefabConfig, PrefabKind};
use crate::geometry::{Vector, COORD_LIMIT};

verus! {

/// Any prop on the map: a placed object together with its prefab.
pub struct Prop {
    pub object: ObjectConfig,
    pub prefab: PrefabConfig,
}

impl Prop {
    pub fn from_prefab(object: ObjectConfig, prefab: PrefabConfig) -> (r: Prop)
        ensures
            r.object == object,
            r.prefab == prefab,
    {
        Prop { object, prefab }
    }

    /// Props can be selected by hiding players; fixtures cannot.
    pub fn is_selectable(&self) -> (r: bool)
        ensures
            r == (self.prefab.kind is Prop),
    {
        match self.prefab.kind {
            PrefabKind::Fixture => false,
            PrefabKind::Prop => true,
        }
    }

    /// The prop's body: static for a fixture, placed and rotated per the
    /// object, with the prefab's collision rects.
    pub fn create_body(&self) -> (body: EntityBody)
        requires
            self.prefab.wf(),
            self.object.position.bounded(COORD_LIMIT as i64),
        ensures
            body.wf(),
            body.is_static == (self.prefab.kind is Fixture),
            body.position.value == self.object.position,
            body.velocity.value == (Vector { x: 0i64, y: 0i64, z: 0i64 }),
            body.rotation.value == self.object.rotation,
            body.rects.value@ == self.prefab.rects@,
    {
        EntityBody::new(
            match self.prefab.kind {
                PrefabKind::Prop => false,
                PrefabKind::Fixture => true,
            },
            self.object.position,
            Vector::zero(),
            self.object.rotation,
            crate::game_config::clone_rects(&self.prefab.rects),
        )
    }
}

} // verus!
