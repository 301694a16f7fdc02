//! The world: the authoritative entity list, the spatial index mirroring
//! it, and the fixed-tick physics step. Every present entity appears in
//! the index exactly once, and ids are handed out monotonically and never
//! reused.
use vstd::prelude::*;

use crate::entities::entity::{Entity, EntityBody, EntityId, EntityKind};
use crate::entities::prop::Prop;
use crate::game_config::{GameConfig, ObjectConfig, PrefabConfig, PrefabKind};
use crate::geometry::{Frac, Ray, Rect, Vector, COORD_LIMIT};
use crate::incremental_value::IncrementalValueDiff;
use crate::quad_tree::{QuadTree, TreeBounds, TreeEntry};
use crate::utils::Counter;

verus! {

/// How many entities of a list carry the given id.
pub open spec fn entity_id_count(s: Seq<Entity>, id: EntityId) -> int
    decreases s.len(),
{
    if s.len() == 0 {
        0
    } else {
        entity_id_count(s.drop_last(), id) + if s.last().id == id {
            1int
        } else {
            0int
        }
    }
}

pub proof fn lemma_entity_id_count_nonneg(s: Seq<Entity>, id: EntityId)
    ensures
        entity_id_count(s, id) >= 0,
    decreases s.len(),
{
    if s.len() > 0 {
        lemma_entity_id_count_nonneg(s.drop_last(), id);
    }
}

/// An entity at an index makes its id's count positive.
pub proof fn lemma_entity_id_count_at_least_one(s: Seq<Entity>, id: EntityId, i: int)
    requires
        0 <= i < s.len(),
        s[i].id == id,
    ensures
        entity_id_count(s, id) >= 1,
    decreases s.len(),
{
    lemma_entity_id_count_nonneg(s.drop_last(), id);
    if i < s.len() - 1 {
        lemma_entity_id_count_at_least_one(s.drop_last(), id, i);
    }
}

/// Pushing an entity raises its id's count by one.
pub proof fn lemma_entity_id_count_push(s: Seq<Entity>, e: Entity, id: EntityId)
    ensures
        entity_id_count(s.push(e), id) == entity_id_count(s, id) + if e.id == id {
            1int
        } else {
            0int
        },
{
    assert(s.push(e).drop_last() =~= s);
    assert(s.push(e).last() == e);
}

/// Removing the entity at an index lowers its id's count by one.
pub proof fn lemma_entity_id_count_remove(s: Seq<Entity>, i: int, id: EntityId)
    requires
        0 <= i < s.len(),
    ensures
        entity_id_count(s.remove(i), id) + (if s[i].id == id {
            1int
        } else {
            0int
        }) == entity_id_count(s, id),
    decreases s.len(),
{
    if i == s.len() - 1 {
        assert(s.remove(i) =~= s.drop_last());
    } else {
        lemma_entity_id_count_remove(s.drop_last(), i, id);
        assert(s.remove(i).drop_last() =~= s.drop_last().remove(i));
        assert(s.remove(i).last() == s.last());
    }
}

/// An update in place keeps every id count when the id is kept.
pub proof fn lemma_entity_id_count_update(s: Seq<Entity>, i: int, e: Entity, id: EntityId)
    requires
        0 <= i < s.len(),
        e.id == s[i].id,
    ensures
        entity_id_count(s.update(i, e), id) == entity_id_count(s, id),
    decreases s.len(),
{
    if i == s.len() - 1 {
        assert(s.update(i, e).drop_last() =~= s.drop_last());
        assert(s.update(i, e).last() == e);
    } else {
        lemma_entity_id_count_update(s.drop_last(), i, e, id);
        assert(s.update(i, e).drop_last() =~= s.drop_last().update(i, e));
        assert(s.update(i, e).last() == s.last());
    }
}

/// Two distinct indices with one id force a count of at least two.
pub proof fn lemma_entity_two_count(s: Seq<Entity>, i: int, j: int, id: EntityId)
    requires
        0 <= i < j < s.len(),
        s[i].id == id,
        s[j].id == id,
    ensures
        entity_id_count(s, id) >= 2,
    decreases s.len(),
{
    if j == s.len() - 1 {
        lemma_entity_id_count_at_least_one(s.drop_last(), id, i);
    } else {
        lemma_entity_two_count(s.drop_last(), i, j, id);
    }
}

/// With unique ids, the index holding an id is the only one.
pub proof fn lemma_entity_unique_index(s: Seq<Entity>, i: int, id: EntityId)
    requires
        0 <= i < s.len(),
        s[i].id == id,
        forall|other: EntityId| entity_id_count(s, other) <= 1,
    ensures
        forall|j: int| 0 <= j < s.len() && (#[trigger] s[j]).id == id ==> j == i,
{
    assert forall|j: int| 0 <= j < s.len() && (#[trigger] s[j]).id == id implies j == i by {
        if j < i {
            lemma_entity_two_count(s, j, i, id);
        } else if j > i {
            lemma_entity_two_count(s, i, j, id);
        }
    }
}

/// The placement snapshot the index keeps of an entity.
pub open spec fn spec_entry_of(e: Entity) -> TreeEntry {
    TreeEntry {
        id: e.id,
        pos: e.body.position.value,
        bounding: e.body.bounding_rect,
        rects: e.body.rotated_rects,
        sleeping: e.body.is_sleeping.value,
        is_static: e.body.is_static,
    }
}

/// This holds the game's map data.
pub struct GameWorld {
    /// The entities in the map.
    pub entities: Vec<Entity>,
    /// The spatial index over them.
    pub quad_tree: QuadTree,
    /// Ids destroyed within the last update, drained after deltas go out.
    pub destroyed_entities: Vec<EntityId>,
    /// Hands out entity ids, monotonically; ids are never reused.
    pub entity_counter: Counter,
}

impl GameWorld {
    /// Every entity well formed, ids unique and below the counter, and the
    /// index holding each present id exactly once and no other.
    pub open spec fn wf(&self) -> bool {
        &&& self.quad_tree.wf()
        &&& forall|i: int| 0 <= i < self.entities@.len() ==> (#[trigger] self.entities@[i]).wf()
        &&& forall|id: EntityId|
            #[trigger] self.quad_tree.spec_id_count(id) == entity_id_count(self.entities@, id)
        &&& forall|id: EntityId| entity_id_count(self.entities@, id) <= 1
        &&& forall|i: int|
            0 <= i < self.entities@.len() ==> (#[trigger] self.entities@[i]).id
                < self.entity_counter.count
        &&& self.entity_counter.increment == 1
    }

    pub fn new(config: &GameConfig) -> (w: GameWorld)
        requires
            config.wf(),
        ensures
            w.wf(),
            w.entities@.len() == 0,
            w.destroyed_entities@.len() == 0,
    {
        let world_max_size = config.map_size;
        let world_bounds = TreeBounds::new(
            -(world_max_size / 2),
            -(world_max_size / 2),
            world_max_size,
            world_max_size,
        );
        let w = GameWorld {
            entities: Vec::new(),
            quad_tree: QuadTree::new(0, world_bounds),
            destroyed_entities: Vec::new(),
            entity_counter: Counter::new(0, 1),
        };
        proof {
            assert forall|id: EntityId| entity_id_count(w.entities@, id) <= 1 by {}
            assert forall|id: EntityId| #[trigger]
                w.quad_tree.spec_id_count(id) == entity_id_count(w.entities@, id) by {
                crate::quad_tree::lemma_id_count_nonneg(w.quad_tree.spec_entries(), id);
            }
        }
        w
    }

    /// The id the next inserted entity will get.
    pub fn next_id(&mut self) -> (r: EntityId)
        requires
            old(self).wf(),
        ensures
            final(self).wf(),
            r == old(self).entity_counter.count,
            final(self).entity_counter.count == if old(self).entity_counter.count < u64::MAX {
                (old(self).entity_counter.count + 1) as u64
            } else {
                u64::MAX
            },
            final(self).entities == old(self).entities,
            final(self).quad_tree == old(self).quad_tree,
            final(self).destroyed_entities == old(self).destroyed_entities,
    {
        self.entity_counter.tick()
    }

    /// The index of the entity with the given id, if present.
    pub fn entity_index_with_id(&self, id: EntityId) -> (r: Option<usize>)
        ensures
            match r {
                Some(i) => i < self.entities@.len() && self.entities@[i as int].id == id,
                None => forall|i: int|
                    0 <= i < self.entities@.len() ==> (#[trigger] self.entities@[i]).id != id,
            },
    {
        let n = self.entities.len();
        let mut i: usize = 0;
        while i < n
            invariant
                n == self.entities@.len(),
                i <= n,
                forall|j: int| 0 <= j < i ==> (#[trigger] self.entities@[j]).id != id,
            decreases n - i,
        {
            if self.entities[i].id == id {
                return Some(i);
            }
            i += 1;
        }
        None
    }

    /// Builds the index's placement snapshot of an entity.
    fn make_entry(e: &Entity) -> (r: TreeEntry)
        requires
            e.wf(),
        ensures
            r.id == spec_entry_of(*e).id,
            r.pos == spec_entry_of(*e).pos,
            r.bounding == spec_entry_of(*e).bounding,
            r.rects@ == spec_entry_of(*e).rects@,
            r.sleeping == spec_entry_of(*e).sleeping,
            r.is_static == spec_entry_of(*e).is_static,
            r.wf(),
    {
        proof {
            crate::entities::entity::lemma_rotated_rects_wf(
                e.body.rects.value@,
                e.body.rotation.value,
            );
            if e.body.bounding_rect is Some {
                crate::entities::entity::lemma_bounding_range(e.body);
                crate::entities::entity::lemma_bbox_contains_rects(e.body.rotated_rects@);
            }
        }
        TreeEntry {
            id: e.id,
            pos: *e.body.get_pos(),
            bounding: match e.body.bounding_rect() {
                Some(b) => Some(*b),
                None => None,
            },
            rects: crate::game_config::clone_rects(&e.body.rotated_rects),
            sleeping: *e.body.is_sleeping(),
            is_static: e.body.is_static(),
        }
    }

    /// Inserts an entity into the world and mirrors it in the index.
    pub fn insert_entity(&mut self, entity: Entity)
        requires
            old(self).wf(),
            entity.wf(),
            entity_id_count(old(self).entities@, entity.id) == 0,
            entity.id < old(self).entity_counter.count,
        ensures
            final(self).wf(),
            final(self).entities@ == old(self).entities@.push(entity),
            final(self).destroyed_entities == old(self).destroyed_entities,
            final(self).entity_counter == old(self).entity_counter,
    {
        let entry = GameWorld::make_entry(&entity);
        proof {
            lemma_entity_id_count_push(self.entities@, entity, entity.id);
        }
        self.entities.push(entity);
        self.quad_tree.insert(entry);
        proof {
            assert forall|id: EntityId| entity_id_count(self.entities@, id) <= 1 by {
                lemma_entity_id_count_push(old(self).entities@, entity, id);
            }
            assert forall|id: EntityId| #[trigger]
                self.quad_tree.spec_id_count(id) == entity_id_count(self.entities@, id) by {
                lemma_entity_id_count_push(old(self).entities@, entity, id);
            }
        }
    }

    /// Removes an entity by id from the world and from the index, and
    /// records the id as destroyed this tick; an absent id is an invalid
    /// deletion and changes nothing.
    pub fn remove_entity_with_id(&mut self, id: EntityId) -> (r: Result<Entity, ()>)
        requires
            old(self).wf(),
        ensures
            final(self).wf(),
            final(self).entity_counter == old(self).entity_counter,
            match r {
                Ok(e) => {
                    &&& e.id == id
                    &&& entity_id_count(old(self).entities@, id) == 1
                    &&& entity_id_count(final(self).entities@, id) == 0
                    &&& final(self).entities@.len() + 1 == old(self).entities@.len()
                    &&& final(self).destroyed_entities@ == old(self).destroyed_entities@.push(id)
                    &&& forall|other: EntityId|
                        other != id ==> entity_id_count(final(self).entities@, other)
                            == entity_id_count(old(self).entities@, other)
                },
                Err(_) => {
                    &&& entity_id_count(old(self).entities@, id) == 0
                    &&& final(self).entities == old(self).entities
                    &&& final(self).destroyed_entities == old(self).destroyed_entities
                },
            },
    {
        let idx = self.entity_index_with_id(id);
        match idx {
            Some(i) => {
                proof {
                    lemma_entity_id_count_at_least_one(self.entities@, id, i as int);
                }
                let entity = self.entities.remove(i);
                let removed = self.quad_tree.remove(id);
                self.destroyed_entities.push(id);
                proof {
                    assert forall|other: EntityId| entity_id_count(self.entities@, other)
                        <= 1 by {
                        lemma_entity_id_count_remove(old(self).entities@, i as int, other);
                        lemma_entity_id_count_nonneg(self.entities@, other);
                    }
                    assert forall|other: EntityId| #[trigger]
                        self.quad_tree.spec_id_count(other) == entity_id_count(
                        self.entities@,
                        other,
                    ) by {
                        lemma_entity_id_count_remove(old(self).entities@, i as int, other);
                        lemma_entity_id_count_nonneg(self.entities@, other);
                        if removed is None {
                            assert(old(self).quad_tree.spec_id_count(id) == 0);
                            assert(false);
                        }
                    }
                    assert forall|other: EntityId|
                        other != id implies entity_id_count(self.entities@, other)
                        == entity_id_count(old(self).entities@, other) by {
                        lemma_entity_id_count_remove(old(self).entities@, i as int, other);
                    }
                    assert(entity_id_count(self.entities@, id) == 0) by {
                        lemma_entity_id_count_remove(old(self).entities@, i as int, id);
                        lemma_entity_id_count_nonneg(self.entities@, id);
                        lemma_entity_id_count_at_least_one(old(self).entities@, id, i as int);
                    }
                }
                Ok(entity)
            },
            None => {
                proof {
                    lemma_no_index_count_zero(self.entities@, id);
                }
                Err(())
            },
        }
    }
}

impl GameWorld {
    /// Re-seats one entity in the index under a fresh placement snapshot.
    fn reseat(&mut self, i: usize)
        requires
            old(self).wf(),
            i < old(self).entities@.len(),
        ensures
            final(self).wf(),
            final(self).entities == old(self).entities,
            final(self).destroyed_entities == old(self).destroyed_entities,
            final(self).entity_counter == old(self).entity_counter,
    {
        let id = self.entities[i].id;
        proof {
            lemma_entity_id_count_at_least_one(self.entities@, id, i as int);
        }
        let removed = self.quad_tree.remove(id);
        proof {
            if removed is None {
                assert(false);
            }
        }
        let entry = GameWorld::make_entry(&self.entities[i]);
        self.quad_tree.insert(entry);
        proof {
            assert forall|other: EntityId| #[trigger]
                self.quad_tree.spec_id_count(other) == entity_id_count(self.entities@, other) by {}
        }
    }

    /// One physics substep: integrate every body, resolve the candidate
    /// collision pairs the index offers, re-seat everything, and refresh
    /// the per-node sleeping flags. Entity identities and order are kept,
    /// and a static body never moves.
    pub fn step(&mut self, dt_ms: u64, config: &GameConfig)
        requires
            old(self).wf(),
            config.wf(),
            dt_ms <= 1_000_000,
        ensures
            final(self).wf(),
            final(self).entities@.len() == old(self).entities@.len(),
            forall|i: int|
                0 <= i < old(self).entities@.len() ==> (#[trigger] final(self).entities@[i]).id
                    == old(self).entities@[i].id && final(self).entities@[i].kind == old(
                    self,
                ).entities@[i].kind && final(self).entities@[i].body.is_static == old(
                    self,
                ).entities@[i].body.is_static,
            forall|i: int|
                0 <= i < old(self).entities@.len() && old(self).entities@[i].body.is_static ==> (
                #[trigger] final(self).entities@[i]).body.position.value == old(
                    self,
                ).entities@[i].body.position.value,
            // A static body stays at rest and asleep through the step.
            forall|i: int|
                0 <= i < old(self).entities@.len() && old(self).entities@[i].body.is_static ==> (
                #[trigger] final(self).entities@[i]).body.velocity.value == (Vector {
                    x: 0i64,
                    y: 0i64,
                    z: 0i64,
                }) && final(self).entities@[i].body.is_sleeping.value,
            final(self).destroyed_entities == old(self).destroyed_entities,
            final(self).entity_counter == old(self).entity_counter,
    {
        let n = self.entities.len();

        // Integrate every body.
        let mut i: usize = 0;
        while i < n
            invariant
                self.wf(),
                config.wf(),
                dt_ms <= 1_000_000,
                n == self.entities@.len(),
                n == old(self).entities@.len(),
                i <= n,
                forall|p: int|
                    0 <= p < n ==> (#[trigger] self.entities@[p]).id == old(
                        self,
                    ).entities@[p].id && self.entities@[p].kind == old(self).entities@[p].kind
                        && self.entities@[p].body.is_static == old(
                        self,
                    ).entities@[p].body.is_static,
                forall|p: int|
                    0 <= p < n && old(self).entities@[p].body.is_static ==> (
                    #[trigger] self.entities@[p]).body.position.value == old(
                        self,
                    ).entities@[p].body.position.value,
                self.destroyed_entities == old(self).destroyed_entities,
                self.entity_counter == old(self).entity_counter,
                self.quad_tree == old(self).quad_tree,
            decreases n - i,
        {
            let ghost pre = self.entities@;
            let e = &mut self.entities[i];
            e.body.integrate(dt_ms, config.gravity);
            proof {
                assert forall|id: EntityId| #[trigger]
                    entity_id_count(self.entities@, id) == entity_id_count(pre, id) by {
                    lemma_entity_id_count_update(pre, i as int, self.entities@[i as int], id);
                }
            }
            i += 1;
        }

        // Resolve the candidate collision pairs.
        let mut pairs: Vec<(EntityId, EntityId)> = Vec::new();
        self.quad_tree.collision_pairs(&mut pairs);
        let np = pairs.len();
        let ghost mid = self.entities@;
        proof {
            assert(forall|q: int|
                0 <= q < n ==> (#[trigger] mid[q]).id == old(self).entities@[q].id && mid[q].kind
                    == old(self).entities@[q].kind && mid[q].body.is_static == old(
                    self,
                ).entities@[q].body.is_static);
            assert(forall|q: int|
                0 <= q < n && old(self).entities@[q].body.is_static ==> (
                #[trigger] mid[q]).body.position.value == old(
                    self,
                ).entities@[q].body.position.value);
        }
        let mut p: usize = 0;
        while p < np
            invariant
                self.wf(),
                np == pairs@.len(),
                n == self.entities@.len(),
                n == mid.len(),
                p <= np,
                forall|q: int|
                    0 <= q < n ==> (#[trigger] self.entities@[q]).id == mid[q].id
                        && self.entities@[q].kind == mid[q].kind
                        && self.entities@[q].body.is_static == mid[q].body.is_static,
                forall|q: int|
                    0 <= q < n && mid[q].body.is_static ==> (
                    #[trigger] self.entities@[q]).body.position.value
                        == mid[q].body.position.value,
                self.destroyed_entities == old(self).destroyed_entities,
                self.entity_counter == old(self).entity_counter,
            decreases np - p,
        {
            let (a, b) = pairs[p];
            let ia = self.entity_index_with_id(a);
            let ib = self.entity_index_with_id(b);
            match (ia, ib) {
                (Some(i_a), Some(i_b)) => {
                    if i_a != i_b {
                        self.collide_pair(i_a, i_b);
                    }
                },
                _ => {},
            }
            p += 1;
        }

        // Re-seat every entity under its fresh placement.
        let mut r: usize = 0;
        while r < n
            invariant
                self.wf(),
                n == self.entities@.len(),
                r <= n,
                forall|q: int|
                    0 <= q < n ==> (#[trigger] self.entities@[q]).id == old(
                        self,
                    ).entities@[q].id && self.entities@[q].kind == old(self).entities@[q].kind
                        && self.entities@[q].body.is_static == old(
                        self,
                    ).entities@[q].body.is_static,
                forall|q: int|
                    0 <= q < n && old(self).entities@[q].body.is_static ==> (
                    #[trigger] self.entities@[q]).body.position.value == old(
                        self,
                    ).entities@[q].body.position.value,
                self.destroyed_entities == old(self).destroyed_entities,
                self.entity_counter == old(self).entity_counter,
            decreases n - r,
        {
            self.reseat(r);
            r += 1;
        }
        let ghost pre_tree = self.quad_tree;
        self.quad_tree.recompute_sleep();
        proof {
            assert forall|id: EntityId| #[trigger]
                self.quad_tree.spec_id_count(id) == entity_id_count(self.entities@, id) by {
                assert(self.quad_tree.spec_entries() == pre_tree.spec_entries());
                assert(pre_tree.spec_id_count(id) == entity_id_count(self.entities@, id));
            }
        }
    }

    /// Resolves the collision of two distinct entities in place.
    fn collide_pair(&mut self, i_a: usize, i_b: usize)
        requires
            old(self).wf(),
            i_a < old(self).entities@.len(),
            i_b < old(self).entities@.len(),
            i_a != i_b,
        ensures
            final(self).wf(),
            final(self).entities@.len() == old(self).entities@.len(),
            forall|q: int|
                0 <= q < old(self).entities@.len() ==> (#[trigger] final(self).entities@[q]).id
                    == old(self).entities@[q].id && final(self).entities@[q].kind == old(
                    self,
                ).entities@[q].kind,
            forall|q: int|
                0 <= q < old(self).entities@.len() ==> (
                #[trigger] final(self).entities@[q]).body.is_static == old(
                    self,
                ).entities@[q].body.is_static,
            forall|q: int|
                0 <= q < old(self).entities@.len() && old(self).entities@[q].body.is_static ==> (
                #[trigger] final(self).entities@[q]).body.position.value == old(
                    self,
                ).entities@[q].body.position.value,
            final(self).destroyed_entities == old(self).destroyed_entities,
            final(self).entity_counter == old(self).entity_counter,
            final(self).quad_tree == old(self).quad_tree,
    {
        let ghost pre = self.entities@;
        // Take entity a out through a placeholder so both bodies can be
        // borrowed at once.
        let mut taken = placeholder_entity(self.entities[i_a].id);
        core::mem::swap(&mut taken, &mut self.entities[i_a]);
        let ghost swapped = self.entities@;
        EntityBody::collide(&mut taken.body, &mut self.entities[i_b].body);
        let ghost after_b = self.entities@;
        core::mem::swap(&mut taken, &mut self.entities[i_a]);
        proof {
            lemma_collide_from_fields(pre[i_a as int].body, swapped[i_b as int].body, 0, 0);
            if pre[i_a as int].body.is_static {
                lemma_collide_from_static_pub(pre[i_a as int].body, swapped[i_b as int].body);
            }
            if pre[i_b as int].body.is_static {
                lemma_collide_from_static_pub(pre[i_a as int].body, swapped[i_b as int].body);
            }
            assert forall|id: EntityId| #[trigger]
                entity_id_count(self.entities@, id) == entity_id_count(pre, id) by {
                lemma_entity_id_count_update(pre, i_a as int, swapped[i_a as int], id);
                lemma_entity_id_count_update(swapped, i_b as int, after_b[i_b as int], id);
                lemma_entity_id_count_update(after_b, i_a as int, self.entities@[i_a as int], id);
                assert(self.entities@ =~= after_b.update(i_a as int, self.entities@[i_a as int]));
                assert(after_b =~= swapped.update(i_b as int, after_b[i_b as int]));
                assert(swapped =~= pre.update(i_a as int, swapped[i_a as int]));
            }
        }
    }

    /// Called after each update to clear the flags.
    pub fn commit_update(&mut self)
        requires
            old(self).wf(),
        ensures
            final(self).wf(),
            final(self).entities@.len() == old(self).entities@.len(),
            forall|i: int|
                0 <= i < old(self).entities@.len() ==> (#[trigger] final(self).entities@[i]).id
                    == old(self).entities@[i].id && !final(self).entities@[i].spec_changed()
                    && !final(self).entities@[i].is_new && final(self).entities@[i].kind == old(
                    self,
                ).entities@[i].kind && final(self).entities@[i].body.position.value == old(
                    self,
                ).entities@[i].body.position.value && final(self).entities@[i].health.value == old(
                    self,
                ).entities@[i].health.value,
            final(self).destroyed_entities@.len() == 0,
            final(self).entity_counter == old(self).entity_counter,
            final(self).quad_tree == old(self).quad_tree,
    {
        let n = self.entities.len();
        let mut i: usize = 0;
        while i < n
            invariant
                self.wf(),
                n == self.entities@.len(),
                i <= n,
                forall|q: int|
                    0 <= q < n ==> (#[trigger] self.entities@[q]).id == old(
                        self,
                    ).entities@[q].id && self.entities@[q].kind == old(self).entities@[q].kind
                        && self.entities@[q].body.position.value == old(
                        self,
                    ).entities@[q].body.position.value && self.entities@[q].health.value == old(
                        self,
                    ).entities@[q].health.value,
                forall|q: int|
                    0 <= q < i ==> !(#[trigger] self.entities@[q]).spec_changed() && !self
                        .entities@[q].is_new,
                self.destroyed_entities == old(self).destroyed_entities,
                self.entity_counter == old(self).entity_counter,
                self.quad_tree == old(self).quad_tree,
            decreases n - i,
        {
            let ghost pre = self.entities@;
            let e = &mut self.entities[i];
            e.committed();
            proof {
                assert forall|id: EntityId| #[trigger]
                    entity_id_count(self.entities@, id) == entity_id_count(pre, id) by {
                    lemma_entity_id_count_update(pre, i as int, self.entities@[i as int], id);
                }
            }
            i += 1;
        }
        self.destroyed_entities.clear();
    }

    /// Whether an id was destroyed this tick.
    pub fn is_destroyed(&self, id: EntityId) -> (r: bool)
        ensures
            r == self.destroyed_entities@.contains(id),
    {
        let n = self.destroyed_entities.len();
        let mut i: usize = 0;
        while i < n
            invariant
                n == self.destroyed_entities@.len(),
                i <= n,
                forall|j: int| 0 <= j < i ==> self.destroyed_entities@[j] != id,
            decreases n - i,
        {
            if self.destroyed_entities[i] == id {
                return true;
            }
            i += 1;
        }
        false
    }

    /// Queries the index for everything touching a rect.
    pub fn query_rect_all<'a>(
        &'a self,
        rect: &Rect,
        offset: &Vector,
        use_bounding: bool,
        check_origin: bool,
        excluded: Option<EntityId>,
    ) -> (r: Vec<&'a TreeEntry>)
        requires
            self.wf(),
            rect.wf(),
            offset.bounded(COORD_LIMIT as i64),
        ensures
            forall|i: int|
                0 <= i < r@.len() ==> self.quad_tree.spec_entries().contains(*#[trigger] r@[i])
                    && crate::quad_tree::entry_hit(
                    *r@[i],
                    *rect,
                    *offset,
                    use_bounding,
                    check_origin,
                ) && crate::quad_tree::not_excluded(r@[i].id, excluded),
            forall|j: int|
                0 <= j < self.quad_tree.spec_entries().len() && crate::quad_tree::entry_vis(
                    #[trigger] self.quad_tree.spec_entries()[j],
                    *rect,
                    *offset,
                    use_bounding,
                    check_origin,
                ) && crate::quad_tree::not_excluded(self.quad_tree.spec_entries()[j].id, excluded)
                    ==> exists|i: int|
                    0 <= i < r@.len() && *r@[i] == self.quad_tree.spec_entries()[j],
    {
        self.quad_tree.query_rect_all(rect, offset, use_bounding, check_origin, excluded)
    }

    /// The first hit of a rect query, if any.
    pub fn query_rect<'a>(
        &'a self,
        rect: &Rect,
        offset: &Vector,
        use_bounding: bool,
        check_origin: bool,
        excluded: Option<EntityId>,
    ) -> (r: Option<&'a TreeEntry>)
        requires
            self.wf(),
            rect.wf(),
            offset.bounded(COORD_LIMIT as i64),
        ensures
            match r {
                Some(e) => self.quad_tree.spec_entries().contains(*e)
                    && crate::quad_tree::entry_hit(*e, *rect, *offset, use_bounding, check_origin)
                    && crate::quad_tree::not_excluded(e.id, excluded),
                None => forall|j: int|
                    0 <= j < self.quad_tree.spec_entries().len() ==> !(crate::quad_tree::entry_vis(
                        #[trigger] self.quad_tree.spec_entries()[j],
                        *rect,
                        *offset,
                        use_bounding,
                        check_origin,
                    ) && crate::quad_tree::not_excluded(
                        self.quad_tree.spec_entries()[j].id,
                        excluded,
                    )),
            },
    {
        let all = self.query_rect_all(rect, offset, use_bounding, check_origin, excluded);
        if all.len() > 0 {
            Some(all[0])
        } else {
            None
        }
    }

    /// Casts a ray through the index.
    pub fn cast_ray(&self, ray: &Ray, excluded: Option<EntityId>) -> (r: Option<(EntityId, Frac)>)
        requires
            self.wf(),
            ray.wf(),
        ensures
            match r {
                Some((id, t)) => {
                    &&& t.den > 0
                    &&& exists|j: int, k: int|
                        #[trigger] crate::quad_tree::ray_hit_at(
                            self.quad_tree.spec_entries(),
                            *ray,
                            excluded,
                            j,
                            k,
                            (t.num as int, t.den as int),
                        ) && self.quad_tree.spec_entries()[j].id == id
                    &&& forall|j: int, k: int, n: int, d: int|
                        crate::quad_tree::ray_hit_at(
                            self.quad_tree.spec_entries(),
                            *ray,
                            excluded,
                            j,
                            k,
                            (n, d),
                        ) && d > 0 ==> crate::geometry::fle((t.num as int, t.den as int), (n, d))
                },
                None => forall|j: int, k: int, n: int, d: int|
                    !crate::quad_tree::ray_hit_at(
                        self.quad_tree.spec_entries(),
                        *ray,
                        excluded,
                        j,
                        k,
                        (n, d),
                    ),
            },
    {
        self.quad_tree.cast_ray(ray, excluded)
    }
}

/// A throwaway entity used to split borrows while two bodies collide.
fn placeholder_entity(id: EntityId) -> (r: Entity)
    ensures
        r.id == id,
        r.wf(),
{
    Entity {
        id,
        is_new: true,
        kind: EntityKind::Prop(
            Prop {
                object: ObjectConfig {
                    prefab_id: String::new(),
                    position: Vector::new(0, 0, 0),
                    rotation: 0,
                    spawn_chance_milli: 0,
                },
                prefab: PrefabConfig {
                    id: String::new(),
                    kind: PrefabKind::Prop,
                    health_milli: 1,
                    asset: None,
                    rects: Vec::new(),
                    minimap_color: String::new(),
                    minimap_rects: Vec::new(),
                },
            },
        ),
        body: EntityBody::new(false, Vector::new(0, 0, 0), Vector::new(0, 0, 0), 0, Vec::new()),
        dir: crate::incremental_value::IncrementalValue::new(0),
        uses_dir: crate::incremental_value::IncrementalValue::new(false),
        health: crate::incremental_value::IncrementalValue::new(1000),
        asset: crate::incremental_value::IncrementalValue::new(String::new()),
        label: crate::incremental_value::IncrementalValue::new(None),
        selectable: crate::incremental_value::IncrementalValue::new(false),
    }
}

/// The fold of the pairwise resolution keeps both bodies' static flags.
proof fn lemma_collide_from_fields(a: EntityBody, b: EntityBody, i: int, j: int)
    ensures
        crate::entities::entity::spec_collide_from(a, b, i, j).0.is_static == a.is_static,
        crate::entities::entity::spec_collide_from(a, b, i, j).1.is_static == b.is_static,
    decreases a.rotated_rects@.len() - i, b.rotated_rects@.len() - j,
{
    if i < 0 || j < 0 || a.rotated_rects@.len() - i < 0 || b.rotated_rects@.len() - j < 0 {
    } else if i >= a.rotated_rects@.len() {
    } else if j >= b.rotated_rects@.len() {
        lemma_collide_from_fields(a, b, i + 1, 0);
    } else {
        let next = crate::entities::entity::spec_collide_rects(a, b, i, j);
        lemma_collide_from_fields(next.0, next.1, i, j + 1);
    }
}

/// The fold of the pairwise resolution never moves a static body; stated
/// for the two bodies a collision starts from. Two static bodies never
/// reach the fold at all.
proof fn lemma_collide_from_static_pub(a: EntityBody, b: EntityBody)
    requires
        a.position.value.bounded(COORD_LIMIT as i64),
        b.position.value.bounded(COORD_LIMIT as i64),
    ensures
        a.is_static ==> crate::entities::entity::spec_collide_from(a, b, 0, 0).0.position.value
            == a.position.value,
        b.is_static && !a.is_static ==> crate::entities::entity::spec_collide_from(
            a,
            b,
            0,
            0,
        ).1.position.value == b.position.value,
{
    crate::entities::entity::lemma_collide_from_static(a, b, 0, 0);
}

impl GameWorld {
    /// One full tick of physics: the will-update callbacks, two
    /// integration substeps with collision resolution, and the did-update
    /// sleep bookkeeping. Entity identities and order are kept, and a
    /// static body never moves.
    pub fn update(&mut self, dt_ms: u64, config: &GameConfig)
        requires
            old(self).wf(),
            config.wf(),
            dt_ms <= 1_000_000,
        ensures
            final(self).wf(),
            final(self).entities@.len() == old(self).entities@.len(),
            forall|i: int|
                0 <= i < old(self).entities@.len() ==> (#[trigger] final(self).entities@[i]).id
                    == old(self).entities@[i].id,
            forall|i: int|
                0 <= i < old(self).entities@.len() && old(self).entities@[i].body.is_static ==> (
                #[trigger] final(self).entities@[i]).body.position.value == old(
                    self,
                ).entities@[i].body.position.value,
            // A static body never moves: it stays static, at rest and
            // asleep through the whole tick.
            forall|i: int|
                0 <= i < old(self).entities@.len() && old(self).entities@[i].body.is_static ==> (
                #[trigger] final(self).entities@[i]).body.is_static && final(self).entities@[i].body.velocity.value == (Vector { x: 0i64, y: 0i64, z: 0i64 })
                    && final(self).entities@[i].body.is_sleeping.value,
            final(self).destroyed_entities == old(self).destroyed_entities,
            final(self).entity_counter == old(self).entity_counter,
    {
        let n = self.entities.len();

        // Tell entities the physics will update.
        let mut i: usize = 0;
        while i < n
            invariant
                self.wf(),
                config.wf(),
                dt_ms <= 1_000_000,
                n == self.entities@.len(),
                i <= n,
                forall|p: int|
                    0 <= p < n ==> (#[trigger] self.entities@[p]).id == old(self).entities@[p].id
                        && self.entities@[p].body.is_static == old(
                        self,
                    ).entities@[p].body.is_static,
                forall|p: int|
                    0 <= p < n && old(self).entities@[p].body.is_static ==> (
                    #[trigger] self.entities@[p]).body.position.value == old(
                        self,
                    ).entities@[p].body.position.value,
                self.destroyed_entities == old(self).destroyed_entities,
                self.entity_counter == old(self).entity_counter,
                self.quad_tree == old(self).quad_tree,
            decreases n - i,
        {
            let ghost pre = self.entities@;
            let e = &mut self.entities[i];
            e.physics_will_update(dt_ms, config);
            proof {
                assert forall|id: EntityId| #[trigger]
                    entity_id_count(self.entities@, id) == entity_id_count(pre, id) by {
                    lemma_entity_id_count_update(pre, i as int, self.entities@[i as int], id);
                }
            }
            i += 1;
        }

        // Update the world in substeps for collision stability.
        let interval = dt_ms / 2;
        self.step(interval, config);
        self.step(interval, config);

        // Tell entities the physics updated.
        let ghost mid = self.entities@;
        let mut j: usize = 0;
        while j < n
            invariant
                self.wf(),
                n == self.entities@.len(),
                n == mid.len(),
                j <= n,
                forall|p: int|
                    0 <= p < n ==> (#[trigger] self.entities@[p]).id == mid[p].id
                        && self.entities@[p].body.is_static == mid[p].body.is_static,
                forall|p: int|
                    0 <= p < n && mid[p].body.is_static ==> (
                    #[trigger] self.entities@[p]).body.position.value
                        == mid[p].body.position.value,
                forall|p: int|
                    0 <= p < n ==> (#[trigger] mid[p]).id == old(self).entities@[p].id
                        && mid[p].body.is_static == old(self).entities@[p].body.is_static,
                forall|p: int|
                    0 <= p < n && old(self).entities@[p].body.is_static ==> (#[trigger] mid[p])
                        .body.position.value == old(self).entities@[p].body.position.value,
                self.destroyed_entities == old(self).destroyed_entities,
                self.entity_counter == old(self).entity_counter,
            decreases n - j,
        {
            let ghost pre = self.entities@;
            let e = &mut self.entities[j];
            e.physics_did_update(dt_ms);
            proof {
                assert forall|id: EntityId| #[trigger]
                    entity_id_count(self.entities@, id) == entity_id_count(pre, id) by {
                    lemma_entity_id_count_update(pre, j as int, self.entities@[j as int], id);
                }
                assert(self.entities@[j as int].body.is_static == pre[j as int].body.is_static);
                assert(self.entities@[j as int].body.position.value
                    == pre[j as int].body.position.value);
            }
            j += 1;
        }
    }
}

/// A positive count is witnessed by some index.
pub proof fn lemma_entity_count_witness(s: Seq<Entity>, id: EntityId) -> (i: int)
    requires
        entity_id_count(s, id) > 0,
    ensures
        0 <= i < s.len(),
        s[i].id == id,
    decreases s.len(),
{
    if s.last().id == id {
        s.len() - 1
    } else {
        lemma_entity_id_count_nonneg(s.drop_last(), id);
        lemma_entity_count_witness(s.drop_last(), id)
    }
}

/// A list with no entity under an id counts it zero.
pub proof fn lemma_no_index_count_zero(s: Seq<Entity>, id: EntityId)
    requires
        forall|j: int| 0 <= j < s.len() ==> (#[trigger] s[j]).id != id,
    ensures
        entity_id_count(s, id) == 0,
    decreases s.len(),
{
    if s.len() > 0 {
        lemma_no_index_count_zero(s.drop_last(), id);
    }
}

} // verus!
