//! The grid variant's board: a centred square of cells, a flat map of
//! entities keyed by id, and the growth rule tying the board size to the
//! player count.
use vstd::prelude::*;

use crate::grid::entities::{Entity, EntityId, EntityKind};
use crate::utils::Counter;

verus! {

/// Identifies the number component on the map.
pub type IndexType = i64;

/// Minimum half-extent of the board with no players.
pub const BASE_MAP_SIZE: IndexType = 4;

/// How much the board grows for each player.
pub const UNITS_PER_PLAYER: IndexType = 1;

/// Used to identify positions within the map.
#[derive(PartialEq, Eq, Structural, Hash, Debug, Clone, Copy)]
pub struct MapIndex {
    pub x: IndexType,
    pub y: IndexType,
}

impl MapIndex {
    pub fn new(x: IndexType, y: IndexType) -> (r: MapIndex)
        ensures
            r == (MapIndex { x, y }),
    {
        MapIndex { x, y }
    }

    /// A uniformly random cell with both components in `[-size, size)`.
    pub fn random(size: IndexType) -> (r: MapIndex)
        requires
            1 <= size <= 1_000_000_000,
        ensures
            -size <= r.x < size,
            -size <= r.y < size,
    {
        MapIndex {
            x: crate::utils::rand_i64(-size, size),
            y: crate::utils::rand_i64(-size, size),
        }
    }

    /// Adds another index componentwise.
    pub fn add(&mut self, index: &MapIndex) -> (r: &mut Self)
        requires
            i64::MIN <= old(self).x + index.x <= i64::MAX,
            i64::MIN <= old(self).y + index.y <= i64::MAX,
        ensures
            *r == (MapIndex {
                x: (old(self).x + index.x) as i64,
                y: (old(self).y + index.y) as i64,
            }),
            *final(self) == *final(r),
    {
        self.x = self.x + index.x;
        self.y = self.y + index.y;
        self
    }

    /// Negates both components.
    pub fn negate(&mut self) -> (r: &mut Self)
        requires
            old(self).x > i64::MIN,
            old(self).y > i64::MIN,
        ensures
            *r == (MapIndex { x: (-old(self).x) as i64, y: (-old(self).y) as i64 }),
            *final(self) == *final(r),
    {
        self.x = -self.x;
        self.y = -self.y;
        self
    }
}

/// How many entities of a list carry the given id.
pub open spec fn grid_id_count(s: Seq<(EntityId, Entity)>, id: EntityId) -> int
    decreases s.len(),
{
    if s.len() == 0 {
        0
    } else {
        grid_id_count(s.drop_last(), id) + if s.last().0 == id {
            1int
        } else {
            0int
        }
    }
}

pub proof fn lemma_grid_id_count_nonneg(s: Seq<(EntityId, Entity)>, id: EntityId)
    ensures
        grid_id_count(s, id) >= 0,
    decreases s.len(),
{
    if s.len() > 0 {
        lemma_grid_id_count_nonneg(s.drop_last(), id);
    }
}

pub proof fn lemma_grid_id_count_at_least_one(s: Seq<(EntityId, Entity)>, id: EntityId, i: int)
    requires
        0 <= i < s.len(),
        s[i].0 == id,
    ensures
        grid_id_count(s, id) >= 1,
    decreases s.len(),
{
    lemma_grid_id_count_nonneg(s.drop_last(), id);
    if i < s.len() - 1 {
        lemma_grid_id_count_at_least_one(s.drop_last(), id, i);
    }
}

pub proof fn lemma_grid_id_count_push(s: Seq<(EntityId, Entity)>, p: (EntityId, Entity), id: EntityId)
    ensures
        grid_id_count(s.push(p), id) == grid_id_count(s, id) + if p.0 == id {
            1int
        } else {
            0int
        },
{
    assert(s.push(p).drop_last() =~= s);
    assert(s.push(p).last() == p);
}

pub proof fn lemma_grid_id_count_remove(s: Seq<(EntityId, Entity)>, i: int, id: EntityId)
    requires
        0 <= i < s.len(),
    ensures
        grid_id_count(s.remove(i), id) + (if s[i].0 == id {
            1int
        } else {
            0int
        }) == grid_id_count(s, id),
    decreases s.len(),
{
    if i == s.len() - 1 {
        assert(s.remove(i) =~= s.drop_last());
    } else {
        lemma_grid_id_count_remove(s.drop_last(), i, id);
        assert(s.remove(i).drop_last() =~= s.drop_last().remove(i));
        assert(s.remove(i).last() == s.last());
    }
}

pub proof fn lemma_grid_id_count_update(s: Seq<(EntityId, Entity)>, i: int, p: (EntityId, Entity), id: EntityId)
    requires
        0 <= i < s.len(),
        p.0 == s[i].0,
    ensures
        grid_id_count(s.update(i, p), id) == grid_id_count(s, id),
    decreases s.len(),
{
    if i == s.len() - 1 {
        assert(s.update(i, p).drop_last() =~= s.drop_last());
        assert(s.update(i, p).last() == p);
    } else {
        lemma_grid_id_count_update(s.drop_last(), i, p, id);
        assert(s.update(i, p).drop_last() =~= s.drop_last().update(i, p));
        assert(s.update(i, p).last() == s.last());
    }
}

pub proof fn lemma_grid_no_index_count_zero(s: Seq<(EntityId, Entity)>, id: EntityId)
    requires
        forall|j: int| 0 <= j < s.len() ==> (#[trigger] s[j]).0 != id,
    ensures
        grid_id_count(s, id) == 0,
    decreases s.len(),
{
    if s.len() > 0 {
        lemma_grid_no_index_count_zero(s.drop_last(), id);
    }
}

/// Two distinct indices with one id force a count of at least two.
pub proof fn lemma_grid_two_indices(s: Seq<(EntityId, Entity)>, i: int, j: int, id: EntityId)
    requires
        0 <= i < j < s.len(),
        s[i].0 == id,
        s[j].0 == id,
    ensures
        grid_id_count(s, id) >= 2,
    decreases s.len(),
{
    if j == s.len() - 1 {
        lemma_grid_id_count_at_least_one(s.drop_last(), id, i);
    } else {
        lemma_grid_two_indices(s.drop_last(), i, j, id);
        lemma_grid_id_count_nonneg(s.drop_last(), id);
    }
}

/// This holds the game's map data.
pub struct GameMap {
    /// The half-extent of the board.
    pub map_size: IndexType,
    /// The entities in the map, keyed by id.
    pub map: Vec<(EntityId, Entity)>,
    /// Counter for the entity id.
    pub entity_id: Counter,
    /// Entities destroyed within the last update.
    pub destroyed_entities: Vec<(EntityId, Entity)>,
}

impl GameMap {
    /// Ids unique and below the counter, and the board size in range.
    pub open spec fn wf(&self) -> bool {
        &&& forall|id: EntityId| grid_id_count(self.map@, id) <= 1
        &&& forall|i: int|
            0 <= i < self.map@.len() ==> (#[trigger] self.map@[i]).0 < self.entity_id.count
        &&& self.entity_id.increment == 1
        &&& 0 <= self.map_size <= 1_000_000_000
    }

    pub fn new() -> (r: GameMap)
        ensures
            r.wf(),
            r.map@.len() == 0,
            r.map_size == 0,
            r.destroyed_entities@.len() == 0,
    {
        let r = GameMap {
            map_size: 0,
            map: Vec::new(),
            entity_id: Counter::new(0, 1),
            destroyed_entities: Vec::new(),
        };
        proof {
            assert forall|id: EntityId| grid_id_count(r.map@, id) <= 1 by {
                lemma_grid_id_count_nonneg(r.map@, id);
            }
        }
        r
    }

    pub fn map_size(&self) -> (r: IndexType)
        ensures
            r == self.map_size,
    {
        self.map_size
    }

    /// How many player entities are on the board.
    pub fn player_count(&self) -> (r: usize)
        ensures
            r <= self.map@.len(),
    {
        let n = self.map.len();
        let mut count: usize = 0;
        let mut i: usize = 0;
        while i < n
            invariant
                n == self.map@.len(),
                i <= n,
                count <= i,
            decreases n - i,
        {
            match &self.map[i].1.kind {
                EntityKind::Player(_) => {
                    count += 1;
                },
                _ => {},
            }
            i += 1;
        }
        count
    }

    /// Grows the board by one cell per player from the base size, and
    /// never shrinks it past the player furthest from the origin.
    pub fn update_map_size(&mut self)
        requires
            old(self).wf(),
            old(self).map@.len() <= 1_000_000,
        ensures
            final(self).wf(),
            final(self).map == old(self).map,
            final(self).entity_id == old(self).entity_id,
            final(self).destroyed_entities == old(self).destroyed_entities,
            final(self).map_size >= BASE_MAP_SIZE,
    {
        let player_count = self.player_count();

        // Find the player furthest from the centre.
        let n = self.map.len();
        let mut furthest: i64 = -1;
        let mut i: usize = 0;
        while i < n
            invariant
                self.wf(),
                n == self.map@.len(),
                n <= 1_000_000,
                i <= n,
                -1 <= furthest <= 2_000_000_000,
            decreases n - i,
        {
            match &self.map[i].1.kind {
                EntityKind::Player(_) => {
                    let idx = self.map[i].1.index.value;
                    let ax = if idx.x >= 0 {
                        idx.x
                    } else if idx.x > i64::MIN {
                        -idx.x
                    } else {
                        i64::MAX
                    };
                    let ay = if idx.y >= 0 {
                        idx.y
                    } else if idx.y > i64::MIN {
                        -idx.y
                    } else {
                        i64::MAX
                    };
                    let d = if ax > ay {
                        ax
                    } else {
                        ay
                    };
                    let d = if d > 2_000_000_000 {
                        2_000_000_000
                    } else {
                        d
                    };
                    if d > furthest {
                        furthest = d;
                    }
                },
                _ => {},
            }
            i += 1;
        }

        // Shrink to the base size or the furthest player, whichever keeps
        // everyone on the board.
        let target = BASE_MAP_SIZE + (player_count as i64) * UNITS_PER_PLAYER;
        self.map_size = if target > furthest {
            target
        } else {
            furthest
        };
        if self.map_size > 1_000_000_000 {
            self.map_size = 1_000_000_000;
        }
    }

    /// Whether a cell lies on the board.
    pub open spec fn spec_within_bounds(&self, index: MapIndex) -> bool {
        &&& -self.map_size <= index.x <= self.map_size
        &&& -self.map_size <= index.y <= self.map_size
    }

    pub fn index_within_bounds(&self, index: &MapIndex) -> (r: bool)
        requires
            self.wf(),
        ensures
            r == self.spec_within_bounds(*index),
    {
        -self.map_size <= index.x && index.x <= self.map_size && -self.map_size <= index.y
            && index.y <= self.map_size
    }

    /// Inserts an entity under a fresh id; the target cell must be empty.
    pub fn insert_entity(&mut self, entity: Entity) -> (r: Result<EntityId, crate::grid::game::GameError>)
        requires
            old(self).wf(),
            old(self).entity_id.count < u64::MAX,
        ensures
            final(self).wf(),
            final(self).map_size == old(self).map_size,
            final(self).destroyed_entities == old(self).destroyed_entities,
            match r {
                Ok(id) => {
                    &&& id == old(self).entity_id.count
                    &&& final(self).entity_id.count == old(self).entity_id.count + 1
                    &&& final(self).entity_id.increment == 1
                    &&& final(self).map@ == old(self).map@.push((id, entity))
                    &&& forall|i: int|
                        0 <= i < old(self).map@.len() ==> (#[trigger] old(self).map@[i]).1.index.value
                            != entity.index.value
                },
                Err(e) => {
                    &&& e is EntityAlreadyAtIndex
                    &&& final(self).map == old(self).map
                    &&& final(self).entity_id == old(self).entity_id
                    &&& exists|i: int|
                        0 <= i < old(self).map@.len() && (#[trigger] old(self).map@[i]).1.index.value
                            == entity.index.value
                },
            },
    {
        // Check if there is an entity at the index already.
        if let Some(_) = self.entity_at(&entity.index.value) {
            return Err(crate::grid::game::GameError::EntityAlreadyAtIndex);
        }
        let id = self.entity_id.tick();
        proof {
            lemma_grid_id_count_push(self.map@, (id, entity), id);
        }
        let ghost pre = self.map@;
        self.map.push((id, entity));
        proof {
            assert forall|other: EntityId| grid_id_count(self.map@, other) <= 1 by {
                lemma_grid_id_count_push(pre, (id, entity), other);
                if other == id {
                    lemma_count_below_counter(pre, old(self).entity_id.count, other);
                }
            }
        }
        Ok(id)
    }

    /// Removes an entity by id, recording it as destroyed this tick.
    pub fn remove_entity_with_id(&mut self, id: EntityId) -> (r: Result<(), crate::grid::game::GameError>)
        requires
            old(self).wf(),
        ensures
            final(self).wf(),
            final(self).map_size == old(self).map_size,
            final(self).entity_id == old(self).entity_id,
            match r {
                Ok(_) => {
                    &&& exists|i: int|
                        0 <= i < old(self).map@.len() && (#[trigger] old(self).map@[i]).0 == id
                            && final(self).map@ == old(self).map@.remove(i)
                            && final(self).destroyed_entities@ == old(
                            self,
                        ).destroyed_entities@.push(old(self).map@[i])
                    &&& grid_id_count(final(self).map@, id) == 0
                },
                Err(e) => {
                    &&& e is InvalidDeletion
                    &&& final(self).map == old(self).map
                    &&& final(self).destroyed_entities == old(self).destroyed_entities
                    &&& grid_id_count(old(self).map@, id) == 0
                },
            },
    {
        let n = self.map.len();
        let mut i: usize = 0;
        while i < n
            invariant
                self.wf(),
                *self == *old(self),
                n == self.map@.len(),
                i <= n,
                forall|j: int| 0 <= j < i ==> (#[trigger] self.map@[j]).0 != id,
            decreases n - i,
        {
            if self.map[i].0 == id {
                let ghost pre = self.map@;
                let removed = self.map.remove(i);
                self.destroyed_entities.push(removed);
                proof {
                    assert forall|other: EntityId| grid_id_count(self.map@, other) <= 1 by {
                        lemma_grid_id_count_remove(pre, i as int, other);
                        lemma_grid_id_count_nonneg(self.map@, other);
                    }
                    lemma_grid_id_count_remove(pre, i as int, id);
                    lemma_grid_no_dup_not_contains(pre, i as int, id);
                }
                return Ok(());
            }
            i += 1;
        }
        proof {
            lemma_grid_no_index_count_zero(self.map@, id);
        }
        Err(crate::grid::game::GameError::InvalidDeletion)
    }

    /// The position of the entity at a cell, if any.
    pub fn entity_at(&self, index: &MapIndex) -> (r: Option<usize>)
        ensures
            match r {
                Some(i) => i < self.map@.len() && self.map@[i as int].1.index.value == *index,
                None => forall|i: int|
                    0 <= i < self.map@.len() ==> (#[trigger] self.map@[i]).1.index.value != *index,
            },
    {
        let n = self.map.len();
        let mut i: usize = 0;
        while i < n
            invariant
                n == self.map@.len(),
                i <= n,
                forall|j: int| 0 <= j < i ==> (#[trigger] self.map@[j]).1.index.value != *index,
            decreases n - i,
        {
            if self.map[i].1.index.value.x == index.x && self.map[i].1.index.value.y == index.y {
                return Some(i);
            }
            i += 1;
        }
        None
    }

    /// The position of the entity with an id, if present.
    pub fn entity_with_id(&self, id: EntityId) -> (r: Option<usize>)
        ensures
            match r {
                Some(i) => i < self.map@.len() && self.map@[i as int].0 == id,
                None => forall|i: int|
                    0 <= i < self.map@.len() ==> (#[trigger] self.map@[i]).0 != id,
            },
    {
        let n = self.map.len();
        let mut i: usize = 0;
        while i < n
            invariant
                n == self.map@.len(),
                i <= n,
                forall|j: int| 0 <= j < i ==> (#[trigger] self.map@[j]).0 != id,
            decreases n - i,
        {
            if self.map[i].0 == id {
                return Some(i);
            }
            i += 1;
        }
        None
    }

    /// A random empty cell, found by rejection sampling; gives up after a
    /// bounded number of draws on a crowded board.
    pub fn spawn_position(&self) -> (r: Option<MapIndex>)
        requires
            self.wf(),
            self.map_size >= 1,
        ensures
            match r {
                Some(idx) => (forall|i: int|
                    0 <= i < self.map@.len() ==> (#[trigger] self.map@[i]).1.index.value != idx)
                    && -self.map_size <= idx.x < self.map_size && -self.map_size <= idx.y
                    < self.map_size,
                None => true,
            },
    {
        let mut tries: usize = 0;
        while tries < 100
            invariant
                self.wf(),
                self.map_size >= 1,
            decreases 100 - tries,
        {
            let index = MapIndex::random(self.map_size);
            if self.entity_at(&index).is_none() {
                return Some(index);
            }
            tries += 1;
        }
        None
    }

    /// Called after each update to clear the flags.
    pub fn updated(&mut self)
        requires
            old(self).wf(),
        ensures
            final(self).wf(),
            final(self).map@.len() == old(self).map@.len(),
            forall|i: int|
                0 <= i < old(self).map@.len() ==> (#[trigger] final(self).map@[i]).0 == old(
                    self,
                ).map@[i].0 && final(self).map@[i].1.index.value == old(self).map@[i].1.index.value,
            final(self).destroyed_entities@.len() == 0,
            final(self).map_size == old(self).map_size,
            final(self).entity_id == old(self).entity_id,
    {
        let n = self.map.len();
        let mut i: usize = 0;
        while i < n
            invariant
                self.wf(),
                n == self.map@.len(),
                i <= n,
                forall|q: int|
                    0 <= q < n ==> (#[trigger] self.map@[q]).0 == old(self).map@[q].0 && self
                        .map@[q].1.index.value == old(self).map@[q].1.index.value,
                self.destroyed_entities == old(self).destroyed_entities,
                self.map_size == old(self).map_size,
                self.entity_id == old(self).entity_id,
            decreases n - i,
        {
            let ghost pre = self.map@;
            let pair = &mut self.map[i];
            pair.1.updated();
            proof {
                assert forall|id: EntityId| grid_id_count(self.map@, id) == grid_id_count(
                    pre,
                    id,
                ) by {
                    lemma_grid_id_count_update(pre, i as int, self.map@[i as int], id);
                }
                assert forall|id: EntityId| grid_id_count(self.map@, id) <= 1 by {
                    assert(grid_id_count(pre, id) <= 1);
                }
                assert(self.wf());
            }
            i += 1;
        }
        self.destroyed_entities.clear();
    }
}

/// Ids below a bound count a fresh id zero times.
proof fn lemma_count_below_counter(s: Seq<(EntityId, Entity)>, bound: u64, id: EntityId)
    requires
        forall|i: int| 0 <= i < s.len() ==> (#[trigger] s[i]).0 < bound,
        id >= bound,
    ensures
        grid_id_count(s, id) == 0,
    decreases s.len(),
{
    if s.len() > 0 {
        lemma_count_below_counter(s.drop_last(), bound, id);
    }
}

/// With unique ids, nothing besides the removed index carried its id.
proof fn lemma_grid_no_dup_not_contains(s: Seq<(EntityId, Entity)>, i: int, id: EntityId)
    requires
        0 <= i < s.len(),
        s[i].0 == id,
        grid_id_count(s, id) <= 1,
    ensures
        grid_id_count(s.remove(i), id) == 0,
{
    lemma_grid_id_count_remove(s, i, id);
    lemma_grid_id_count_nonneg(s.remove(i), id);
    lemma_grid_id_count_at_least_one(s, id, i);
}

} // verus!
