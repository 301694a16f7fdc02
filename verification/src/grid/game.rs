//! The grid variant's rules: move legality, squash resolution, gap expiry,
//! point scattering, and the bots that keep a board busy.
use vstd::prelude::*;

use crate::grid::entities::{clone_indices, Entity, EntityId, EntityKind, Player, PlayerClass};
use crate::grid::game_map::{grid_id_count, GameMap, MapIndex};
use crate::grid::incremental_value::IncrementalValue;

verus! {

/// How long a gap stays on the board, in milliseconds.
pub const GAP_LIFE: u64 = 7500;

/// How many points one scattered orb carries.
pub const POINT_CLUMP: u64 = 4;

#[derive(Debug)]
pub enum GameError {
    /// Given an invalid id to perform an action on; usually the entity
    /// does not exist. Used sparsely in favour of more specific errors.
    InvalidId,
    /// Attempting to delete an entity that does not exist or is not valid.
    InvalidDeletion,
    /// Attempting to move an entity to a position that cannot be moved to.
    InvalidMovePosition,
    /// The entity identified to perform an action on does not exist.
    MissingEntity,
    /// Attempting to perform an action on an entity of the wrong kind.
    InvalidEntityKind,
    /// Attempting to move an entity to the exact place it is right now.
    SameMovePosition,
    /// Attempting to insert or move an entity where another already is.
    EntityAlreadyAtIndex,
    /// Attempting to move to an index outside of the map.
    OutOfMap,
}

/// The grid game: the board plus the bots that play on it.
pub struct Game {
    /// Structure that holds the items inside the map.
    pub map: GameMap,
    /// Number of bots to maintain in the game.
    pub bot_count: usize,
    /// List of entity ids for the bots.
    pub bot_ids: Vec<EntityId>,
}

impl Game {
    pub open spec fn wf(&self) -> bool {
        self.map.wf()
    }

    pub fn new() -> (g: Game)
        ensures
            g.wf(),
            g.map.map@.len() == 0,
            g.bot_count == 50,
    {
        Game { map: GameMap::new(), bot_count: 50, bot_ids: Vec::new() }
    }

    /// Destroys every gap whose lifetime has passed: a gap lives exactly
    /// `GAP_LIFE` milliseconds from its spawn.
    pub fn update_gaps(&mut self, now: u64) -> (r: Result<(), GameError>)
        requires
            old(self).wf(),
        ensures
            final(self).wf(),
            r is Ok,
            // No expired gap remains.
            forall|i: int|
                0 <= i < final(self).map.map@.len() ==> match (
                #[trigger] final(self).map.map@[i]).1.kind {
                    EntityKind::Gap { spawn_time, .. } => spawn_time + GAP_LIFE > now,
                    _ => true,
                },
            // Everything that was not an expired gap is kept.
            forall|i: int|
                0 <= i < old(self).map.map@.len() && !spec_expired_gap(
                    (#[trigger] old(self).map.map@[i]).1,
                    now,
                ) ==> grid_id_count(final(self).map.map@, old(self).map.map@[i].0) == grid_id_count(
                    old(self).map.map@,
                    old(self).map.map@[i].0,
                ),
            // Every expired gap is gone.
            forall|i: int|
                0 <= i < old(self).map.map@.len() && spec_expired_gap(
                    (#[trigger] old(self).map.map@[i]).1,
                    now,
                ) ==> grid_id_count(final(self).map.map@, old(self).map.map@[i].0) == 0,
    {
        // Find the gaps to destroy.
        let mut wanted_destroys: Vec<EntityId> = Vec::new();
        let n = self.map.map.len();
        let mut i: usize = 0;
        while i < n
            invariant
                self.wf(),
                *self == *old(self),
                n == self.map.map@.len(),
                i <= n,
                forall|j: int|
                    0 <= j < i && spec_expired_gap((#[trigger] self.map.map@[j]).1, now)
                        ==> wanted_destroys@.contains(self.map.map@[j].0),
                forall|p: int| #![trigger wanted_destroys@[p]]
                    0 <= p < wanted_destroys@.len() ==> exists|j: int|
                        0 <= j < n && (#[trigger] self.map.map@[j]).0 == wanted_destroys@[p]
                            && spec_expired_gap(self.map.map@[j].1, now),
            decreases n - i,
        {
            let expired = match &self.map.map[i].1.kind {
                EntityKind::Gap { spawn_time, .. } => *spawn_time <= u64::MAX - GAP_LIFE
                    && *spawn_time + GAP_LIFE <= now,
                _ => false,
            };
            if expired {
                let ghost pre = wanted_destroys@;
                wanted_destroys.push(self.map.map[i].0);
                proof {
                    assert forall|j: int|
                        0 <= j < i + 1 && spec_expired_gap((#[trigger] self.map.map@[j]).1, now)
                            implies wanted_destroys@.contains(self.map.map@[j].0) by {
                        if j < i {
                            let p = choose|p: int|
                                0 <= p < pre.len() && pre[p] == self.map.map@[j].0;
                            assert(wanted_destroys@[p] == self.map.map@[j].0);
                        } else {
                            assert(wanted_destroys@[wanted_destroys@.len() - 1]
                                == self.map.map@[j].0);
                        }
                    }
                }
            }
            i += 1;
        }

        // Destroy them.
        let m = wanted_destroys.len();
        let mut k: usize = 0;
        while k < m
            invariant
                self.wf(),
                m == wanted_destroys@.len(),
                k <= m,
                forall|p: int|
                    0 <= p < k ==> grid_id_count(
                        self.map.map@,
                        #[trigger] wanted_destroys@[p],
                    ) == 0,
                // Ids not being destroyed keep their counts.
                forall|id: EntityId|
                    !wanted_destroys@.contains(id) ==> grid_id_count(self.map.map@, id)
                        == grid_id_count(old(self).map.map@, id),
                // Everything still present was present before, unchanged.
                forall|j: int|
                    0 <= j < self.map.map@.len() ==> old(self).map.map@.contains(
                        #[trigger] self.map.map@[j],
                    ),
                self.map.map_size == old(self).map.map_size,
                self.map.entity_id == old(self).map.entity_id,
                self.bot_count == old(self).bot_count,
                self.bot_ids == old(self).bot_ids,
            decreases m - k,
        {
            let ghost pre_map = self.map.map@;
            let r = self.map.remove_entity_with_id(wanted_destroys[k]);
            proof {
                match r {
                    Ok(_) => {
                        let wi = choose|wi: int|
                            0 <= wi < pre_map.len() && pre_map[wi].0 == wanted_destroys@[k as int]
                                && self.map.map@ == pre_map.remove(wi);
                        assert forall|j: int|
                            0 <= j < self.map.map@.len() implies old(self).map.map@.contains(
                            #[trigger] self.map.map@[j],
                        ) by {
                            if j < wi {
                                assert(self.map.map@[j] == pre_map[j]);
                            } else {
                                assert(self.map.map@[j] == pre_map[j + 1]);
                            }
                        }
                        assert forall|id: EntityId|
                            !wanted_destroys@.contains(id) implies grid_id_count(
                            self.map.map@,
                            id,
                        ) == grid_id_count(old(self).map.map@, id) by {
                            crate::grid::game_map::lemma_grid_id_count_remove(pre_map, wi, id);
                            assert(wanted_destroys@[k as int] != id);
                        }
                        assert forall|p: int|
                            0 <= p < k + 1 implies grid_id_count(
                            self.map.map@,
                            #[trigger] wanted_destroys@[p],
                        ) == 0 by {
                            crate::grid::game_map::lemma_grid_id_count_remove(
                                pre_map,
                                wi,
                                wanted_destroys@[p],
                            );
                            crate::grid::game_map::lemma_grid_id_count_nonneg(
                                self.map.map@,
                                wanted_destroys@[p],
                            );
                        }
                    },
                    Err(_) => {
                        assert forall|p: int|
                            0 <= p < k + 1 implies grid_id_count(
                            self.map.map@,
                            #[trigger] wanted_destroys@[p],
                        ) == 0 by {}
                    },
                }
            }
            k += 1;
        }
        proof {
            assert forall|i: int|
                0 <= i < self.map.map@.len() implies match (
            #[trigger] self.map.map@[i]).1.kind {
                EntityKind::Gap { spawn_time, .. } => spawn_time + GAP_LIFE > now,
                _ => true,
            } by {
                if spec_expired_gap(self.map.map@[i].1, now) {
                    let j = choose|j: int|
                        0 <= j < old(self).map.map@.len() && old(self).map.map@[j]
                            == self.map.map@[i];
                    assert(wanted_destroys@.contains(self.map.map@[i].0));
                    let p = choose|p: int|
                        0 <= p < wanted_destroys@.len() && wanted_destroys@[p]
                            == self.map.map@[i].0;
                    crate::grid::game_map::lemma_grid_id_count_at_least_one(
                        self.map.map@,
                        self.map.map@[i].0,
                        i,
                    );
                }
            }
            assert forall|i: int|
                0 <= i < old(self).map.map@.len() && spec_expired_gap(
                    (#[trigger] old(self).map.map@[i]).1,
                    now,
                ) implies grid_id_count(self.map.map@, old(self).map.map@[i].0) == 0 by {
                assert(wanted_destroys@.contains(old(self).map.map@[i].0));
            }
            assert forall|i: int|
                0 <= i < old(self).map.map@.len() && !spec_expired_gap(
                    (#[trigger] old(self).map.map@[i]).1,
                    now,
                ) implies grid_id_count(self.map.map@, old(self).map.map@[i].0) == grid_id_count(
                old(self).map.map@,
                old(self).map.map@[i].0,
            ) by {
                let id = old(self).map.map@[i].0;
                if wanted_destroys@.contains(id) {
                    let p = choose|p: int|
                        0 <= p < wanted_destroys@.len() && wanted_destroys@[p] == id;
                    let j = choose|j: int|
                        0 <= j < old(self).map.map@.len() && (#[trigger] old(
                            self,
                        ).map.map@[j]).0 == wanted_destroys@[p] && spec_expired_gap(
                            old(self).map.map@[j].1,
                            now,
                        );
                    if i < j {
                        crate::grid::game_map::lemma_grid_two_indices(
                            old(self).map.map@,
                            i,
                            j,
                            id,
                        );
                    } else if j < i {
                        crate::grid::game_map::lemma_grid_two_indices(
                            old(self).map.map@,
                            j,
                            i,
                            id,
                        );
                    }
                }
            }
        }
        Ok(())
    }
}

/// Whether an entity is a gap whose lifetime has passed.
pub open spec fn spec_expired_gap(e: Entity, now: u64) -> bool {
    match e.kind {
        EntityKind::Gap { spawn_time, .. } => spawn_time + GAP_LIFE <= now,
        _ => false,
    }
}

impl Game {
    /// Joins a player onto a random empty cell with a random class; a full
    /// board refuses the join.
    pub fn join_player(&mut self, username: String) -> (r: Option<EntityId>)
        requires
            old(self).wf(),
            old(self).map.map_size >= 1,
            old(self).map.entity_id.count < u64::MAX,
        ensures
            final(self).wf(),
            // Refusing to join leaves the board alone.
            r is None ==> final(self).map.map == old(self).map.map,
            // A joined player carries the username onto a fresh id at an
            // in-bounds cell that nothing occupied; the board is otherwise
            // untouched.
            match r {
                Some(id) => {
                    &&& id == old(self).map.entity_id.count
                    &&& final(self).map.map@.len() == old(self).map.map@.len() + 1
                    &&& forall|j: int|
                        0 <= j < old(self).map.map@.len() ==> (#[trigger] final(self).map.map@[j])
                            == old(self).map.map@[j]
                    &&& {
                        let ne = final(self).map.map@.last();
                        &&& ne.0 == id
                        &&& ne.1.kind is Player
                        &&& ne.1.kind->Player_0.username@ == username@
                        &&& ne.1.kind->Player_0.points.value
                            == crate::grid::entities::STARTING_POINTS
                        &&& ne.1.kind->Player_0.move_time == 0
                        &&& old(self).map.spec_within_bounds(ne.1.index.value)
                        &&& forall|j: int|
                            0 <= j < old(self).map.map@.len() ==> (
                            #[trigger] old(self).map.map@[j]).1.index.value != ne.1.index.value
                    }
                },
                None => true,
            },
    {
        let pos = match self.map.spawn_position() {
            Some(p) => p,
            None => {
                return None;
            },
        };
        let player = Entity::new(
            pos,
            EntityKind::Player(Player::new(username, PlayerClass::random())),
        );
        match self.map.insert_entity(player) {
            Ok(id) => Some(id),
            Err(_) => None,
        }
    }

    /// Moves a player to a target cell, resolving what it lands on: a gap
    /// kills the mover, another player dies under it, an orb is absorbed,
    /// an empty cell is simply taken; the vacated cell becomes a gap. The
    /// refusals mirror the rules exactly: a missing entity, a non-player,
    /// a move onto one's own cell, a cell off the board, and an offset the
    /// class does not allow or a cooldown not yet passed.
    #[verifier::rlimit(100)]
    pub fn move_player(&mut self, player_id: EntityId, target: &MapIndex, now: u64) -> (r: Result<
        (),
        GameError,
    >)
        requires
            old(self).wf(),
            old(self).map.entity_id.count < u64::MAX - 1000,
            -1_000_000_000 <= target.x <= 1_000_000_000,
            -1_000_000_000 <= target.y <= 1_000_000_000,
            // At most one entity occupies any cell.
            forall|a: int, b: int|
                0 <= a < b < old(self).map.map@.len() ==> (
                #[trigger] old(self).map.map@[a]).1.index.value != (
                #[trigger] old(self).map.map@[b]).1.index.value,
        ensures
            final(self).wf(),
            ({
                let m = old(self).map.map@;
                // A missing id refuses and changes nothing.
                (forall|i: int| 0 <= i < m.len() ==> (#[trigger] m[i]).0 != player_id) ==> r
                    == Err::<(), GameError>(GameError::MissingEntity) && final(self).map.map
                    == old(self).map.map
            }),
            ({
                let m = old(self).map.map@;
                forall|i: int|
                    0 <= i < m.len() && (#[trigger] m[i]).0 == player_id ==> {
                        // Moving onto one's own cell refuses first.
                        &&& (m[i].1.index.value == *target ==> r == Err::<(), GameError>(
                            GameError::SameMovePosition,
                        ) && final(self).map.map == old(self).map.map)
                        // Then a cell off the board.
                        &&& (m[i].1.index.value != *target && !old(self).map.spec_within_bounds(
                            *target,
                        ) ==> r == Err::<(), GameError>(GameError::OutOfMap)
                            && final(self).map.map == old(self).map.map)
                        // Then the wrong kind of entity.
                        &&& (m[i].1.index.value != *target && old(self).map.spec_within_bounds(
                            *target,
                        ) && !(m[i].1.kind is Player) ==> r == Err::<(), GameError>(
                            GameError::InvalidEntityKind,
                        ) && final(self).map.map == old(self).map.map)
                        // Then the class's offsets and cooldown.
                        &&& (m[i].1.index.value != *target && old(self).map.spec_within_bounds(
                            *target,
                        ) && m[i].1.kind is Player && !spec_can_move(
                            m[i].1.kind->Player_0,
                            m[i].1.index.value,
                            *target,
                            now,
                        ) ==> r == Err::<(), GameError>(GameError::InvalidMovePosition)
                            && final(self).map.map == old(self).map.map)
                        // A legal move onto an orb absorbs its points and
                        // destroys it, with the mover on the target cell.
                        &&& (spec_legal_move(old(self).map, m[i].1, m[i].1.index.value, *target, now)
                            ==> (forall|oi: int|
                            0 <= oi < m.len() && (#[trigger] m[oi]).1.index.value == *target
                                && m[oi].1.kind is PointOrb ==> spec_player_points(
                                final(self).map.map@,
                                player_id,
                            ) == crate::utils::spec_sat_u64(
                                m[i].1.kind->Player_0.points.value
                                    + m[oi].1.kind->points.value,
                            ) && grid_id_count(final(self).map.map@, m[oi].0) == 0
                                && spec_player_at(final(self).map.map@, player_id, *target)))
                        // A legal move onto a gap destroys the mover.
                        &&& (spec_legal_move(old(self).map, m[i].1, m[i].1.index.value, *target, now)
                            ==> (forall|oi: int|
                            0 <= oi < m.len() && (#[trigger] m[oi]).1.index.value == *target
                                && m[oi].1.kind is Gap ==> grid_id_count(
                                final(self).map.map@,
                                player_id,
                            ) == 0))
                        // A legal move onto another player squashes that
                        // occupant.
                        &&& (spec_legal_move(old(self).map, m[i].1, m[i].1.index.value, *target, now)
                            ==> (forall|oi: int|
                            0 <= oi < m.len() && (#[trigger] m[oi]).1.index.value == *target
                                && m[oi].1.kind is Player ==> grid_id_count(
                                final(self).map.map@,
                                m[oi].0,
                            ) == 0))
                        // A legal move leaves a gap on the vacated cell,
                        // stamped with the mover and the move's time.
                        &&& (spec_legal_move(old(self).map, m[i].1, m[i].1.index.value, *target, now)
                            && r is Ok ==> exists|gi: int|
                            0 <= gi < final(self).map.map@.len() && (
                            #[trigger] final(self).map.map@[gi]).1.kind is Gap
                                && final(self).map.map@[gi].1.index.value == m[i].1.index.value
                                && final(self).map.map@[gi].1.kind->spawner == player_id
                                && final(self).map.map@[gi].1.kind->spawn_time == now)
                        // Wherever the mover survives, it sits on the
                        // target cell with its cooldown restarted now.
                        &&& (spec_legal_move(old(self).map, m[i].1, m[i].1.index.value, *target, now)
                            ==> (forall|fi: int|
                            0 <= fi < final(self).map.map@.len() && (
                            #[trigger] final(self).map.map@[fi]).0 == player_id
                                ==> final(self).map.map@[fi].1.kind is Player
                                && final(self).map.map@[fi].1.kind->Player_0.move_time == now
                                && final(self).map.map@[fi].1.index.value == *target))
                    }
            }),
    {
        let map_size = self.map.map_size();

        // Validate the move.
        let pi = match self.map.entity_with_id(player_id) {
            Some(i) => i,
            None => {
                proof {
                    crate::grid::game_map::lemma_grid_no_index_count_zero(
                        self.map.map@,
                        player_id,
                    );
                }
                return Err(GameError::MissingEntity);
            },
        };
        proof {
            lemma_unique_player_index(self.map.map@, pi as int, player_id);
        }
        let current = *self.map.map[pi].1.index();
        if current.x == target.x && current.y == target.y {
            return Err(GameError::SameMovePosition);
        }
        if !self.map.index_within_bounds(target) {
            return Err(GameError::OutOfMap);
        }
        let can_move = match &self.map.map[pi].1.kind {
            EntityKind::Player(player) => {
                let rel = MapIndex::new(
                    #[verifier::truncate] ((target.x as i128 - current.x as i128) as i64),
                    #[verifier::truncate] ((target.y as i128 - current.y as i128) as i64),
                );
                player.can_move_to(&rel, now)
            },
            _ => {
                return Err(GameError::InvalidEntityKind);
            },
        };
        if !can_move {
            return Err(GameError::InvalidMovePosition);
        }

        // Determine what to squish.
        let ghost pre = self.map.map@;
        let target_idx = self.map.entity_at(target);
        let ghost exec_oi = target_idx;
        let action: u8;
        let mut squish_id: EntityId = 0;
        let mut orb_points: u64 = 0;
        match target_idx {
            Some(oi) => {
                match &self.map.map[oi].1.kind {
                    EntityKind::Gap { .. } => {
                        action = 1;
                        squish_id = player_id;
                    },
                    EntityKind::Player(_) => {
                        action = 1;
                        squish_id = self.map.map[oi].0;
                    },
                    EntityKind::PointOrb { points } => {
                        action = 2;
                        squish_id = self.map.map[oi].0;
                        orb_points = *points.get();
                    },
                }
            },
            None => {
                action = 0;
            },
        }

        // Move the player and mark it moved.
        let ghost pre_move = self.map.map@;
        {
            let pair = &mut self.map.map[pi];
            pair.1.move_to(target);
            match &mut pair.1.kind {
                EntityKind::Player(player) => {
                    player.moved(now);
                },
                _ => {},
            }
        }
        proof {
            assert forall|id: EntityId| grid_id_count(self.map.map@, id) == grid_id_count(
                pre_move,
                id,
            ) by {
                crate::grid::game_map::lemma_grid_id_count_update(
                    pre_move,
                    pi as int,
                    self.map.map@[pi as int],
                    id,
                );
            }
            assert forall|id: EntityId| grid_id_count(self.map.map@, id) <= 1 by {
                assert(grid_id_count(pre_move, id) <= 1);
            }
            assert forall|j: int|
                0 <= j < self.map.map@.len() implies (#[trigger] self.map.map@[j]).0
                < self.map.entity_id.count by {
                assert(self.map.map@[j].0 == pre_move[j].0);
            }
            assert(self.map.wf());
        }

        // Resolve the squish.
        let ghost map1 = self.map.map@;
        let ghost mover_counter = self.map.entity_id.count;
        let ghost mut map2: Seq<(EntityId, Entity)> = map1;
        let ghost mut wi: int = 0;
        let ghost mut map_sp: Seq<(EntityId, Entity)> = map1;
        let ghost mut w1: int = 0;
        if action == 1 {
            // Get the dying entity's point balance and scatter it.
            let point_count = match self.map.entity_with_id(squish_id) {
                Some(di) => match &self.map.map[di].1.kind {
                    EntityKind::Player(p) => *p.point_count(),
                    _ => 0,
                },
                None => 0,
            };
            let _ = self.spawn_points(point_count, target);
            proof {
                if squish_id == player_id {
                    crate::grid::game_map::lemma_grid_id_count_at_least_one(
                        map1,
                        player_id,
                        pi as int,
                    );
                }
            }
            let ghost map_sp_destroyed = self.map.destroyed_entities@;
            proof {
                map_sp = self.map.map@;
            }
            let rr = self.map.remove_entity_with_id(squish_id);
            proof {
                if squish_id == player_id {
                    if rr is Err {
                        assert(false);
                    }
                } else {
                    // The squished entity was on the board, so the removal
                    // went through, at its unique index.
                    crate::grid::game_map::lemma_grid_id_count_at_least_one(
                        pre,
                        squish_id,
                        exec_oi->0 as int,
                    );
                    assert(grid_id_count(map1, squish_id) == grid_id_count(pre, squish_id));
                    assert(grid_id_count(map_sp, squish_id) >= 1);
                    if rr is Err {
                        assert(false);
                    }
                    let we = choose|w: int|
                        0 <= w < map_sp.len() && (#[trigger] map_sp[w]).0 == squish_id
                            && self.map.map@ == map_sp.remove(w)
                            && self.map.destroyed_entities@ == map_sp_destroyed.push(map_sp[w]);
                    w1 = we;
                }
            }
        } else if action == 2 {
            // Give the points and destroy the orb.
            match self.map.entity_with_id(player_id) {
                Some(mi) => {
                    proof {
                        lemma_unique_player_index(self.map.map@, pi as int, player_id);
                        assert(mi as int == pi as int);
                    }
                    let ghost pre_pts = self.map.map@;
                    let pair = &mut self.map.map[mi];
                    match &mut pair.1.kind {
                        EntityKind::Player(player) => {
                            player.give_points(orb_points);
                        },
                        _ => {},
                    }
                    proof {
                        assert forall|id: EntityId| grid_id_count(self.map.map@, id)
                            == grid_id_count(pre_pts, id) by {
                            crate::grid::game_map::lemma_grid_id_count_update(
                                pre_pts,
                                mi as int,
                                self.map.map@[mi as int],
                                id,
                            );
                        }
                        assert forall|id: EntityId| grid_id_count(self.map.map@, id) <= 1 by {
                            assert(grid_id_count(pre_pts, id) <= 1);
                        }
                        assert forall|j: int|
                            0 <= j < self.map.map@.len() implies (
                        #[trigger] self.map.map@[j]).0 < self.map.entity_id.count by {
                            assert(self.map.map@[j].0 == pre_pts[j].0);
                        }
                        assert(self.map.wf());
                    }
                },
                None => {},
            }
            proof {
                map2 = self.map.map@;
                crate::grid::game_map::lemma_grid_id_count_at_least_one(
                    map2,
                    squish_id,
                    exec_oi->0 as int,
                );
            }
            let rr2 = self.map.remove_entity_with_id(squish_id);
            proof {
                if rr2 is Err {
                    assert(false);
                }
                wi = choose|w: int|
                    0 <= w < map2.len() && map2[w].0 == squish_id && self.map.map@ == map2.remove(
                        w,
                    ) && self.map.destroyed_entities@ == old(
                        self,
                    ).map.destroyed_entities@.push(map2[w]);
            }
        }

        // Spawn a gap where the player was.
        let ghost map_before_gap = self.map.map@;
        let gap = Entity::new(
            current,
            EntityKind::Gap { spawner: player_id, spawn_time: now },
        );
        let ghost gap_counter = self.map.entity_id.count;
        let result = match self.map.insert_entity(gap) {
            Ok(_) => Ok(()),
            Err(e) => Err(e),
        };
        proof {
            let prem = old(self).map.map@;
            let finalm = self.map.map@;
            // The mover's unique index is the one the scan found; so is any
            // occupant of the target cell.
            lemma_unique_player_index(prem, pi as int, player_id);
            assert forall|oi: int|
                0 <= oi < prem.len() && (#[trigger] prem[oi]).1.index.value == *target implies oi
                == exec_oi->0 as int by {
                if oi != exec_oi->0 as int {
                    if oi < exec_oi->0 as int {
                        assert(prem[oi].1.index.value != prem[exec_oi->0 as int].1.index.value);
                    } else {
                        assert(prem[exec_oi->0 as int].1.index.value != prem[oi].1.index.value);
                    }
                }
            }
            if action == 2 {
                // The orb sat at a different index than the mover, so its
                // id is not the mover's.
                let oi = exec_oi->0 as int;
                assert(oi != pi as int);
                if prem[oi].0 == player_id {
                    if oi < pi as int {
                        crate::grid::game_map::lemma_grid_two_indices(
                            prem,
                            oi,
                            pi as int,
                            player_id,
                        );
                    } else {
                        crate::grid::game_map::lemma_grid_two_indices(
                            prem,
                            pi as int,
                            oi,
                            player_id,
                        );
                    }
                }
                assert(squish_id != player_id);
                assert(wi != pi as int);
                // The mover's entry after the removal and the gap insert.
                let pj = if (pi as int) < wi {
                    pi as int
                } else {
                    pi as int - 1
                };
                assert(map_before_gap == map2.remove(wi));
                assert(map_before_gap[pj] == map2[pi as int]);
                assert(finalm[pj] == map2[pi as int]);
                lemma_player_entry_facts(finalm, player_id, pj);
                assert(finalm[pj].1.kind is Player);
                assert(finalm[pj].1.kind->Player_0.move_time == now);
                assert(finalm[pj].1.index.value == *target);
                lemma_unique_player_index(finalm, pj, player_id);
                // The destroyed orb's id stays gone through the gap insert.
                assert(grid_id_count(map_before_gap, squish_id) == 0);
                if finalm != map_before_gap {
                    crate::grid::game_map::lemma_grid_id_count_push(
                        map_before_gap,
                        (gap_counter, gap),
                        squish_id,
                    );
                }
            }
            if action == 1 && squish_id == player_id {
                assert(grid_id_count(map_before_gap, player_id) == 0);
                if finalm != map_before_gap {
                    crate::grid::game_map::lemma_grid_id_count_push(
                        map_before_gap,
                        (gap_counter, gap),
                        player_id,
                    );
                }
                // With the mover gone, nothing carries its id.
                assert forall|fi: int|
                    0 <= fi < finalm.len() && (#[trigger] finalm[fi]).0 == player_id implies
                    false by {
                    crate::grid::game_map::lemma_grid_id_count_at_least_one(
                        finalm,
                        player_id,
                        fi,
                    );
                }
            }
            // The gap that every completed move leaves on the vacated cell.
            if result is Ok {
                assert(finalm == map_before_gap.push((gap_counter, gap)));
                let gi = finalm.len() - 1;
                assert(finalm[gi].1.kind is Gap && finalm[gi].1.index.value == current
                    && finalm[gi].1.kind->spawner == player_id && finalm[gi].1.kind->spawn_time
                    == now);
            }
            // The surviving mover sits on the target with a fresh cooldown.
            if action == 0 {
                assert(map_before_gap == map1);
                assert(map1[pi as int].0 == player_id);
                assert(map1[pi as int].1.kind is Player);
                assert(map1[pi as int].1.kind->Player_0.move_time == now);
                assert(map1[pi as int].1.index.value == *target);
                if result is Ok {
                    assert(finalm[pi as int] == map1[pi as int]);
                } else {
                    assert(finalm == map_before_gap);
                }
                lemma_unique_player_index(finalm, pi as int, player_id);
            }
            if action == 1 && squish_id != player_id {
                // The squashed occupant is gone, and the gap's fresh id
                // cannot bring it back.
                assert(grid_id_count(map_before_gap, squish_id) == 0);
                if finalm != map_before_gap {
                    crate::grid::game_map::lemma_grid_id_count_push(
                        map_before_gap,
                        (gap_counter, gap),
                        squish_id,
                    );
                }
                // The scatter kept the mover's entry, and the removal then
                // shifted it at most one slot down.
                assert(map_sp[pi as int].0 == map1[pi as int].0);
                assert(map_sp[pi as int].1 == map1[pi as int].1);
                assert(map_sp[w1].0 == squish_id);
                assert(w1 != pi as int);
                let pj = if (pi as int) < w1 {
                    pi as int
                } else {
                    pi as int - 1
                };
                assert(map_before_gap == map_sp.remove(w1));
                assert(map_before_gap[pj] == map_sp[pi as int]);
                assert(finalm[pj] == map_sp[pi as int]);
                assert(finalm[pj].0 == player_id);
                assert(finalm[pj].1.kind is Player);
                assert(finalm[pj].1.kind->Player_0.move_time == now);
                assert(finalm[pj].1.index.value == *target);
                lemma_unique_player_index(finalm, pj, player_id);
            }
        }
        result
    }

    /// Scatters a dying player's points around a centre cell: one orb of
    /// four points per clump, at a random angle and distance, skipped off
    /// the board and over gaps, and merged into an orb already there.
    pub fn spawn_points(&mut self, point_count: u64, center: &MapIndex) -> (r: Result<
        (),
        GameError,
    >)
        requires
            old(self).wf(),
            old(self).map.entity_id.count < u64::MAX - 1000,
            -1_000_000_000 <= center.x <= 1_000_000_000,
            -1_000_000_000 <= center.y <= 1_000_000_000,
        ensures
            final(self).wf(),
            final(self).map.entity_id.count <= old(self).map.entity_id.count + 250,
            forall|id: EntityId|
                id < old(self).map.entity_id.count ==> grid_id_count(final(self).map.map@, id)
                    == grid_id_count(old(self).map.map@, id),
            final(self).map.map@.len() >= old(self).map.map@.len(),
            // Every entity already on the board keeps its id and cell;
            // only orbs change, and their balance never shrinks.
            forall|j: int|
                0 <= j < old(self).map.map@.len() ==> {
                    let oe = #[trigger] old(self).map.map@[j];
                    let ne = final(self).map.map@[j];
                    &&& ne.0 == oe.0
                    &&& ne.1.index == oe.1.index
                    &&& (!(oe.1.kind is PointOrb) ==> ne.1 == oe.1)
                    &&& (oe.1.kind is PointOrb ==> ne.1.kind is PointOrb
                        && ne.1.kind->points.value >= oe.1.kind->points.value)
                },
            // Whatever the scatter adds is a fresh orb of one clump, on the
            // board within the scatter's reach of the centre.
            forall|j: int|
                old(self).map.map@.len() <= j < final(self).map.map@.len() ==> {
                    let ne = #[trigger] final(self).map.map@[j];
                    &&& ne.1.kind is PointOrb
                    &&& ne.1.kind->points.value >= POINT_CLUMP
                    &&& final(self).map.spec_within_bounds(ne.1.index.value)
                    &&& center.x - 4 <= ne.1.index.value.x <= center.x + 4
                    &&& center.y - 4 <= ne.1.index.value.y <= center.y + 4
                    &&& ne.0 >= old(self).map.entity_id.count
                },
    {
        let clumps = point_count / POINT_CLUMP;
        let clumps = if clumps > 250 {
            250
        } else {
            clumps
        };
        let mut c: u64 = 0;
        while c < clumps
            invariant
                self.wf(),
                clumps <= 250,
                c <= clumps,
                self.map.entity_id.count <= old(self).map.entity_id.count + c,
                old(self).map.entity_id.count <= self.map.entity_id.count,
                old(self).map.entity_id.count < u64::MAX - 1000,
                forall|id: EntityId|
                    id < old(self).map.entity_id.count ==> grid_id_count(self.map.map@, id)
                        == grid_id_count(old(self).map.map@, id),
                -1_000_000_000 <= center.x <= 1_000_000_000,
                -1_000_000_000 <= center.y <= 1_000_000_000,
                self.map.map_size == old(self).map.map_size,
                self.map.destroyed_entities == old(self).map.destroyed_entities,
                self.map.map@.len() >= old(self).map.map@.len(),
                forall|j: int|
                    0 <= j < old(self).map.map@.len() ==> {
                        let oe = #[trigger] old(self).map.map@[j];
                        let ne = self.map.map@[j];
                        &&& ne.0 == oe.0
                        &&& ne.1.index == oe.1.index
                        &&& (!(oe.1.kind is PointOrb) ==> ne.1 == oe.1)
                        &&& (oe.1.kind is PointOrb ==> ne.1.kind is PointOrb
                            && ne.1.kind->points.value >= oe.1.kind->points.value)
                    },
                forall|j: int|
                    old(self).map.map@.len() <= j < self.map.map@.len() ==> {
                        let ne = #[trigger] self.map.map@[j];
                        &&& ne.1.kind is PointOrb
                        &&& ne.1.kind->points.value >= POINT_CLUMP
                        &&& self.map.spec_within_bounds(ne.1.index.value)
                        &&& center.x - 4 <= ne.1.index.value.x <= center.x + 4
                        &&& center.y - 4 <= ne.1.index.value.y <= center.y + 4
                        &&& ne.0 >= old(self).map.entity_id.count
                    },
            decreases clumps - c,
        {
            let (dx, dy) = crate::utils::random_scatter_offset();
            let idx = MapIndex::new(center.x + dx, center.y + dy);
            // Make sure the cell is on the board.
            if self.map.index_within_bounds(&idx) {
                match self.map.entity_at(&idx) {
                    Some(oi) => {
                        let ghost pre = self.map.map@;
                        let pair = &mut self.map.map[oi];
                        match &mut pair.1.kind {
                            EntityKind::PointOrb { points } => {
                                let cur = *points.get();
                                points.set(crate::utils::sat_add_u64(cur, POINT_CLUMP));
                            },
                            // Points do not spawn on a gap or a player.
                            _ => {},
                        }
                        proof {
                            assert forall|id: EntityId| grid_id_count(self.map.map@, id)
                                == grid_id_count(pre, id) by {
                                crate::grid::game_map::lemma_grid_id_count_update(
                                    pre,
                                    oi as int,
                                    self.map.map@[oi as int],
                                    id,
                                );
                            }
                            assert forall|id: EntityId| grid_id_count(self.map.map@, id)
                                <= 1 by {
                                assert(grid_id_count(pre, id) <= 1);
                            }
                            assert forall|j: int|
                                0 <= j < self.map.map@.len() implies (
                            #[trigger] self.map.map@[j]).0 < self.map.entity_id.count by {
                                assert(self.map.map@[j].0 == pre[j].0);
                            }
                            assert(self.map.wf());
                        }
                    },
                    None => {
                        let orb = Entity::new(
                            idx,
                            EntityKind::PointOrb { points: IncrementalValue::new(POINT_CLUMP) },
                        );
                        let ghost pre_ins = self.map.map@;
                        let r = self.map.insert_entity(orb);
                        proof {
                            if r is Ok {
                                assert forall|id: EntityId|
                                    id < old(self).map.entity_id.count implies grid_id_count(
                                    self.map.map@,
                                    id,
                                ) == grid_id_count(pre_ins, id) by {
                                    crate::grid::game_map::lemma_grid_id_count_push(
                                        pre_ins,
                                        (r->Ok_0, orb),
                                        id,
                                    );
                                }
                            }
                        }
                    },
                }
            }
            c += 1;
        }
        Ok(())
    }
}

/// Whether the class and cooldown allow a move from a cell to a target.
pub open spec fn spec_can_move(p: Player, from: MapIndex, target: MapIndex, now: u64) -> bool {
    &&& p.move_time + p.class.move_wait <= now
    &&& p.class.move_positions@.contains(
        MapIndex { x: (target.x - from.x) as i64, y: (target.y - from.y) as i64 },
    )
}

/// A fully legal move: a player, not in place, on the board, allowed and
/// off cooldown.
pub open spec fn spec_legal_move(
    map: crate::grid::game_map::GameMap,
    e: Entity,
    from: MapIndex,
    target: MapIndex,
    now: u64,
) -> bool {
    &&& e.kind is Player
    &&& from != target
    &&& map.spec_within_bounds(target)
    &&& spec_can_move(e.kind->Player_0, from, target, now)
}

/// The point balance of a player on the board, or zero when absent.
pub open spec fn spec_player_points(m: Seq<(EntityId, Entity)>, id: EntityId) -> u64 {
    if exists|i: int| 0 <= i < m.len() && (#[trigger] m[i]).0 == id && m[i].1.kind is Player {
        let i = choose|i: int|
            0 <= i < m.len() && (#[trigger] m[i]).0 == id && m[i].1.kind is Player;
        m[i].1.kind->Player_0.points.value
    } else {
        0
    }
}

/// Whether a player sits on a cell.
pub open spec fn spec_player_at(m: Seq<(EntityId, Entity)>, id: EntityId, at: MapIndex) -> bool {
    exists|i: int|
        0 <= i < m.len() && (#[trigger] m[i]).0 == id && m[i].1.index.value == at
}


/// The point balance and the cell of the unique player entry.
pub proof fn lemma_player_entry_facts(m: Seq<(EntityId, Entity)>, id: EntityId, j: int)
    requires
        0 <= j < m.len(),
        m[j].0 == id,
        m[j].1.kind is Player,
        forall|other: EntityId| grid_id_count(m, other) <= 1,
    ensures
        spec_player_points(m, id) == m[j].1.kind->Player_0.points.value,
        spec_player_at(m, id, m[j].1.index.value),
{
    lemma_unique_player_index(m, j, id);
    assert(exists|i: int|
        0 <= i < m.len() && (#[trigger] m[i]).0 == id && m[i].1.kind is Player);
    let i = choose|i: int|
        0 <= i < m.len() && (#[trigger] m[i]).0 == id && m[i].1.kind is Player;
    assert(i == j);
}

/// With unique ids, any two indices holding one id coincide.
pub proof fn lemma_unique_player_index(m: Seq<(EntityId, Entity)>, i: int, id: EntityId)
    requires
        0 <= i < m.len(),
        m[i].0 == id,
        forall|other: EntityId| grid_id_count(m, other) <= 1,
    ensures
        forall|j: int| 0 <= j < m.len() && (#[trigger] m[j]).0 == id ==> j == i,
{
    assert forall|j: int| 0 <= j < m.len() && (#[trigger] m[j]).0 == id implies j == i by {
        if j != i {
            if i < j {
                crate::grid::game_map::lemma_grid_two_indices(m, i, j, id);
            } else {
                crate::grid::game_map::lemma_grid_two_indices(m, j, i, id);
            }
        }
    }
}

} // verus!
