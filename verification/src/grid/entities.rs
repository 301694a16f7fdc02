//! The grid variant's entities: class-based player pieces, the lethal gaps
//! they leave behind, and the point orbs the fallen scatter.
use vstd::prelude::*;

use crate::grid::game_map::MapIndex;
use crate::grid::incremental_value::IncrementalValue;

verus! {

/// Type used to identify entities.
pub type EntityId = u64;

/// How many points a fresh player starts with.
pub const STARTING_POINTS: u64 = 15;

/// Entities that are inside the game's map.
pub enum EntityKind {
    Player(Player),
    Gap { spawner: EntityId, spawn_time: u64 },
    PointOrb { points: IncrementalValue<u64> },
}

impl EntityKind {
    /// The wire tag of the kind.
    pub fn kind_flag(&self) -> (r: u8)
        ensures
            r == match self {
                EntityKind::Player(_) => 0u8,
                EntityKind::Gap { .. } => 1u8,
                EntityKind::PointOrb { .. } => 2u8,
            },
    {
        match self {
            EntityKind::Player(_) => 0,
            EntityKind::Gap { .. } => 1,
            EntityKind::PointOrb { .. } => 2,
        }
    }

    /// Called when checking to see if the entity needs an update.
    pub fn needs_update(&self) -> (r: bool)
        ensures
            r == match self {
                EntityKind::Player(p) => p.points.is_changed,
                EntityKind::Gap { .. } => false,
                EntityKind::PointOrb { points } => points.is_changed,
            },
    {
        match self {
            EntityKind::Player(player) => player.needs_update(),
            EntityKind::Gap { .. } => false,
            EntityKind::PointOrb { points } => points.is_changed(),
        }
    }

    /// Called after an update went out.
    pub fn updated(&mut self)
        ensures
            !final(self).spec_needs_update(),
            (*final(self)) is Player == (*old(self)) is Player,
            (*final(self)) is Gap == (*old(self)) is Gap,
            (*final(self)) is PointOrb == (*old(self)) is PointOrb,
            (*old(self)) is Player ==> (*final(self))->Player_0 == (Player {
                points: IncrementalValue {
                    value: (*old(self))->Player_0.points.value,
                    is_changed: false,
                },
                ..(*old(self))->Player_0
            }),
            (*old(self)) is Gap ==> *final(self) == *old(self),
            (*old(self)) is PointOrb ==> (*final(self))->points == (IncrementalValue {
                value: (*old(self))->points.value,
                is_changed: false,
            }),
    {
        match self {
            EntityKind::Player(player) => player.updated(),
            EntityKind::Gap { .. } => {},
            EntityKind::PointOrb { points } => points.updated(),
        }
    }

    pub open spec fn spec_needs_update(&self) -> bool {
        match self {
            EntityKind::Player(p) => p.points.is_changed,
            EntityKind::Gap { .. } => false,
            EntityKind::PointOrb { points } => points.is_changed,
        }
    }
}

/// An entity within the map: a cell index and a kind.
pub struct Entity {
    /// If this is a new entity that needs to be sent to the clients.
    pub is_new: bool,
    /// The current cell of the entity.
    pub index: IncrementalValue<MapIndex>,
    /// The kind of entity.
    pub kind: EntityKind,
}

impl Entity {
    pub fn new(index: MapIndex, kind: EntityKind) -> (r: Entity)
        ensures
            r.is_new,
            r.index.value == index,
            !r.index.is_changed,
            r.kind == kind,
    {
        Entity { is_new: true, index: IncrementalValue::new(index), kind }
    }

    /// Called when checking to see if the entity needs an update.
    pub fn needs_update(&self) -> (r: bool)
        ensures
            r == (self.index.is_changed || self.kind.spec_needs_update()),
    {
        self.index.is_changed() || self.kind.needs_update()
    }

    /// Called after an update went out: clears every flag.
    pub fn updated(&mut self)
        ensures
            !final(self).is_new,
            !final(self).index.is_changed,
            !final(self).kind.spec_needs_update(),
            final(self).index.value == old(self).index.value,
            (final(self).kind) is Player == (old(self).kind) is Player,
            (final(self).kind) is Gap == (old(self).kind) is Gap,
            (final(self).kind) is PointOrb == (old(self).kind) is PointOrb,
    {
        self.is_new = false;
        self.kind.updated();
        self.index.updated();
    }

    pub fn index(&self) -> (r: &MapIndex)
        ensures
            r == self.index.value,
    {
        self.index.get()
    }

    /// Moves the entity to a cell, flagging the change.
    pub fn move_to(&mut self, index: &MapIndex)
        ensures
            final(self).index.value == *index,
            final(self).index.is_changed,
            final(self).kind == old(self).kind,
            final(self).is_new == old(self).is_new,
    {
        self.index.set(*index);
    }

    pub fn kind(&self) -> (r: &EntityKind)
        ensures
            r == self.kind,
    {
        &self.kind
    }

    pub fn kind_mut(&mut self) -> (r: &mut EntityKind)
        ensures
            *r == old(self).kind,
            *final(self) == (Entity { kind: *final(r), ..*old(self) }),
    {
        &mut self.kind
    }
}

/// The class of a player: its colour, its move cooldown, and the relative
/// cells it may move to.
#[derive(Debug, Clone)]
pub struct PlayerClass {
    /// The colour for the class.
    pub color: u64,
    /// Time between moves, in milliseconds.
    pub move_wait: u64,
    /// Cells relative to the player's own that it can move to.
    pub move_positions: Vec<MapIndex>,
}

impl PlayerClass {
    pub fn new(color: u64, move_wait: u64, move_positions: Vec<MapIndex>) -> (r: PlayerClass)
        ensures
            r.color == color,
            r.move_wait == move_wait,
            r.move_positions == move_positions,
    {
        PlayerClass { color, move_wait, move_positions }
    }

    pub fn move_positions(&self) -> (r: &Vec<MapIndex>)
        ensures
            r == self.move_positions,
    {
        &self.move_positions
    }

    /// Whether a relative offset is one of the class's allowed moves.
    pub fn valid_move_position(&self, relative_index: &MapIndex) -> (r: bool)
        ensures
            r == self.move_positions@.contains(*relative_index),
    {
        let n = self.move_positions.len();
        let mut i: usize = 0;
        while i < n
            invariant
                n == self.move_positions@.len(),
                i <= n,
                forall|j: int| 0 <= j < i ==> self.move_positions@[j] != *relative_index,
            decreases n - i,
        {
            if self.move_positions[i].x == relative_index.x && self.move_positions[i].y
                == relative_index.y {
                return true;
            }
            i += 1;
        }
        false
    }

    /// The fixed roster of classes, in its stable order.
    pub fn all_classes() -> (r: Vec<PlayerClass>)
        ensures
            r@.len() == 6,
    {
        let mut classes: Vec<PlayerClass> = Vec::new();

        // Horizontal.
        let mut m: Vec<MapIndex> = Vec::new();
        m.push(MapIndex::new(1, 0));
        m.push(MapIndex::new(2, 0));
        m.push(MapIndex::new(-1, 0));
        m.push(MapIndex::new(-2, 0));
        m.push(MapIndex::new(0, 1));
        m.push(MapIndex::new(0, 2));
        m.push(MapIndex::new(0, -1));
        m.push(MapIndex::new(0, -2));
        classes.push(PlayerClass::new(0xd12727, 500, m));

        // Diagonal.
        let mut m: Vec<MapIndex> = Vec::new();
        m.push(MapIndex::new(1, 1));
        m.push(MapIndex::new(2, 2));
        m.push(MapIndex::new(-1, 1));
        m.push(MapIndex::new(-2, 2));
        m.push(MapIndex::new(1, -1));
        m.push(MapIndex::new(2, -2));
        m.push(MapIndex::new(-1, -1));
        m.push(MapIndex::new(-2, -2));
        classes.push(PlayerClass::new(0x4286f4, 300, m));

        // Threes on all sides.
        let mut m: Vec<MapIndex> = Vec::new();
        m.push(MapIndex::new(2, -1));
        m.push(MapIndex::new(2, 0));
        m.push(MapIndex::new(2, 1));
        m.push(MapIndex::new(-2, -1));
        m.push(MapIndex::new(-2, 0));
        m.push(MapIndex::new(-2, 1));
        m.push(MapIndex::new(-1, 2));
        m.push(MapIndex::new(0, 2));
        m.push(MapIndex::new(1, 2));
        m.push(MapIndex::new(-1, -2));
        m.push(MapIndex::new(0, -2));
        m.push(MapIndex::new(1, -2));
        classes.push(PlayerClass::new(0x3df78e, 700, m));

        // All sides.
        let mut m: Vec<MapIndex> = Vec::new();
        m.push(MapIndex::new(-1, -1));
        m.push(MapIndex::new(0, -1));
        m.push(MapIndex::new(1, -1));
        m.push(MapIndex::new(1, 0));
        m.push(MapIndex::new(1, 1));
        m.push(MapIndex::new(0, 1));
        m.push(MapIndex::new(-1, 1));
        m.push(MapIndex::new(-1, 0));
        classes.push(PlayerClass::new(0x96f73d, 700, m));

        // Horizontal with skips.
        let mut m: Vec<MapIndex> = Vec::new();
        m.push(MapIndex::new(1, 0));
        m.push(MapIndex::new(3, 0));
        m.push(MapIndex::new(-1, 0));
        m.push(MapIndex::new(-3, 0));
        m.push(MapIndex::new(0, 1));
        m.push(MapIndex::new(0, 3));
        m.push(MapIndex::new(0, -1));
        m.push(MapIndex::new(0, -3));
        classes.push(PlayerClass::new(0xf76b3d, 1000, m));

        // Diagonal corners.
        let mut m: Vec<MapIndex> = Vec::new();
        m.push(MapIndex::new(-2, -1));
        m.push(MapIndex::new(-1, -2));
        m.push(MapIndex::new(2, -1));
        m.push(MapIndex::new(1, -2));
        m.push(MapIndex::new(2, 1));
        m.push(MapIndex::new(1, 2));
        m.push(MapIndex::new(-2, 1));
        m.push(MapIndex::new(-1, 2));
        classes.push(PlayerClass::new(0x773df7, 600, m));

        classes
    }

    /// A uniformly random class from the roster.
    pub fn random() -> (r: PlayerClass) {
        let classes = PlayerClass::all_classes();
        let i = crate::utils::rand_index(classes.len());
        let picked = &classes[i];
        PlayerClass {
            color: picked.color,
            move_wait: picked.move_wait,
            move_positions: clone_indices(&picked.move_positions),
        }
    }
}

/// An equal copy of a cell list.
pub fn clone_indices(v: &Vec<MapIndex>) -> (r: Vec<MapIndex>)
    ensures
        r@ == v@,
{
    let mut r: Vec<MapIndex> = Vec::new();
    let n = v.len();
    let mut i: usize = 0;
    while i < n
        invariant
            n == v@.len(),
            i <= n,
            r@ == v@.subrange(0, i as int),
        decreases n - i,
    {
        r.push(v[i]);
        proof {
            assert(r@ =~= v@.subrange(0, i + 1));
        }
        i += 1;
    }
    proof {
        assert(v@.subrange(0, n as int) =~= v@);
    }
    r
}

/// The player itself.
pub struct Player {
    /// Display name for the player.
    pub username: String,
    /// Number of points the player has; never decreases.
    pub points: IncrementalValue<u64>,
    /// The class of the player.
    pub class: PlayerClass,
    /// The last time the player moved, in milliseconds.
    pub move_time: u64,
}

impl Player {
    pub fn new(username: String, class: PlayerClass) -> (r: Player)
        ensures
            r.username@ == username@,
            r.class == class,
            r.points.value == STARTING_POINTS,
            !r.points.is_changed,
            r.move_time == 0,
    {
        Player { username, class, points: IncrementalValue::new(STARTING_POINTS), move_time: 0 }
    }

    pub fn player_class(&self) -> (r: &PlayerClass)
        ensures
            r == self.class,
    {
        &self.class
    }

    /// Whether the class's cooldown has passed since the last move.
    pub fn ready_to_move(&self, now: u64) -> (r: bool)
        ensures
            r == (self.move_time + self.class.move_wait <= now),
    {
        self.ready_to_move_with_wait(self.class.move_wait, now)
    }

    pub fn ready_to_move_with_wait(&self, wait: u64, now: u64) -> (r: bool)
        ensures
            r == (self.move_time + wait <= now),
    {
        if self.move_time <= u64::MAX - wait {
            self.move_time + wait <= now
        } else {
            false
        }
    }

    /// Whether the player may move by the given relative offset now.
    pub fn can_move_to(&self, relative_index: &MapIndex, now: u64) -> (r: bool)
        ensures
            r == (self.move_time + self.class.move_wait <= now
                && self.class.move_positions@.contains(*relative_index)),
    {
        self.ready_to_move(now) && self.class.valid_move_position(relative_index)
    }

    /// Marks the player as having moved now.
    pub fn moved(&mut self, now: u64)
        ensures
            *final(self) == (Player { move_time: now, ..*old(self) }),
    {
        self.move_time = now;
    }

    /// Adds to the player's non-decreasing point balance.
    pub fn give_points(&mut self, points: u64)
        ensures
            final(self).points.value == crate::utils::spec_sat_u64(
                old(self).points.value + points,
            ),
            final(self).points.is_changed,
            final(self).username == old(self).username,
            final(self).class == old(self).class,
            final(self).move_time == old(self).move_time,
    {
        let cur = *self.points.get();
        self.points.set(crate::utils::sat_add_u64(cur, points));
    }

    pub fn point_count(&self) -> (r: &u64)
        ensures
            r == self.points.value,
    {
        self.points.get()
    }

    /// Called when checking to see if the entity needs an update.
    pub fn needs_update(&self) -> (r: bool)
        ensures
            r == self.points.is_changed,
    {
        self.points.is_changed()
    }

    /// Called after an update occurred.
    pub fn updated(&mut self)
        ensures
            *final(self) == (Player {
                points: IncrementalValue { value: old(self).points.value, is_changed: false },
                ..*old(self)
            }),
    {
        self.points.updated()
    }
}

} // verus!
