//! The immutable configuration document: tuning values, scoring weights,
//! prefabs, and the map tree. Loaded once at process start and shared
//! read-only; times are milliseconds, distances milli-units, and unit
//! fractions are scaled by 1000.
use vstd::prelude::*;

use crate::geometry::{Rect, Vector, COORD_LIMIT, SIZE_LIMIT};

verus! {

/// Bound on the sum of a body's rect volumes (cubic milli-units).
pub const VOLUME_LIMIT: i64 = 1_000_000_000_000_000_000;

/// The sum of the volumes of a list of rects.
pub open spec fn sum_volumes(s: Seq<Rect>) -> int
    decreases s.len(),
{
    if s.len() == 0 {
        0
    } else {
        sum_volumes(s.drop_last()) + s.last().size.x * s.last().size.y * s.last().size.z
    }
}

/// Every rect is well formed and the total volume stays in range, so a body
/// made of these rects can cache its volume in a machine integer.
pub open spec fn rects_wf(s: Seq<Rect>) -> bool {
    &&& forall|i: int| 0 <= i < s.len() ==> (#[trigger] s[i]).wf()
    &&& 0 <= sum_volumes(s) <= VOLUME_LIMIT
    &&& s.len() <= 100_000
}

/// The store: what the client may purchase or select.
pub struct StoreConfig {
    pub characters: Vec<CharacterConfig>,
}

/// One selectable hunter character.
pub struct CharacterConfig {
    pub id: String,
    pub name: String,
}

/// Player tuning. Speeds are milli-units per second, times milliseconds,
/// and the ping-delay unit pair is milliseconds per cube-root-unit of
/// volume.
pub struct PlayerConfig {
    /// Default prefab for a player in the prop role.
    pub prop_prefab: String,
    /// Offset of the shot origin from the player position, before the
    /// facing rotation is applied.
    pub shoot_pos: Vector,
    pub move_speed: i64,
    pub sprint_speed: i64,
    /// Milliseconds of sprinting that a full stamina bar affords.
    pub prop_stamina_ms: u64,
    pub hunter_stamina_ms: u64,
    pub jump_velocity: i64,
    pub min_shoot_delay_ms: u64,
    pub ping_delay_min_ms: u64,
    pub ping_delay_base_ms: (u64, u64),
    pub ping_delay_unit_ms: (u64, u64),
}

/// Scoring weights, applied to integer counters.
pub struct ScoringConfig {
    pub winning_team: u64,
    pub first: u64,
    pub second: u64,
    pub third: u64,
    pub killed_player: u64,
    pub hit_shot: u64,
    pub percent_hit_scale: u64,
    pub prop_health: u64,
    pub ping: u64,
    pub ping_per_unit: u64,
    /// Score per second spent sleeping, scaled by 1000.
    pub sleeping_per_second_milli: u64,
}

/// Whether a prefab is a movable prop or a static fixture.
#[derive(Clone, Copy)]
pub enum PrefabKind {
    Prop,
    Fixture,
}

impl PrefabKind {
    pub fn is_fixture(&self) -> (r: bool)
        ensures
            r == (self is Fixture),
    {
        match self {
            PrefabKind::Fixture => true,
            PrefabKind::Prop => false,
        }
    }
}

/// A reusable description of an entity: visual asset, health, and collision
/// rects. Health is in thousandths of a full bar; a hit deals
/// `1_000_000 / health_milli` thousandths of damage.
pub struct PrefabConfig {
    pub id: String,
    pub kind: PrefabKind,
    pub health_milli: u64,
    pub asset: Option<String>,
    /// Collision rects in body-local coordinates.
    pub rects: Vec<Rect>,
    pub minimap_color: String,
    /// Extra rects shown on the minimap only.
    pub minimap_rects: Vec<Rect>,
}

impl PrefabConfig {
    pub open spec fn wf(&self) -> bool {
        &&& rects_wf(self.rects@)
        &&& self.health_milli >= 1
        &&& forall|i: int|
            0 <= i < self.minimap_rects@.len() ==> (#[trigger] self.minimap_rects@[i]).wf()
    }

    /// The asset to display: the explicit asset if one is set, else the id.
    pub fn asset(&self) -> (r: String)
        ensures
            r@ == if self.asset is Some {
                self.asset->0@
            } else {
                self.id@
            },
    {
        match &self.asset {
            Some(a) => clone_string(a),
            None => clone_string(&self.id),
        }
    }
}

/// Relies on String::clone: an equal string.
pub fn clone_string(s: &String) -> (r: String)
    ensures
        r@ == s@,
{
    s.clone()
}

/// One object placed on the map. The spawn chance is in thousandths.
pub struct ObjectConfig {
    pub prefab_id: String,
    pub position: Vector,
    pub rotation: u8,
    pub spawn_chance_milli: u32,
}

/// A group of map objects sharing an offset.
pub struct GroupConfig {
    pub group_name: String,
    pub offset: Vector,
    pub objects: Vec<MapObjectKind>,
}

/// A building lays out objects on a grid from a two-character-per-cell map
/// string: the first character selects an object from the lookup table, the
/// second an extra quarter turn.
pub struct BuildingConfig {
    pub building_name: String,
    pub offset: Vector,
    pub room_size: i64,
    pub centered: bool,
    pub lookup_table: Vec<(char, ObjectConfig)>,
    pub map: Vec<Vec<(char, u8)>>,
}

/// One node of a map tree: a placed object, a group, or a building.
pub enum MapObjectKind {
    Object(ObjectConfig),
    Group(GroupConfig),
    Building(BuildingConfig),
}

/// A named map: a tree of objects, groups and buildings.
pub struct MapConfig {
    pub name: String,
    pub objects: Vec<MapObjectKind>,
}

/// The whole configuration document.
pub struct GameConfig {
    /// Downward acceleration, milli-units per second per second.
    pub gravity: i64,
    /// Side length of the playfield, milli-units.
    pub map_size: i64,
    /// Half-extent of a client's visibility box, milli-units.
    pub view_range: i64,
    pub store: StoreConfig,
    pub player: PlayerConfig,
    pub scoring: ScoringConfig,
    pub prefabs: Vec<PrefabConfig>,
    pub maps: Vec<(String, MapConfig)>,
}

impl GameConfig {
    pub open spec fn wf(&self) -> bool {
        &&& 0 <= self.gravity <= 1_000_000
        &&& 0 < self.map_size <= COORD_LIMIT
        &&& 0 <= self.view_range <= COORD_LIMIT
        &&& 0 <= self.player.move_speed <= 1_000_000
        &&& 0 <= self.player.sprint_speed <= 1_000_000
        &&& -1_000_000 <= self.player.jump_velocity <= 1_000_000
        &&& self.player.prop_stamina_ms >= 1
        &&& self.player.hunter_stamina_ms >= 1
        &&& self.player.shoot_pos.bounded(SIZE_LIMIT as i64)
        &&& self.player.min_shoot_delay_ms <= 1_000_000
        &&& self.player.ping_delay_min_ms <= 1_000_000_000
        &&& self.player.ping_delay_base_ms.0 <= 1_000_000_000
        &&& self.player.ping_delay_base_ms.1 <= 1_000_000_000
        &&& self.player.ping_delay_unit_ms.0 <= 1_000_000
        &&& self.player.ping_delay_unit_ms.1 <= 1_000_000
        &&& forall|i: int| 0 <= i < self.prefabs@.len() ==> (#[trigger] self.prefabs@[i]).wf()
    }

    /// The first prefab with the given id, if any.
    pub fn prefab_with_id(&self, id: &String) -> (r: Option<&PrefabConfig>)
        ensures
            match r {
                Some(p) => exists|i: int|
                    0 <= i < self.prefabs@.len() && self.prefabs@[i].id@ == id@ && p
                        == self.prefabs@[i],
                None => forall|i: int|
                    0 <= i < self.prefabs@.len() ==> (#[trigger] self.prefabs@[i]).id@ != id@,
            },
    {
        let n = self.prefabs.len();
        let mut i: usize = 0;
        while i < n
            invariant
                n == self.prefabs@.len(),
                i <= n,
                forall|j: int| 0 <= j < i ==> (#[trigger] self.prefabs@[j]).id@ != id@,
            decreases n - i,
        {
            if self.prefabs[i].id == *id {
                return Some(&self.prefabs[i]);
            }
            i += 1;
        }
        None
    }
}

/// Prefabs default to the movable-prop kind.
pub fn default_kind() -> (r: PrefabKind)
    ensures
        r is Prop,
{
    PrefabKind::Prop
}

/// Prefabs default to no explicit asset, falling back to the id.
pub fn default_asset() -> (r: Option<String>)
    ensures
        r is None,
{
    None
}

/// Objects default to no rotation.
pub fn default_rot() -> (r: u8)
    ensures
        r == 0,
{
    0
}

/// The default minimap colour is white.
pub fn default_color() -> (r: String)
    ensures
        r@ =~= seq!['#', 'f', 'f', 'f', 'f', 'f', 'f'],
{
    let s: String = "#ffffff".to_string();
    proof {
        reveal_strlit("#ffffff");
    }
    s
}

/// Buildings default to not being centred.
pub fn default_bool_false() -> (r: bool)
    ensures
        r == false,
{
    false
}

impl ObjectConfig {
    /// An equal copy.
    pub fn duplicate(&self) -> (r: ObjectConfig)
        ensures
            r.prefab_id@ == self.prefab_id@,
            r.position == self.position,
            r.rotation == self.rotation,
            r.spawn_chance_milli == self.spawn_chance_milli,
    {
        ObjectConfig {
            prefab_id: clone_string(&self.prefab_id),
            position: self.position,
            rotation: self.rotation,
            spawn_chance_milli: self.spawn_chance_milli,
        }
    }
}

/// An equal copy of a rect list.
pub fn clone_rects(v: &Vec<Rect>) -> (r: Vec<Rect>)
    ensures
        r@ == v@,
{
    let mut r: Vec<Rect> = Vec::new();
    let n = v.len();
    let mut i: usize = 0;
    while i < n
        invariant
            n == v@.len(),
            i <= n,
            r@ == v@.subrange(0, i as int),
        decreases n - i,
    {
        r.push(v[i]);
        proof {
            assert(r@ =~= v@.subrange(0, i + 1));
        }
        i += 1;
    }
    proof {
        assert(v@.subrange(0, n as int) =~= v@);
    }
    r
}

impl PrefabConfig {
    /// An equal copy.
    pub fn duplicate(&self) -> (r: PrefabConfig)
        ensures
            r.id@ == self.id@,
            r.kind == self.kind,
            r.health_milli == self.health_milli,
            r.asset is Some == self.asset is Some,
            r.asset is Some ==> r.asset->0@ == self.asset->0@,
            r.rects@ == self.rects@,
            r.minimap_color@ == self.minimap_color@,
            r.minimap_rects@ == self.minimap_rects@,
            self.wf() ==> r.wf(),
    {
        PrefabConfig {
            id: clone_string(&self.id),
            kind: self.kind,
            health_milli: self.health_milli,
            asset: match &self.asset {
                Some(a) => Some(clone_string(a)),
                None => None,
            },
            rects: clone_rects(&self.rects),
            minimap_color: clone_string(&self.minimap_color),
            minimap_rects: clone_rects(&self.minimap_rects),
        }
    }
}

} // verus!
