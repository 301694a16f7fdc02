//! Entities and their physics bodies. A body caches its rotated rects,
//! bounding rect and volume; well-formedness says the caches agree with the
//! rects and rotation, which every mutator preserves.
use vstd::prelude::*;

use crate::game_config::{rects_wf, sum_volumes, VOLUME_LIMIT};
use crate::geometry::{spec_rotate, Rect, Vector, COORD_LIMIT, SIZE_LIMIT};
use crate::incremental_value::{IncrementalValue, IncrementalValueDiff};

verus! {

/// Type used to identify entities.
pub type EntityId = u64;

/// Tolerance on position and velocity dirty tracking: 0.1 world units.
pub const POSITION_EPSILON: i64 = 100;

/// Bodies slower than this (milli-units per second) may fall asleep.
pub const MAX_SLEEPING_VELOCITY: i64 = 10;

/// Number of quiet updates required to put a body to sleep.
pub const UPDATES_TO_SLEEP: u64 = 10;

/// The rects of a body, each rotated by the body's quarter-turn rotation.
pub open spec fn spec_rotated_rects(s: Seq<Rect>, rot: u8) -> Seq<Rect> {
    Seq::new(s.len(), |i: int| spec_rotate(s[i], rot as nat))
}

/// Least lower x extent over a non-empty list of rects.
pub open spec fn spec_min_x(s: Seq<Rect>) -> int
    decreases s.len(),
{
    if s.len() <= 1 {
        s[0].spec_x_lower(0)
    } else {
        vstd::math::min(spec_min_x(s.drop_last()), s.last().spec_x_lower(0))
    }
}

pub open spec fn spec_max_x(s: Seq<Rect>) -> int
    decreases s.len(),
{
    if s.len() <= 1 {
        s[0].spec_x_upper(0)
    } else {
        vstd::math::max(spec_max_x(s.drop_last()), s.last().spec_x_upper(0))
    }
}

pub open spec fn spec_min_y(s: Seq<Rect>) -> int
    decreases s.len(),
{
    if s.len() <= 1 {
        s[0].spec_y_lower(0)
    } else {
        vstd::math::min(spec_min_y(s.drop_last()), s.last().spec_y_lower(0))
    }
}

pub open spec fn spec_max_y(s: Seq<Rect>) -> int
    decreases s.len(),
{
    if s.len() <= 1 {
        s[0].spec_y_upper(0)
    } else {
        vstd::math::max(spec_max_y(s.drop_last()), s.last().spec_y_upper(0))
    }
}

pub open spec fn spec_min_z(s: Seq<Rect>) -> int
    decreases s.len(),
{
    if s.len() <= 1 {
        s[0].spec_z_lower(0)
    } else {
        vstd::math::min(spec_min_z(s.drop_last()), s.last().spec_z_lower(0))
    }
}

pub open spec fn spec_max_z(s: Seq<Rect>) -> int
    decreases s.len(),
{
    if s.len() <= 1 {
        s[0].spec_z_upper(0)
    } else {
        vstd::math::max(spec_max_z(s.drop_last()), s.last().spec_z_upper(0))
    }
}

/// The axis-aligned box around a non-empty list of rects: the size spans
/// the extents and the centre sits at the low corner plus half the size.
pub open spec fn spec_bbox(s: Seq<Rect>) -> Rect {
    let mnx = spec_min_x(s);
    let mxx = spec_max_x(s);
    let mny = spec_min_y(s);
    let mxy = spec_max_y(s);
    let mnz = spec_min_z(s);
    let mxz = spec_max_z(s);
    Rect {
        center: Vector {
            x: (mnx + (mxx - mnx) / 2) as i64,
            y: (mny + (mxy - mny) / 2) as i64,
            z: (mnz + (mxz - mnz) / 2) as i64,
        },
        size: Vector { x: (mxx - mnx) as i64, y: (mxy - mny) as i64, z: (mxz - mnz) as i64 },
    }
}

/// The cached bounding rect: the smallest axis-aligned box enclosing all
/// of the rotated rects; `None` for a body with no rects.
pub open spec fn spec_bounding(rotated: Seq<Rect>) -> Option<Rect> {
    if rotated.len() == 0 {
        None
    } else {
        Some(spec_bbox(rotated))
    }
}

/// Body for an entity.
pub struct EntityBody {
    /// If the body is static or not.
    pub is_static: bool,
    /// If the body is sleeping.
    pub is_sleeping: IncrementalValue<bool>,
    /// Number of updates that the body has been in a state in which it can
    /// sleep.
    pub sleepable_updates: u64,
    /// Position of the entity's body.
    pub position: IncrementalValueDiff<Vector, i64>,
    /// The velocity of the body.
    pub velocity: IncrementalValueDiff<Vector, i64>,
    /// Quarter turns: 0, 1, 2 or 3.
    pub rotation: IncrementalValue<u8>,
    /// The collision rectangles for the object, in body-local coordinates.
    pub rects: IncrementalValue<Vec<Rect>>,
    /// All the rects rotated by the rotation.
    pub rotated_rects: Vec<Rect>,
    /// The bounding rectangle for all of the child rectangles.
    pub bounding_rect: Option<Rect>,
    /// The total volume of the body; the mass equals it.
    pub volume: i64,
}

impl EntityBody {
    /// Positions and velocities in range, rects well formed, and every
    /// cache consistent with the rects and rotation.
    pub open spec fn wf(&self) -> bool {
        &&& self.position.value.bounded(COORD_LIMIT as i64)
        &&& self.position.previous_value.bounded(COORD_LIMIT as i64)
        &&& self.velocity.value.bounded(COORD_LIMIT as i64)
        &&& self.velocity.previous_value.bounded(COORD_LIMIT as i64)
        &&& self.position.diff == POSITION_EPSILON
        &&& self.velocity.diff == POSITION_EPSILON
        &&& (self.is_static ==> self.velocity.value == (Vector { x: 0i64, y: 0i64, z: 0i64 })
            && self.is_sleeping.value)
        &&& self.sleepable_updates <= UPDATES_TO_SLEEP + 1
        &&& rects_wf(self.rects.value@)
        &&& self.rotated_rects@ == spec_rotated_rects(self.rects.value@, self.rotation.value)
        &&& self.bounding_rect == spec_bounding(self.rotated_rects@)
        &&& self.volume == sum_volumes(self.rects.value@)
    }

    pub fn new(is_static: bool, position: Vector, velocity: Vector, rotation: u8, rects: Vec<
        Rect,
    >) -> (body: EntityBody)
        requires
            position.bounded(COORD_LIMIT as i64),
            velocity.bounded(COORD_LIMIT as i64),
            rects_wf(rects@),
            // A static body never moves, so it starts at rest.
            is_static ==> velocity == (Vector { x: 0i64, y: 0i64, z: 0i64 }),
        ensures
            body.wf(),
            body.is_static == is_static,
            // A static body is assumed sleeping from the start.
            body.is_sleeping.value == is_static,
            body.position.value == position,
            body.velocity.value == velocity,
            body.rotation.value == rotation,
            body.rects.value == rects,
            !body.position.changed(),
            !body.velocity.changed(),
    {
        let mut body = EntityBody {
            is_static,
            is_sleeping: IncrementalValue::new(is_static),
            sleepable_updates: 0,
            position: IncrementalValueDiff::new(position, POSITION_EPSILON),
            velocity: IncrementalValueDiff::new(velocity, POSITION_EPSILON),
            rotation: IncrementalValue::new(rotation),
            rotated_rects: Vec::new(),
            bounding_rect: None,
            rects: IncrementalValue::new(rects),
            volume: 0,
        };
        body.recalculate_rect_data();
        body
    }

    pub fn is_static(&self) -> (r: bool)
        ensures
            r == self.is_static,
    {
        self.is_static
    }

    pub fn is_sleeping(&self) -> (r: &bool)
        ensures
            r == self.is_sleeping.value,
    {
        self.is_sleeping.get()
    }

    pub fn awaken(&mut self)
        ensures
            *final(self) == (EntityBody {
                is_sleeping: IncrementalValue {
                    value: false,
                    previous_value: old(self).is_sleeping.previous_value,
                },
                sleepable_updates: 0u64,
                ..*old(self)
            }),
            old(self).wf() && !old(self).is_static ==> final(self).wf(),
    {
        self.is_sleeping.set(false);
        self.sleepable_updates = 0;
    }

    pub fn sleep(&mut self)
        ensures
            *final(self) == (EntityBody {
                is_sleeping: IncrementalValue {
                    value: true,
                    previous_value: old(self).is_sleeping.previous_value,
                },
                ..*old(self)
            }),
            old(self).wf() ==> final(self).wf(),
    {
        self.is_sleeping.set(true);
    }

    pub fn get_pos(&self) -> (r: &Vector)
        ensures
            r == self.position.value,
    {
        self.position.get()
    }

    pub fn set_pos(&mut self, pos: Vector)
        ensures
            *final(self) == (EntityBody {
                position: IncrementalValueDiff {
                    value: pos,
                    previous_value: old(self).position.previous_value,
                    diff: old(self).position.diff,
                },
                ..*old(self)
            }),
            old(self).wf() && pos.bounded(COORD_LIMIT as i64) ==> final(self).wf(),
    {
        self.position.set(pos)
    }

    pub fn get_vel(&self) -> (r: &Vector)
        ensures
            r == self.velocity.value,
    {
        self.velocity.get()
    }

    pub fn set_vel(&mut self, vel: Vector)
        ensures
            *final(self) == (EntityBody {
                velocity: IncrementalValueDiff {
                    value: vel,
                    previous_value: old(self).velocity.previous_value,
                    diff: old(self).velocity.diff,
                },
                ..*old(self)
            }),
            old(self).wf() && vel.bounded(COORD_LIMIT as i64) && (old(self).is_static ==> vel
                == (Vector { x: 0i64, y: 0i64, z: 0i64 })) ==> final(self).wf(),
    {
        self.velocity.set(vel)
    }

    pub fn get_rotation(&self) -> (r: &u8)
        ensures
            r == self.rotation.value,
    {
        self.rotation.get()
    }

    /// Sets the rotation and recomputes the caches.
    pub fn set_rotation(&mut self, rot: u8)
        requires
            old(self).wf(),
        ensures
            final(self).wf(),
            *final(self) == (EntityBody {
                rotation: IncrementalValue {
                    value: rot,
                    previous_value: old(self).rotation.previous_value,
                },
                rotated_rects: final(self).rotated_rects,
                bounding_rect: final(self).bounding_rect,
                volume: final(self).volume,
                ..*old(self)
            }),
    {
        self.rotation.set(rot);
        self.recalculate_rect_data();
    }

    pub fn rects_raw(&self) -> (r: &Vec<Rect>)
        ensures
            r == self.rects.value,
    {
        self.rects.get()
    }

    /// Replaces the rects and recomputes the caches.
    pub fn set_rects_raw(&mut self, rects: Vec<Rect>)
        requires
            old(self).wf(),
            rects_wf(rects@),
        ensures
            final(self).wf(),
            *final(self) == (EntityBody {
                rects: IncrementalValue {
                    value: rects,
                    previous_value: old(self).rects.previous_value,
                },
                rotated_rects: final(self).rotated_rects,
                bounding_rect: final(self).bounding_rect,
                volume: final(self).volume,
                ..*old(self)
            }),
    {
        self.rects.set(rects);
        self.recalculate_rect_data();
    }

    /// A copy of all of the rects, rotated.
    pub fn rotated_rects(&self) -> (r: &Vec<Rect>)
        ensures
            r == self.rotated_rects,
    {
        &self.rotated_rects
    }

    /// Rect surrounding all of the child rects; `None` if there are none.
    pub fn bounding_rect(&self) -> (r: &Option<Rect>)
        ensures
            r == self.bounding_rect,
    {
        &self.bounding_rect
    }

    pub fn volume(&self) -> (r: i64)
        ensures
            r == self.volume,
    {
        self.volume
    }

    /// For now, the mass is just the volume.
    pub fn mass(&self) -> (r: i64)
        ensures
            r == self.volume,
    {
        self.volume
    }

    /// Whether the entity has a physics body, that is, any rects at all.
    pub fn has_body(&self) -> (r: bool)
        requires
            self.wf(),
        ensures
            r == (self.rects.value@.len() != 0),
            r == (self.bounding_rect is Some),
    {
        self.bounding_rect.is_some()
    }

    /// Recomputes the rotated rects, the bounding rect and the volume from
    /// the rects and the rotation.
    fn recalculate_rect_data(&mut self)
        requires
            rects_wf(old(self).rects.value@),
        ensures
            *final(self) == (EntityBody {
                rotated_rects: final(self).rotated_rects,
                bounding_rect: final(self).bounding_rect,
                volume: final(self).volume,
                ..*old(self)
            }),
            final(self).rotated_rects@ == spec_rotated_rects(
                final(self).rects.value@,
                final(self).rotation.value,
            ),
            final(self).bounding_rect == spec_bounding(final(self).rotated_rects@),
            final(self).volume == sum_volumes(final(self).rects.value@),
    {
        self.calculate_rotated_rects();
        self.calculate_bounding_box();
        self.calculate_volume();
    }

    /// Calculates the rotated rects.
    fn calculate_rotated_rects(&mut self)
        requires
            rects_wf(old(self).rects.value@),
        ensures
            *final(self) == (EntityBody { rotated_rects: final(self).rotated_rects, ..*old(self) }),
            final(self).rotated_rects@ == spec_rotated_rects(
                final(self).rects.value@,
                final(self).rotation.value,
            ),
    {
        let rotation: u8 = *self.rotation.get();
        let rects = self.rects.get();
        let n = rects.len();
        let mut rotated: Vec<Rect> = Vec::new();
        let mut i: usize = 0;
        while i < n
            invariant
                n == rects@.len(),
                rects == self.rects.value,
                rects_wf(rects@),
                i <= n,
                rotated@.len() == i,
                forall|j: int| 0 <= j < i ==> rotated@[j] == spec_rotate(rects@[j], rotation as nat),
            decreases n - i,
        {
            let mut r = rects[i];
            r.rotate(&rotation);
            rotated.push(r);
            i += 1;
        }
        self.rotated_rects = rotated;
        proof {
            assert(self.rotated_rects@ =~= spec_rotated_rects(
                self.rects.value@,
                self.rotation.value,
            ));
        }
    }

    /// Calculates the smallest axis-aligned box surrounding all of the
    /// rotated rects.
    fn calculate_bounding_box(&mut self)
        requires
            rects_wf(old(self).rects.value@),
            old(self).rotated_rects@ == spec_rotated_rects(
                old(self).rects.value@,
                old(self).rotation.value,
            ),
        ensures
            *final(self) == (EntityBody { bounding_rect: final(self).bounding_rect, ..*old(self) }),
            final(self).bounding_rect == spec_bounding(final(self).rotated_rects@),
    {
        let n = self.rotated_rects.len();
        if n == 0 {
            self.bounding_rect = None;
            return;
        }
        proof {
            lemma_rotated_rects_wf(self.rects.value@, self.rotation.value);
        }
        let first = &self.rotated_rects[0];
        let mut mnx = first.x_lower_extent(0);
        let mut mxx = first.x_upper_extent(0);
        let mut mny = first.y_lower_extent(0);
        let mut mxy = first.y_upper_extent(0);
        let mut mnz = first.z_lower_extent(0);
        let mut mxz = first.z_upper_extent(0);
        let mut i: usize = 1;
        while i < n
            invariant
                n == self.rotated_rects@.len(),
                1 <= i <= n,
                forall|j: int|
                    0 <= j < self.rotated_rects@.len() ==> (#[trigger] self.rotated_rects@[j]).wf(),
                mnx == spec_min_x(self.rotated_rects@.subrange(0, i as int)),
                mxx == spec_max_x(self.rotated_rects@.subrange(0, i as int)),
                mny == spec_min_y(self.rotated_rects@.subrange(0, i as int)),
                mxy == spec_max_y(self.rotated_rects@.subrange(0, i as int)),
                mnz == spec_min_z(self.rotated_rects@.subrange(0, i as int)),
                mxz == spec_max_z(self.rotated_rects@.subrange(0, i as int)),
                -2_000_000_000 <= mnx <= 2_000_000_000,
                -2_000_000_000 <= mxx <= 2_000_000_000,
                -2_000_000_000 <= mny <= 2_000_000_000,
                -2_000_000_000 <= mxy <= 2_000_000_000,
                -2_000_000_000 <= mnz <= 2_000_000_000,
                -2_000_000_000 <= mxz <= 2_000_000_000,
            decreases n - i,
        {
            proof {
                assert(self.rotated_rects@.subrange(0, i + 1).drop_last() =~= self
                    .rotated_rects@.subrange(0, i as int));
            }
            let rect = &self.rotated_rects[i];
            let xl = rect.x_lower_extent(0);
            if xl < mnx {
                mnx = xl;
            }
            let xu = rect.x_upper_extent(0);
            if xu > mxx {
                mxx = xu;
            }
            let yl = rect.y_lower_extent(0);
            if yl < mny {
                mny = yl;
            }
            let yu = rect.y_upper_extent(0);
            if yu > mxy {
                mxy = yu;
            }
            let zl = rect.z_lower_extent(0);
            if zl < mnz {
                mnz = zl;
            }
            let zu = rect.z_upper_extent(0);
            if zu > mxz {
                mxz = zu;
            }
            i += 1;
        }
        proof {
            assert(self.rotated_rects@.subrange(0, n as int) =~= self.rotated_rects@);
            lemma_minmax_ordered(self.rotated_rects@);
        }
        let bounding_rect = Rect::new(
            Vector::new(mnx + (mxx - mnx) / 2, mny + (mxy - mny) / 2, mnz + (mxz - mnz) / 2),
            Vector::new(mxx - mnx, mxy - mny, mxz - mnz),
        );
        self.bounding_rect = Some(bounding_rect);
    }

    /// Calculates the volume of the body from all of the rects.
    fn calculate_volume(&mut self)
        requires
            rects_wf(old(self).rects.value@),
        ensures
            *final(self) == (EntityBody { volume: final(self).volume, ..*old(self) }),
            final(self).volume == sum_volumes(final(self).rects.value@),
    {
        let rects = self.rects.get();
        let n = rects.len();
        let mut total: i64 = 0;
        let mut i: usize = 0;
        while i < n
            invariant
                n == rects@.len(),
                rects == self.rects.value,
                rects_wf(rects@),
                i <= n,
                total == sum_volumes(rects@.subrange(0, i as int)),
            decreases n - i,
        {
            proof {
                assert(rects@.subrange(0, i + 1).drop_last() =~= rects@.subrange(0, i as int));
                assert(rects@.subrange(0, i + 1).last() == rects@[i as int]);
                lemma_sum_volumes_prefix_bound(rects@, (i + 1) as int);
                lemma_sum_volumes_prefix_nonneg(rects@, i as int);
                lemma_sum_volumes_prefix_nonneg(rects@, (i + 1) as int);
            }
            let v = rects[i].volume();
            total = total + v;
            i += 1;
        }
        proof {
            assert(rects@.subrange(0, n as int) =~= rects@);
        }
        self.volume = total;
    }
}

/// Absolute value on spec integers.
pub open spec fn iabs(x: int) -> int {
    if x >= 0 {
        x
    } else {
        -x
    }
}

/// The overlap of two size/centre pairs along one axis: half the summed
/// sizes minus the centre distance.
pub open spec fn spec_axis_overlap(sa: int, sb: int, ca: int, cb: int) -> int {
    (sa + sb) / 2 - iabs(ca - cb)
}

/// How the displacement that resolves an overlap is split between the two
/// bodies: nothing moves a static body; otherwise each body's share is
/// weighted by its rect size along the axis over its mass, and the two
/// shares sum to the whole overlap exactly.
pub open spec fn spec_pushes(
    sa: int,
    sb: int,
    ma: int,
    mb: int,
    a_static: bool,
    b_static: bool,
    overlap: int,
) -> (int, int)
    recommends
        overlap >= 0,
        sa >= 0,
        sb >= 0,
        ma >= 0,
        mb >= 0,
{
    if a_static {
        (0, overlap)
    } else if b_static {
        (overlap, 0)
    } else {
        // Multiplying the size/mass weights through by both masses:
        // wa : wb = sa/ma : sb/mb = sa*mb : sb*ma.
        let wa = sa * mb;
        let wb = sb * ma;
        if wa + wb == 0 {
            (overlap / 2, overlap - overlap / 2)
        } else {
            let pa = wa * overlap / (wa + wb);
            (pa, overlap - pa)
        }
    }
}

/// Which axis the resolution pushes along, given the three overlaps:
/// the smallest, with the tie order of the axis comparisons fixed.
pub open spec fn spec_push_axis(ox: int, oy: int, oz: int) -> int {
    if ox <= oy && ox <= oz {
        0
    } else if oy <= ox && oy < oz {
        1
    } else {
        2
    }
}

impl EntityBody {
    /// The world-space centre of one of the body's rotated rects, by axis.
    pub open spec fn spec_world_center(&self, idx: int, axis: int) -> int {
        if axis == 0 {
            self.rotated_rects@[idx].center.x + self.position.value.x
        } else if axis == 1 {
            self.rotated_rects@[idx].center.y + self.position.value.y
        } else {
            self.rotated_rects@[idx].center.z + self.position.value.z
        }
    }

    pub open spec fn spec_rect_size(&self, idx: int, axis: int) -> int {
        if axis == 0 {
            self.rotated_rects@[idx].size.x as int
        } else if axis == 1 {
            self.rotated_rects@[idx].size.y as int
        } else {
            self.rotated_rects@[idx].size.z as int
        }
    }

    /// The overlap of rect `ia` of `a` and rect `ib` of `b` along an axis.
    pub open spec fn spec_overlap(a: &EntityBody, b: &EntityBody, ia: int, ib: int, axis: int) -> int {
        spec_axis_overlap(
            a.spec_rect_size(ia, axis),
            b.spec_rect_size(ib, axis),
            a.spec_world_center(ia, axis),
            b.spec_world_center(ib, axis),
        )
    }

    /// Whether the rect pair overlaps positively on all three axes.
    pub open spec fn spec_rects_overlap(a: &EntityBody, b: &EntityBody, ia: int, ib: int) -> bool {
        &&& Self::spec_overlap(a, b, ia, ib, 0) > 0
        &&& Self::spec_overlap(a, b, ia, ib, 1) > 0
        &&& Self::spec_overlap(a, b, ia, ib, 2) > 0
    }

    /// A component updated by adding a push, clamped to the coordinate
    /// range.
    pub open spec fn spec_pushed(c: int, push: int) -> i64 {
        if c + push > COORD_LIMIT {
            COORD_LIMIT
        } else if c + push < -COORD_LIMIT {
            (-COORD_LIMIT) as i64
        } else {
            (c + push) as i64
        }
    }

    /// Whether two bodies should collide: not both static and not both
    /// sleeping. This does not evaluate whether the bodies intersect.
    pub fn should_collide(body_a: &EntityBody, body_b: &EntityBody) -> (r: bool)
        ensures
            r == (!(body_a.is_static && body_b.is_static) && !(body_a.is_sleeping.value
                && body_b.is_sleeping.value)),
    {
        !(body_a.is_static() && body_b.is_static()) && !(*body_a.is_sleeping()
            && *body_b.is_sleeping())
    }
}

/// The vector with one axis component replaced.
pub open spec fn vec_with_axis(v: Vector, axis: int, val: i64) -> Vector {
    if axis == 0 {
        Vector { x: val, ..v }
    } else if axis == 1 {
        Vector { y: val, ..v }
    } else {
        Vector { z: val, ..v }
    }
}

/// A body after taking its share of a collision push along one axis: the
/// position component moves by the push (clamped to the coordinate range),
/// the velocity component is zeroed, and a non-static body wakes.
pub open spec fn spec_apply_push(body: EntityBody, axis: int, delta: int) -> EntityBody {
    let c = if axis == 0 {
        body.position.value.x as int
    } else if axis == 1 {
        body.position.value.y as int
    } else {
        body.position.value.z as int
    };
    EntityBody {
        position: IncrementalValueDiff {
            value: vec_with_axis(body.position.value, axis, EntityBody::spec_pushed(c, delta)),
            previous_value: body.position.previous_value,
            diff: body.position.diff,
        },
        velocity: IncrementalValueDiff {
            value: vec_with_axis(body.velocity.value, axis, 0),
            previous_value: body.velocity.previous_value,
            diff: body.velocity.diff,
        },
        is_sleeping: if body.is_static {
            body.is_sleeping
        } else {
            IncrementalValue { value: false, previous_value: body.is_sleeping.previous_value }
        },
        sleepable_updates: if body.is_static {
            body.sleepable_updates
        } else {
            0
        },
        ..body
    }
}

/// The result of resolving one rect pair: both bodies unchanged when the
/// pair does not overlap on all three axes; otherwise each takes its share
/// of the smallest positive overlap along the chosen axis, in opposite
/// directions, ordered by the world centres.
pub open spec fn spec_collide_rects(a: EntityBody, b: EntityBody, ia: int, ib: int) -> (
    EntityBody,
    EntityBody,
) {
    if !EntityBody::spec_rects_overlap(&a, &b, ia, ib) {
        (a, b)
    } else {
        let ox = EntityBody::spec_overlap(&a, &b, ia, ib, 0);
        let oy = EntityBody::spec_overlap(&a, &b, ia, ib, 1);
        let oz = EntityBody::spec_overlap(&a, &b, ia, ib, 2);
        let axis = spec_push_axis(ox, oy, oz);
        let ov = if axis == 0 {
            ox
        } else if axis == 1 {
            oy
        } else {
            oz
        };
        let pushes = spec_pushes(
            a.spec_rect_size(ia, axis),
            b.spec_rect_size(ib, axis),
            a.volume as int,
            b.volume as int,
            a.is_static,
            b.is_static,
            ov,
        );
        let ca = a.spec_world_center(ia, axis);
        let cb = b.spec_world_center(ib, axis);
        if ca < cb {
            (spec_apply_push(a, axis, -pushes.0), spec_apply_push(b, axis, pushes.1))
        } else {
            (spec_apply_push(a, axis, pushes.0), spec_apply_push(b, axis, -pushes.1))
        }
    }
}

impl EntityBody {
    /// Takes one share of a push: moves the position along the axis, zeroes
    /// that velocity component, and wakes the body unless it is static.
    fn apply_push(&mut self, axis: usize, delta: i64)
        requires
            old(self).wf(),
            axis < 3,
            -2_000_000 <= delta <= 2_000_000,
        ensures
            *final(self) == spec_apply_push(*old(self), axis as int, delta as int),
            final(self).wf(),
    {
        let c: i64 = self.position.get().index(axis);
        let moved: i64 = if c + delta > COORD_LIMIT {
            COORD_LIMIT
        } else if c + delta < -COORD_LIMIT {
            -COORD_LIMIT
        } else {
            c + delta
        };
        if axis == 0 {
            self.position.get_mut().x = moved;
            self.velocity.get_mut().x = 0;
        } else if axis == 1 {
            self.position.get_mut().y = moved;
            self.velocity.get_mut().y = 0;
        } else {
            self.position.get_mut().z = moved;
            self.velocity.get_mut().z = 0;
        }
        if !self.is_static {
            self.is_sleeping.set(false);
            self.sleepable_updates = 0;
        }
    }

    /// Performs a collision between two child rectangles of body a and
    /// body b: the exact integer form of the push-apart resolution.
    #[verifier::rlimit(100)]
    pub fn collide_rects(body_a: &mut EntityBody, body_b: &mut EntityBody, index_a: usize, index_b: usize)
        requires
            old(body_a).wf(),
            old(body_b).wf(),
            index_a < old(body_a).rotated_rects@.len(),
            index_b < old(body_b).rotated_rects@.len(),
        ensures
            (*final(body_a), *final(body_b)) == spec_collide_rects(
                *old(body_a),
                *old(body_b),
                index_a as int,
                index_b as int,
            ),
            final(body_a).wf(),
            final(body_b).wf(),
    {
        proof {
            lemma_rotated_rects_wf(body_a.rects.value@, body_a.rotation.value);
            lemma_rotated_rects_wf(body_b.rects.value@, body_b.rotation.value);
            assert(body_a.rotated_rects@[index_a as int].wf());
            assert(body_b.rotated_rects@[index_b as int].wf());
        }
        let ra: Rect = body_a.rotated_rects[index_a];
        let rb: Rect = body_b.rotated_rects[index_b];
        let pa: Vector = *body_a.get_pos();
        let pb: Vector = *body_b.get_pos();

        // World-space centres of the two rects.
        let cax = ra.center.x + pa.x;
        let cay = ra.center.y + pa.y;
        let caz = ra.center.z + pa.z;
        let cbx = rb.center.x + pb.x;
        let cby = rb.center.y + pb.y;
        let cbz = rb.center.z + pb.z;

        // How much overlap there is in each dimension.
        let ox = (ra.size.x + rb.size.x) / 2 - (if cax >= cbx {
            cax - cbx
        } else {
            cbx - cax
        });
        let oy = (ra.size.y + rb.size.y) / 2 - (if cay >= cby {
            cay - cby
        } else {
            cby - cay
        });
        let oz = (ra.size.z + rb.size.z) / 2 - (if caz >= cbz {
            caz - cbz
        } else {
            cbz - caz
        });

        // Make sure the rects overlap at all.
        if !(ox > 0 && oy > 0 && oz > 0) {
            return;
        }

        // Push the boxes apart along the axis of least overlap.
        let axis: usize = if ox <= oy && ox <= oz {
            0
        } else if oy <= ox && oy < oz {
            1
        } else {
            2
        };
        let ov: i64 = if axis == 0 {
            ox
        } else if axis == 1 {
            oy
        } else {
            oz
        };
        let sa: i64 = ra.size.index(axis);
        let sb: i64 = rb.size.index(axis);
        let ca: i64 = if axis == 0 {
            cax
        } else if axis == 1 {
            cay
        } else {
            caz
        };
        let cb: i64 = if axis == 0 {
            cbx
        } else if axis == 1 {
            cby
        } else {
            cbz
        };

        // Find how much to push each body.
        let push_a: i64;
        let push_b: i64;
        if body_a.is_static {
            push_a = 0;
            push_b = ov;
        } else if body_b.is_static {
            push_a = ov;
            push_b = 0;
        } else {
            proof {
                assert(0 <= (sa as i128) * (body_b.volume as i128) <= 1_000_000i128
                    * 1_000_000_000_000_000_000) by (nonlinear_arith)
                    requires 0 <= sa <= 1_000_000, 0 <= body_b.volume <= 1_000_000_000_000_000_000;
                assert(0 <= (sb as i128) * (body_a.volume as i128) <= 1_000_000i128
                    * 1_000_000_000_000_000_000) by (nonlinear_arith)
                    requires 0 <= sb <= 1_000_000, 0 <= body_a.volume <= 1_000_000_000_000_000_000;
            }
            let wa: i128 = (sa as i128) * (body_b.volume as i128);
            let wb: i128 = (sb as i128) * (body_a.volume as i128);
            if wa + wb == 0 {
                push_a = ov / 2;
                push_b = ov - ov / 2;
            } else {
                proof {
                    assert(0 <= wa * (ov as i128) <= 1_000_000_000_000_000_000_000_000i128
                        * 2_000_000) by (nonlinear_arith)
                        requires 0 <= wa <= 1_000_000_000_000_000_000_000_000i128, 0 <= ov <= 2_000_000;
                    lemma_push_share_bounds(wa as int, wb as int, ov as int);
                }
                let num: i128 = wa * (ov as i128);
                let pa128: i128 = num / (wa + wb);
                push_a = pa128 as i64;
                push_b = ov - push_a;
            }
        }

        body_a.apply_push(axis, if ca < cb {
            -push_a
        } else {
            push_a
        });
        body_b.apply_push(axis, if ca < cb {
            push_b
        } else {
            -push_b
        });
    }
}

/// The weighted share of an overlap is between zero and the overlap.
proof fn lemma_push_share_bounds(wa: int, wb: int, ov: int)
    requires
        wa >= 0,
        wb >= 0,
        wa + wb > 0,
        ov >= 0,
    ensures
        0 <= wa * ov / (wa + wb) <= ov,
{
    vstd::arithmetic::mul::lemma_mul_nonnegative(wa, ov);
    vstd::arithmetic::div_mod::lemma_div_is_ordered(0, wa * ov, wa + wb);
    vstd::arithmetic::mul::lemma_mul_inequality(wa, wa + wb, ov);
    assert(wa * ov <= (wa + wb) * ov);
    vstd::arithmetic::div_mod::lemma_div_is_ordered(wa * ov, (wa + wb) * ov, wa + wb);
    vstd::arithmetic::div_mod::lemma_div_multiples_vanish(ov, wa + wb);
    assert((wa + wb) * ov == ov * (wa + wb)) by (nonlinear_arith);
}

/// Folding the pairwise rect resolution over all rect pairs of two bodies,
/// rows of `a`'s rects against all of `b`'s.
pub open spec fn spec_collide_from(a: EntityBody, b: EntityBody, i: int, j: int) -> (
    EntityBody,
    EntityBody,
)
    decreases a.rotated_rects@.len() - i, b.rotated_rects@.len() - j,
{
    if i < 0 || j < 0 || a.rotated_rects@.len() - i < 0 || b.rotated_rects@.len() - j < 0 {
        (a, b)
    } else if i >= a.rotated_rects@.len() {
        (a, b)
    } else if j >= b.rotated_rects@.len() {
        spec_collide_from(a, b, i + 1, 0)
    } else {
        let next = spec_collide_rects(a, b, i, j);
        spec_collide_from(next.0, next.1, i, j + 1)
    }
}

impl EntityBody {
    /// Whether the body is quiet enough to count towards sleep: velocity
    /// magnitude below the sleeping bound and neither position nor velocity
    /// changed past tolerance since the last commit.
    pub open spec fn spec_sleepable(&self) -> bool {
        &&& self.velocity.value.x * self.velocity.value.x + self.velocity.value.y
            * self.velocity.value.y + self.velocity.value.z * self.velocity.value.z
            < MAX_SLEEPING_VELOCITY * MAX_SLEEPING_VELOCITY
        &&& !self.position.changed()
        &&& !self.velocity.changed()
    }

    /// If the body is in a valid state to put it to sleep.
    pub fn sleepable_state(&self) -> (r: bool)
        requires
            self.wf(),
        ensures
            r == self.spec_sleepable(),
    {
        let mag_sq = self.velocity.get().magnitude_sq();
        mag_sq < MAX_SLEEPING_VELOCITY * MAX_SLEEPING_VELOCITY && !self.position.is_changed()
            && !self.velocity.is_changed()
    }

    /// After integration: a quiet awake body counts one more quiet update
    /// and falls asleep past the threshold; a sleeping body that is no
    /// longer quiet wakes.
    pub fn physics_did_update(&mut self)
        requires
            old(self).wf(),
        ensures
            final(self).wf(),
            ({
                let o = *old(self);
                if o.is_static {
                    *final(self) == o
                } else if !o.is_sleeping.value && o.spec_sleepable() {
                    *final(self) == (EntityBody {
                        sleepable_updates: if o.sleepable_updates <= UPDATES_TO_SLEEP {
                            (o.sleepable_updates + 1) as u64
                        } else {
                            o.sleepable_updates
                        },
                        is_sleeping: if o.sleepable_updates + 1 > UPDATES_TO_SLEEP {
                            IncrementalValue {
                                value: true,
                                previous_value: o.is_sleeping.previous_value,
                            }
                        } else {
                            o.is_sleeping
                        },
                        ..o
                    })
                } else if o.is_sleeping.value && !o.spec_sleepable() {
                    *final(self) == (EntityBody {
                        sleepable_updates: 0u64,
                        is_sleeping: IncrementalValue {
                            value: false,
                            previous_value: o.is_sleeping.previous_value,
                        },
                        ..o
                    })
                } else {
                    *final(self) == o
                }
            }),
    {
        // A static body is always sleeping and never touched here.
        if self.is_static {
            return ;
        }
        let is_sleeping = *self.is_sleeping();
        let sleepable_state = self.sleepable_state();
        if !is_sleeping && sleepable_state {
            // The counter tops out just past the sleep threshold, well
            // below the integer range.
            if self.sleepable_updates <= UPDATES_TO_SLEEP {
                self.sleepable_updates = self.sleepable_updates + 1;
            }
            if self.sleepable_updates > UPDATES_TO_SLEEP {
                self.sleep();
            }
        } else if is_sleeping && !sleepable_state {
            self.awaken();
        }
    }

    /// Whether any dirty-tracked field of the body changed since commit.
    pub open spec fn spec_changed(&self) -> bool {
        ||| self.is_sleeping.changed()
        ||| self.position.changed()
        ||| self.velocity.changed()
        ||| self.rotation.changed()
        ||| self.rects.changed()
    }

    pub fn is_changed(&self) -> (r: bool)
        requires
            self.wf(),
        ensures
            r == self.spec_changed(),
    {
        self.is_sleeping.is_changed() || self.position.is_changed() || self.velocity.is_changed()
            || self.rotation.is_changed() || self.rects.is_changed()
    }

    pub fn committed(&mut self)
        requires
            old(self).wf(),
        ensures
            final(self).wf(),
            !final(self).spec_changed(),
            final(self).is_sleeping.value == old(self).is_sleeping.value,
            final(self).position.value == old(self).position.value,
            final(self).velocity.value == old(self).velocity.value,
            final(self).rotation.value == old(self).rotation.value,
            final(self).rects.value == old(self).rects.value,
            final(self).rotated_rects == old(self).rotated_rects,
            final(self).bounding_rect == old(self).bounding_rect,
            final(self).volume == old(self).volume,
            final(self).is_static == old(self).is_static,
            final(self).sleepable_updates == old(self).sleepable_updates,
    {
        self.is_sleeping.committed();
        self.position.committed();
        self.velocity.committed();
        self.rotation.committed();
        self.rects.committed();
        proof {
            let p = self.position.value;
            assert((p.x - p.x) * (p.x - p.x) + (p.y - p.y) * (p.y - p.y) + (p.z - p.z) * (p.z
                - p.z) == 0);
            let v = self.velocity.value;
            assert((v.x - v.x) * (v.x - v.x) + (v.y - v.y) * (v.y - v.y) + (v.z - v.z) * (v.z
                - v.z) == 0);
            assert(!self.position.changed());
            assert(!self.velocity.changed());
        }
    }

    /// Performs a collision between the bodies: every rect pair of the two
    /// bodies is resolved in order, unless the pair of bodies should not
    /// collide at all.
    pub fn collide(body_a: &mut EntityBody, body_b: &mut EntityBody)
        requires
            old(body_a).wf(),
            old(body_b).wf(),
        ensures
            final(body_a).wf(),
            final(body_b).wf(),
            ({
                let o_a = *old(body_a);
                let o_b = *old(body_b);
                if !(o_a.is_static && o_b.is_static) && !(o_a.is_sleeping.value
                    && o_b.is_sleeping.value) {
                    (*final(body_a), *final(body_b)) == spec_collide_from(o_a, o_b, 0, 0)
                } else {
                    *final(body_a) == o_a && *final(body_b) == o_b
                }
            }),
    {
        if !EntityBody::should_collide(body_a, body_b) {
            return;
        }
        let ghost o_a = *body_a;
        let ghost o_b = *body_b;
        let na = body_a.rotated_rects.len();
        let nb = body_b.rotated_rects.len();
        let mut i: usize = 0;
        while i < na
            invariant
                body_a.wf(),
                body_b.wf(),
                i <= na,
                na == body_a.rotated_rects@.len(),
                nb == body_b.rotated_rects@.len(),
                spec_collide_from(o_a, o_b, 0, 0) == spec_collide_from(
                    *body_a,
                    *body_b,
                    i as int,
                    0,
                ),
            decreases na - i,
        {
            let mut j: usize = 0;
            while j < nb
                invariant
                    body_a.wf(),
                    body_b.wf(),
                    i < na,
                    j <= nb,
                    na == body_a.rotated_rects@.len(),
                    nb == body_b.rotated_rects@.len(),
                    spec_collide_from(o_a, o_b, 0, 0) == spec_collide_from(
                        *body_a,
                        *body_b,
                        i as int,
                        j as int,
                    ),
                decreases nb - j,
            {
                EntityBody::collide_rects(body_a, body_b, i, j);
                j += 1;
            }
            i += 1;
        }
    }
}

/// A static body's position is never moved by a collision resolution.
pub proof fn lemma_static_never_moves(a: EntityBody, b: EntityBody, ia: int, ib: int)
    requires
        a.wf(),
        b.wf(),
        a.is_static,
    ensures
        spec_collide_rects(a, b, ia, ib).0.position.value == a.position.value,
{
}

/// Rotation keeps a rect well formed, so a rotated rect list is pointwise
/// well formed.
pub proof fn lemma_rotate_wf(r: Rect, n: nat)
    requires
        r.wf(),
    ensures
        spec_rotate(r, n).wf(),
    decreases n,
{
    if n > 0 {
        lemma_rotate_wf(r, (n - 1) as nat);
    }
}

/// Every rect in the rotated list is well formed.
pub proof fn lemma_rotated_rects_wf(s: Seq<Rect>, rot: u8)
    requires
        forall|i: int| 0 <= i < s.len() ==> (#[trigger] s[i]).wf(),
    ensures
        forall|i: int|
            0 <= i < spec_rotated_rects(s, rot).len() ==> (#[trigger] spec_rotated_rects(s, rot)[i]).wf(),
{
    assert forall|i: int| 0 <= i < spec_rotated_rects(s, rot).len() implies (
    #[trigger] spec_rotated_rects(s, rot)[i]).wf() by {
        lemma_rotate_wf(s[i], rot as nat);
    }
}

/// The running extents over a non-empty well-formed list are ordered and in
/// range.
pub proof fn lemma_minmax_ordered(s: Seq<Rect>)
    requires
        s.len() >= 1,
        forall|i: int| 0 <= i < s.len() ==> (#[trigger] s[i]).wf(),
    ensures
        spec_min_x(s) <= spec_max_x(s),
        spec_min_y(s) <= spec_max_y(s),
        spec_min_z(s) <= spec_max_z(s),
        -2_000_000_000 <= spec_min_x(s) <= 2_000_000_000,
        -2_000_000_000 <= spec_max_x(s) <= 2_000_000_000,
        -2_000_000_000 <= spec_min_y(s) <= 2_000_000_000,
        -2_000_000_000 <= spec_max_y(s) <= 2_000_000_000,
        -2_000_000_000 <= spec_min_z(s) <= 2_000_000_000,
        -2_000_000_000 <= spec_max_z(s) <= 2_000_000_000,
    decreases s.len(),
{
    if s.len() > 1 {
        lemma_minmax_ordered(s.drop_last());
    }
}

/// The box around a non-empty list of well-formed rects is itself within
/// the rotation-safe coordinate range.
/// Every rect of a list sits between the list's per-axis extremes.
pub proof fn lemma_minmax_bounds(s: Seq<Rect>, k: int)
    requires
        0 <= k < s.len(),
    ensures
        spec_min_x(s) <= s[k].spec_x_lower(0),
        s[k].spec_x_upper(0) <= spec_max_x(s),
        spec_min_y(s) <= s[k].spec_y_lower(0),
        s[k].spec_y_upper(0) <= spec_max_y(s),
    decreases s.len(),
{
    if s.len() > 1 && k < s.len() - 1 {
        lemma_minmax_bounds(s.drop_last(), k);
    }
}

/// The cached bounding box encloses every rect it was computed from, up
/// to the one unit that halving the box's size may shave off the top.
pub proof fn lemma_bbox_contains_rects(s: Seq<Rect>)
    requires
        s.len() >= 1,
        forall|i: int| 0 <= i < s.len() ==> (#[trigger] s[i]).wf(),
    ensures
        forall|k: int|
            0 <= k < s.len() ==> {
                let b = spec_bbox(s);
                &&& b.spec_x_lower(0) <= (#[trigger] s[k]).spec_x_lower(0)
                &&& s[k].spec_x_upper(0) <= b.spec_x_upper(0) + 1
                &&& b.spec_y_lower(0) <= s[k].spec_y_lower(0)
                &&& s[k].spec_y_upper(0) <= b.spec_y_upper(0) + 1
            },
{
    lemma_minmax_ordered(s);
    let b = spec_bbox(s);
    let mnx = spec_min_x(s);
    let mxx = spec_max_x(s);
    let mny = spec_min_y(s);
    let mxy = spec_max_y(s);
    assert(b.spec_x_lower(0) == mnx);
    assert(b.spec_x_upper(0) >= mxx - 1);
    assert(b.spec_y_lower(0) == mny);
    assert(b.spec_y_upper(0) >= mxy - 1);
    assert forall|k: int|
        0 <= k < s.len() implies {
        let b2 = spec_bbox(s);
        &&& b2.spec_x_lower(0) <= (#[trigger] s[k]).spec_x_lower(0)
        &&& s[k].spec_x_upper(0) <= b2.spec_x_upper(0) + 1
        &&& b2.spec_y_lower(0) <= s[k].spec_y_lower(0)
        &&& s[k].spec_y_upper(0) <= b2.spec_y_upper(0) + 1
    } by {
        lemma_minmax_bounds(s, k);
    }
}

pub proof fn lemma_bbox_wf_for_rotate(s: Seq<Rect>)
    requires
        s.len() >= 1,
        forall|i: int| 0 <= i < s.len() ==> (#[trigger] s[i]).wf(),
    ensures
        spec_bbox(s).center.bounded(4_000_000_000i64),
        spec_bbox(s).size.x >= 0,
        spec_bbox(s).size.y >= 0,
        spec_bbox(s).size.z >= 0,
{
    lemma_minmax_ordered(s);
}

/// A prefix sum of volumes stays within the total's bound.
proof fn lemma_sum_volumes_prefix_bound(s: Seq<Rect>, i: int)
    requires
        rects_wf(s),
        0 <= i <= s.len(),
    ensures
        sum_volumes(s.subrange(0, i)) <= sum_volumes(s),
    decreases s.len() - i,
{
    if i < s.len() {
        lemma_sum_volumes_prefix_bound(s, i + 1);
        assert(s.subrange(0, i + 1).drop_last() =~= s.subrange(0, i));
        assert(s.subrange(0, i + 1).last() == s[i]);
        assert(s[i].wf());
        let r = s[i];
        assert(r.size.x * r.size.y * r.size.z >= 0) by (nonlinear_arith)
            requires r.size.x >= 0, r.size.y >= 0, r.size.z >= 0;
    } else {
        assert(s.subrange(0, i) =~= s);
    }
}

/// Prefix sums of volumes are non-negative.
proof fn lemma_sum_volumes_prefix_nonneg(s: Seq<Rect>, i: int)
    requires
        rects_wf(s),
        0 <= i <= s.len(),
    ensures
        sum_volumes(s.subrange(0, i)) >= 0,
    decreases i,
{
    if i > 0 {
        lemma_sum_volumes_prefix_nonneg(s, i - 1);
        assert(s.subrange(0, i).drop_last() =~= s.subrange(0, i - 1));
        assert(s.subrange(0, i).last() == s[i - 1]);
        assert(s[i - 1].wf());
        let r = s[i - 1];
        assert(r.size.x * r.size.y * r.size.z >= 0) by (nonlinear_arith)
            requires r.size.x >= 0, r.size.y >= 0, r.size.z >= 0;
    }
}

/// Entities that are inside the game's map.
pub enum EntityKind {
    Player(crate::entities::player::Player),
    Prop(crate::entities::prop::Prop),
}

impl EntityKind {
    /// The wire tag of the kind.
    pub fn kind_flag(&self) -> (r: u8)
        ensures
            r == if self is Player {
                0u8
            } else {
                1u8
            },
    {
        match self {
            EntityKind::Player(_) => 0,
            EntityKind::Prop(_) => 1,
        }
    }

    /// Whether the entity uses the facing direction: hunters do, props and
    /// placed objects do not.
    pub open spec fn spec_uses_dir(&self) -> bool {
        match self {
            EntityKind::Player(p) => p.state is Hunter,
            EntityKind::Prop(_) => false,
        }
    }

    pub fn uses_dir(&self) -> (r: bool)
        ensures
            r == self.spec_uses_dir(),
    {
        match self {
            EntityKind::Player(p) => match p.state {
                crate::entities::player::PlayerState::Hunter(_) => true,
                crate::entities::player::PlayerState::Prop(_) => false,
            },
            EntityKind::Prop(_) => false,
        }
    }

    /// Whether hiding players can select this entity's shape.
    pub open spec fn spec_selectable(&self) -> bool {
        match self {
            EntityKind::Player(_) => false,
            EntityKind::Prop(p) => p.prefab.kind is Prop,
        }
    }

    pub fn is_selectable(&self) -> (r: bool)
        ensures
            r == self.spec_selectable(),
    {
        match self {
            EntityKind::Player(_) => false,
            EntityKind::Prop(p) => p.is_selectable(),
        }
    }

    /// The prefab id this kind displays as: a prop's own prefab, a
    /// hunter's character prefab, a hiding player's configured prop
    /// prefab.
    pub open spec fn spec_prefab_id(&self, config: &crate::game_config::GameConfig) -> Seq<char> {
        match self {
            EntityKind::Player(p) => if p.state is Hunter {
                "player:"@ + p.character_id@
            } else {
                config.player.prop_prefab@
            },
            EntityKind::Prop(pr) => pr.prefab.id@,
        }
    }

    /// Builds the prefab id string for a player kind.
    pub fn prefab_id(&self, config: &crate::game_config::GameConfig) -> (r: String)
        ensures
            r@ == self.spec_prefab_id(config),
    {
        match self {
            EntityKind::Player(p) => match p.state {
                crate::entities::player::PlayerState::Hunter(_) => {
                    let mut s: String = "player:".to_string();
                    s.append(p.character_id.as_str());
                    s
                },
                crate::entities::player::PlayerState::Prop(_) => crate::game_config::clone_string(
                    &config.player.prop_prefab,
                ),
            },
            EntityKind::Prop(pr) => crate::game_config::clone_string(&pr.prefab.id),
        }
    }
}

/// An entity within the map: identity, kind, body, and the dirty-tracked
/// display fields.
pub struct Entity {
    /// The id for the entity; ids are handed out by the world's counter,
    /// monotonically, and never reused.
    pub id: EntityId,
    /// If this is a new entity that needs to be sent to the clients.
    pub is_new: bool,
    /// The kind of entity.
    pub kind: EntityKind,
    /// The physics body.
    pub body: EntityBody,
    /// Facing direction in milliradians; display-only rotation.
    pub dir: IncrementalValue<i64>,
    /// If the entity uses the facing direction.
    pub uses_dir: IncrementalValue<bool>,
    /// The health of the entity, in thousandths of a full bar.
    pub health: IncrementalValue<i64>,
    /// The asset to show; an empty string displays nothing.
    pub asset: IncrementalValue<String>,
    /// The label to display above the entity, such as a username.
    pub label: IncrementalValue<Option<String>>,
    /// If props can switch to this entity's shape.
    pub selectable: IncrementalValue<bool>,
}

/// An entity is dead a hair above zero, absorbing division leftovers.
pub const DEAD_HEALTH_MILLI: i64 = 1;

impl Entity {
    pub open spec fn wf(&self) -> bool {
        &&& self.body.wf()
        &&& match self.kind {
            EntityKind::Player(p) => p.wf() && !self.body.is_static,
            EntityKind::Prop(p) => p.prefab.wf(),
        }
        &&& -1_000_000 <= self.health.value <= 1_000_000
    }

    pub fn id(&self) -> (r: &EntityId)
        ensures
            r == self.id,
    {
        &self.id
    }

    pub fn asset(&self) -> (r: &String)
        ensures
            r == self.asset.value,
    {
        self.asset.get()
    }

    pub fn set_asset(&mut self, asset: String)
        ensures
            *final(self) == (Entity {
                asset: IncrementalValue { value: asset, previous_value: old(self).asset.previous_value },
                ..*old(self)
            }),
    {
        self.asset.set(asset)
    }

    pub fn body(&self) -> (r: &EntityBody)
        ensures
            r == self.body,
    {
        &self.body
    }

    pub fn body_mut(&mut self) -> (r: &mut EntityBody)
        ensures
            *r == old(self).body,
            *final(self) == (Entity { body: *final(r), ..*old(self) }),
    {
        &mut self.body
    }

    pub fn dir(&self) -> (r: &i64)
        ensures
            r == self.dir.value,
    {
        self.dir.get()
    }

    pub fn set_dir(&mut self, dir: i64)
        ensures
            *final(self) == (Entity {
                dir: IncrementalValue { value: dir, previous_value: old(self).dir.previous_value },
                ..*old(self)
            }),
    {
        self.dir.set(dir);
    }

    pub fn uses_dir(&self) -> (r: &bool)
        ensures
            r == self.uses_dir.value,
    {
        self.uses_dir.get()
    }

    pub fn set_uses_dir(&mut self, uses: bool)
        ensures
            *final(self) == (Entity {
                uses_dir: IncrementalValue {
                    value: uses,
                    previous_value: old(self).uses_dir.previous_value,
                },
                ..*old(self)
            }),
    {
        self.uses_dir.set(uses)
    }

    pub fn kind(&self) -> (r: &EntityKind)
        ensures
            r == self.kind,
    {
        &self.kind
    }

    pub fn kind_mut(&mut self) -> (r: &mut EntityKind)
        ensures
            *r == old(self).kind,
            *final(self) == (Entity { kind: *final(r), ..*old(self) }),
    {
        &mut self.kind
    }

    pub fn health(&self) -> (r: &i64)
        ensures
            r == self.health.value,
    {
        self.health.get()
    }

    pub fn set_health(&mut self, health: i64)
        ensures
            *final(self) == (Entity {
                health: IncrementalValue {
                    value: health,
                    previous_value: old(self).health.previous_value,
                },
                ..*old(self)
            }),
    {
        self.health.set(health)
    }

    /// Subtracts damage from the health, clamping at the bottom of the
    /// well-formed range.
    pub fn damage(&mut self, amount: i64)
        requires
            0 <= amount <= 1_000_000,
            old(self).wf(),
        ensures
            final(self).wf(),
            *final(self) == (Entity {
                health: IncrementalValue {
                    value: if old(self).health.value - amount >= -1_000_000 {
                        (old(self).health.value - amount) as i64
                    } else {
                        (-1_000_000) as i64
                    },
                    previous_value: old(self).health.previous_value,
                },
                ..*old(self)
            }),
    {
        let h = *self.health.get();
        let nh = if h - amount >= -1_000_000 {
            h - amount
        } else {
            -1_000_000
        };
        self.health.set(nh);
    }

    /// Health at or below the threshold counts as dead.
    pub fn is_dead(&self) -> (r: bool)
        ensures
            r == (self.health.value <= DEAD_HEALTH_MILLI),
    {
        *self.health.get() <= DEAD_HEALTH_MILLI
    }

    pub fn get_label(&self) -> (r: &Option<String>)
        ensures
            r == self.label.value,
    {
        self.label.get()
    }

    pub fn set_label(&mut self, label: Option<String>)
        ensures
            *final(self) == (Entity {
                label: IncrementalValue {
                    value: label,
                    previous_value: old(self).label.previous_value,
                },
                ..*old(self)
            }),
    {
        self.label.set(label);
    }

    pub fn is_selectable(&self) -> (r: &bool)
        ensures
            r == self.selectable.value,
    {
        self.selectable.get()
    }

    /// Applies a prefab: the asset to show and the collision rects.
    pub fn apply_prefab(&mut self, prefab: &crate::game_config::PrefabConfig)
        requires
            old(self).wf(),
            prefab.wf(),
        ensures
            final(self).wf(),
            final(self).asset.value@ == (if prefab.asset is Some {
                prefab.asset->0@
            } else {
                prefab.id@
            }),
            final(self).body.rects.value@ == prefab.rects@,
            final(self).id == old(self).id,
            final(self).kind == old(self).kind,
            final(self).body.position.value == old(self).body.position.value,
            final(self).body.velocity.value == old(self).body.velocity.value,
            final(self).body.rotation.value == old(self).body.rotation.value,
            final(self).body.is_static == old(self).body.is_static,
            final(self).health == old(self).health,
            final(self).dir == old(self).dir,
            final(self).uses_dir == old(self).uses_dir,
            final(self).label == old(self).label,
            final(self).selectable == old(self).selectable,
            final(self).is_new == old(self).is_new,
    {
        self.set_asset(prefab.asset());
        self.body.set_rects_raw(crate::game_config::clone_rects(&prefab.rects));
    }

    /// Called before integration: the kind-specific update, which for a
    /// player maintains stamina and the desired velocity.
    pub fn physics_will_update(&mut self, dt_ms: u64, config: &crate::game_config::GameConfig)
        requires
            old(self).wf(),
            config.wf(),
            dt_ms <= 1_000_000,
        ensures
            final(self).wf(),
            final(self).id == old(self).id,
            final(self).body.rects.value == old(self).body.rects.value,
            final(self).body.position.value == old(self).body.position.value,
            final(self).body.is_static == old(self).body.is_static,
            old(self).kind is Prop ==> *final(self) == *old(self),
            // A player burns or recovers stamina and takes the move
            // velocity its inputs and stamina allow, exactly as the
            // player-level step states.
            old(self).kind is Player ==> {
                let op = old(self).kind->Player_0;
                let new_stamina = op.spec_next_stamina(dt_ms, config);
                let speed = op.spec_move_speed(new_stamina, config);
                &&& final(self).kind is Player
                &&& final(self).kind->Player_0 == (crate::entities::player::Player {
                    stamina: crate::incremental_value::IncrementalValue {
                        value: new_stamina,
                        previous_value: op.stamina.previous_value,
                    },
                    ..op
                })
                &&& final(self).body == (EntityBody {
                    velocity: crate::incremental_value::IncrementalValueDiff {
                        value: (Vector {
                            x: crate::utils::spec_scale_div(
                                op.move_vel_x as int,
                                speed as int,
                                1000,
                            ) as i64,
                            y: crate::utils::spec_scale_div(
                                op.move_vel_y as int,
                                speed as int,
                                1000,
                            ) as i64,
                            z: old(self).body.velocity.value.z,
                        }),
                        previous_value: old(self).body.velocity.previous_value,
                        diff: old(self).body.velocity.diff,
                    },
                    ..old(self).body
                })
                &&& *final(self) == (Entity {
                    kind: final(self).kind,
                    body: final(self).body,
                    ..*old(self)
                })
            },
    {
        match &mut self.kind {
            EntityKind::Player(p) => {
                p.physics_will_update(dt_ms, &mut self.body, config);
            },
            EntityKind::Prop(_) => {},
        }
    }

    /// Called after integration: the body's sleep bookkeeping.
    pub fn physics_did_update(&mut self, dt_ms: u64)
        requires
            old(self).wf(),
        ensures
            final(self).wf(),
            *final(self) == (Entity { body: final(self).body, ..*old(self) }),
            final(self).body.is_static == old(self).body.is_static,
            final(self).body.position.value == old(self).body.position.value,
            final(self).body.velocity.value == old(self).body.velocity.value,
            final(self).body.rotation.value == old(self).body.rotation.value,
            final(self).body.rects.value == old(self).body.rects.value,
            final(self).body.rotated_rects == old(self).body.rotated_rects,
            final(self).body.bounding_rect == old(self).body.bounding_rect,
            final(self).body.volume == old(self).body.volume,
    {
        let _ = dt_ms;
        self.body.physics_did_update();
    }

    /// Whether any dirty-tracked field of the entity or its body changed.
    pub open spec fn spec_changed(&self) -> bool {
        ||| self.body.spec_changed()
        ||| self.health.changed()
        ||| self.dir.changed()
        ||| self.uses_dir.changed()
        ||| self.asset.changed()
        ||| self.label.changed()
        ||| self.selectable.changed()
    }

    /// Called when checking to see if the entity needs to be sent to the
    /// client.
    pub fn is_changed(&self) -> (r: bool)
        requires
            self.wf(),
        ensures
            r == self.spec_changed(),
    {
        if self.body.is_changed() {
            return true;
        }
        self.health.is_changed() || self.dir.is_changed() || self.uses_dir.is_changed()
            || self.asset.is_changed() || self.label.is_changed() || self.selectable.is_changed()
    }

    /// Called after an update is emitted: clears the new flag and commits
    /// every dirty tracker.
    pub fn committed(&mut self)
        requires
            old(self).wf(),
        ensures
            final(self).wf(),
            !final(self).spec_changed(),
            !final(self).is_new,
            final(self).id == old(self).id,
            final(self).kind == old(self).kind,
            final(self).health.value == old(self).health.value,
            final(self).dir.value == old(self).dir.value,
            final(self).uses_dir.value == old(self).uses_dir.value,
            final(self).asset.value == old(self).asset.value,
            final(self).label.value == old(self).label.value,
            final(self).selectable.value == old(self).selectable.value,
            final(self).body.position.value == old(self).body.position.value,
            final(self).body.velocity.value == old(self).body.velocity.value,
            final(self).body.rotation.value == old(self).body.rotation.value,
            final(self).body.rects.value == old(self).body.rects.value,
            final(self).body.is_sleeping.value == old(self).body.is_sleeping.value,
            final(self).body.is_static == old(self).body.is_static,
            final(self).body.rotated_rects == old(self).body.rotated_rects,
            final(self).body.bounding_rect == old(self).body.bounding_rect,
            final(self).body.volume == old(self).body.volume,
    {
        self.is_new = false;
        self.body.committed();
        self.health.committed();
        self.dir.committed();
        self.uses_dir.committed();
        self.asset.committed();
        self.label.committed();
        self.selectable.committed();
    }
}

impl Entity {
    /// Builds a fresh entity of the given kind under the given id: the
    /// kind's body, the prefab's asset and rects, full health, and the
    /// new flag set. Nothing is built when the kind's prefab is not in
    /// the configuration.
    pub fn new(id: EntityId, kind: EntityKind, config: &crate::game_config::GameConfig) -> (r:
        Option<Entity>)
        requires
            config.wf(),
            match kind {
                EntityKind::Player(p) => p.wf(),
                EntityKind::Prop(pr) => pr.prefab.wf() && pr.object.position.bounded(
                    COORD_LIMIT as i64,
                ),
            },
        ensures
            match r {
                Some(e) => {
                    &&& e.wf()
                    &&& e.id == id
                    &&& e.is_new
                    &&& e.kind == kind
                    &&& e.health.value == 1000
                    &&& e.dir.value == 0
                    &&& e.label.value is None
                    &&& e.uses_dir.value == kind.spec_uses_dir()
                    &&& e.selectable.value == kind.spec_selectable()
                    &&& (kind is Prop ==> e.body.position.value == kind->Prop_0.object.position
                        && e.body.is_static == (kind->Prop_0.prefab.kind is Fixture)
                        && e.body.rotation.value == kind->Prop_0.object.rotation)
                    &&& (kind is Player ==> e.body.position.value == (Vector {
                        x: 0i64,
                        y: 0i64,
                        z: 0i64,
                    }) && !e.body.is_static)
                    // The prefab shaped the entity: its collision rects and
                    // its asset (the prefab's id when it names none).
                    &&& (kind is Prop ==> e.body.rects.value@ == kind->Prop_0.prefab.rects@
                        && e.asset.value@ == (if kind->Prop_0.prefab.asset is Some {
                        kind->Prop_0.prefab.asset->0@
                    } else {
                        kind->Prop_0.prefab.id@
                    }))
                    &&& (kind is Player ==> exists|pi: int|
                        0 <= pi < config.prefabs@.len() && (#[trigger] config.prefabs@[pi]).id@
                            == kind.spec_prefab_id(config) && e.body.rects.value@
                            == config.prefabs@[pi].rects@ && e.asset.value@ == (
                        if config.prefabs@[pi].asset is Some {
                            config.prefabs@[pi].asset->0@
                        } else {
                            config.prefabs@[pi].id@
                        }))
                },
                None => kind is Player && (forall|pi: int|
                    0 <= pi < config.prefabs@.len() ==> (#[trigger] config.prefabs@[pi]).id@
                        != kind.spec_prefab_id(config)),
            },
    {
        let uses_dir = kind.uses_dir();
        let is_selectable = kind.is_selectable();
        let body: EntityBody;
        let ghost g_prefab: crate::game_config::PrefabConfig;
        let prefab: crate::game_config::PrefabConfig = match &kind {
            EntityKind::Prop(pr) => {
                body = pr.create_body();
                pr.prefab.duplicate()
            },
            EntityKind::Player(_) => {
                body = EntityBody::new(false, Vector::zero(), Vector::zero(), 0, Vec::new());
                let prefab_id = kind.prefab_id(config);
                match config.prefab_with_id(&prefab_id) {
                    Some(p) => p.duplicate(),
                    None => {
                        return None;
                    },
                }
            },
        };
        let mut entity = Entity {
            id,
            is_new: true,
            kind,
            body,
            dir: IncrementalValue::new(0),
            uses_dir: IncrementalValue::new(uses_dir),
            health: IncrementalValue::new(1000),
            asset: IncrementalValue::new(prefab.asset()),
            label: IncrementalValue::new(None),
            selectable: IncrementalValue::new(is_selectable),
        };
        entity.apply_prefab(&prefab);
        Some(entity)
    }
}

/// Quarter turns keep a rect inside any symmetric coordinate range: the
/// centre components only swap and negate, and the sizes only swap.
pub proof fn lemma_rotate_range(r: Rect, n: nat, limit: i64)
    requires
        limit >= 0,
        r.center.bounded(limit),
        0 <= r.size.x <= limit,
        0 <= r.size.y <= limit,
        0 <= r.size.z <= limit,
    ensures
        spec_rotate(r, n).center.bounded(limit),
        0 <= spec_rotate(r, n).size.x <= limit,
        0 <= spec_rotate(r, n).size.y <= limit,
        0 <= spec_rotate(r, n).size.z <= limit,
    decreases n,
{
    if n > 0 {
        lemma_rotate_range(r, (n - 1) as nat, limit);
    }
}

/// A well-formed body's cached bounding rect stays in the loose range the
/// index works with.
pub proof fn lemma_bounding_range(b: EntityBody)
    requires
        b.wf(),
        b.bounding_rect is Some,
    ensures
        b.bounding_rect->0.center.bounded(4_000_000_000i64),
        0 <= b.bounding_rect->0.size.x <= 4_000_000_000,
        0 <= b.bounding_rect->0.size.y <= 4_000_000_000,
        0 <= b.bounding_rect->0.size.z <= 4_000_000_000,
{
    lemma_rotated_rects_wf(b.rects.value@, b.rotation.value);
    lemma_minmax_ordered(b.rotated_rects@);
}

/// A coordinate clamped into the fixed-point range.
pub open spec fn clamp_coord(v: int) -> i64 {
    if v > COORD_LIMIT {
        COORD_LIMIT
    } else if v < -COORD_LIMIT {
        (-COORD_LIMIT) as i64
    } else {
        v as i64
    }
}

impl EntityBody {
    /// One integration substep: gravity pulls the velocity down and the
    /// position moves by the velocity over the substep, all clamped into
    /// the coordinate range; static and sleeping bodies do not move.
    pub fn integrate(&mut self, dt_ms: u64, gravity: i64)
        requires
            old(self).wf(),
            dt_ms <= 1_000_000,
            0 <= gravity <= 1_000_000,
        ensures
            final(self).wf(),
            ({
                let o = *old(self);
                if o.is_static || o.is_sleeping.value {
                    *final(self) == o
                } else {
                    let vz = clamp_coord(
                        o.velocity.value.z - crate::utils::spec_scale_div(
                            gravity as int,
                            dt_ms as int,
                            1000,
                        ),
                    );
                    let nv = Vector { x: o.velocity.value.x, y: o.velocity.value.y, z: vz };
                    let np = Vector {
                        x: clamp_coord(
                            o.position.value.x + crate::utils::spec_scale_div(
                                nv.x as int,
                                dt_ms as int,
                                1000,
                            ),
                        ),
                        y: clamp_coord(
                            o.position.value.y + crate::utils::spec_scale_div(
                                nv.y as int,
                                dt_ms as int,
                                1000,
                            ),
                        ),
                        z: clamp_coord(
                            o.position.value.z + crate::utils::spec_scale_div(
                                nv.z as int,
                                dt_ms as int,
                                1000,
                            ),
                        ),
                    };
                    *final(self) == (EntityBody {
                        velocity: IncrementalValueDiff { value: nv, ..o.velocity },
                        position: IncrementalValueDiff { value: np, ..o.position },
                        ..o
                    })
                }
            }),
    {
        if self.is_static || *self.is_sleeping() {
            return ;
        }
        // Apply gravity.
        proof {
            assert(0 <= gravity as int * dt_ms <= 1_000_000_000_000) by (nonlinear_arith)
                requires 0 <= gravity <= 1_000_000, 0 <= dt_ms <= 1_000_000;
        }
        let gdt = crate::utils::scale_div(gravity, dt_ms as i64, 1000);
        proof {
            crate::utils::lemma_scale_div_abs(gravity as int, dt_ms as int, 1000, 1_000_000_000_000);
        }
        let vz_raw = self.velocity.get().z - gdt;
        let vz = if vz_raw > COORD_LIMIT {
            COORD_LIMIT
        } else if vz_raw < -COORD_LIMIT {
            -COORD_LIMIT
        } else {
            vz_raw
        };
        let vx = self.velocity.get().x;
        let vy = self.velocity.get().y;
        self.velocity.set(Vector::new(vx, vy, vz));
        // Move the position by the velocity.
        let dx = crate::utils::scale_div(vx, dt_ms as i64, 1000);
        let dy = crate::utils::scale_div(vy, dt_ms as i64, 1000);
        let dz = crate::utils::scale_div(vz, dt_ms as i64, 1000);
        proof {
            assert(-1_000_000_000_000_000 <= vx as int * dt_ms <= 1_000_000_000_000_000)
                by (nonlinear_arith)
                requires -1_000_000_000 <= vx <= 1_000_000_000, 0 <= dt_ms <= 1_000_000;
            assert(-1_000_000_000_000_000 <= vy as int * dt_ms <= 1_000_000_000_000_000)
                by (nonlinear_arith)
                requires -1_000_000_000 <= vy <= 1_000_000_000, 0 <= dt_ms <= 1_000_000;
            assert(-1_000_000_000_000_000 <= vz as int * dt_ms <= 1_000_000_000_000_000)
                by (nonlinear_arith)
                requires -1_000_000_000 <= vz <= 1_000_000_000, 0 <= dt_ms <= 1_000_000;
            crate::utils::lemma_scale_div_abs(
                vx as int,
                dt_ms as int,
                1000,
                1_000_000_000_000_000i64 as int,
            );
            crate::utils::lemma_scale_div_abs(
                vy as int,
                dt_ms as int,
                1000,
                1_000_000_000_000_000i64 as int,
            );
            crate::utils::lemma_scale_div_abs(
                vz as int,
                dt_ms as int,
                1000,
                1_000_000_000_000_000i64 as int,
            );
        }
        let px = clamp_exec(self.position.get().x + dx);
        let py = clamp_exec(self.position.get().y + dy);
        let pz = clamp_exec(self.position.get().z + dz);
        self.position.set(Vector::new(px, py, pz));
    }
}

/// Exact clamping into the coordinate range.
fn clamp_exec(v: i64) -> (r: i64)
    ensures
        r == clamp_coord(v as int),
{
    if v > COORD_LIMIT {
        COORD_LIMIT
    } else if v < -COORD_LIMIT {
        -COORD_LIMIT
    } else {
        v
    }
}

/// Through the whole pairwise resolution fold, a static body's position
/// never moves.
pub proof fn lemma_collide_from_static(a: EntityBody, b: EntityBody, i: int, j: int)
    requires
        a.position.value.bounded(crate::geometry::COORD_LIMIT as i64),
        b.position.value.bounded(crate::geometry::COORD_LIMIT as i64),
    ensures
        a.is_static ==> spec_collide_from(a, b, i, j).0.position.value == a.position.value,
        b.is_static && !a.is_static ==> spec_collide_from(a, b, i, j).1.position.value
            == b.position.value,
    decreases a.rotated_rects@.len() - i, b.rotated_rects@.len() - j,
{
    if i < 0 || j < 0 || a.rotated_rects@.len() - i < 0 || b.rotated_rects@.len() - j < 0 {
    } else if i >= a.rotated_rects@.len() {
    } else if j >= b.rotated_rects@.len() {
        lemma_collide_from_static(a, b, i + 1, 0);
    } else {
        let next = spec_collide_rects(a, b, i, j);
        lemma_collide_from_static(next.0, next.1, i, j + 1);
    }
}

/// Flag identifying each field of an entity on the wire.
pub enum EntityPackFlag {
    Id,
    Position,
    Velocity,
    Rotation,
    Dir,
    UsesDir,
    Health,
    Asset,
    Label,
    BodyRect,
    Selectable,
    Sleeping,
}

impl crate::wire::PackFlag for EntityPackFlag {
    /// The stable small integer of each field.
    fn pack_flag(&self) -> (r: crate::wire::PackFlagRaw)
        ensures
            r == spec_entity_flag(*self),
    {
        match self {
            EntityPackFlag::Id => 0,
            EntityPackFlag::Position => 1,
            EntityPackFlag::Velocity => 2,
            EntityPackFlag::Rotation => 3,
            EntityPackFlag::Dir => 4,
            EntityPackFlag::UsesDir => 8,
            EntityPackFlag::Health => 11,
            EntityPackFlag::Asset => 5,
            EntityPackFlag::Label => 6,
            EntityPackFlag::BodyRect => 7,
            EntityPackFlag::Selectable => 9,
            EntityPackFlag::Sleeping => 10,
        }
    }
}

pub open spec fn spec_entity_flag(f: EntityPackFlag) -> u8 {
    match f {
        EntityPackFlag::Id => 0u8,
        EntityPackFlag::Position => 1u8,
        EntityPackFlag::Velocity => 2u8,
        EntityPackFlag::Rotation => 3u8,
        EntityPackFlag::Dir => 4u8,
        EntityPackFlag::UsesDir => 8u8,
        EntityPackFlag::Health => 11u8,
        EntityPackFlag::Asset => 5u8,
        EntityPackFlag::Label => 6u8,
        EntityPackFlag::BodyRect => 7u8,
        EntityPackFlag::Selectable => 9u8,
        EntityPackFlag::Sleeping => 10u8,
    }
}

/// The condition and flag of each optional field stage, in wire order.
pub open spec fn spec_stage(e: Entity, init: bool, k: int) -> (bool, u8) {
    if k == 1 {
        (init || e.body.position.changed(), 1u8)
    } else if k == 2 {
        (init || e.body.velocity.changed(), 2u8)
    } else if k == 3 {
        (init || e.body.rotation.changed(), 3u8)
    } else if k == 4 {
        (init || e.dir.changed(), 4u8)
    } else if k == 5 {
        (init || e.health.changed(), 11u8)
    } else if k == 6 {
        (init || e.asset.changed(), 5u8)
    } else if k == 7 {
        (init || e.label.changed(), 6u8)
    } else if k == 8 {
        (init || e.selectable.changed(), 9u8)
    } else if k == 9 {
        (init || e.body.rects.changed(), 7u8)
    } else if k == 10 {
        (init || e.uses_dir.changed(), 8u8)
    } else {
        (init || e.body.is_sleeping.changed(), 10u8)
    }
}

/// The field flags present after the first `k` optional stages: the id
/// always leads, and each stage contributes its flag exactly when the
/// update is an init or the field is dirty.
pub open spec fn spec_fields_upto(e: Entity, init: bool, k: int) -> Seq<u8>
    decreases k,
{
    if k <= 0 {
        seq![0u8]
    } else {
        spec_fields_upto(e, init, k - 1) + cond_flag(
            spec_stage(e, init, k).0,
            spec_stage(e, init, k).1,
        )
    }
}

/// The field flags present in a serialized entity, in their wire order.
pub open spec fn spec_fields_present(e: Entity, init: bool) -> Seq<u8> {
    spec_fields_upto(e, init, 11)
}

/// The built pairs match the staged field flags through stage `k`.
pub open spec fn pairs_match(
    ps: Seq<(crate::wire::WireValue, crate::wire::WireValue)>,
    e: Entity,
    init: bool,
    k: int,
) -> bool {
    &&& ps.len() == spec_fields_upto(e, init, k).len()
    &&& forall|i: int|
        0 <= i < ps.len() ==> (#[trigger] ps[i]).0 == crate::wire::WireValue::U(
            spec_fields_upto(e, init, k)[i] as u64,
        ) && spec_field_value_ok(ps[i].1, spec_fields_upto(e, init, k)[i], e)
}

pub open spec fn cond_flag(included: bool, flag: u8) -> Seq<u8> {
    if included {
        seq![flag]
    } else {
        Seq::empty()
    }
}

/// The exact value a serialized entity carries under each field flag.
pub open spec fn spec_field_value_ok(w: crate::wire::WireValue, flag: u8, e: Entity) -> bool {
    if flag == 0 {
        w == crate::wire::WireValue::U(e.id)
    } else if flag == 1 {
        crate::wire::is_ser_vector(w, e.body.position.value)
    } else if flag == 2 {
        crate::wire::is_ser_vector(w, e.body.velocity.value)
    } else if flag == 3 {
        w == crate::wire::WireValue::U(e.body.rotation.value as u64)
    } else if flag == 4 {
        w == crate::wire::WireValue::I(e.dir.value)
    } else if flag == 11 {
        w == crate::wire::WireValue::I(e.health.value)
    } else if flag == 5 {
        w is Str && w->Str_0@ == e.asset.value@
    } else if flag == 6 {
        match e.label.value {
            Some(lbl) => w is Str && w->Str_0@ == lbl@,
            None => w is Nil,
        }
    } else if flag == 9 {
        w == crate::wire::WireValue::Bool(e.selectable.value)
    } else if flag == 7 {
        crate::wire::is_ser_rects(w, e.body.rects.value@)
    } else if flag == 8 {
        w == crate::wire::WireValue::Bool(e.uses_dir.value)
    } else if flag == 10 {
        w == crate::wire::WireValue::Bool(e.body.is_sleeping.value)
    } else {
        false
    }
}

/// Whether a wire value is the serialization of an entity: a map keyed by
/// exactly the present field flags in order, each with its exact value.
pub open spec fn is_serialized_entity(w: crate::wire::WireValue, e: Entity, init: bool) -> bool {
    &&& w is Dict
    &&& w->Dict_0@.len() == spec_fields_present(e, init).len()
    &&& forall|i: int|
        0 <= i < w->Dict_0@.len() ==> (#[trigger] w->Dict_0@[i]).0
            == crate::wire::WireValue::U(spec_fields_present(e, init)[i] as u64)
            && spec_field_value_ok(w->Dict_0@[i].1, spec_fields_present(e, init)[i], e)
}

impl Entity {
    /// Emits the flag-keyed map of this entity's fields: every field on an
    /// init, otherwise only what changed since the last commit.
    pub fn serialize(&self, init: bool) -> (r: crate::wire::WireValue)
        requires
            self.wf(),
        ensures
            is_serialized_entity(r, *self, init),
    {
        let mut data: crate::wire::PackData = Vec::new();
        crate::wire::pack_value(&mut data, 0, crate::wire::WireValue::U(self.id));
        proof {
            assert(pairs_match(data@, *self, init, 0));
        }
        self.serialize_motion(init, &mut data);
        self.serialize_display(init, &mut data);
        self.serialize_shape(init, &mut data);
        crate::wire::WireValue::Dict(data)
    }

    /// Packs the motion fields: position, velocity, rotation and facing.
    fn serialize_motion(&self, init: bool, data: &mut crate::wire::PackData)
        requires
            self.wf(),
            pairs_match(old(data)@, *self, init, 0),
        ensures
            pairs_match(final(data)@, *self, init, 4),
    {
        let v1 = crate::wire::ser_vector(self.body.position.get());
        crate::wire::pack_incremental_value(init, data, 1, &self.body.position, v1);
        proof {
            assert(pairs_match(data@, *self, init, 1));
        }
        let v2 = crate::wire::ser_vector(self.body.velocity.get());
        crate::wire::pack_incremental_value(init, data, 2, &self.body.velocity, v2);
        proof {
            assert(pairs_match(data@, *self, init, 2));
        }
        crate::wire::pack_incremental_value(
            init,
            data,
            3,
            &self.body.rotation,
            crate::wire::WireValue::U(*self.body.rotation.get() as u64),
        );
        proof {
            assert(pairs_match(data@, *self, init, 3));
        }
        crate::wire::pack_incremental_value(
            init,
            data,
            4,
            &self.dir,
            crate::wire::WireValue::I(*self.dir.get()),
        );
        proof {
            assert(pairs_match(data@, *self, init, 4));
        }
    }

    /// Packs the display fields: health, asset, label and selectability.
    fn serialize_display(&self, init: bool, data: &mut crate::wire::PackData)
        requires
            self.wf(),
            pairs_match(old(data)@, *self, init, 4),
        ensures
            pairs_match(final(data)@, *self, init, 8),
    {
        crate::wire::pack_incremental_value(
            init,
            data,
            11,
            &self.health,
            crate::wire::WireValue::I(*self.health.get()),
        );
        proof {
            assert(pairs_match(data@, *self, init, 5));
        }
        let v5 = crate::wire::WireValue::Str(
            crate::game_config::clone_string(self.asset.get()),
        );
        crate::wire::pack_incremental_value(init, data, 5, &self.asset, v5);
        proof {
            assert(pairs_match(data@, *self, init, 6));
        }
        let v6 = crate::wire::ser_opt_string(self.label.get());
        crate::wire::pack_incremental_value(init, data, 6, &self.label, v6);
        proof {
            assert(pairs_match(data@, *self, init, 7));
        }
        crate::wire::pack_incremental_value(
            init,
            data,
            9,
            &self.selectable,
            crate::wire::WireValue::Bool(*self.selectable.get()),
        );
        proof {
            assert(pairs_match(data@, *self, init, 8));
        }
    }

    /// Packs the shape fields: the body rects, the facing flag and the
    /// sleeping flag.
    fn serialize_shape(&self, init: bool, data: &mut crate::wire::PackData)
        requires
            self.wf(),
            pairs_match(old(data)@, *self, init, 8),
        ensures
            pairs_match(final(data)@, *self, init, 11),
    {
        let v7 = crate::wire::ser_rects(self.body.rects.get());
        crate::wire::pack_incremental_value(init, data, 7, &self.body.rects, v7);
        proof {
            assert(pairs_match(data@, *self, init, 9));
        }
        crate::wire::pack_incremental_value(
            init,
            data,
            8,
            &self.uses_dir,
            crate::wire::WireValue::Bool(*self.uses_dir.get()),
        );
        proof {
            assert(pairs_match(data@, *self, init, 10));
        }
        crate::wire::pack_incremental_value(
            init,
            data,
            10,
            &self.body.is_sleeping,
            crate::wire::WireValue::Bool(*self.body.is_sleeping.get()),
        );
        proof {
            assert(pairs_match(data@, *self, init, 11));
        }
    }
}

/// Two single-rect bodies overlapping least along x end the resolution
/// with their centres separated by exactly half the summed x sizes, and
/// with both x velocities zeroed.
pub proof fn lemma_collision_separates_x(a: EntityBody, b: EntityBody)
    requires
        a.wf(),
        b.wf(),
        a.rotated_rects@.len() == 1,
        b.rotated_rects@.len() == 1,
        // The pair overlaps, least along x, with the tie order resolving
        // to the x axis.
        EntityBody::spec_rects_overlap(&a, &b, 0, 0),
        EntityBody::spec_overlap(&a, &b, 0, 0, 0) <= EntityBody::spec_overlap(&a, &b, 0, 0, 1),
        EntityBody::spec_overlap(&a, &b, 0, 0, 0) <= EntityBody::spec_overlap(&a, &b, 0, 0, 2),
        // The pushed positions stay inside the coordinate range.
        a.position.value.bounded(900_000_000i64),
        b.position.value.bounded(900_000_000i64),
        // The centres do not coincide, so the push has a direction.
        a.spec_world_center(0, 0) != b.spec_world_center(0, 0),
    ensures
        ({
            let r = spec_collide_rects(a, b, 0, 0);
            let ca = r.0.spec_world_center(0, 0);
            let cb = r.1.spec_world_center(0, 0);
            &&& iabs(ca - cb) == (a.spec_rect_size(0, 0) + b.spec_rect_size(0, 0)) / 2
            &&& r.0.velocity.value.x == 0
            &&& r.1.velocity.value.x == 0
        }),
{
    lemma_rotated_rects_wf(a.rects.value@, a.rotation.value);
    lemma_rotated_rects_wf(b.rects.value@, b.rotation.value);
    assert(a.rotated_rects@[0].wf());
    assert(b.rotated_rects@[0].wf());
    let ov = EntityBody::spec_overlap(&a, &b, 0, 0, 0);
    let sa = a.spec_rect_size(0, 0);
    let sb = b.spec_rect_size(0, 0);
    let ca0 = a.spec_world_center(0, 0);
    let cb0 = b.spec_world_center(0, 0);
    assert(0 <= sa <= 1_000_000 && 0 <= sb <= 1_000_000);
    assert(ov == (sa + sb) / 2 - iabs(ca0 - cb0));
    assert(0 < ov <= 1_000_000);
    let pushes = spec_pushes(sa, sb, a.volume as int, b.volume as int, a.is_static, b.is_static, ov);
    assert(0 <= pushes.0 <= ov && pushes.0 + pushes.1 == ov) by {
        if a.is_static {
        } else if b.is_static {
        } else {
            let wa = sa * (b.volume as int);
            let wb = sb * (a.volume as int);
            assert(sa * (b.volume as int) >= 0) by (nonlinear_arith)
                requires sa >= 0, b.volume >= 0;
            assert(sb * (a.volume as int) >= 0) by (nonlinear_arith)
                requires sb >= 0, a.volume >= 0;
            if wa + wb != 0 {
                lemma_push_share_bounds_pub(wa, wb, ov);
            }
        }
    }
    let r = spec_collide_rects(a, b, 0, 0);
    if ca0 < cb0 {
        assert(r.0 == spec_apply_push(a, 0, -pushes.0));
        assert(r.1 == spec_apply_push(b, 0, pushes.1));
        assert(r.0.position.value.x == a.position.value.x - pushes.0);
        assert(r.1.position.value.x == b.position.value.x + pushes.1);
        assert(r.0.spec_world_center(0, 0) == ca0 - pushes.0);
        assert(r.1.spec_world_center(0, 0) == cb0 + pushes.1);
        assert(cb0 + pushes.1 - (ca0 - pushes.0) == (cb0 - ca0) + ov);
        assert(iabs(ca0 - cb0) == cb0 - ca0);
    } else {
        assert(r.0 == spec_apply_push(a, 0, pushes.0));
        assert(r.1 == spec_apply_push(b, 0, -pushes.1));
        assert(r.0.position.value.x == a.position.value.x + pushes.0);
        assert(r.1.position.value.x == b.position.value.x - pushes.1);
        assert(r.0.spec_world_center(0, 0) == ca0 + pushes.0);
        assert(r.1.spec_world_center(0, 0) == cb0 - pushes.1);
        assert(iabs(ca0 - cb0) == ca0 - cb0);
    }
}

/// The weighted share of an overlap is between zero and the overlap.
pub proof fn lemma_push_share_bounds_pub(wa: int, wb: int, ov: int)
    requires
        wa >= 0,
        wb >= 0,
        wa + wb > 0,
        ov >= 0,
    ensures
        0 <= wa * ov / (wa + wb) <= ov,
{
    lemma_push_share_bounds(wa, wb, ov);
}

/// A quiet awake body falls asleep on the eleventh consecutive quiet
/// update: the first ten only raise the counter, and the update taken at a
/// counter of ten turns sleep on.
pub proof fn lemma_sleeps_on_eleventh_quiet_update(body: EntityBody)
    requires
        body.wf(),
        !body.is_sleeping.value,
        body.spec_sleepable(),
    ensures
        body.sleepable_updates < UPDATES_TO_SLEEP ==> !(EntityBody {
            sleepable_updates: (body.sleepable_updates + 1) as u64,
            is_sleeping: IncrementalValue {
                value: body.sleepable_updates + 1 > UPDATES_TO_SLEEP,
                previous_value: body.is_sleeping.previous_value,
            },
            ..body
        }).is_sleeping.value,
        body.sleepable_updates == UPDATES_TO_SLEEP ==> (EntityBody {
            sleepable_updates: (body.sleepable_updates + 1) as u64,
            is_sleeping: IncrementalValue {
                value: body.sleepable_updates + 1 > UPDATES_TO_SLEEP,
                previous_value: body.is_sleeping.previous_value,
            },
            ..body
        }).is_sleeping.value,
{
}

} // verus!
