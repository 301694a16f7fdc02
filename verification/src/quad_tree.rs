//! The spatial index: a 4-way recursive partition over the XY plane.
//! Each node holds entries (placement snapshots of entities) that do not
//! fit wholly inside any child; every present entity appears exactly once.
use vstd::prelude::*;

use crate::entities::entity::EntityId;
use crate::geometry::{Rect, Vector};

verus! {

/// A leaf splits when it holds more than this many entries.
pub const MAX_OBJECTS: usize = 10;

/// Nodes at this level never split further.
pub const MAX_LEVELS: usize = 999;

/// A rect used to place tree nodes: origin at the top left corner, unlike
/// the entity rects whose origin is the centre.
pub struct TreeBounds {
    pub x: i64,
    pub y: i64,
    pub width: i64,
    pub height: i64,
}

impl TreeBounds {
    /// The whole box sits within the fixed-point range.
    pub open spec fn wf(&self) -> bool {
        &&& -2_000_000_000 <= self.x
        &&& self.x + self.width <= 2_000_000_000
        &&& -2_000_000_000 <= self.y
        &&& self.y + self.height <= 2_000_000_000
        &&& 0 <= self.width
        &&& 0 <= self.height
    }

    pub fn new(x: i64, y: i64, width: i64, height: i64) -> (r: TreeBounds)
        ensures
            r == (TreeBounds { x, y, width, height }),
    {
        TreeBounds { x, y, width, height }
    }

    /// Whether a rect placed at `offset` fits strictly inside the bounds,
    /// in the XY plane.
    pub open spec fn spec_contains_rect(&self, rect: Rect, offset: Vector) -> bool {
        &&& rect.spec_x_lower(offset.x as int) > self.x
        &&& rect.spec_x_upper(offset.x as int) < self.x + self.width
        &&& rect.spec_y_lower(offset.y as int) > self.y
        &&& rect.spec_y_upper(offset.y as int) < self.y + self.height
    }

    /// What bounds tests need of a rect: the loose range that a cached
    /// bounding rect satisfies.
    pub open spec fn rect_in_range(rect: Rect) -> bool {
        &&& rect.center.bounded(4_000_000_000i64)
        &&& 0 <= rect.size.x <= 4_000_000_000
        &&& 0 <= rect.size.y <= 4_000_000_000
        &&& 0 <= rect.size.z <= 4_000_000_000
    }

    pub fn contains_rect(&self, rect: &Rect, offset: &Vector) -> (r: bool)
        requires
            self.wf(),
            TreeBounds::rect_in_range(*rect),
            offset.bounded(1_000_000_000i64),
        ensures
            r == self.spec_contains_rect(*rect, *offset),
    {
        rect.center.x - rect.size.x / 2 + offset.x > self.x && rect.center.x + rect.size.x / 2
            + offset.x < self.x + self.width && rect.center.y - rect.size.y / 2 + offset.y > self.y
            && rect.center.y + rect.size.y / 2 + offset.y < self.y + self.height
    }

    /// Whether a rect placed at `offset` touches the bounds in XY.
    pub open spec fn spec_intersects_rect(&self, rect: Rect, offset: Vector) -> bool {
        &&& rect.spec_x_upper(offset.x as int) > self.x
        &&& rect.spec_x_lower(offset.x as int) < self.x + self.width
        &&& rect.spec_y_upper(offset.y as int) > self.y
        &&& rect.spec_y_lower(offset.y as int) < self.y + self.height
    }

    pub fn intersects_rect(&self, rect: &Rect, offset: &Vector) -> (r: bool)
        requires
            self.wf(),
            TreeBounds::rect_in_range(*rect),
            offset.bounded(1_000_000_000i64),
        ensures
            r == self.spec_intersects_rect(*rect, *offset),
    {
        rect.center.x + rect.size.x / 2 + offset.x > self.x && rect.center.x - rect.size.x / 2
            + offset.x < self.x + self.width && rect.center.y + rect.size.y / 2 + offset.y > self.y
            && rect.center.y - rect.size.y / 2 + offset.y < self.y + self.height
    }

    /// Whether a point lies strictly inside the bounds in XY.
    pub open spec fn spec_contains_point(&self, point: Vector) -> bool {
        &&& point.x > self.x
        &&& point.x < self.x + self.width
        &&& point.y > self.y
        &&& point.y < self.y + self.height
    }

    pub fn contains_point(&self, point: &Vector) -> (r: bool)
        requires
            self.wf(),
        ensures
            r == self.spec_contains_point(*point),
    {
        point.x > self.x && point.x < self.x + self.width && point.y > self.y && point.y < self.y
            + self.height
    }

    /// Whether an entity placement fits in the bounds: by bounding rect
    /// when it has a body, else by its origin point.
    pub open spec fn spec_contains_entry(&self, e: TreeEntry) -> bool {
        match e.bounding {
            Some(rect) => self.spec_contains_rect(rect, e.pos),
            None => self.spec_contains_point(e.pos),
        }
    }

    pub fn contains_entry(&self, e: &TreeEntry) -> (r: bool)
        requires
            self.wf(),
            e.wf(),
        ensures
            r == self.spec_contains_entry(*e),
    {
        match &e.bounding {
            Some(rect) => self.contains_rect(rect, &e.pos),
            None => self.contains_point(&e.pos),
        }
    }
}

/// The placement snapshot of one entity, as the index holds it.
pub struct TreeEntry {
    pub id: EntityId,
    /// The body position at the last refresh.
    pub pos: Vector,
    /// The cached bounding rect, if the entity has a body.
    pub bounding: Option<Rect>,
    /// The rotated collision rects.
    pub rects: Vec<Rect>,
    pub sleeping: bool,
    pub is_static: bool,
}

impl TreeEntry {
    pub open spec fn wf(&self) -> bool {
        &&& self.pos.bounded(1_000_000_000i64)
        &&& match self.bounding {
            Some(r) => TreeBounds::rect_in_range(r),
            None => true,
        }
        &&& forall|i: int| 0 <= i < self.rects@.len() ==> (#[trigger] self.rects@[i]).wf()
        // The cached box encloses every collision rect in the plane, up
        // to the unit that halving its size may shave off the top; a
        // bodiless snapshot carries no rects.
        &&& (self.bounding is Some ==> forall|k: int|
            0 <= k < self.rects@.len() ==> self.bounding->0.spec_x_lower(0) <= (
            #[trigger] self.rects@[k]).spec_x_lower(0) && self.rects@[k].spec_x_upper(0)
                <= self.bounding->0.spec_x_upper(0) + 1 && self.bounding->0.spec_y_lower(0)
                <= self.rects@[k].spec_y_lower(0) && self.rects@[k].spec_y_upper(0)
                <= self.bounding->0.spec_y_upper(0) + 1)
        &&& (self.bounding is None ==> self.rects@.len() == 0)
    }
}

/// Quad tree for speeding up physics and visibility queries: a 2-D
/// top-down recursive partition.
pub struct QuadTree {
    pub level: usize,
    pub entries: Vec<TreeEntry>,
    pub bounds: TreeBounds,
    pub nodes: Option<Vec<QuadTree>>,
    pub is_sleeping: bool,
}

impl QuadTree {
    /// Every entry the subtree holds, this node's first.
    pub open spec fn spec_entries(self) -> Seq<TreeEntry>
        decreases self,
    {
        self.entries@ + (match self.nodes {
            Some(ns) => if ns@.len() == 4 {
                ns@[0].spec_entries() + ns@[1].spec_entries() + ns@[2].spec_entries()
                    + ns@[3].spec_entries()
            } else {
                Seq::empty()
            },
            None => Seq::empty(),
        })
    }

    /// How many entries of the subtree carry the given id.
    pub open spec fn spec_id_count(self, id: EntityId) -> int {
        id_count(self.spec_entries(), id)
    }

    /// Structure: four children one level down when split, every entry
    /// within this node's bounds unless this is the root, and no id twice.
    pub open spec fn wf_at(self, is_root: bool) -> bool
        decreases self,
    {
        &&& self.bounds.wf()
        &&& self.level <= MAX_LEVELS
        &&& forall|i: int| 0 <= i < self.entries@.len() ==> (#[trigger] self.entries@[i]).wf()
        &&& (!is_root ==> forall|i: int|
            0 <= i < self.entries@.len() ==> self.bounds.spec_contains_entry(
                #[trigger] self.entries@[i],
            ))
        &&& match self.nodes {
            Some(ns) => {
                &&& ns@.len() == 4
                &&& self.level < MAX_LEVELS
                &&& forall|k: int| 0 <= k < 4 ==> (#[trigger] ns@[k]).wf_at(false)
                &&& forall|k: int| 0 <= k < 4 ==> (#[trigger] ns@[k]).level == self.level + 1
                &&& forall|k: int, i: int|
                    0 <= k < 4 && 0 <= i < ns@[k].spec_entries().len()
                        ==> self.bounds.spec_contains_entry(#[trigger] ns@[k].spec_entries()[i])
                        || is_root
            },
            None => true,
        }
    }

    /// Well-formed with unique ids: the index's invariant at rest.
    pub open spec fn wf(self) -> bool {
        &&& self.wf_at(true)
        &&& forall|id: EntityId| self.spec_id_count(id) <= 1
    }

    pub fn new(level: usize, bounds: TreeBounds) -> (r: QuadTree)
        requires
            bounds.wf(),
            level <= MAX_LEVELS,
        ensures
            r.wf(),
            r.level == level,
            r.bounds == bounds,
            r.spec_entries() =~= Seq::<TreeEntry>::empty(),
            r.nodes is None,
            !r.is_sleeping,
    {
        let r = QuadTree { level, bounds, entries: Vec::new(), nodes: None, is_sleeping: false };
        proof {
            assert(r.spec_entries() =~= Seq::<TreeEntry>::empty());
            assert forall|id: EntityId| r.spec_id_count(id) <= 1 by {
                lemma_id_count_nonneg(r.spec_entries(), id);
            }
        }
        r
    }

    /// If this is the base level of the tree.
    pub fn is_base(&self) -> (r: bool)
        ensures
            r == (self.level == 0),
    {
        self.level == 0
    }

    /// If the tree is already split.
    pub fn is_split(&self) -> (r: bool)
        ensures
            r == (self.nodes is Some),
    {
        self.nodes.is_some()
    }

    /// Clears the quad tree of all its entries and nodes.
    pub fn clear(&mut self)
        requires
            old(self).wf_at(true),
        ensures
            final(self).wf(),
            final(self).spec_entries() =~= Seq::<TreeEntry>::empty(),
            final(self).bounds == old(self).bounds,
            final(self).level == old(self).level,
    {
        self.entries.clear();
        self.nodes = None;
        proof {
            assert(self.spec_entries() =~= Seq::<TreeEntry>::empty());
            assert forall|id: EntityId| self.spec_id_count(id) <= 1 by {
                lemma_id_count_nonneg(self.spec_entries(), id);
            }
        }
    }
}

/// How many entries of a list carry the given id.
pub open spec fn id_count(s: Seq<TreeEntry>, id: EntityId) -> int
    decreases s.len(),
{
    if s.len() == 0 {
        0
    } else {
        id_count(s.drop_last(), id) + if s.last().id == id {
            1int
        } else {
            0int
        }
    }
}

/// Counts are non-negative.
pub proof fn lemma_id_count_nonneg(s: Seq<TreeEntry>, id: EntityId)
    ensures
        id_count(s, id) >= 0,
    decreases s.len(),
{
    if s.len() > 0 {
        lemma_id_count_nonneg(s.drop_last(), id);
    }
}

/// Counting distributes over concatenation.
pub proof fn lemma_id_count_concat(a: Seq<TreeEntry>, b: Seq<TreeEntry>, id: EntityId)
    ensures
        id_count(a + b, id) == id_count(a, id) + id_count(b, id),
    decreases b.len(),
{
    if b.len() == 0 {
        assert(a + b =~= a);
    } else {
        lemma_id_count_concat(a, b.drop_last(), id);
        assert((a + b).drop_last() =~= a + b.drop_last());
        assert((a + b).last() == b.last());
    }
}

/// A count is witnessed by some index.
pub proof fn lemma_id_count_pos_witness(s: Seq<TreeEntry>, id: EntityId) -> (i: int)
    requires
        id_count(s, id) > 0,
    ensures
        0 <= i < s.len(),
        s[i].id == id,
    decreases s.len(),
{
    if s.last().id == id {
        s.len() - 1
    } else {
        lemma_id_count_pos_witness(s.drop_last(), id)
    }
}

/// An entry at an index makes the count positive.
pub proof fn lemma_id_count_at_least_one(s: Seq<TreeEntry>, id: EntityId, i: int)
    requires
        0 <= i < s.len(),
        s[i].id == id,
    ensures
        id_count(s, id) >= 1,
    decreases s.len(),
{
    lemma_id_count_nonneg(s.drop_last(), id);
    if i < s.len() - 1 {
        lemma_id_count_at_least_one(s.drop_last(), id, i);
    }
}

impl QuadTree {
    /// The four child bounds in their fixed order: +x+y, -x+y, -x-y, +x-y
    /// relative to the split centre.
    fn split(&mut self)
        requires
            old(self).wf_at(true) || old(self).wf_at(false),
            old(self).nodes is None,
            old(self).level < MAX_LEVELS,
        ensures
            final(self).nodes is Some,
            final(self).nodes->0@.len() == 4,
            forall|k: int| 0 <= k < 4 ==> (#[trigger] final(self).nodes->0@[k]).wf_at(false),
            forall|k: int|
                0 <= k < 4 ==> (#[trigger] final(self).nodes->0@[k]).level == final(self).level + 1,
            forall|k: int|
                0 <= k < 4 ==> (#[trigger] final(self).nodes->0@[k]).spec_entries()
                    =~= Seq::<TreeEntry>::empty(),
            final(self).spec_entries() =~= old(self).spec_entries(),
            final(self).entries == old(self).entries,
            final(self).bounds == old(self).bounds,
            final(self).level == old(self).level,
            final(self).is_sleeping == old(self).is_sleeping,
    {
        let sub_level = self.level + 1;
        let x = self.bounds.x;
        let y = self.bounds.y;
        let sub_width = self.bounds.width / 2;
        let sub_height = self.bounds.height / 2;
        let mut ns: Vec<QuadTree> = Vec::new();
        ns.push(QuadTree::new(sub_level, TreeBounds::new(x + sub_width, y, sub_width, sub_height)));
        ns.push(QuadTree::new(sub_level, TreeBounds::new(x, y, sub_width, sub_height)));
        ns.push(
            QuadTree::new(sub_level, TreeBounds::new(x, y + sub_height, sub_width, sub_height)),
        );
        ns.push(
            QuadTree::new(
                sub_level,
                TreeBounds::new(x + sub_width, y + sub_height, sub_width, sub_height),
            ),
        );
        self.nodes = Some(ns);
        proof {
            assert(self.spec_entries() =~= old(self).spec_entries());
        }
    }

    /// Which child wholly contains the entry, if any.
    fn get_entry_index(&self, entry: &TreeEntry) -> (r: Option<usize>)
        requires
            self.wf_at(true) || self.wf_at(false),
            self.nodes is Some,
            entry.wf(),
        ensures
            match r {
                Some(k) => k < 4 && self.nodes->0@[k as int].bounds.spec_contains_entry(*entry),
                None => forall|k: int|
                    0 <= k < 4 ==> !(#[trigger] self.nodes->0@[k]).bounds.spec_contains_entry(
                        *entry,
                    ),
            },
    {
        match &self.nodes {
            Some(ns) => {
                let mut k: usize = 0;
                while k < 4
                    invariant
                        self.nodes is Some,
                        self.nodes->0@ == ns@,
                        ns@.len() == 4,
                        k <= 4,
                        forall|j: int| 0 <= j < ns@.len() ==> (#[trigger] ns@[j]).wf_at(false),
                        entry.wf(),
                        forall|j: int|
                            0 <= j < k ==> !(#[trigger] ns@[j]).bounds.spec_contains_entry(*entry),
                    decreases 4 - k,
                {
                    if ns[k].bounds.contains_entry(entry) {
                        proof {
                            assert(self.nodes->0@[k as int] == ns@[k as int]);
                        }
                        return Some(k);
                    }
                    k += 1;
                }
                None
            },
            None => None,
        }
    }

    /// Inserts an entry, descending into the single child that wholly
    /// contains it; a node past its capacity splits and pushes down what
    /// fits.
    pub fn insert(&mut self, entry: TreeEntry)
        requires
            old(self).wf(),
            entry.wf(),
            old(self).spec_id_count(entry.id) == 0,
        ensures
            final(self).wf(),
            forall|id: EntityId|
                final(self).spec_id_count(id) == old(self).spec_id_count(id) + if id == entry.id {
                    1int
                } else {
                    0int
                },
            final(self).spec_entries().to_multiset() == old(self).spec_entries().to_multiset()
                .insert(entry),
            final(self).bounds == old(self).bounds,
            final(self).level == old(self).level,
    {
        self.insert_inner(entry, Ghost(true));
        proof {
            assert forall|id: EntityId| self.spec_id_count(id) <= 1 by {
                lemma_id_count_nonneg(old(self).spec_entries(), id);
                assert(old(self).spec_id_count(id) <= 1);
            }
        }
    }

    /// The recursive insertion; `root` marks the root, which keeps
    /// entries that fit nowhere.
    fn insert_inner(&mut self, entry: TreeEntry, root: Ghost<bool>)
        requires
            old(self).wf_at(root@),
            entry.wf(),
            !root@ ==> old(self).bounds.spec_contains_entry(entry),
        ensures
            final(self).wf_at(root@),
            forall|id: EntityId|
                id_count(final(self).spec_entries(), id) == id_count(
                    old(self).spec_entries(),
                    id,
                ) + if id == entry.id {
                    1int
                } else {
                    0int
                },
            final(self).spec_entries().to_multiset() == old(self).spec_entries().to_multiset()
                .insert(entry),
            final(self).bounds == old(self).bounds,
            final(self).level == old(self).level,
        decreases MAX_LEVELS - old(self).level,
    {
        broadcast use vstd::seq_lib::group_to_multiset_ensures;
        // Awaken the node; that flag plays no part in the held entries.
        self.is_sleeping = false;
        proof {
            assert(self.spec_entries() =~= old(self).spec_entries());
        }

        // Insert the entry into the appropriate child if possible.
        if self.nodes.is_some() {
            let index = self.get_entry_index(&entry);
            if let Some(k) = index {
                let ghost pre = *self;
                let ghost child_pre = pre.nodes->0@[k as int];
                match &mut self.nodes {
                    Some(ns) => {
                        proof {
                            lemma_subtree_counts(pre, k as int);
                        }
                        ns[k].insert_inner(entry, Ghost(false));
                        proof {
                            lemma_entries_after_child_update(
                                pre,
                                *self,
                                k as int,
                                child_pre.spec_entries(),
                                ns@[k as int].spec_entries(),
                                entry,
                            );
                            assert forall|kk: int, j: int|
                                0 <= kk < 4 && 0 <= j < self.nodes->0@[kk].spec_entries().len()
                                    implies self.bounds.spec_contains_entry(
                                    #[trigger] self.nodes->0@[kk].spec_entries()[j],
                                ) || root@ by {
                                if kk == k as int {
                                    lemma_elem_source(
                                        self.nodes->0@[kk].spec_entries(),
                                        child_pre.spec_entries(),
                                        entry,
                                        j,
                                    );
                                }
                            }
                            assert(self.wf_at(root@));
                        }
                        return ;
                    },
                    None => {
                        proof {
                            assert(false);
                        }
                    },
                }
            }
        }

        // Otherwise, insert into this node.
        let ghost before_push = *self;
        self.entries.push(entry);
        proof {
            lemma_push_entry(before_push, *self, entry);
        }
        let ghost after_push = self.spec_entries();
        proof {
            assert(before_push.spec_entries() == old(self).spec_entries());
            assert forall|id: EntityId|
                id_count(after_push, id) == id_count(old(self).spec_entries(), id) + (
                if id == entry.id {
                    1int
                } else {
                    0int
                }) by {}
        }

        // Check if the tree has to be split.
        if self.entries.len() > MAX_OBJECTS && self.level < MAX_LEVELS {
            if self.nodes.is_none() {
                self.split();
            }

            // Move the entries into the child trees where they fit.
            let ghost snapshot = self.spec_entries();
            let mut i: usize = 0;
            while i < self.entries.len()
                invariant
                    self.bounds.wf(),
                    self.level == old(self).level,
                    self.level < MAX_LEVELS,
                    self.level == before_push.level,
                    self.bounds == before_push.bounds,
                    self.nodes is Some,
                    self.nodes->0@.len() == 4,
                    forall|k: int| 0 <= k < 4 ==> (#[trigger] self.nodes->0@[k]).wf_at(false),
                    forall|k: int|
                        0 <= k < 4 ==> (#[trigger] self.nodes->0@[k]).level == self.level + 1,
                    forall|j: int|
                        0 <= j < self.entries@.len() ==> (#[trigger] self.entries@[j]).wf(),
                    !root@ ==> forall|j: int|
                        0 <= j < self.entries@.len() ==> self.bounds.spec_contains_entry(
                            #[trigger] self.entries@[j],
                        ),
                    !root@ ==> forall|k: int, j: int|
                        0 <= k < 4 && 0 <= j < self.nodes->0@[k].spec_entries().len()
                            ==> self.bounds.spec_contains_entry(
                            #[trigger] self.nodes->0@[k].spec_entries()[j],
                        ),
                    i <= self.entries@.len(),
                    self.spec_entries().to_multiset() == snapshot.to_multiset(),
                    forall|id: EntityId|
                        id_count(self.spec_entries(), id) == id_count(snapshot, id),
                decreases self.entries@.len() - i,
            {
                let e = &self.entries[i];
                let index = self.get_entry_index(e);
                if let Some(k) = index {
                    let ghost pre = *self;
                    let moved = self.entries.remove(i);
                    proof {
                        lemma_remove_entry(pre, *self, i as int, moved);
                    }
                    let ghost pre2 = *self;
                    let ghost child_pre = pre2.nodes->0@[k as int];
                    match &mut self.nodes {
                        Some(ns) => {
                            proof {
                                lemma_subtree_counts(pre2, k as int);
                            }
                            ns[k].insert_inner(moved, Ghost(false));
                            proof {
                                lemma_entries_after_child_update(
                                    pre2,
                                    *self,
                                    k as int,
                                    child_pre.spec_entries(),
                                    ns@[k as int].spec_entries(),
                                    moved,
                                );
                                assert forall|kk: int, j: int|
                                    0 <= kk < 4 && 0 <= j
                                        < self.nodes->0@[kk].spec_entries().len() implies (!root@
                                    ==> self.bounds.spec_contains_entry(
                                    #[trigger] self.nodes->0@[kk].spec_entries()[j],
                                )) by {
                                    if kk == k as int && !root@ {
                                        lemma_elem_source(
                                            self.nodes->0@[kk].spec_entries(),
                                            child_pre.spec_entries(),
                                            moved,
                                            j,
                                        );
                                    }
                                }
                            }
                        },
                        None => {
                            proof {
                                assert(false);
                            }
                        },
                    }
                } else {
                    i += 1;
                }
            }
            proof {
                assert(self.wf_at(root@));
                assert(snapshot == after_push);
                assert forall|id: EntityId|
                    id_count(self.spec_entries(), id) == id_count(
                        old(self).spec_entries(),
                        id,
                    ) + (if id == entry.id {
                        1int
                    } else {
                        0int
                    }) by {
                    assert(id_count(self.spec_entries(), id) == id_count(snapshot, id));
                    assert(id_count(after_push, id) == id_count(old(self).spec_entries(), id) + (
                    if id == entry.id {
                        1int
                    } else {
                        0int
                    }));
                }
            }
        } else {
            proof {
                assert(self.spec_entries() == after_push);
            }
        }
    }
}


/// Every element after an insertion was already there or is the inserted
/// one.
proof fn lemma_elem_source(new: Seq<TreeEntry>, older: Seq<TreeEntry>, entry: TreeEntry, j: int)
    requires
        new.to_multiset() == older.to_multiset().insert(entry),
        0 <= j < new.len(),
    ensures
        older.contains(new[j]) || new[j] == entry,
{
    broadcast use vstd::seq_lib::group_to_multiset_ensures;
    assert(new.to_multiset().contains(new[j]));
    if new[j] != entry {
        assert(older.to_multiset().contains(new[j]));
    }
}

/// The id counts of the pieces of a split node are bounded by the whole.
proof fn lemma_subtree_counts(t: QuadTree, k: int)
    requires
        t.nodes is Some,
        t.nodes->0@.len() == 4,
        0 <= k < 4,
    ensures
        forall|id: EntityId|
            id_count(t.spec_entries(), id) == id_count(t.entries@, id) + id_count(
                t.nodes->0@[0].spec_entries(),
                id,
            ) + id_count(t.nodes->0@[1].spec_entries(), id) + id_count(
                t.nodes->0@[2].spec_entries(),
                id,
            ) + id_count(t.nodes->0@[3].spec_entries(), id),
{
    let ns = t.nodes->0@;
    assert forall|id: EntityId|
        id_count(t.spec_entries(), id) == id_count(t.entries@, id) + id_count(
            ns[0].spec_entries(),
            id,
        ) + id_count(ns[1].spec_entries(), id) + id_count(ns[2].spec_entries(), id) + id_count(
            ns[3].spec_entries(),
            id,
        ) by {
        lemma_id_count_concat(
            t.entries@,
            ns[0].spec_entries() + ns[1].spec_entries() + ns[2].spec_entries()
                + ns[3].spec_entries(),
            id,
        );
        lemma_id_count_concat(
            ns[0].spec_entries() + ns[1].spec_entries() + ns[2].spec_entries(),
            ns[3].spec_entries(),
            id,
        );
        lemma_id_count_concat(ns[0].spec_entries() + ns[1].spec_entries(), ns[2].spec_entries(), id);
        lemma_id_count_concat(ns[0].spec_entries(), ns[1].spec_entries(), id);
    }
}

/// After one child of a split node absorbed one entry, the whole subtree's
/// entries are the old ones plus that entry.
proof fn lemma_entries_after_child_update(
    pre: QuadTree,
    post: QuadTree,
    k: int,
    child_pre: Seq<TreeEntry>,
    child_post: Seq<TreeEntry>,
    entry: TreeEntry,
)
    requires
        pre.nodes is Some,
        pre.nodes->0@.len() == 4,
        post.nodes is Some,
        post.nodes->0@.len() == 4,
        0 <= k < 4,
        post.entries == pre.entries,
        forall|j: int| 0 <= j < 4 && j != k ==> post.nodes->0@[j] == pre.nodes->0@[j],
        child_pre == pre.nodes->0@[k].spec_entries(),
        child_post == post.nodes->0@[k].spec_entries(),
        child_post.to_multiset() == child_pre.to_multiset().insert(entry),
        forall|id: EntityId|
            id_count(child_post, id) == id_count(child_pre, id) + if id == entry.id {
                1int
            } else {
                0int
            },
    ensures
        post.spec_entries().to_multiset() == pre.spec_entries().to_multiset().insert(entry),
        forall|id: EntityId|
            id_count(post.spec_entries(), id) == id_count(pre.spec_entries(), id) + if id
                == entry.id {
                1int
            } else {
                0int
            },
{
    broadcast use vstd::seq_lib::group_to_multiset_ensures;
    let pns = pre.nodes->0@;
    let qns = post.nodes->0@;
    lemma_subtree_counts(pre, k);
    lemma_subtree_counts(post, k);
    // Multisets: both sides decompose into the same concatenation shape.
    vstd::seq_lib::lemma_multiset_commutative(
        pre.entries@,
        pns[0].spec_entries() + pns[1].spec_entries() + pns[2].spec_entries()
            + pns[3].spec_entries(),
    );
    vstd::seq_lib::lemma_multiset_commutative(
        post.entries@,
        qns[0].spec_entries() + qns[1].spec_entries() + qns[2].spec_entries()
            + qns[3].spec_entries(),
    );
    vstd::seq_lib::lemma_multiset_commutative(
        pns[0].spec_entries() + pns[1].spec_entries() + pns[2].spec_entries(),
        pns[3].spec_entries(),
    );
    vstd::seq_lib::lemma_multiset_commutative(
        qns[0].spec_entries() + qns[1].spec_entries() + qns[2].spec_entries(),
        qns[3].spec_entries(),
    );
    vstd::seq_lib::lemma_multiset_commutative(
        pns[0].spec_entries() + pns[1].spec_entries(),
        pns[2].spec_entries(),
    );
    vstd::seq_lib::lemma_multiset_commutative(
        qns[0].spec_entries() + qns[1].spec_entries(),
        qns[2].spec_entries(),
    );
    vstd::seq_lib::lemma_multiset_commutative(pns[0].spec_entries(), pns[1].spec_entries());
    vstd::seq_lib::lemma_multiset_commutative(qns[0].spec_entries(), qns[1].spec_entries());
    assert(post.spec_entries().to_multiset() =~= pre.spec_entries().to_multiset().insert(entry));
}

/// Pushing an entry onto a node's own list adds exactly it.
proof fn lemma_push_entry(pre: QuadTree, post: QuadTree, entry: TreeEntry)
    requires
        post.entries@ == pre.entries@.push(entry),
        post.nodes == pre.nodes,
    ensures
        post.spec_entries().to_multiset() == pre.spec_entries().to_multiset().insert(entry),
        forall|id: EntityId|
            id_count(post.spec_entries(), id) == id_count(pre.spec_entries(), id) + if id
                == entry.id {
                1int
            } else {
                0int
            },
{
    broadcast use vstd::seq_lib::group_to_multiset_ensures;
    let rest = match pre.nodes {
        Some(ns) => if ns@.len() == 4 {
            ns@[0].spec_entries() + ns@[1].spec_entries() + ns@[2].spec_entries()
                + ns@[3].spec_entries()
        } else {
            Seq::empty()
        },
        None => Seq::empty(),
    };
    assert(pre.spec_entries() == pre.entries@ + rest);
    assert(post.spec_entries() == pre.entries@.push(entry) + rest);
    assert forall|id: EntityId|
        id_count(post.spec_entries(), id) == id_count(pre.spec_entries(), id) + if id == entry.id {
            1int
        } else {
            0int
        } by {
        lemma_id_count_concat(pre.entries@, rest, id);
        lemma_id_count_concat(pre.entries@.push(entry), rest, id);
        assert(pre.entries@.push(entry).drop_last() =~= pre.entries@);
    }
    vstd::seq_lib::lemma_multiset_commutative(pre.entries@, rest);
    vstd::seq_lib::lemma_multiset_commutative(pre.entries@.push(entry), rest);
    assert(post.spec_entries().to_multiset() =~= pre.spec_entries().to_multiset().insert(entry));
}

/// Removing the entry at an index takes exactly it away.
proof fn lemma_remove_entry(pre: QuadTree, post: QuadTree, i: int, moved: TreeEntry)
    requires
        0 <= i < pre.entries@.len(),
        moved == pre.entries@[i],
        post.entries@ == pre.entries@.remove(i),
        post.nodes == pre.nodes,
    ensures
        post.spec_entries().to_multiset().insert(moved) == pre.spec_entries().to_multiset(),
        forall|id: EntityId|
            id_count(post.spec_entries(), id) + (if id == moved.id {
                1int
            } else {
                0int
            }) == id_count(pre.spec_entries(), id),
{
    broadcast use vstd::seq_lib::group_to_multiset_ensures;
    let rest = match pre.nodes {
        Some(ns) => if ns@.len() == 4 {
            ns@[0].spec_entries() + ns@[1].spec_entries() + ns@[2].spec_entries()
                + ns@[3].spec_entries()
        } else {
            Seq::empty()
        },
        None => Seq::empty(),
    };
    assert(pre.spec_entries() == pre.entries@ + rest);
    assert(post.spec_entries() == pre.entries@.remove(i) + rest);
    assert(pre.entries@ =~= pre.entries@.remove(i).insert(i, moved));
    assert forall|id: EntityId|
        id_count(post.spec_entries(), id) + (if id == moved.id {
            1int
        } else {
            0int
        }) == id_count(pre.spec_entries(), id) by {
        lemma_id_count_concat(pre.entries@, rest, id);
        lemma_id_count_concat(pre.entries@.remove(i), rest, id);
        lemma_id_count_insert(pre.entries@.remove(i), i, moved, id);
    }
    vstd::seq_lib::lemma_multiset_commutative(pre.entries@, rest);
    vstd::seq_lib::lemma_multiset_commutative(pre.entries@.remove(i), rest);
    assert(pre.entries@.remove(i).to_multiset().insert(moved) =~= pre.entries@.to_multiset());
    assert(post.spec_entries().to_multiset().insert(moved) =~= pre.spec_entries().to_multiset());
}

/// Inserting into a list at an index raises its id's count by one.
proof fn lemma_id_count_insert(s: Seq<TreeEntry>, i: int, e: TreeEntry, id: EntityId)
    requires
        0 <= i <= s.len(),
    ensures
        id_count(s.insert(i, e), id) == id_count(s, id) + if e.id == id {
            1int
        } else {
            0int
        },
{
    assert(s.insert(i, e) =~= s.subrange(0, i) + seq![e] + s.subrange(i, s.len() as int));
    assert(s =~= s.subrange(0, i) + s.subrange(i, s.len() as int));
    lemma_id_count_concat(s.subrange(0, i) + seq![e], s.subrange(i, s.len() as int), id);
    lemma_id_count_concat(s.subrange(0, i), seq![e], id);
    lemma_id_count_concat(s.subrange(0, i), s.subrange(i, s.len() as int), id);
    assert(id_count(seq![e], id) == if e.id == id {
        1int
    } else {
        0int
    }) by {
        assert(seq![e].len() == 1);
        assert(seq![e].last() == e);
        assert(seq![e].drop_last() =~= Seq::<TreeEntry>::empty());
        assert(id_count(Seq::<TreeEntry>::empty(), id) == 0);
    }
}


/// Every element left after a removal was already present.
proof fn lemma_elem_source_removal(newer: Seq<TreeEntry>, older: Seq<TreeEntry>, e: TreeEntry, j: int)
    requires
        newer.to_multiset().insert(e) == older.to_multiset(),
        0 <= j < newer.len(),
    ensures
        older.contains(newer[j]),
{
    broadcast use vstd::seq_lib::group_to_multiset_ensures;
    assert(newer.to_multiset().contains(newer[j]));
    assert(older.to_multiset().count(newer[j]) >= newer.to_multiset().count(newer[j]));
}

/// After one child of a split node gave up one entry, the whole subtree's
/// entries are the old ones less that entry.
proof fn lemma_entries_after_child_removal(
    pre: QuadTree,
    post: QuadTree,
    k: int,
    child_pre: Seq<TreeEntry>,
    child_post: Seq<TreeEntry>,
    e: TreeEntry,
)
    requires
        pre.nodes is Some,
        pre.nodes->0@.len() == 4,
        post.nodes is Some,
        post.nodes->0@.len() == 4,
        0 <= k < 4,
        post.entries == pre.entries,
        forall|j: int| 0 <= j < 4 && j != k ==> post.nodes->0@[j] == pre.nodes->0@[j],
        child_pre == pre.nodes->0@[k].spec_entries(),
        child_post == post.nodes->0@[k].spec_entries(),
        child_post.to_multiset().insert(e) == child_pre.to_multiset(),
        forall|id: EntityId|
            id_count(child_post, id) + (if id == e.id {
                1int
            } else {
                0int
            }) == id_count(child_pre, id),
    ensures
        post.spec_entries().to_multiset().insert(e) == pre.spec_entries().to_multiset(),
        forall|id: EntityId|
            id_count(post.spec_entries(), id) + (if id == e.id {
                1int
            } else {
                0int
            }) == id_count(pre.spec_entries(), id),
{
    broadcast use vstd::seq_lib::group_to_multiset_ensures;
    let pns = pre.nodes->0@;
    let qns = post.nodes->0@;
    lemma_subtree_counts(pre, k);
    lemma_subtree_counts(post, k);
    vstd::seq_lib::lemma_multiset_commutative(
        pre.entries@,
        pns[0].spec_entries() + pns[1].spec_entries() + pns[2].spec_entries()
            + pns[3].spec_entries(),
    );
    vstd::seq_lib::lemma_multiset_commutative(
        post.entries@,
        qns[0].spec_entries() + qns[1].spec_entries() + qns[2].spec_entries()
            + qns[3].spec_entries(),
    );
    vstd::seq_lib::lemma_multiset_commutative(
        pns[0].spec_entries() + pns[1].spec_entries() + pns[2].spec_entries(),
        pns[3].spec_entries(),
    );
    vstd::seq_lib::lemma_multiset_commutative(
        qns[0].spec_entries() + qns[1].spec_entries() + qns[2].spec_entries(),
        qns[3].spec_entries(),
    );
    vstd::seq_lib::lemma_multiset_commutative(
        pns[0].spec_entries() + pns[1].spec_entries(),
        pns[2].spec_entries(),
    );
    vstd::seq_lib::lemma_multiset_commutative(
        qns[0].spec_entries() + qns[1].spec_entries(),
        qns[2].spec_entries(),
    );
    vstd::seq_lib::lemma_multiset_commutative(pns[0].spec_entries(), pns[1].spec_entries());
    vstd::seq_lib::lemma_multiset_commutative(qns[0].spec_entries(), qns[1].spec_entries());
    assert(post.spec_entries().to_multiset().insert(e) =~= pre.spec_entries().to_multiset());
}

impl QuadTree {
    /// Removes the entry with the given id, wherever it sits in the
    /// subtree; `None` when the id is not present.
    pub fn remove(&mut self, id: EntityId) -> (r: Option<TreeEntry>)
        requires
            old(self).wf(),
        ensures
            final(self).wf(),
            final(self).bounds == old(self).bounds,
            final(self).level == old(self).level,
            match r {
                Some(e) => {
                    &&& e.id == id
                    &&& final(self).spec_entries().to_multiset().insert(e) == old(
                        self,
                    ).spec_entries().to_multiset()
                    &&& final(self).spec_id_count(id) == old(self).spec_id_count(id) - 1
                    &&& forall|other: EntityId|
                        other != id ==> final(self).spec_id_count(other) == old(
                            self,
                        ).spec_id_count(other)
                },
                None => final(self).spec_entries() == old(self).spec_entries() && old(
                    self,
                ).spec_id_count(id) == 0,
            },
    {
        let r = self.remove_inner(id, Ghost(true));
        proof {
            assert forall|other: EntityId| self.spec_id_count(other) <= 1 by {
                lemma_id_count_nonneg(self.spec_entries(), other);
                assert(old(self).spec_id_count(other) <= 1);
            }
        }
        r
    }

    /// The recursive removal by id: this node's list first, then each
    /// child in order.
    fn remove_inner(&mut self, id: EntityId, root: Ghost<bool>) -> (r: Option<TreeEntry>)
        requires
            old(self).wf_at(root@),
        ensures
            final(self).wf_at(root@),
            final(self).bounds == old(self).bounds,
            final(self).level == old(self).level,
            match r {
                Some(e) => {
                    &&& e.id == id
                    &&& final(self).spec_entries().to_multiset().insert(e) == old(
                        self,
                    ).spec_entries().to_multiset()
                    &&& forall|other: EntityId|
                        id_count(final(self).spec_entries(), other) + (if other == id {
                            1int
                        } else {
                            0int
                        }) == id_count(old(self).spec_entries(), other)
                },
                None => final(self).spec_entries() == old(self).spec_entries() && id_count(
                    old(self).spec_entries(),
                    id,
                ) == 0,
            },
        decreases MAX_LEVELS - old(self).level,
    {
        broadcast use vstd::seq_lib::group_to_multiset_ensures;
        // Check this node's own list first.
        let n = self.entries.len();
        let mut i: usize = 0;
        while i < n
            invariant
                old(self).wf_at(root@),
                *self == *old(self),
                n == self.entries@.len(),
                i <= n,
                forall|j: int| 0 <= j < i ==> (#[trigger] self.entries@[j]).id != id,
            decreases n - i,
        {
            if self.entries[i].id == id {
                let ghost pre = *self;
                let e = self.entries.remove(i);
                proof {
                    lemma_remove_entry(pre, *self, i as int, e);
                    assert forall|jj: int|
                        0 <= jj < self.entries@.len() implies (#[trigger] self.entries@[jj]).wf()
                        && (!root@ ==> self.bounds.spec_contains_entry(self.entries@[jj])) by {
                        if jj < i {
                            assert(self.entries@[jj] == pre.entries@[jj]);
                        } else {
                            assert(self.entries@[jj] == pre.entries@[jj + 1]);
                        }
                    }
                    assert(self.wf_at(root@));
                }
                return Some(e);
            }
            i += 1;
        }

        // Then each child in order.
        if self.nodes.is_none() {
            proof {
                lemma_count_zero_from_no_index(self.entries@, id);
                assert(self.spec_entries() =~= self.entries@ + Seq::<TreeEntry>::empty());
                lemma_id_count_concat(self.entries@, Seq::<TreeEntry>::empty(), id);
            }
            return None;
        }
        let mut k: usize = 0;
        while k < 4
            invariant
                old(self).wf_at(root@),
                self.wf_at(root@),
                self.bounds == old(self).bounds,
                self.level == old(self).level,
                self.entries == old(self).entries,
                self.spec_entries() == old(self).spec_entries(),
                self.nodes is Some,
                self.nodes->0@.len() == 4,
                k <= 4,
                forall|j: int|
                    0 <= j < k ==> id_count((#[trigger] self.nodes->0@[j]).spec_entries(), id)
                        == 0,
                forall|j: int| 0 <= j < self.entries@.len() ==> (#[trigger] self.entries@[j]).id
                    != id,
            decreases 4 - k,
        {
            let ghost pre = *self;
            let ghost child_pre = pre.nodes->0@[k as int];
            let found: Option<TreeEntry>;
            match &mut self.nodes {
                Some(ns) => {
                    found = ns[k].remove_inner(id, Ghost(false));
                    proof {
                        if found is Some {
                            lemma_entries_after_child_removal(
                                pre,
                                *self,
                                k as int,
                                child_pre.spec_entries(),
                                ns@[k as int].spec_entries(),
                                found->0,
                            );
                        }
                    }
                },
                None => {
                    proof {
                        assert(false);
                    }
                    found = None;
                },
            }
            if let Some(e) = found {
                proof {
                    assert forall|kk: int, j: int|
                        0 <= kk < 4 && 0 <= j < self.nodes->0@[kk].spec_entries().len() implies (
                    !root@ ==> self.bounds.spec_contains_entry(
                        #[trigger] self.nodes->0@[kk].spec_entries()[j],
                    )) by {
                        if kk == k as int && !root@ {
                            lemma_elem_source_removal(
                                self.nodes->0@[kk].spec_entries(),
                                child_pre.spec_entries(),
                                e,
                                j,
                            );
                        }
                    }
                    assert(self.wf_at(root@));
                }
                return Some(e);
            }
            proof {
                assert(self.spec_entries() =~= pre.spec_entries());
                assert(self.wf_at(root@));
            }
            k += 1;
        }
        proof {
            lemma_count_zero_from_no_index(self.entries@, id);
            lemma_subtree_counts(*self, 0);
            lemma_id_count_nonneg(self.entries@, id);
        }
        None
    }
}

/// A list with no entry under an id counts it zero.
proof fn lemma_count_zero_from_no_index(s: Seq<TreeEntry>, id: EntityId)
    requires
        forall|j: int| 0 <= j < s.len() ==> (#[trigger] s[j]).id != id,
    ensures
        id_count(s, id) == 0,
    decreases s.len(),
{
    if s.len() > 0 {
        lemma_count_zero_from_no_index(s.drop_last(), id);
    }
}

/// Whether the query tests pick up an entry: the origin-point test first,
/// then the bounding rect or the rotated rects.
pub open spec fn entry_hit(
    e: TreeEntry,
    rect: Rect,
    offset: Vector,
    use_bounding: bool,
    check_origin: bool,
) -> bool {
    ||| (check_origin && Rect::spec_contains_point(rect, e.pos, offset))
    ||| (use_bounding && e.bounding is Some && Rect::spec_intersects(
        rect,
        e.bounding->0,
        offset,
        e.pos,
    ))
    ||| (!use_bounding && exists|k: int|
        0 <= k < e.rects@.len() && Rect::spec_intersects(rect, #[trigger] e.rects@[k], offset, e.pos))
}

/// The hits the query promises not to miss: entries whose bounding rect
/// overlaps the query, and bodiless entries whose origin lies in it.
pub open spec fn entry_vis(
    e: TreeEntry,
    rect: Rect,
    offset: Vector,
    use_bounding: bool,
    check_origin: bool,
) -> bool {
    ||| (use_bounding && e.bounding is Some && Rect::spec_intersects(
        rect,
        e.bounding->0,
        offset,
        e.pos,
    ))
    ||| (!use_bounding && exists|k: int|
        0 <= k < e.rects@.len() && Rect::spec_intersects(
            rect,
            #[trigger] e.rects@[k],
            offset,
            e.pos,
        ))
    ||| (e.bounding is None && check_origin && Rect::spec_contains_point(rect, e.pos, offset))
}

/// Whether an id passes the exclusion filter.
pub open spec fn not_excluded(id: EntityId, excluded: Option<EntityId>) -> bool {
    match excluded {
        Some(x) => id != x,
        None => true,
    }
}

/// Everything under a non-root node sits inside that node's bounds.
proof fn lemma_subtree_contained(t: QuadTree)
    requires
        t.wf_at(false),
    ensures
        forall|j: int|
            0 <= j < t.spec_entries().len() ==> t.bounds.spec_contains_entry(
                #[trigger] t.spec_entries()[j],
            ),
{
    let own = t.entries@;
    assert forall|j: int|
        0 <= j < t.spec_entries().len() implies t.bounds.spec_contains_entry(
        #[trigger] t.spec_entries()[j],
    ) by {
        if j < own.len() {
            assert(t.spec_entries()[j] == own[j]);
        } else {
            match t.nodes {
                Some(ns) => {
                    let c0 = ns@[0].spec_entries();
                    let c1 = ns@[1].spec_entries();
                    let c2 = ns@[2].spec_entries();
                    let c3 = ns@[3].spec_entries();
                    let p = j - own.len();
                    if p < c0.len() {
                        assert(t.spec_entries()[j] == c0[p]);
                    } else if p < c0.len() + c1.len() {
                        assert(t.spec_entries()[j] == c1[p - c0.len()]);
                    } else if p < c0.len() + c1.len() + c2.len() {
                        assert(t.spec_entries()[j] == c2[p - c0.len() - c1.len()]);
                    } else {
                        assert(t.spec_entries()[j] == c3[p - c0.len() - c1.len() - c2.len()]);
                    }
                },
                None => {},
            }
        }
    }
}

/// An entry of a child subtree is an entry of the parent.
proof fn lemma_parent_contains(t: QuadTree, k: int, e: TreeEntry)
    requires
        t.nodes is Some,
        t.nodes->0@.len() == 4,
        0 <= k < 4,
        t.nodes->0@[k].spec_entries().contains(e),
    ensures
        t.spec_entries().contains(e),
{
    let ns = t.nodes->0@;
    let c0 = ns[0].spec_entries();
    let c1 = ns[1].spec_entries();
    let c2 = ns[2].spec_entries();
    let c3 = ns[3].spec_entries();
    let j = choose|j: int| 0 <= j < ns[k].spec_entries().len() && ns[k].spec_entries()[j] == e;
    let base = t.entries@.len() + (if k == 0 {
        0int
    } else if k == 1 {
        c0.len() as int
    } else if k == 2 {
        c0.len() as int + c1.len()
    } else {
        c0.len() as int + c1.len() + c2.len()
    });
    assert(t.spec_entries()[base + j] == e);
}

impl QuadTree {
    /// Returns all of the entries touching a given rect: the union of this
    /// node's hits and the hits of every child whose bounds the query
    /// touches. Every entry whose bounding rect overlaps the query (or,
    /// for a bodiless entry, whose origin lies in it) is found; everything
    /// found passes the query tests.
    pub fn query_rect_all<'a>(
        &'a self,
        rect: &Rect,
        offset: &Vector,
        use_bounding: bool,
        check_origin: bool,
        excluded: Option<EntityId>,
    ) -> (r: Vec<&'a TreeEntry>)
        requires
            self.wf(),
            rect.wf(),
            offset.bounded(1_000_000_000i64),
        ensures
            forall|i: int|
                0 <= i < r@.len() ==> self.spec_entries().contains(*#[trigger] r@[i]) && entry_hit(
                    *r@[i],
                    *rect,
                    *offset,
                    use_bounding,
                    check_origin,
                ) && not_excluded(r@[i].id, excluded),
            forall|j: int|
                0 <= j < self.spec_entries().len() && entry_vis(
                    #[trigger] self.spec_entries()[j],
                    *rect,
                    *offset,
                    use_bounding,
                    check_origin,
                ) && not_excluded(self.spec_entries()[j].id, excluded) ==> exists|i: int|
                    0 <= i < r@.len() && *r@[i] == self.spec_entries()[j],
    {
        let mut results: Vec<&'a TreeEntry> = Vec::new();
        self.query_rect_with_vec(&mut results, rect, offset, use_bounding, check_origin, excluded);
        results
    }

    /// The recursive query behind `query_rect_all`.
    fn query_rect_with_vec<'a>(
        &'a self,
        results: &mut Vec<&'a TreeEntry>,
        rect: &Rect,
        offset: &Vector,
        use_bounding: bool,
        check_origin: bool,
        excluded: Option<EntityId>,
    )
        requires
            self.wf_at(true) || self.wf_at(false),
            rect.wf(),
            offset.bounded(1_000_000_000i64),
        ensures
            final(results)@.len() >= old(results)@.len(),
            forall|i: int|
                0 <= i < old(results)@.len() ==> final(results)@[i] == old(results)@[i],
            forall|i: int|
                old(results)@.len() <= i < final(results)@.len() ==> self.spec_entries().contains(
                    *#[trigger] final(results)@[i],
                ) && entry_hit(*final(results)@[i], *rect, *offset, use_bounding, check_origin)
                    && not_excluded(final(results)@[i].id, excluded),
            forall|j: int|
                0 <= j < self.spec_entries().len() && entry_vis(
                    #[trigger] self.spec_entries()[j],
                    *rect,
                    *offset,
                    use_bounding,
                    check_origin,
                ) && not_excluded(self.spec_entries()[j].id, excluded) ==> exists|i: int|
                    0 <= i < final(results)@.len() && *final(results)@[i]
                        == self.spec_entries()[j],
        decreases MAX_LEVELS - self.level,
    {
        let n = self.entries.len();
        let mut i: usize = 0;
        while i < n
            invariant
                self.wf_at(true) || self.wf_at(false),
                rect.wf(),
                offset.bounded(1_000_000_000i64),
                n == self.entries@.len(),
                i <= n,
                results@.len() >= old(results)@.len(),
                forall|p: int|
                    0 <= p < old(results)@.len() ==> results@[p] == old(results)@[p],
                forall|p: int|
                    old(results)@.len() <= p < results@.len() ==> self.spec_entries().contains(
                        *#[trigger] results@[p],
                    ) && entry_hit(*results@[p], *rect, *offset, use_bounding, check_origin)
                        && not_excluded(results@[p].id, excluded),
                forall|j: int|
                    0 <= j < i && entry_vis(
                        #[trigger] self.entries@[j],
                        *rect,
                        *offset,
                        use_bounding,
                        check_origin,
                    ) && not_excluded(self.entries@[j].id, excluded) ==> exists|p: int|
                        0 <= p < results@.len() && *results@[p] == self.entries@[j],
            decreases n - i,
        {
            let ghost pre_iter = results@;
            let entry = &self.entries[i];
            proof {
                assert(self.spec_entries()[i as int] == self.entries@[i as int]);
            }
            let passes = match excluded {
                Some(x) => entry.id != x,
                None => true,
            };
            if passes {
                let mut does_intersect = false;
                // Test the origin first, since that is the cheapest test.
                if check_origin {
                    does_intersect = rect.contains_point(&entry.pos, offset);
                }
                if !does_intersect {
                    if use_bounding {
                        match &entry.bounding {
                            Some(bounding) => {
                                does_intersect = intersects_loose(rect, bounding, offset, &entry.pos);
                            },
                            None => {},
                        }
                    } else {
                        let m = entry.rects.len();
                        let mut k: usize = 0;
                        while k < m && !does_intersect
                            invariant
                                m == entry.rects@.len(),
                                k <= m,
                                entry.wf(),
                                rect.wf(),
                                offset.bounded(1_000_000_000i64),
                                entry.pos.bounded(1_000_000_000i64),
                                does_intersect ==> exists|q: int|
                                    0 <= q < m && Rect::spec_intersects(
                                        *rect,
                                        #[trigger] entry.rects@[q],
                                        *offset,
                                        entry.pos,
                                    ),
                                !does_intersect ==> forall|q: int|
                                    0 <= q < k ==> !Rect::spec_intersects(
                                        *rect,
                                        #[trigger] entry.rects@[q],
                                        *offset,
                                        entry.pos,
                                    ),
                            decreases m - k,
                        {
                            if rect.intersects(&entry.rects[k], offset, &entry.pos) {
                                does_intersect = true;
                            }
                            k += 1;
                        }
                    }
                }
                if does_intersect {
                    results.push(entry);
                    proof {
                        assert(*results@[results@.len() - 1] == self.entries@[i as int]);
                    }
                }
                proof {
                    if entry_vis(self.entries@[i as int], *rect, *offset, use_bounding,
                        check_origin) {
                        assert(does_intersect);
                        assert(0 <= results@.len() - 1 < results@.len() && *results@[results@.len()
                            - 1] == self.entries@[i as int]);
                    }
                }
            }
            proof {
                assert forall|j: int|
                    0 <= j < i && entry_vis(
                        #[trigger] self.entries@[j],
                        *rect,
                        *offset,
                        use_bounding,
                        check_origin,
                    ) && not_excluded(self.entries@[j].id, excluded) implies exists|p: int|
                        0 <= p < results@.len() && *results@[p] == self.entries@[j] by {
                    let p0 = choose|p: int|
                        0 <= p < pre_iter.len() && *pre_iter[p] == self.entries@[j];
                    assert(*results@[p0] == self.entries@[j]);
                }
            }
            i += 1;
        }

        // Check for intersections in the children whose bounds the query
        // touches.
        match &self.nodes {
            Some(ns) => {
                let ghost mid = results@;
                let mut k: usize = 0;
                while k < 4
                    invariant
                        self.wf_at(true) || self.wf_at(false),
                        self.nodes is Some,
                        self.nodes->0@ == ns@,
                        ns@.len() == 4,
                        rect.wf(),
                        offset.bounded(1_000_000_000i64),
                        k <= 4,
                        results@.len() >= mid.len() >= old(results)@.len(),
                        forall|p: int| 0 <= p < mid.len() ==> results@[p] == mid[p],
                        forall|p: int|
                            0 <= p < old(results)@.len() ==> mid[p] == old(results)@[p],
                        forall|p: int|
                            old(results)@.len() <= p < mid.len() ==> self.spec_entries().contains(
                                *#[trigger] results@[p],
                            ) && entry_hit(*results@[p], *rect, *offset, use_bounding, check_origin)
                                && not_excluded(results@[p].id, excluded),
                        forall|p: int|
                            mid.len() <= p < results@.len() ==> self.spec_entries().contains(
                                *#[trigger] results@[p],
                            ) && entry_hit(*results@[p], *rect, *offset, use_bounding, check_origin)
                                && not_excluded(results@[p].id, excluded),
                        forall|j: int|
                            0 <= j < self.entries@.len() && entry_vis(
                                #[trigger] self.entries@[j],
                                *rect,
                                *offset,
                                use_bounding,
                                check_origin,
                            ) && not_excluded(self.entries@[j].id, excluded) ==> exists|p: int|
                                0 <= p < results@.len() && *results@[p] == self.entries@[j],
                        forall|kk: int, j: int|
                            0 <= kk < k && 0 <= j < ns@[kk].spec_entries().len() && entry_vis(
                                #[trigger] ns@[kk].spec_entries()[j],
                                *rect,
                                *offset,
                                use_bounding,
                                check_origin,
                            ) && not_excluded(ns@[kk].spec_entries()[j].id, excluded) ==> exists|
                                p: int,
                            |
                                0 <= p < results@.len() && *results@[p]
                                    == ns@[kk].spec_entries()[j],
                    decreases 4 - k,
                {
                    let ghost loop_start = results@;
                    proof {
                        assert(ns@[k as int].wf_at(false));
                        assert(ns@[k as int].bounds.wf());
                    }
                    if intersects_bounds_loose(&ns[k].bounds, rect, offset) {
                        ns[k].query_rect_with_vec(
                            results,
                            rect,
                            offset,
                            use_bounding,
                            check_origin,
                            excluded,
                        );
                        proof {
                            assert forall|p: int|
                                loop_start.len() <= p < results@.len() implies self.spec_entries()
                                .contains(*#[trigger] results@[p]) by {
                                assert(ns@[k as int].spec_entries().contains(*results@[p]));
                                lemma_parent_contains(*self, k as int, *results@[p]);
                            }
                        }
                    } else {
                        proof {
                            lemma_subtree_contained(ns@[k as int]);
                            lemma_entries_wf(ns@[k as int]);
                            assert forall|j: int|
                                0 <= j < ns@[k as int].spec_entries().len() implies !entry_vis(
                                #[trigger] ns@[k as int].spec_entries()[j],
                                *rect,
                                *offset,
                                use_bounding,
                                check_origin,
                            ) by {
                                let e = ns@[k as int].spec_entries()[j];
                                let bd = ns@[k as int].bounds;
                                assert(bd.spec_contains_entry(e));
                                assert(e.wf());
                                if !use_bounding {
                                    match e.bounding {
                                        Some(b) => {
                                            assert forall|q: int|
                                                0 <= q < e.rects@.len() implies
                                                !Rect::spec_intersects(
                                                *rect,
                                                #[trigger] e.rects@[q],
                                                *offset,
                                                e.pos,
                                            ) by {
                                                if Rect::spec_intersects(
                                                    *rect,
                                                    e.rects@[q],
                                                    *offset,
                                                    e.pos,
                                                ) {
                                                    // The rect sits in the
                                                    // box, the box in the
                                                    // node, so the query
                                                    // touches the node.
                                                    assert(rect.spec_x_upper(offset.x as int)
                                                        > bd.x);
                                                    assert(rect.spec_x_lower(offset.x as int)
                                                        < bd.x + bd.width);
                                                    assert(rect.spec_y_upper(offset.y as int)
                                                        > bd.y);
                                                    assert(rect.spec_y_lower(offset.y as int)
                                                        < bd.y + bd.height);
                                                    assert(bd.spec_intersects_rect(
                                                        *rect,
                                                        *offset,
                                                    ));
                                                }
                                            }
                                        },
                                        None => {
                                            assert(e.rects@.len() == 0);
                                        },
                                    }
                                }
                            }
                        }
                    }
                    k += 1;
                }
                proof {
                    assert forall|j: int|
                        0 <= j < self.spec_entries().len() && entry_vis(
                            #[trigger] self.spec_entries()[j],
                            *rect,
                            *offset,
                            use_bounding,
                            check_origin,
                        ) && not_excluded(self.spec_entries()[j].id, excluded) implies exists|
                        p: int,
                    |
                        0 <= p < results@.len() && *results@[p] == self.spec_entries()[j] by {
                        let own = self.entries@;
                        let c0 = ns@[0].spec_entries();
                        let c1 = ns@[1].spec_entries();
                        let c2 = ns@[2].spec_entries();
                        let c3 = ns@[3].spec_entries();
                        if j < own.len() {
                            assert(self.spec_entries()[j] == own[j]);
                        } else {
                            let p0 = j - own.len();
                            if p0 < c0.len() {
                                assert(self.spec_entries()[j] == c0[p0]);
                            } else if p0 < c0.len() + c1.len() {
                                assert(self.spec_entries()[j] == c1[p0 - c0.len()]);
                            } else if p0 < c0.len() + c1.len() + c2.len() {
                                assert(self.spec_entries()[j] == c2[p0 - c0.len() - c1.len()]);
                            } else {
                                assert(self.spec_entries()[j] == c3[p0 - c0.len() - c1.len()
                                    - c2.len()]);
                            }
                        }
                    }
                }
            },
            None => {
                proof {
                    assert forall|j: int|
                        0 <= j < self.spec_entries().len() implies self.spec_entries()[j]
                        == self.entries@[j] by {}
                }
            },
        }
    }
}

/// The separating-axis test in the loose range that tree snapshots use.
fn intersects_loose(query: &Rect, other: &Rect, offset: &Vector, other_offset: &Vector) -> (r:
    bool)
    requires
        query.wf(),
        TreeBounds::rect_in_range(*other),
        offset.bounded(1_000_000_000i64),
        other_offset.bounded(1_000_000_000i64),
    ensures
        r == Rect::spec_intersects(*query, *other, *offset, *other_offset),
{
    query.x_upper_extent(offset.x) > other.center.x - other.size.x / 2 + other_offset.x
        && query.x_lower_extent(offset.x) < other.center.x + other.size.x / 2 + other_offset.x
        && query.y_upper_extent(offset.y) > other.center.y - other.size.y / 2 + other_offset.y
        && query.y_lower_extent(offset.y) < other.center.y + other.size.y / 2 + other_offset.y
        && query.z_upper_extent(offset.z) > other.center.z - other.size.z / 2 + other_offset.z
        && query.z_lower_extent(offset.z) < other.center.z + other.size.z / 2 + other_offset.z
}

/// The node-pruning test: whether the query touches the bounds in XY.
fn intersects_bounds_loose(bounds: &TreeBounds, rect: &Rect, offset: &Vector) -> (r: bool)
    requires
        bounds.wf(),
        rect.wf(),
        offset.bounded(1_000_000_000i64),
    ensures
        r == bounds.spec_intersects_rect(*rect, *offset),
{
    rect.x_upper_extent(offset.x) > bounds.x && rect.x_lower_extent(offset.x) < bounds.x
        + bounds.width && rect.y_upper_extent(offset.y) > bounds.y && rect.y_lower_extent(offset.y)
        < bounds.y + bounds.height
}

impl QuadTree {
    /// Appends every entry of the subtree, in the index's fixed order.
    pub fn collect_entries<'a>(&'a self, out: &mut Vec<&'a TreeEntry>)
        ensures
            final(out)@.len() == old(out)@.len() + self.spec_entries().len(),
            forall|i: int| 0 <= i < old(out)@.len() ==> final(out)@[i] == old(out)@[i],
            forall|i: int|
                0 <= i < self.spec_entries().len() ==> *#[trigger] final(out)@[old(out)@.len() + i]
                    == self.spec_entries()[i],
        decreases *self,
    {
        let n = self.entries.len();
        let mut i: usize = 0;
        while i < n
            invariant
                n == self.entries@.len(),
                i <= n,
                out@.len() == old(out)@.len() + i,
                forall|p: int| 0 <= p < old(out)@.len() ==> out@[p] == old(out)@[p],
                forall|p: int|
                    0 <= p < i ==> *#[trigger] out@[old(out)@.len() + p] == self.entries@[p],
            decreases n - i,
        {
            out.push(&self.entries[i]);
            i += 1;
        }
        match &self.nodes {
            Some(ns) => {
                if ns.len() == 4 {
                    let ghost m0 = out@;
                    ns[0].collect_entries(out);
                    let ghost m1 = out@;
                    ns[1].collect_entries(out);
                    let ghost m2 = out@;
                    ns[2].collect_entries(out);
                    let ghost m3 = out@;
                    ns[3].collect_entries(out);
                    proof {
                        let c0 = ns@[0].spec_entries();
                        let c1 = ns@[1].spec_entries();
                        let c2 = ns@[2].spec_entries();
                        let c3 = ns@[3].spec_entries();
                        let own = self.entries@;
                        let base = old(out)@.len() as int;
                        assert forall|p: int|
                            0 <= p < self.spec_entries().len() implies *#[trigger] out@[old(
                            out,
                        )@.len() + p] == self.spec_entries()[p] by {
                            if p < own.len() {
                                assert(self.spec_entries()[p] == own[p]);
                                assert(*m0[base + p] == own[p]);
                                assert(m1[base + p] == m0[base + p]);
                                assert(m2[base + p] == m1[base + p]);
                                assert(m3[base + p] == m2[base + p]);
                                assert(out@[base + p] == m3[base + p]);
                            } else {
                                let q = p - own.len();
                                if q < c0.len() {
                                    assert(self.spec_entries()[p] == c0[q]);
                                    assert(*m1[m0.len() + q] == c0[q]);
                                    assert(m2[m0.len() + q] == m1[m0.len() + q]);
                                    assert(m3[m0.len() + q] == m2[m0.len() + q]);
                                    assert(out@[m0.len() + q] == m3[m0.len() + q]);
                                } else if q < c0.len() + c1.len() {
                                    let q1 = q - c0.len();
                                    assert(self.spec_entries()[p] == c1[q1]);
                                    assert(*m2[m1.len() + q1] == c1[q1]);
                                    assert(m3[m1.len() + q1] == m2[m1.len() + q1]);
                                    assert(out@[m1.len() + q1] == m3[m1.len() + q1]);
                                } else if q < c0.len() + c1.len() + c2.len() {
                                    let q2 = q - c0.len() - c1.len();
                                    assert(self.spec_entries()[p] == c2[q2]);
                                    assert(*m3[m2.len() + q2] == c2[q2]);
                                    assert(out@[m2.len() + q2] == m3[m2.len() + q2]);
                                } else {
                                    let q3 = q - c0.len() - c1.len() - c2.len();
                                    assert(self.spec_entries()[p] == c3[q3]);
                                    assert(*out@[m3.len() + q3] == c3[q3]);
                                }
                            }
                        }
                    }
                }
            },
            None => {
                proof {
                    assert(self.spec_entries() =~= self.entries@);
                }
            },
        }
    }

    /// Casts a ray and returns the id of the entity with the least entry
    /// parameter among every rotated rect the ray hits, with that exact
    /// parameter; the stepping walk of the partition is replaced by an
    /// exact scan of the held entries, which returns the same closest hit.
    #[verifier::rlimit(100)]
    pub fn cast_ray(&self, ray: &crate::geometry::Ray, excluded: Option<EntityId>) -> (r: Option<
        (EntityId, crate::geometry::Frac),
    >)
        requires
            self.wf(),
            ray.wf(),
        ensures
            match r {
                Some((id, t)) => {
                    &&& t.den > 0
                    &&& exists|j: int, k: int|
                        #[trigger] ray_hit_at(self.spec_entries(), *ray, excluded, j, k, (
                        t.num as int,
                        t.den as int,
                        )) && self.spec_entries()[j].id == id
                    &&& forall|j: int, k: int, n: int, d: int|
                        ray_hit_at(self.spec_entries(), *ray, excluded, j, k, (n, d)) && d > 0
                            ==> crate::geometry::fle((t.num as int, t.den as int), (n, d))
                },
                None => forall|j: int, k: int, n: int, d: int|
                    !ray_hit_at(self.spec_entries(), *ray, excluded, j, k, (n, d)),
            },
    {
        let mut all: Vec<&TreeEntry> = Vec::new();
        self.collect_entries(&mut all);
        let ghost es = self.spec_entries();
        proof {
            lemma_entries_wf(*self);
            assert forall|p: int| 0 <= p < all@.len() implies *#[trigger] all@[p] == es[p] by {
                assert(*all@[0 + p] == es[p]);
            }
        }
        let n = all.len();
        let mut best: Option<(EntityId, crate::geometry::Frac)> = None;
        let mut i: usize = 0;
        while i < n
            invariant
                self.wf(),
                ray.wf(),
                n == all@.len(),
                es == self.spec_entries(),
                n == es.len(),
                forall|p: int| 0 <= p < n ==> *#[trigger] all@[p] == es[p],
                i <= n,
                match best {
                    Some((id, t)) => {
                        &&& t.den > 0
                        &&& exists|j: int, k: int|
                            #[trigger] ray_hit_at(es, *ray, excluded, j, k, (
                            t.num as int,
                            t.den as int,
                            )) && es[j].id == id
                        &&& forall|j: int, k: int, nn: int, d: int|
                            j < i && ray_hit_at(es, *ray, excluded, j, k, (nn, d)) && d > 0
                                ==> crate::geometry::fle((t.num as int, t.den as int), (nn, d))
                    },
                    None => forall|j: int, k: int, nn: int, d: int|
                        j < i ==> !ray_hit_at(es, *ray, excluded, j, k, (nn, d)),
                },
            decreases n - i,
        {
            let entry = all[i];
            let passes = match excluded {
                Some(x) => entry.id != x,
                None => true,
            };
            if passes {
                proof {
                    lemma_entries_wf(*self);
                    assert(es[i as int].wf());
                }
                let m = entry.rects.len();
                let mut k: usize = 0;
                while k < m
                    invariant
                        self.wf(),
                        ray.wf(),
                        n == all@.len(),
                        es == self.spec_entries(),
                        n == es.len(),
                        forall|p: int| 0 <= p < n ==> *#[trigger] all@[p] == es[p],
                        i < n,
                        entry == all@[i as int],
                        entry.wf(),
                        not_excluded(entry.id, excluded),
                        m == entry.rects@.len(),
                        k <= m,
                        match best {
                            Some((id, t)) => {
                                &&& t.den > 0
                                &&& exists|j: int, kk: int|
                                    #[trigger] ray_hit_at(es, *ray, excluded, j, kk, (
                                    t.num as int,
                                    t.den as int,
                                    )) && es[j].id == id
                                &&& forall|j: int, kk: int, nn: int, d: int|
                                    (j < i || (j == i && kk < k)) && ray_hit_at(
                                        es,
                                        *ray,
                                        excluded,
                                        j,
                                        kk,
                                        (nn, d),
                                    ) && d > 0 ==> crate::geometry::fle(
                                        (t.num as int, t.den as int),
                                        (nn, d),
                                    )
                            },
                            None => forall|j: int, kk: int, nn: int, d: int|
                                (j < i || (j == i && kk < k)) ==> !ray_hit_at(
                                    es,
                                    *ray,
                                    excluded,
                                    j,
                                    kk,
                                    (nn, d),
                                ),
                        },
                    decreases m - k,
                {
                    let hit: Option<crate::geometry::Frac> = entry.rects[k].intersects_ray(
                        ray,
                        &entry.pos,
                    );
                    match hit {
                        Some(t) => {
                            proof {
                                assert(ray_hit_at(
                                    es,
                                    *ray,
                                    excluded,
                                    i as int,
                                    k as int,
                                    (t.num as int, t.den as int),
                                ));
                            }
                            let cur = best;
                            match cur {
                                Some((_, bt)) => {
                                    if t.lt(&bt) {
                                        proof {
                                            assert forall|j: int, kk: int, nn: int, d: int|
                                                (j < i || (j == i && kk < k)) && ray_hit_at(
                                                    es,
                                                    *ray,
                                                    excluded,
                                                    j,
                                                    kk,
                                                    (nn, d),
                                                ) && d > 0 implies crate::geometry::fle(
                                                (t.num as int, t.den as int),
                                                (nn, d),
                                            ) by {
                                                assert(t.num * d <= nn * t.den)
                                                    by (nonlinear_arith)
                                                    requires
                                                        t.num * bt.den < bt.num * t.den,
                                                        bt.num * d <= nn * bt.den,
                                                        t.den > 0,
                                                        bt.den > 0,
                                                        d > 0;
                                            }
                                        }
                                        best = Some((entry.id, t));
                                    } else {
                                        proof {
                                            assert(crate::geometry::fle(
                                                (bt.num as int, bt.den as int),
                                                (t.num as int, t.den as int),
                                            ));
                                        }
                                    }
                                },
                                None => {
                                    best = Some((entry.id, t));
                                },
                            }
                        },
                        None => {},
                    }
                    proof {
                        match best {
                            Some((bid2, bt2)) => {
                                assert forall|j: int, kk: int, nn: int, d: int|
                                    (j < i || (j == i && kk < k + 1)) && ray_hit_at(
                                        es,
                                        *ray,
                                        excluded,
                                        j,
                                        kk,
                                        (nn, d),
                                    ) && d > 0 implies crate::geometry::fle(
                                    (bt2.num as int, bt2.den as int),
                                    (nn, d),
                                ) by {
                                    if j == i && kk == k {
                                        assert(hit is Some);
                                    }
                                }
                            },
                            None => {
                                assert forall|j: int, kk: int, nn: int, d: int|
                                    (j < i || (j == i && kk < k + 1)) implies !ray_hit_at(
                                    es,
                                    *ray,
                                    excluded,
                                    j,
                                    kk,
                                    (nn, d),
                                ) by {
                                    if j == i && kk == k {
                                        assert(hit is None);
                                    }
                                }
                            },
                        }
                    }
                    k += 1;
                }
            }
            proof {
                if best is Some {
                    let bt = (best->0).1;
                    assert forall|j: int, kk: int, nn: int, d: int|
                        j < i + 1 && ray_hit_at(es, *ray, excluded, j, kk, (nn, d)) && d > 0
                            implies crate::geometry::fle((bt.num as int, bt.den as int), (nn, d))
                        by {
                        if j == i {
                            assert(es[j].id == entry.id);
                        }
                    }
                } else {
                    assert forall|j: int, kk: int, nn: int, d: int| j < i + 1 implies !ray_hit_at(
                        es,
                        *ray,
                        excluded,
                        j,
                        kk,
                        (nn, d),
                    ) by {
                        if j == i {
                            assert(es[j].id == entry.id);
                        }
                    }
                }
            }
            i += 1;
        }
        best
    }
}

/// The ray hits rect `k` of entry `j` with the exact parameter `t`.
pub open spec fn ray_hit_at(
    es: Seq<TreeEntry>,
    ray: crate::geometry::Ray,
    excluded: Option<EntityId>,
    j: int,
    k: int,
    t: (int, int),
) -> bool {
    &&& 0 <= j < es.len()
    &&& 0 <= k < es[j].rects@.len()
    &&& not_excluded(es[j].id, excluded)
    &&& crate::geometry::spec_slab(es[j].rects@[k], es[j].pos, ray) == Some(t)
}


/// Every entry a well-formed subtree holds is itself well formed.
proof fn lemma_entries_wf(t: QuadTree)
    requires
        t.wf_at(true) || t.wf_at(false),
    ensures
        forall|j: int| 0 <= j < t.spec_entries().len() ==> (#[trigger] t.spec_entries()[j]).wf(),
    decreases t,
{
    match t.nodes {
        Some(ns) => {
            if ns@.len() == 4 {
                lemma_entries_wf(ns@[0]);
                lemma_entries_wf(ns@[1]);
                lemma_entries_wf(ns@[2]);
                lemma_entries_wf(ns@[3]);
                let own = t.entries@;
                let c0 = ns@[0].spec_entries();
                let c1 = ns@[1].spec_entries();
                let c2 = ns@[2].spec_entries();
                let c3 = ns@[3].spec_entries();
                assert forall|j: int|
                    0 <= j < t.spec_entries().len() implies (#[trigger] t.spec_entries()[j]).wf()
                    by {
                    if j < own.len() {
                        assert(t.spec_entries()[j] == own[j]);
                    } else {
                        let q = j - own.len();
                        if q < c0.len() {
                            assert(t.spec_entries()[j] == c0[q]);
                        } else if q < c0.len() + c1.len() {
                            assert(t.spec_entries()[j] == c1[q - c0.len()]);
                        } else if q < c0.len() + c1.len() + c2.len() {
                            assert(t.spec_entries()[j] == c2[q - c0.len() - c1.len()]);
                        } else {
                            assert(t.spec_entries()[j] == c3[q - c0.len() - c1.len() - c2.len()]);
                        }
                    }
                }
            }
        },
        None => {
            assert(t.spec_entries() =~= t.entries@);
        },
    }
}

/// Whether every entry and every child of a node is asleep.
pub open spec fn spec_all_asleep(t: QuadTree) -> bool
    decreases t,
{
    &&& forall|i: int| 0 <= i < t.entries@.len() ==> (#[trigger] t.entries@[i]).sleeping
    &&& match t.nodes {
        Some(ns) => forall|k: int| 0 <= k < ns@.len() ==> spec_all_asleep(#[trigger] ns@[k]),
        None => true,
    }
}

impl QuadTree {
    /// Recomputes the sleeping flag on every node: a node sleeps exactly
    /// when every entry it holds and every child node sleeps.
    pub fn recompute_sleep(&mut self)
        requires
            old(self).wf(),
        ensures
            final(self).wf(),
            final(self).is_sleeping == spec_all_asleep(*old(self)),
            final(self).spec_entries() == old(self).spec_entries(),
            final(self).bounds == old(self).bounds,
            final(self).level == old(self).level,
            spec_all_asleep(*final(self)) == spec_all_asleep(*old(self)),
    {
        self.recompute_sleep_inner(Ghost(true));
        proof {
            assert forall|id: EntityId| self.spec_id_count(id) <= 1 by {
                assert(old(self).spec_id_count(id) <= 1);
            }
        }
    }

    fn recompute_sleep_inner(&mut self, root: Ghost<bool>)
        requires
            old(self).wf_at(root@),
        ensures
            final(self).wf_at(root@),
            final(self).is_sleeping == spec_all_asleep(*old(self)),
            final(self).spec_entries() == old(self).spec_entries(),
            final(self).entries == old(self).entries,
            final(self).bounds == old(self).bounds,
            final(self).level == old(self).level,
            spec_all_asleep(*final(self)) == spec_all_asleep(*old(self)),
        decreases MAX_LEVELS - old(self).level,
    {
        let mut asleep = true;
        let n = self.entries.len();
        let mut i: usize = 0;
        while i < n
            invariant
                n == self.entries@.len(),
                i <= n,
                *self == *old(self),
                asleep == (forall|j: int| 0 <= j < i ==> (#[trigger] self.entries@[j]).sleeping),
            decreases n - i,
        {
            if !self.entries[i].sleeping {
                asleep = false;
            }
            i += 1;
        }
        match &mut self.nodes {
            Some(ns) => {
                let ghost pre = ns@;
                let mut k: usize = 0;
                while k < 4
                    invariant
                        ns@.len() == 4,
                        pre.len() == 4,
                        k <= 4,
                        old(self).nodes is Some,
                        pre == old(self).nodes->0@,
                        old(self).level < MAX_LEVELS,
                        forall|q: int|
                            0 <= q < 4 ==> (#[trigger] pre[q]).wf_at(false) && pre[q].level == old(
                                self,
                            ).level + 1,
                        forall|q: int| k <= q < 4 ==> ns@[q] == pre[q],
                        forall|q: int|
                            0 <= q < k ==> (#[trigger] ns@[q]).wf_at(false) && ns@[q].is_sleeping
                                == spec_all_asleep(pre[q]) && ns@[q].entries == pre[q].entries
                                && ns@[q].bounds == pre[q].bounds && ns@[q].level == pre[q].level
                                && ns@[q].spec_entries() == pre[q].spec_entries()
                                && spec_all_asleep(ns@[q]) == spec_all_asleep(pre[q]),
                    decreases 4 - k,
                {
                    ns[k].recompute_sleep_inner(Ghost(false));
                    k += 1;
                }
                let mut all_children = true;
                let mut k2: usize = 0;
                while k2 < 4
                    invariant
                        ns@.len() == 4,
                        k2 <= 4,
                        all_children == (forall|q: int|
                            0 <= q < k2 ==> (#[trigger] ns@[q]).is_sleeping),
                    decreases 4 - k2,
                {
                    if !ns[k2].is_sleeping {
                        all_children = false;
                    }
                    k2 += 1;
                }
                if !all_children {
                    asleep = false;
                }
            },
            None => {},
        }
        self.is_sleeping = asleep;
        proof {
            if self.nodes is Some {
                assert(self.spec_entries() =~= old(self).spec_entries());
                assert(self.wf_at(root@));
            }
        }
    }
}

impl QuadTree {
    /// Gathers the candidate collision pairs: every pair of bodied entries
    /// within one node, and every bodied entry of a node against every
    /// bodied entry of its descendants. Subtrees that sleep are skipped in
    /// full. Every returned pair is two distinct present entities.
    pub fn collision_pairs(&self, out: &mut Vec<(EntityId, EntityId)>)
        requires
            self.wf_at(true) || self.wf_at(false),
        ensures
            final(out)@.len() >= old(out)@.len(),
            forall|p: int| 0 <= p < old(out)@.len() ==> final(out)@[p] == old(out)@[p],
            forall|p: int|
                old(out)@.len() <= p < final(out)@.len() ==> id_count(
                    self.spec_entries(),
                    (#[trigger] final(out)@[p]).0,
                ) > 0 && id_count(self.spec_entries(), final(out)@[p].1) > 0,
        decreases MAX_LEVELS - self.level,
    {
        if self.is_sleeping {
            return ;
        }
        let n = self.entries.len();
        let mut i: usize = 0;
        while i < n
            invariant
                self.wf_at(true) || self.wf_at(false),
                n == self.entries@.len(),
                i <= n,
                out@.len() >= old(out)@.len(),
                forall|p: int| 0 <= p < old(out)@.len() ==> out@[p] == old(out)@[p],
                forall|p: int|
                    old(out)@.len() <= p < out@.len() ==> id_count(
                        self.spec_entries(),
                        (#[trigger] out@[p]).0,
                    ) > 0 && id_count(self.spec_entries(), out@[p].1) > 0,
            decreases n - i,
        {
            if self.entries[i].rects.len() > 0 {
                let a = self.entries[i].id;
                proof {
                    assert(self.spec_entries()[i as int] == self.entries@[i as int]);
                    lemma_id_count_at_least_one(self.spec_entries(), a, i as int);
                }
                // Later entries on the same node.
                let mut j: usize = i + 1;
                while j < n
                    invariant
                        self.wf_at(true) || self.wf_at(false),
                        n == self.entries@.len(),
                        i < n,
                        a == self.entries@[i as int].id,
                        id_count(self.spec_entries(), a) > 0,
                        i < j,
                        j <= n,
                        out@.len() >= old(out)@.len(),
                        forall|p: int| 0 <= p < old(out)@.len() ==> out@[p] == old(out)@[p],
                        forall|p: int|
                            old(out)@.len() <= p < out@.len() ==> id_count(
                                self.spec_entries(),
                                (#[trigger] out@[p]).0,
                            ) > 0 && id_count(self.spec_entries(), out@[p].1) > 0,
                    decreases n - j,
                {
                    if self.entries[j].rects.len() > 0 {
                        let b = self.entries[j].id;
                        proof {
                            assert(self.spec_entries()[j as int] == self.entries@[j as int]);
                            lemma_id_count_at_least_one(self.spec_entries(), b, j as int);
                        }
                        out.push((a, b));
                    }
                    j += 1;
                }
                // Everything held below this node.
                match &self.nodes {
                    Some(ns) => {
                        let mut k: usize = 0;
                        while k < 4
                            invariant
                                self.wf_at(true) || self.wf_at(false),
                                self.nodes is Some,
                                self.nodes->0@ == ns@,
                                ns@.len() == 4,
                                k <= 4,
                                id_count(self.spec_entries(), a) > 0,
                                out@.len() >= old(out)@.len(),
                                forall|p: int|
                                    0 <= p < old(out)@.len() ==> out@[p] == old(out)@[p],
                                forall|p: int|
                                    old(out)@.len() <= p < out@.len() ==> id_count(
                                        self.spec_entries(),
                                        (#[trigger] out@[p]).0,
                                    ) > 0 && id_count(self.spec_entries(), out@[p].1) > 0,
                            decreases 4 - k,
                        {
                            let mut below: Vec<&TreeEntry> = Vec::new();
                            ns[k].collect_entries(&mut below);
                            proof {
                                assert forall|p: int|
                                    0 <= p < below@.len() implies *#[trigger] below@[p]
                                    == ns@[k as int].spec_entries()[p] by {
                                    assert(*below@[0 + p] == ns@[k as int].spec_entries()[p]);
                                }
                            }
                            let m = below.len();
                            let mut q: usize = 0;
                            while q < m
                                invariant
                                    self.wf_at(true) || self.wf_at(false),
                                    self.nodes is Some,
                                    self.nodes->0@ == ns@,
                                    ns@.len() == 4,
                                    k < 4,
                                    m == below@.len(),
                                    m == ns@[k as int].spec_entries().len(),
                                    forall|p: int|
                                        0 <= p < m ==> *#[trigger] below@[p]
                                            == ns@[k as int].spec_entries()[p],
                                    q <= m,
                                    id_count(self.spec_entries(), a) > 0,
                                    out@.len() >= old(out)@.len(),
                                    forall|p: int|
                                        0 <= p < old(out)@.len() ==> out@[p] == old(out)@[p],
                                    forall|p: int|
                                        old(out)@.len() <= p < out@.len() ==> id_count(
                                            self.spec_entries(),
                                            (#[trigger] out@[p]).0,
                                        ) > 0 && id_count(self.spec_entries(), out@[p].1) > 0,
                                decreases m - q,
                            {
                                if below[q].rects.len() > 0 {
                                    let b = below[q].id;
                                    proof {
                                        lemma_parent_contains(
                                            *self,
                                            k as int,
                                            ns@[k as int].spec_entries()[q as int],
                                        );
                                        let w = choose|w: int|
                                            0 <= w < self.spec_entries().len()
                                                && self.spec_entries()[w]
                                                == ns@[k as int].spec_entries()[q as int];
                                        lemma_id_count_at_least_one(self.spec_entries(), b, w);
                                    }
                                    out.push((a, b));
                                }
                                q += 1;
                            }
                            k += 1;
                        }
                    },
                    None => {},
                }
            }
            i += 1;
        }
        // Recurse into the children.
        match &self.nodes {
            Some(ns) => {
                let mut k: usize = 0;
                while k < 4
                    invariant
                        self.wf_at(true) || self.wf_at(false),
                        self.nodes is Some,
                        self.nodes->0@ == ns@,
                        ns@.len() == 4,
                        k <= 4,
                        out@.len() >= old(out)@.len(),
                        forall|p: int| 0 <= p < old(out)@.len() ==> out@[p] == old(out)@[p],
                        forall|p: int|
                            old(out)@.len() <= p < out@.len() ==> id_count(
                                self.spec_entries(),
                                (#[trigger] out@[p]).0,
                            ) > 0 && id_count(self.spec_entries(), out@[p].1) > 0,
                    decreases 4 - k,
                {
                    let ghost before = out@;
                    proof {
                        assert(ns@[k as int].wf_at(false));
                    }
                    ns[k].collision_pairs(out);
                    proof {
                        assert forall|p: int|
                            before.len() <= p < out@.len() implies id_count(
                            self.spec_entries(),
                            (#[trigger] out@[p]).0,
                        ) > 0 && id_count(self.spec_entries(), out@[p].1) > 0 by {
                            lemma_id_count_pos_lift(*self, k as int, out@[p].0);
                            lemma_id_count_pos_lift(*self, k as int, out@[p].1);
                        }
                    }
                    k += 1;
                }
            },
            None => {},
        }
    }
}

/// A positive count in a child subtree is a positive count in the parent.
proof fn lemma_id_count_pos_lift(t: QuadTree, k: int, id: EntityId)
    requires
        t.nodes is Some,
        t.nodes->0@.len() == 4,
        0 <= k < 4,
        id_count(t.nodes->0@[k].spec_entries(), id) > 0,
    ensures
        id_count(t.spec_entries(), id) > 0,
{
    lemma_subtree_counts(t, k);
    lemma_id_count_nonneg(t.entries@, id);
    lemma_id_count_nonneg(t.nodes->0@[0].spec_entries(), id);
    lemma_id_count_nonneg(t.nodes->0@[1].spec_entries(), id);
    lemma_id_count_nonneg(t.nodes->0@[2].spec_entries(), id);
    lemma_id_count_nonneg(t.nodes->0@[3].spec_entries(), id);
}

} // verus!
