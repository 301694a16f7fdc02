//! Dirty-tracking value wrappers: a value plus "changed since the last
//! commit", used to keep network updates incremental. Three variants:
//! exact-equality, manual-flag, and tolerance-diff.
use vstd::prelude::*;

verus! {

/// What every dirty-tracking variant offers: read, replace, test for a
/// change, and commit. `spec_value` and `spec_changed` are each variant's
/// own meaning of the held value and of "changed".
pub trait IncrementalValueLike<T>: Sized {
    spec fn spec_value(&self) -> T;

    spec fn spec_changed(&self) -> bool;

    /// What the change test needs of the held values; `true` for most
    /// variants, bounds for fixed-point distance tests.
    spec fn wf(&self) -> bool;

    /// If the value has changed since the last time it was committed.
    fn is_changed(&self) -> (r: bool)
        requires
            self.wf(),
        ensures
            r == self.spec_changed(),
    ;

    /// Called after the value was committed; the held value is kept.
    fn committed(&mut self)
        requires
            old(self).wf(),
        ensures
            final(self).spec_value() == old(self).spec_value(),
    ;

    /// Returns the current value.
    fn get(&self) -> (r: &T)
        ensures
            *r == self.spec_value(),
    ;

    /// Returns mutable access to the current value.
    fn get_mut(&mut self) -> (r: &mut T)
        ensures
            *r == old(self).spec_value(),
            final(self).spec_value() == *final(r),
    ;

    /// Sets a new value.
    fn set(&mut self, value: T)
        ensures
            final(self).spec_value() == value,
    ;
}

/// A value that the exact-equality variant can hold: it can be compared and
/// copied, both faithful to its mathematical content (`deep_view`).
pub trait IncrementalValueInner: DeepView + Sized {
    /// Equality of the mathematical content.
    fn eq_value(&self, other: &Self) -> (r: bool)
        ensures
            r == (self.deep_view() == other.deep_view()),
    ;

    /// A copy with the same mathematical content.
    fn duplicate(&self) -> (r: Self)
        ensures
            r.deep_view() == self.deep_view(),
    ;
}

impl IncrementalValueInner for bool {
    fn eq_value(&self, other: &Self) -> (r: bool)
        ensures
            r == (self.deep_view() == other.deep_view()),
    {
        *self == *other
    }

    fn duplicate(&self) -> (r: Self)
        ensures
            r.deep_view() == self.deep_view(),
    {
        *self
    }
}

impl IncrementalValueInner for u8 {
    fn eq_value(&self, other: &Self) -> (r: bool)
        ensures
            r == (self.deep_view() == other.deep_view()),
    {
        *self == *other
    }

    fn duplicate(&self) -> (r: Self)
        ensures
            r.deep_view() == self.deep_view(),
    {
        *self
    }
}

impl IncrementalValueInner for u64 {
    fn eq_value(&self, other: &Self) -> (r: bool)
        ensures
            r == (self.deep_view() == other.deep_view()),
    {
        *self == *other
    }

    fn duplicate(&self) -> (r: Self)
        ensures
            r.deep_view() == self.deep_view(),
    {
        *self
    }
}

impl IncrementalValueInner for i32 {
    fn eq_value(&self, other: &Self) -> (r: bool)
        ensures
            r == (self.deep_view() == other.deep_view()),
    {
        *self == *other
    }

    fn duplicate(&self) -> (r: Self)
        ensures
            r.deep_view() == self.deep_view(),
    {
        *self
    }
}

impl IncrementalValueInner for i64 {
    fn eq_value(&self, other: &Self) -> (r: bool)
        ensures
            r == (self.deep_view() == other.deep_view()),
    {
        *self == *other
    }

    fn duplicate(&self) -> (r: Self)
        ensures
            r.deep_view() == self.deep_view(),
    {
        *self
    }
}

impl IncrementalValueInner for String {
    fn eq_value(&self, other: &Self) -> (r: bool)
        ensures
            r == (self.deep_view() == other.deep_view()),
    {
        *self == *other
    }

    fn duplicate(&self) -> (r: Self)
        ensures
            r.deep_view() == self.deep_view(),
    {
        self.clone()
    }
}

impl<T: IncrementalValueInner> IncrementalValueInner for Vec<T> {
    fn eq_value(&self, other: &Self) -> (r: bool)
        ensures
            r == (self.deep_view() == other.deep_view()),
    {
        if self.len() != other.len() {
            assert(self.deep_view().len() != other.deep_view().len());
            return false;
        }
        let n = self.len();
        let mut i: usize = 0;
        while i < n
            invariant
                n == self.len() == other.len(),
                i <= n,
                forall|j: int| 0 <= j < i ==> self.deep_view()[j] == other.deep_view()[j],
            decreases n - i,
        {
            if !self[i].eq_value(&other[i]) {
                assert(self.deep_view()[i as int] != other.deep_view()[i as int]);
                return false;
            }
            i += 1;
        }
        proof {
            assert(self.deep_view() =~= other.deep_view());
        }
        true
    }

    fn duplicate(&self) -> (r: Self)
        ensures
            r.deep_view() == self.deep_view(),
    {
        let mut r: Vec<T> = Vec::new();
        let n = self.len();
        let mut i: usize = 0;
        while i < n
            invariant
                n == self.len(),
                i <= n,
                r.len() == i,
                forall|j: int| 0 <= j < i ==> r.deep_view()[j] == self.deep_view()[j],
            decreases n - i,
        {
            r.push(self[i].duplicate());
            i += 1;
        }
        proof {
            assert(r.deep_view() =~= self.deep_view());
        }
        r
    }
}

impl<T: IncrementalValueInner> IncrementalValueInner for Option<T> {
    fn eq_value(&self, other: &Self) -> (r: bool)
        ensures
            r == (self.deep_view() == other.deep_view()),
    {
        match (self, other) {
            (Some(a), Some(b)) => a.eq_value(b),
            (None, None) => true,
            _ => false,
        }
    }

    fn duplicate(&self) -> (r: Self)
        ensures
            r.deep_view() == self.deep_view(),
    {
        match self {
            Some(a) => Some(a.duplicate()),
            None => None,
        }
    }
}

/// Exact-equality variant: remembers the value at the last commit and
/// reports a change whenever the current value differs from it.
pub struct IncrementalValue<T> {
    /// The value stored at the last `committed` call.
    pub previous_value: T,

    /// The value that is being held by the structure.
    pub value: T,
}

impl<T: IncrementalValueInner> IncrementalValue<T> {
    /// Whether the held value differs from the committed snapshot.
    pub open spec fn changed(&self) -> bool {
        self.value.deep_view() != self.previous_value.deep_view()
    }

    pub fn new(value: T) -> (iv: IncrementalValue<T>)
        ensures
            iv.value == value,
            iv.previous_value.deep_view() == value.deep_view(),
            !iv.changed(),
    {
        IncrementalValue { previous_value: value.duplicate(), value }
    }

    pub fn is_changed(&self) -> (r: bool)
        ensures
            r == self.changed(),
    {
        !self.value.eq_value(&self.previous_value)
    }

    pub fn committed(&mut self)
        ensures
            final(self).value == old(self).value,
            final(self).previous_value.deep_view() == old(self).value.deep_view(),
            !final(self).changed(),
    {
        if self.is_changed() {
            self.previous_value = self.value.duplicate();
        }
    }

    pub fn get(&self) -> (r: &T)
        ensures
            *r == self.value,
    {
        &self.value
    }

    pub fn get_test(&self) -> (r: &T)
        ensures
            *r == self.value,
    {
        &self.value
    }

    pub fn get_mut(&mut self) -> (r: &mut T)
        ensures
            *r == old(self).value,
            final(self).value == *final(r),
            final(self).previous_value == old(self).previous_value,
    {
        &mut self.value
    }

    pub fn set(&mut self, new_value: T)
        ensures
            final(self).value == new_value,
            final(self).previous_value == old(self).previous_value,
    {
        self.value = new_value;
    }

    pub fn clone_value(&self) -> (r: T)
        ensures
            r.deep_view() == self.value.deep_view(),
    {
        self.value.duplicate()
    }
}

/// Replacing the held value by one with the same content reports exactly the
/// changes that were already pending: a set to the same value never makes
/// `changed` true.
pub proof fn lemma_set_same_value_keeps_changed<T: IncrementalValueInner>(
    iv: IncrementalValue<T>,
    v: T,
)
    requires
        v.deep_view() == iv.value.deep_view(),
    ensures
        (IncrementalValue { value: v, previous_value: iv.previous_value }).changed()
            == iv.changed(),
{
}

impl<T: IncrementalValueInner> IncrementalValueLike<T> for IncrementalValue<T> {
    open spec fn spec_value(&self) -> T {
        self.value
    }

    open spec fn spec_changed(&self) -> bool {
        self.changed()
    }

    open spec fn wf(&self) -> bool {
        true
    }

    fn is_changed(&self) -> bool {
        self.is_changed()
    }

    fn committed(&mut self) {
        self.committed()
    }

    fn get(&self) -> &T {
        self.get()
    }

    fn get_mut(&mut self) -> &mut T {
        self.get_mut()
    }

    fn set(&mut self, value: T) {
        self.set(value)
    }
}

/// Manual-flag variant: a boolean set by every mutation accessor and cleared
/// by `committed`.
pub struct IncrementalValueManual<T> {
    /// The value that is being held by the structure.
    pub value: T,

    /// Set by any mutable access or replacement; cleared by `committed`.
    pub is_changed: bool,
}

impl<T> IncrementalValueManual<T> {
    pub fn new(value: T) -> (iv: IncrementalValueManual<T>)
        ensures
            iv.value == value,
            !iv.is_changed,
    {
        IncrementalValueManual { value, is_changed: false }
    }

    pub fn is_changed(&self) -> (r: bool)
        ensures
            r == self.is_changed,
    {
        self.is_changed
    }

    /// Forces the changed flag to a certain value; usually the structure
    /// maintains the flag by itself and this never needs to be called.
    pub fn force_changed(&mut self, is_changed: bool)
        ensures
            final(self).value == old(self).value,
            final(self).is_changed == is_changed,
    {
        self.is_changed = is_changed;
    }

    /// Called after the value was sent to the client: clears the flag.
    pub fn committed(&mut self)
        ensures
            final(self).value == old(self).value,
            !final(self).is_changed,
    {
        self.is_changed = false;
    }

    pub fn get(&self) -> (r: &T)
        ensures
            *r == self.value,
    {
        &self.value
    }

    /// Returns the value and flags it as changed.
    pub fn get_mut(&mut self) -> (r: &mut T)
        ensures
            *r == old(self).value,
            final(self).value == *final(r),
            final(self).is_changed,
    {
        self.is_changed = true;
        &mut self.value
    }

    /// Sets a new value and flags it as changed.
    pub fn set(&mut self, new_value: T)
        ensures
            final(self).value == new_value,
            final(self).is_changed,
    {
        self.is_changed = true;
        self.value = new_value;
    }
}

impl<T: IncrementalValueInner> IncrementalValueManual<T> {
    pub fn clone_value(&self) -> (r: T)
        ensures
            r.deep_view() == self.value.deep_view(),
    {
        self.value.duplicate()
    }
}

impl<T> IncrementalValueLike<T> for IncrementalValueManual<T> {
    open spec fn spec_value(&self) -> T {
        self.value
    }

    open spec fn spec_changed(&self) -> bool {
        self.is_changed
    }

    open spec fn wf(&self) -> bool {
        true
    }

    fn is_changed(&self) -> bool {
        self.is_changed()
    }

    fn committed(&mut self) {
        self.committed()
    }

    fn get(&self) -> &T {
        self.get()
    }

    fn get_mut(&mut self) -> &mut T {
        self.get_mut()
    }

    fn set(&mut self, value: T) {
        self.set(value)
    }
}

/// A value the tolerance variant can hold: a copyable value with a
/// domain-specific distance test against a threshold.
pub trait IncrementalValueDiffInner<U>: Copy + Sized {
    /// Whether the two values differ by at least the threshold. The test
    /// uses `>=`, not `>`: a step of exactly the threshold counts.
    spec fn diff_at_least(&self, other: &Self, max_diff: &U) -> bool;

    /// What the distance test needs of the two values; `true` where the
    /// test is total, bounds for fixed-point distances.
    spec fn diff_wf(&self, other: &Self, max_diff: &U) -> bool;

    /// Returns whether there is enough difference between the two values
    /// that the value should be considered changed.
    fn is_changed(&self, other: &Self, max_diff: &U) -> (r: bool)
        requires
            self.diff_wf(other, max_diff),
        ensures
            r == self.diff_at_least(other, max_diff),
    ;
}

impl IncrementalValueDiffInner<i64> for i64 {
    open spec fn diff_at_least(&self, other: &Self, max_diff: &i64) -> bool {
        if *self > *other {
            *self - *other >= *max_diff
        } else {
            *other - *self >= *max_diff
        }
    }

    open spec fn diff_wf(&self, other: &Self, max_diff: &i64) -> bool {
        true
    }

    fn is_changed(&self, other: &Self, max_diff: &i64) -> (r: bool)
        ensures
            r == self.diff_at_least(other, max_diff),
    {
        let a = *self as i128;
        let b = *other as i128;
        let diff: i128 = if a > b {
            a - b
        } else {
            b - a
        };
        diff >= *max_diff as i128
    }
}

impl IncrementalValueDiffInner<u64> for u64 {
    open spec fn diff_at_least(&self, other: &Self, max_diff: &u64) -> bool {
        if *self > *other {
            *self - *other >= *max_diff
        } else {
            *other - *self >= *max_diff
        }
    }

    open spec fn diff_wf(&self, other: &Self, max_diff: &u64) -> bool {
        true
    }

    fn is_changed(&self, other: &Self, max_diff: &u64) -> (r: bool)
        ensures
            r == self.diff_at_least(other, max_diff),
    {
        let diff = if *self > *other {
            *self - *other
        } else {
            *other - *self
        };
        diff >= *max_diff
    }
}

impl<U, T: IncrementalValueDiffInner<U>> IncrementalValueDiffInner<U> for Option<T> {
    open spec fn diff_at_least(&self, other: &Self, max_diff: &U) -> bool {
        match (self, other) {
            (Some(a), Some(b)) => a.diff_at_least(b, max_diff),
            (None, None) => false,
            // Some-to-None or None-to-Some counts as changed regardless.
            _ => true,
        }
    }

    open spec fn diff_wf(&self, other: &Self, max_diff: &U) -> bool {
        match (self, other) {
            (Some(a), Some(b)) => a.diff_wf(b, max_diff),
            _ => true,
        }
    }

    fn is_changed(&self, other: &Self, max_diff: &U) -> (r: bool)
        ensures
            r == self.diff_at_least(other, max_diff),
    {
        match (self, other) {
            (Some(a), Some(b)) => a.is_changed(b, max_diff),
            (None, None) => false,
            _ => true,
        }
    }
}

/// Tolerance variant: remembers the value at the last commit and reports a
/// change only once the distance to it reaches the threshold `diff`.
///
/// The change test is never cached: with a cached test, the value could
/// creep an arbitrary distance in steps below the threshold without ever
/// reporting a change.
pub struct IncrementalValueDiff<T, U> {
    /// The value stored at the last `committed` call.
    pub previous_value: T,

    /// The value that is being held by the structure.
    pub value: T,

    /// How much the value has to change before it counts as changed.
    pub diff: U,
}

impl<U, T: IncrementalValueDiffInner<U>> IncrementalValueDiff<T, U> {
    /// Whether the held value is at least the threshold away from the
    /// committed snapshot.
    pub open spec fn changed(&self) -> bool {
        self.value.diff_at_least(&self.previous_value, &self.diff)
    }

    /// What the distance test needs of the held values.
    pub open spec fn wf(&self) -> bool {
        self.value.diff_wf(&self.previous_value, &self.diff)
    }

    pub fn new(value: T, diff: U) -> (iv: IncrementalValueDiff<T, U>)
        ensures
            iv.value == value,
            iv.previous_value == value,
            iv.diff == diff,
    {
        IncrementalValueDiff { previous_value: value, value, diff }
    }

    pub fn is_changed(&self) -> (r: bool)
        requires
            self.wf(),
        ensures
            r == self.changed(),
    {
        self.value.is_changed(&self.previous_value, &self.diff)
    }

    pub fn committed(&mut self)
        requires
            old(self).wf(),
        ensures
            final(self).value == old(self).value,
            final(self).diff == old(self).diff,
            final(self).previous_value == if old(self).changed() {
                old(self).value
            } else {
                old(self).previous_value
            },
    {
        if self.is_changed() {
            self.previous_value = self.value;
        }
    }

    pub fn get(&self) -> (r: &T)
        ensures
            *r == self.value,
    {
        &self.value
    }

    pub fn get_mut(&mut self) -> (r: &mut T)
        ensures
            *r == old(self).value,
            final(self).value == *final(r),
            final(self).previous_value == old(self).previous_value,
            final(self).diff == old(self).diff,
    {
        &mut self.value
    }

    pub fn set(&mut self, new_value: T)
        ensures
            final(self).value == new_value,
            final(self).previous_value == old(self).previous_value,
            final(self).diff == old(self).diff,
    {
        self.value = new_value;
    }

    pub fn clone_value(&self) -> (r: T)
        ensures
            r == self.value,
    {
        self.value
    }
}

/// After a commit, the tolerance variant reports a change exactly when the
/// value held at commit time is at least the threshold away from itself;
/// for any threshold above zero on integers that is never, so `committed`
/// makes `changed` observably false until a later step reaches the
/// threshold again.
pub proof fn lemma_commit_clears_changed_int(iv: IncrementalValueDiff<i64, i64>)
    requires
        iv.diff > 0,
        iv.changed(),
    ensures
        !(IncrementalValueDiff { previous_value: iv.value, ..iv }).changed(),
{
}

impl<U, T: IncrementalValueDiffInner<U>> IncrementalValueLike<T> for IncrementalValueDiff<T, U> {
    open spec fn spec_value(&self) -> T {
        self.value
    }

    open spec fn spec_changed(&self) -> bool {
        self.changed()
    }

    open spec fn wf(&self) -> bool {
        self.value.diff_wf(&self.previous_value, &self.diff)
    }

    fn is_changed(&self) -> bool {
        self.is_changed()
    }

    fn committed(&mut self) {
        self.committed()
    }

    fn get(&self) -> &T {
        self.get()
    }

    fn get_mut(&mut self) -> &mut T {
        self.get_mut()
    }

    fn set(&mut self, value: T) {
        self.set(value)
    }
}

} // verus!
