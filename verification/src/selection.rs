//! Cyclic selection tracking over a sequence whose length and content may
//! change between navigation requests.

use vstd::prelude::*;
use vstd::math::abs;
use vstd::std_specs::cmp::PartialEqSpec;

verus! {

/// Mathematical wrap of `x` into `[0, y)`: the ghost `%` is Euclidean, so
/// the result is never negative for a positive `y`.
pub open spec fn wrap(x: int, y: int) -> int
    recommends
        y > 0,
{
    x % y
}

/// Calculate `x` modulo `y`, with a result that is never negative.
pub fn modulo(x: isize, y: isize) -> (r: isize)
    requires
        y > 0,
    ensures
        r == wrap(x as int, y as int),
        0 <= r < y,
{
    x.checked_rem_euclid(y).unwrap()
}

/// The two stages a selection anchor passes through.
#[derive(Debug)]
pub enum Selection<T> {
    /// When a selection is started from the outside we only have an opaque
    /// key as the potential start state; its index in the sequence is not
    /// yet known.
    Start(T),
    /// Once the selection has been resolved against a sequence we work
    /// with the index of the element where the selection started.
    Normalized(usize),
}

/// True if some element of `items` is equal (per `eq_spec`) to `key`.
pub open spec fn has_key<T: PartialEq>(items: Seq<T>, key: T) -> bool {
    exists|i: int| 0 <= i < items.len() && items[i].eq_spec(&key)
}

/// The index of the first element of `items` equal (per `eq_spec`) to
/// `key`; meaningful only when `has_key(items, key)` holds.
pub open spec fn first_key_index<T: PartialEq>(items: Seq<T>, key: T) -> int
    decreases items.len(),
{
    if items.len() == 0 {
        0
    } else if items[0].eq_spec(&key) {
        0
    } else {
        1 + first_key_index(items.drop_first(), key)
    }
}

/// Characterization of `first_key_index`: when a match exists, the
/// function returns the position of the first one.
pub proof fn lemma_first_key_index<T: PartialEq>(items: Seq<T>, key: T)
    requires
        has_key(items, key),
    ensures
        0 <= first_key_index(items, key) < items.len(),
        items[first_key_index(items, key)].eq_spec(&key),
        forall|j: int|
            0 <= j < first_key_index(items, key) ==> !items[j].eq_spec(&key),
    decreases items.len(),
{
    if items.len() > 0 && !items[0].eq_spec(&key) {
        let rest = items.drop_first();
        assert(has_key(rest, key)) by {
            let i = choose|i: int| 0 <= i < items.len() && items[i].eq_spec(&key);
            assert(i >= 1);
            assert(rest[i - 1] == items[i]);
        }
        lemma_first_key_index(rest, key);
        let fm = first_key_index(items, key);
        assert(fm == 1 + first_key_index(rest, key));
        assert(items[fm] == rest[fm - 1]);
        assert forall|j: int| 0 <= j < fm implies !items[j].eq_spec(&key) by {
            if j >= 1 {
                assert(items[j] == rest[j - 1]);
            }
        }
    }
}

/// The index a `Selection` stands for within `items`.
pub open spec fn anchor_index<T: PartialEq>(sel: Selection<T>, items: Seq<T>) -> int {
    match sel {
        Selection::Start(key) => first_key_index(items, key),
        Selection::Normalized(idx) => idx as int,
    }
}

/// True if `sel` can be resolved to an index within `items`.
pub open spec fn anchor_resolvable<T: PartialEq>(sel: Selection<T>, items: Seq<T>) -> bool {
    match sel {
        Selection::Start(key) => has_key(items, key),
        Selection::Normalized(_) => true,
    }
}

impl<T: Copy + PartialEq> Selection<T> {
    /// Resolve the anchor to its index within `items`.
    fn index(&self, items: &Vec<T>) -> (idx: usize)
        requires
            T::obeys_eq_spec(),
            anchor_resolvable(*self, items@),
        ensures
            idx == anchor_index(*self, items@),
    {
        match *self {
            Selection::Start(key) => {
                let n = items.len();
                proof {
                    assert(items@.len() == n);
                    lemma_first_key_index(items@, key);
                }
                let ghost target = first_key_index(items@, key);
                let mut i: usize = 0;
                loop
                    invariant
                        T::obeys_eq_spec(),
                        0 <= i <= target < items@.len(),
                        items@.len() <= usize::MAX,
                        target == first_key_index(items@, key),
                        target == anchor_index(*self, items@),
                        items@[target].eq_spec(&key),
                        forall|j: int| 0 <= j < target ==> !items@[j].eq_spec(&key),
                    decreases items@.len() - i,
                {
                    let hit = items[i] == key;
                    proof {
                        assert(hit == items@[i as int].eq_spec(&key));
                    }
                    if hit {
                        proof {
                            assert(i == target);
                        }
                        return i;
                    }
                    proof {
                        assert(i < target);
                    }
                    i = i + 1;
                }
            },
            Selection::Normalized(idx) => idx,
        }
    }
}

/// A struct representing the state necessary to implement cyclic selection
/// advancement over a mutating sequence.
#[derive(Debug)]
pub struct SelectionState<T> {
    selection: Selection<T>,
    reversed: bool,
    advanced: isize,
    total: isize,
}

/// True iff a traversal with cumulative delta `total` has visited all of
/// `count` elements at least once; a single unit of overlap is tolerated,
/// so the threshold is strict.
pub open spec fn spec_has_cycled(total: int, count: int) -> bool {
    abs(total) > count
}

impl<T: Copy + PartialEq> SelectionState<T> {
    /// The anchor the selection currently works from.
    pub closed spec fn anchor(self) -> Selection<T> {
        self.selection
    }

    /// Whether the selection advances backwards.
    pub closed spec fn spec_reversed(self) -> bool {
        self.reversed
    }

    /// The delta accumulated since the last normalization.
    pub closed spec fn spec_advanced(self) -> int {
        self.advanced as int
    }

    /// The cumulative delta used solely for cycle detection.
    pub closed spec fn spec_total(self) -> int {
        self.total as int
    }

    /// Create a new `SelectionState` anchored at the given key.
    pub fn new(current: T) -> (r: Self)
        ensures
            r.anchor() == Selection::Start(current),
            !r.spec_reversed(),
            r.spec_advanced() == 0,
            r.spec_total() == 0,
    {
        Self { selection: Selection::Start(current), reversed: false, advanced: 0, total: 0 }
    }

    /// Create a new `SelectionState` already resolved to the given index.
    pub fn new_at(index: usize) -> (r: Self)
        ensures
            r.anchor() == Selection::<T>::Normalized(index),
            !r.spec_reversed(),
            r.spec_advanced() == 0,
            r.spec_total() == 0,
    {
        Self { selection: Selection::Normalized(index), reversed: false, advanced: 0, total: 0 }
    }

    /// Set whether the selection moves backwards from now on.
    pub fn reverse(&mut self, reverse: bool)
        ensures
            final(self).spec_reversed() == reverse,
            final(self).anchor() == old(self).anchor(),
            final(self).spec_advanced() == old(self).spec_advanced(),
            final(self).spec_total() == old(self).spec_total(),
    {
        self.reversed = reverse
    }

    /// True while the selection moves backwards.
    pub fn is_reversed(&self) -> (r: bool)
        ensures
            r == self.spec_reversed(),
    {
        self.reversed
    }

    /// Advance the selection by one, against the current direction's sign.
    pub fn advance(&mut self)
        requires
            isize::MIN < old(self).spec_advanced() < isize::MAX,
            isize::MIN < old(self).spec_total() < isize::MAX,
        ensures
            final(self).spec_advanced() == old(self).spec_advanced() + (
                if old(self).spec_reversed() { -1int } else { 1int }
            ),
            final(self).spec_total() == old(self).spec_total() + (
                if old(self).spec_reversed() { -1int } else { 1int }
            ),
            final(self).anchor() == old(self).anchor(),
            final(self).spec_reversed() == old(self).spec_reversed(),
    {
        let change: isize = if self.reversed { -1 } else { 1 };
        self.advanced = self.advanced + change;
        self.total = self.total + change;
    }

    /// Check if the selection got advanced since the last normalization.
    pub fn has_advanced(&self) -> (r: bool)
        ensures
            r == (self.spec_advanced() != 0),
    {
        self.advanced != 0
    }

    /// Zero the cumulative delta that cycle detection watches.
    pub fn reset_cycled(&mut self)
        ensures
            final(self).spec_total() == 0,
            final(self).anchor() == old(self).anchor(),
            final(self).spec_reversed() == old(self).spec_reversed(),
            final(self).spec_advanced() == old(self).spec_advanced(),
    {
        self.total = 0
    }

    /// Check whether the selection has cycled through all elements once.
    ///
    /// A single overlap is allowed for: a traversal that starts in the
    /// middle of the sequence must pass its start a second time to
    /// guarantee full coverage, hence the strict threshold.
    pub fn has_cycled(&self, count: usize) -> (r: bool)
        requires
            isize::MIN < self.spec_total(),
        ensures
            r == spec_has_cycled(self.spec_total(), count as int),
    {
        let t: isize = if self.total < 0 { -self.total } else { self.total };
        (t as usize) > count
    }

    /// Normalize the selection against the given sequence.
    ///
    /// Resolve the anchor to a start index, wrap the accumulated delta
    /// around the sequence's length, store the result as the new anchor
    /// and return it.
    pub fn normalize(&mut self, items: &Vec<T>) -> (idx: usize)
        requires
            T::obeys_eq_spec(),
            items@.len() > 0,
            anchor_resolvable(old(self).anchor(), items@),
        ensures
            idx == wrap(
                anchor_index(old(self).anchor(), items@) + old(self).spec_advanced(),
                items@.len() as int,
            ),
            0 <= idx < items@.len(),
            final(self).anchor() == Selection::<T>::Normalized(idx),
            final(self).spec_advanced() == 0,
            final(self).spec_total() == old(self).spec_total(),
            final(self).spec_reversed() == old(self).spec_reversed(),
    {
        let count = items.len();
        let start_idx = self.selection.index(items);
        let shifted: i128 = start_idx as i128 + self.advanced as i128;
        let wrapped: i128 = shifted.checked_rem_euclid(count as i128).unwrap();
        let idx = wrapped as usize;

        self.selection = Selection::Normalized(idx);
        self.advanced = 0;
        idx
    }
}


/// Law: `k` forward advances from a start index `s` in a sequence of
/// length `n` select index `(s + k) mod n`, which is never negative.
pub proof fn lemma_forward_advances_wrap(s: int, k: int, n: int)
    requires
        0 <= s < n,
        0 <= k,
    ensures
        wrap(s + k, n) == (s + k) % n,
        0 <= wrap(s + k, n) < n,
{
}

/// Law: reversing direction after `k` forward advances and then issuing
/// `k` reverse advances returns the selection to its start index `s`.
pub proof fn lemma_reverse_returns_to_start(s: int, k: int, n: int)
    requires
        0 <= s < n,
    ensures
        wrap(wrap(s + k, n) - k, n) == s,
{
    let m = wrap(s + k, n);
    vstd::arithmetic::div_mod::lemma_sub_mod_noop_right(m, k, n);
    vstd::arithmetic::div_mod::lemma_sub_mod_noop(s + k, k, n);
    vstd::arithmetic::div_mod::lemma_small_mod(s as nat, n as nat);
    assert((m - k % n) % n == ((s + k) % n - k % n) % n);
}

/// Law: the cycle flag is off while the cumulative delta's magnitude is
/// at most the element count, turns on once it exceeds the count, and a
/// reset (which zeroes the delta) turns it off for any count.
pub proof fn lemma_cycle_threshold(total: int, count: int)
    requires
        count >= 0,
    ensures
        -count <= total <= count ==> !spec_has_cycled(total, count),
        total > count || total < -count ==> spec_has_cycled(total, count),
        !spec_has_cycled(0, count),
{
}

} // verus!
