//! Sets of unsigned integers, held as a list of inclusive spans.

use vstd::prelude::*;

verus! {

/// The integers from `lo` to `hi`, both included.
#[derive(Clone, Copy, Debug, PartialEq, Eq, Structural)]
pub struct Span {
    pub lo: u32,
    pub hi: u32,
}

/// The values that a schedule accepts for one unit of time. The empty set
/// stands for "any value".
#[derive(Debug)]
pub struct ConstraintSet {
    spans: Vec<Span>,
}

impl View for ConstraintSet {
    type V = Set<u32>;

    closed spec fn view(&self) -> Set<u32> {
        Set::new(|v: u32| covers(self.spans@, v))
    }
}

/// Whether one of `spans` holds `v`.
pub open spec fn covers(spans: Seq<Span>, v: u32) -> bool {
    exists|i: int| 0 <= i < spans.len() && (#[trigger] spans[i]).lo <= v <= spans[i].hi
}

/// The integers from `lo` to `hi`, both included.
pub open spec fn interval(lo: u32, hi: u32) -> Set<u32> {
    Set::new(|v: u32| lo <= v <= hi)
}

/// Whether a unit with the accepted values `set` accepts `value`: an empty
/// set accepts every value.
pub open spec fn admits(set: Set<u32>, value: u32) -> bool {
    set =~= Set::empty() || set.contains(value)
}

impl ConstraintSet {
    /// The empty set.
    pub fn new() -> (s: ConstraintSet)
        ensures
            s@ == Set::<u32>::empty(),
    {
        let s = ConstraintSet { spans: Vec::new() };
        assert(s@ =~= Set::<u32>::empty());
        s
    }

    /// Adds one value.
    pub fn insert(&mut self, value: u32)
        ensures
            final(self)@ == old(self)@.insert(value),
    {
        self.insert_range(value, value);
        assert(interval(value, value) =~= set![value]);
        assert(old(self)@.union(set![value]) =~= old(self)@.insert(value));
    }

    /// Adds every value from `lo` to `hi`, both included; none where
    /// `lo > hi`.
    pub fn insert_range(&mut self, lo: u32, hi: u32)
        ensures
            final(self)@ == old(self)@.union(interval(lo, hi)),
    {
        if lo <= hi {
            let ghost before = self.spans@;
            self.spans.push(Span { lo, hi });
            assert forall|v: u32| covers(self.spans@, v) <==> covers(before, v) || lo <= v <= hi by {
                if covers(before, v) {
                    let i = choose|i: int|
                        0 <= i < before.len() && (#[trigger] before[i]).lo <= v <= before[i].hi;
                    assert(self.spans@[i] == before[i]);
                }
                if lo <= v <= hi {
                    assert(self.spans@[before.len() as int].lo <= v);
                }
                if covers(self.spans@, v) {
                    let i = choose|i: int|
                        0 <= i < self.spans@.len() && (#[trigger] self.spans@[i]).lo <= v
                            <= self.spans@[i].hi;
                    if i < before.len() {
                        assert(before[i] == self.spans@[i]);
                    }
                }
            }
        }
        assert(self@ =~= old(self)@.union(interval(lo, hi)));
    }

    /// Whether the set holds no value.
    pub fn is_empty(&self) -> (r: bool)
        ensures
            r == (self@ =~= Set::<u32>::empty()),
    {
        let mut i: usize = 0;
        while i < self.spans.len()
            invariant
                i <= self.spans@.len(),
                forall|j: int| 0 <= j < i ==> (#[trigger] self.spans@[j]).lo > self.spans@[j].hi,
            decreases self.spans@.len() - i,
        {
            if self.spans[i].lo <= self.spans[i].hi {
                proof {
                    assert(covers(self.spans@, self.spans@[i as int].lo));
                    assert(self@.contains(self.spans@[i as int].lo));
                }
                return false;
            }
            i = i + 1;
        }
        assert(self@ =~= Set::<u32>::empty());
        true
    }

    /// Whether the set holds `value`.
    pub fn contains(&self, value: u32) -> (r: bool)
        ensures
            r == self@.contains(value),
    {
        let mut i: usize = 0;
        while i < self.spans.len()
            invariant
                i <= self.spans@.len(),
                forall|j: int|
                    0 <= j < i ==> !((#[trigger] self.spans@[j]).lo <= value <= self.spans@[j].hi),
            decreases self.spans@.len() - i,
        {
            if self.spans[i].lo <= value && value <= self.spans[i].hi {
                return true;
            }
            i = i + 1;
        }
        false
    }

    /// Whether a unit with these accepted values accepts `value`.
    pub fn accepts(&self, value: u32) -> (r: bool)
        ensures
            r == admits(self@, value),
    {
        self.is_empty() || self.contains(value)
    }
}

} // verus!
