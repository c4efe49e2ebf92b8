use vstd::prelude::*;

use crate::monte_carlo::MonteCarloOutput;
use crate::poker_hand::PokerHand;

verus! {

/// The element-wise sum of two counters, clamped into the i64 range.
pub open spec fn clamped_add(a: i64, b: i64) -> i64 {
    if a + b > i64::MAX {
        i64::MAX
    } else if a + b < i64::MIN {
        i64::MIN
    } else {
        (a + b) as i64
    }
}

/// Ten signed 64-bit counters, one per hand category, indexed by the
/// category's ordinal. Merge is element-wise addition; the identity is
/// the all-zero tally.
#[derive(Debug, Clone, PartialEq, Eq)]
pub struct PokerHandsCount {
    counts: Vec<i64>,
}

impl View for PokerHandsCount {
    type V = Seq<i64>;

    closed spec fn view(&self) -> Seq<i64> {
        self.counts@
    }
}

impl PokerHandsCount {
    /// A tally always holds exactly ten counters.
    pub open spec fn wf(&self) -> bool {
        self@.len() == 10
    }

    /// The all-zero tally.
    pub fn new() -> (r: PokerHandsCount)
        ensures
            r.wf(),
            forall|i: int| 0 <= i < 10 ==> r@[i] == 0,
    {
        let mut counts: Vec<i64> = Vec::new();
        let mut i: usize = 0;
        while i < 10
            invariant
                i <= 10,
                counts@.len() == i,
                forall|j: int| 0 <= j < i ==> counts@[j] == 0,
            decreases 10 - i,
        {
            counts.push(0);
            i = i + 1;
        }
        PokerHandsCount { counts }
    }

    /// Builds a tally from a counter array: missing trailing entries stay
    /// zero, entries beyond the tenth are ignored.
    pub fn from_array(array: &[i64]) -> (r: PokerHandsCount)
        ensures
            r.wf(),
            forall|i: int|
                0 <= i < 10 ==> r@[i] == (if i < array@.len() {
                    array@[i]
                } else {
                    0i64
                }),
    {
        let mut counts: Vec<i64> = Vec::new();
        let mut i: usize = 0;
        while i < 10
            invariant
                i <= 10,
                counts@.len() == i,
                forall|j: int|
                    0 <= j < i ==> counts@[j] == (if j < array@.len() {
                        array@[j]
                    } else {
                        0i64
                    }),
            decreases 10 - i,
        {
            if i < array.len() {
                counts.push(array[i]);
            } else {
                counts.push(0);
            }
            i = i + 1;
        }
        PokerHandsCount { counts }
    }

    /// Copies the counters into the given buffer: as many of the first
    /// ten as the buffer has room for; any further entries are untouched.
    pub fn to_array(&self, array: &mut Vec<i64>)
        requires
            self.wf(),
        ensures
            final(array)@.len() == old(array)@.len(),
            forall|i: int|
                0 <= i < final(array)@.len() ==> final(array)@[i] == (if i < 10 {
                    self@[i]
                } else {
                    old(array)@[i]
                }),
    {
        let n = if array.len() < 10 {
            array.len()
        } else {
            10
        };
        let mut i: usize = 0;
        while i < n
            invariant
                self.wf(),
                n <= 10,
                n <= array@.len(),
                i <= n,
                array@.len() == old(array)@.len(),
                forall|j: int| 0 <= j < i ==> array@[j] == self@[j],
                forall|j: int| i <= j < array@.len() ==> array@[j] == old(array)@[j],
            decreases n - i,
        {
            let v = self.counts[i];
            array.set(i, v);
            i = i + 1;
        }
    }

    /// The ten counters as a fresh vector, in ordinal order.
    pub fn iter(&self) -> (r: Vec<i64>)
        requires
            self.wf(),
        ensures
            r@ == self@,
    {
        let mut out: Vec<i64> = Vec::new();
        let mut i: usize = 0;
        while i < 10
            invariant
                self.wf(),
                i <= 10,
                out@.len() == i,
                forall|j: int| 0 <= j < i ==> out@[j] == self@[j],
            decreases 10 - i,
        {
            out.push(self.counts[i]);
            i = i + 1;
        }
        proof {
            assert(out@ =~= self@);
        }
        out
    }

    /// Element-wise addition of another tally into this one.
    pub fn merge(&mut self, other: &PokerHandsCount)
        requires
            old(self).wf(),
            other.wf(),
            forall|i: int|
                0 <= i < 10 ==> i64::MIN <= #[trigger] old(self)@[i] + other@[i] <= i64::MAX,
        ensures
            final(self).wf(),
            forall|i: int| 0 <= i < 10 ==> final(self)@[i] == old(self)@[i] + other@[i],
    {
        let mut i: usize = 0;
        while i < 10
            invariant
                self.wf(),
                other.wf(),
                i <= 10,
                forall|j: int|
                    0 <= j < 10 ==> i64::MIN <= #[trigger] old(self)@[j] + other@[j] <= i64::MAX,
                forall|j: int| 0 <= j < i ==> self@[j] == old(self)@[j] + other@[j],
                forall|j: int| i <= j < 10 ==> self@[j] == old(self)@[j],
            decreases 10 - i,
        {
            let v = self.counts[i] + other.counts[i];
            self.counts.set(i, v);
            i = i + 1;
        }
    }

    /// Reads the counter of one category.
    pub fn get(&self, hand: PokerHand) -> (r: i64)
        requires
            self.wf(),
        ensures
            r == self@[hand.spec_raw_value()],
    {
        let idx = hand.raw_value();
        self.counts[idx]
    }

    /// Whether every counter can still grow by one.
    pub fn has_headroom(&self) -> (b: bool)
        requires
            self.wf(),
        ensures
            b == forall|i: int| 0 <= i < 10 ==> #[trigger] self@[i] + 1 <= i64::MAX,
    {
        let mut i: usize = 0;
        let mut ok = true;
        while i < 10
            invariant
                self.wf(),
                i <= 10,
                ok == forall|j: int| 0 <= j < i ==> #[trigger] self@[j] + 1 <= i64::MAX,
            decreases 10 - i,
        {
            if self.counts[i] == i64::MAX {
                ok = false;
            }
            i = i + 1;
        }
        ok
    }

    /// Increments the counter of one category by one.
    pub(crate) fn add_one(&mut self, hand: PokerHand)
        requires
            old(self).wf(),
            old(self)@[hand.spec_raw_value()] + 1 <= i64::MAX,
        ensures
            final(self).wf(),
            final(self)@ == old(self)@.update(hand.spec_raw_value(), (old(self)@[
                hand.spec_raw_value()] + 1) as i64),
    {
        let idx = hand.raw_value();
        let v = self.counts[idx] + 1;
        self.counts.set(idx, v);
    }
}

impl MonteCarloOutput for PokerHandsCount {
    open spec fn inv(&self) -> bool {
        self.wf()
    }

    open spec fn is_zero(&self) -> bool {
        self.wf() && (forall|i: int| 0 <= i < 10 ==> self@[i] == 0)
    }

    open spec fn folds(&self, a: &Self, b: &Self) -> bool {
        self.wf() && (forall|i: int| 0 <= i < 10 ==> self@[i] == clamped_add(a@[i], b@[i]))
    }

    open spec fn absorbed(&self, n: nat) -> bool {
        &&& self.wf()
        &&& forall|i: int| 0 <= i < 10 ==> 0 <= #[trigger] self@[i] <= n
        &&& n <= i64::MAX ==> self@[0] == n
    }

    open spec fn copy_of(&self, src: &Self) -> bool {
        self@ == src@
    }

    fn new() -> (r: Self) {
        PokerHandsCount::new()
    }

    // The driver may merge chunks without the exact-merge precondition,
    // so this fold clamps at the ends of the i64 range instead of
    // overflowing; within any feasible iteration budget the sums stay
    // far below them and the fold adds exactly.
    fn merge(&mut self, other: &Self) {
        let mut i: usize = 0;
        while i < 10
            invariant
                i <= 10,
                self.wf(),
                other.wf(),
                forall|j: int| 0 <= j < i ==> self@[j] == clamped_add(old(self)@[j], other@[j]),
                forall|j: int| i <= j < 10 ==> self@[j] == old(self)@[j],
            decreases 10 - i,
        {
            let a = self.counts[i];
            let b = other.counts[i];
            let v = match a.checked_add(b) {
                Some(v) => v,
                None => {
                    if b > 0 {
                        i64::MAX
                    } else {
                        i64::MIN
                    }
                },
            };
            self.counts.set(i, v);
            i = i + 1;
        }
        proof {
            assert forall|n1: nat, n2: nat|
                old(self).absorbed(n1) && other.absorbed(n2) implies self.absorbed(
                (n1 + n2) as nat,
            ) by {
                assert forall|j: int| 0 <= j < 10 implies 0 <= #[trigger] self@[j] <= n1 + n2 by {
                    assert(self@[j] == clamped_add(old(self)@[j], other@[j]));
                }
                if n1 + n2 <= i64::MAX {
                    assert(self@[0] == clamped_add(old(self)@[0], other@[0]));
                }
            }
        }
    }

    fn duplicate(&self) -> (r: Self) {
        let r = PokerHandsCount { counts: self.iter() };
        proof {
            assert forall|n: nat| self.absorbed(n) implies r.absorbed(n) by {
                assert(r@ == self@);
            }
        }
        r
    }
}

impl Default for PokerHandsCount {
    /// The all-zero tally, the merge identity.
    fn default() -> (r: Self)
        ensures
            r.wf(),
            forall|i: int| 0 <= i < 10 ==> r@[i] == 0,
    {
        PokerHandsCount::new()
    }
}

} // verus!
