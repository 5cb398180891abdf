//! A bounded first-in first-out window of timestamped samples.
use std::collections::VecDeque;
use vstd::prelude::*;

verus! {

/// One observation: the tick it was taken at and its value in millionths,
/// so `value / VALUE_SCALE` lies in `[0, 1)`.
#[derive(Clone, Copy, Debug, PartialEq, Eq, Structural)]
pub struct Sample {
    pub epoch: u64,
    pub value: u32,
}

/// Denominator of `Sample::value`.
pub const VALUE_SCALE: u32 = 1_000_000;

/// The last `cap` elements of `s` (all of it when it is shorter).
pub open spec fn keep_latest(s: Seq<Sample>, cap: nat) -> Seq<Sample> {
    if s.len() <= cap {
        s
    } else {
        s.subrange(s.len() - cap, s.len() as int)
    }
}

/// What one push does to the contents: append, then drop the oldest
/// until the capacity holds.
pub open spec fn push_spec(s: Seq<Sample>, cap: nat, x: Sample) -> Seq<Sample> {
    keep_latest(s.push(x), cap)
}

/// The contents after pushing every element of `xs` in order onto `s`.
pub open spec fn push_all(s: Seq<Sample>, cap: nat, xs: Seq<Sample>) -> Seq<Sample>
    decreases xs.len(),
{
    if xs.len() == 0 {
        s
    } else {
        push_spec(push_all(s, cap, xs.drop_last()), cap, xs.last())
    }
}

/// Epochs never decrease from front to back.
pub open spec fn epochs_ordered(s: Seq<Sample>) -> bool {
    forall|i: int, j: int| 0 <= i <= j < s.len() ==> #[trigger] s[i].epoch <= #[trigger] s[j].epoch
}

/// Every value lies below `VALUE_SCALE`.
pub open spec fn values_in_range(s: Seq<Sample>) -> bool {
    forall|i: int| 0 <= i < s.len() ==> #[trigger] s[i].value < VALUE_SCALE
}

/// The adjacent pairs of `s`, oldest first.
pub open spec fn pairs_of(s: Seq<Sample>) -> Seq<(Sample, Sample)> {
    Seq::new(if s.len() == 0 { 0 } else { (s.len() - 1) as nat }, |i: int| (s[i], s[i + 1]))
}

/// Whatever pushes are made on an empty window, it holds at most its
/// capacity, and exactly the most recently pushed samples, in arrival order.
pub proof fn lemma_push_all_keeps_latest(cap: nat, xs: Seq<Sample>)
    ensures
        push_all(Seq::empty(), cap, xs) == keep_latest(xs, cap),
        push_all(Seq::empty(), cap, xs).len() <= cap,
        xs.len() > cap ==> push_all(Seq::empty(), cap, xs) == xs.subrange(
            xs.len() - cap,
            xs.len() as int,
        ),
    decreases xs.len(),
{
    if xs.len() > 0 {
        let d = xs.drop_last();
        lemma_push_all_keeps_latest(cap, d);
        assert(d.push(xs.last()) =~= xs);
        let k = keep_latest(d, cap);
        assert(keep_latest(k.push(xs.last()), cap) =~= keep_latest(xs, cap));
    }
}

/// The samples of the last `capacity` ticks, oldest at the front.
pub struct SampleWindow {
    samples: VecDeque<Sample>,
    capacity: usize,
}

impl View for SampleWindow {
    type V = Seq<Sample>;

    closed spec fn view(&self) -> Seq<Sample> {
        self.samples@
    }
}

impl SampleWindow {
    pub closed spec fn spec_capacity(&self) -> nat {
        self.capacity as nat
    }

    /// Never more samples than the capacity, epochs in arrival order, and
    /// every value below `VALUE_SCALE`.
    pub closed spec fn wf(&self) -> bool {
        &&& self.samples@.len() <= self.capacity
        &&& epochs_ordered(self.samples@)
        &&& values_in_range(self.samples@)
    }

    /// In a well-formed window no epoch exceeds the newest one and every
    /// value lies below `VALUE_SCALE`.
    pub proof fn lemma_bounds(&self)
        requires
            self.wf(),
        ensures
            self@.len() <= self.spec_capacity(),
            values_in_range(self@),
            forall|i: int| 0 <= i < self@.len() ==> #[trigger] self@[i].epoch <= self.spec_latest_epoch(),
    {
    }

    /// The epoch of the newest sample, or 0 when there is none.
    pub open spec fn spec_latest_epoch(&self) -> u64 {
        if self@.len() == 0 {
            0
        } else {
            self@.last().epoch
        }
    }

    pub fn new(capacity: usize) -> (r: Self)
        ensures
            r.wf(),
            r@ == Seq::<Sample>::empty(),
            r.spec_capacity() == capacity,
    {
        SampleWindow { samples: VecDeque::new(), capacity }
    }

    pub fn capacity(&self) -> (r: usize)
        ensures
            r == self.spec_capacity(),
    {
        self.capacity
    }

    pub fn len(&self) -> (r: usize)
        requires
            self.wf(),
        ensures
            r == self@.len(),
    {
        self.samples.len()
    }

    pub fn is_empty(&self) -> (r: bool)
        ensures
            r == (self@.len() == 0),
    {
        self.samples.len() == 0
    }

    /// The sample at position `i`, counted from the oldest.
    pub fn get(&self, i: usize) -> (r: Sample)
        requires
            i < self@.len(),
        ensures
            r == self@[i as int],
    {
        self.samples[i]
    }

    /// Appends a sample and evicts from the front down to the capacity.
    pub fn push(&mut self, epoch: u64, value: u32)
        requires
            old(self).wf(),
            old(self)@.len() > 0 ==> old(self)@.last().epoch <= epoch,
            value < VALUE_SCALE,
        ensures
            final(self).wf(),
            final(self).spec_capacity() == old(self).spec_capacity(),
            final(self)@ == push_spec(old(self)@, old(self).spec_capacity(), Sample { epoch, value }),
    {
        let ghost before = self.samples@.push(Sample { epoch, value });
        assert(epochs_ordered(before)) by {
            assert forall|i: int, j: int| 0 <= i <= j < before.len() implies before[i].epoch
                <= before[j].epoch by {
                if j == before.len() - 1 && i < j {
                    assert(before[i].epoch <= self.samples@.last().epoch);
                }
            }
        }
        assert(values_in_range(before)) by {
            assert forall|i: int| 0 <= i < before.len() implies #[trigger] before[i].value
                < VALUE_SCALE by {
                if i < before.len() - 1 {
                    assert(before[i] == self.samples@[i]);
                }
            }
        }
        self.samples.push_back(Sample { epoch, value });
        while self.samples.len() > self.capacity
            invariant
                self.capacity == old(self).capacity,
                before.len() <= self.capacity + 1,
                self.samples@ == before || (before.len() == self.capacity + 1
                    && self.samples@ == before.subrange(1, before.len() as int)),
            decreases self.samples@.len(),
        {
            self.samples.pop_front();
        }
        assert(self.samples@ =~= keep_latest(before, self.capacity as nat));
        assert(epochs_ordered(self.samples@)) by {
            assert forall|i: int, j: int| 0 <= i <= j < self.samples@.len() implies
                self.samples@[i].epoch <= self.samples@[j].epoch by {
                if self.samples@ != before {
                    assert(self.samples@[i] == before[i + 1]);
                    assert(self.samples@[j] == before[j + 1]);
                }
            }
        }
        assert(values_in_range(self.samples@)) by {
            assert forall|i: int| 0 <= i < self.samples@.len() implies #[trigger] self.samples@[i].value
                < VALUE_SCALE by {
                if self.samples@ != before {
                    assert(self.samples@[i] == before[i + 1]);
                } else {
                    assert(self.samples@[i] == before[i]);
                }
            }
        }
    }

    /// The epoch of the newest sample, or 0 when the window is empty.
    pub fn latest_epoch(&self) -> (r: u64)
        ensures
            r == self.spec_latest_epoch(),
    {
        let n = self.samples.len();
        if n == 0 {
            0
        } else {
            self.samples[n - 1].epoch
        }
    }

    /// Each sample paired with the one after it, oldest pair first.
    pub fn pairs(&self) -> (r: Vec<(Sample, Sample)>)
        ensures
            r@ == pairs_of(self@),
            r@.len() == if self@.len() == 0 { 0 } else { self@.len() - 1 },
    {
        let mut r: Vec<(Sample, Sample)> = Vec::new();
        let n = self.samples.len();
        let mut i: usize = 1;
        while i < n
            invariant
                n == self@.len(),
                1 <= i,
                n == 0 ==> i == 1,
                n > 0 ==> i <= n,
                r@ =~= Seq::new((i - 1) as nat, |k: int| (self@[k], self@[k + 1])),
            decreases n - i,
        {
            r.push((self.samples[i - 1], self.samples[i]));
            i = i + 1;
        }
        assert(r@ =~= pairs_of(self@));
        r
    }
}

} // verus!
