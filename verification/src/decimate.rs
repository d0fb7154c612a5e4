//! Window scheduling of a decimating FIR stage: which windows of the
//! buffered input are filtered, how much of the buffer is then discarded,
//! and where the next window starts.
use vstd::prelude::*;

verus! {

/// Windows to filter in one block: `count` windows of `taps` samples starting
/// at buffer offsets `first + k * factor`, after which `dropped` samples
/// leave the front of the buffer.
#[derive(Clone, Copy, Debug, PartialEq, Eq, Structural)]
pub struct WindowPlan {
    pub first: usize,
    pub count: usize,
    pub dropped: usize,
}

/// Schedule of a decimating FIR stage with `taps` taps keeping one output in
/// `factor` inputs.
pub struct WindowSchedule {
    factor: usize,
    taps: usize,
    counter: usize,
    buffered: usize,
    /// Stream position of the first buffered sample.
    origin: Ghost<nat>,
    /// Windows scheduled so far.
    emitted: Ghost<nat>,
}

impl WindowSchedule {
    pub closed spec fn factor(&self) -> nat {
        self.factor as nat
    }

    pub closed spec fn taps(&self) -> nat {
        self.taps as nat
    }

    /// Buffer offset of the next window.
    pub closed spec fn counter(&self) -> nat {
        self.counter as nat
    }

    /// Samples held in the buffer.
    pub closed spec fn buffered(&self) -> nat {
        self.buffered as nat
    }

    /// Stream position of the first buffered sample.
    pub closed spec fn origin(&self) -> nat {
        self.origin@
    }

    /// Windows scheduled so far.
    pub closed spec fn emitted(&self) -> nat {
        self.emitted@
    }

    /// The next window starts at stream position `emitted * factor`.
    pub closed spec fn wf(&self) -> bool {
        &&& self.origin@ + self.counter == self.emitted@ * self.factor
        &&& self.counter <= self.factor
    }

    /// A stage with an empty buffer whose first window starts at the first sample.
    pub fn new(factor: usize, taps: usize) -> (s: Self)
        ensures
            s.wf(),
            s.factor() == factor,
            s.taps() == taps,
            s.counter() == 0,
            s.buffered() == 0,
            s.origin() == 0,
            s.emitted() == 0,
    {
        WindowSchedule {
            factor,
            taps,
            counter: 0,
            buffered: 0,
            origin: Ghost(0),
            emitted: Ghost(0),
        }
    }

    /// Schedules the windows after `added` samples were appended to the
    /// buffer: every window that fits, one every `factor` samples from the
    /// current offset; then the samples before the next window (or the whole
    /// buffer) are dropped.
    pub fn plan(&mut self, added: usize) -> (p: WindowPlan)
        requires
            old(self).wf(),
            old(self).factor() >= 1,
            old(self).buffered() + added + old(self).factor() + old(self).taps() <= usize::MAX,
        ensures
            final(self).wf(),
            final(self).factor() == old(self).factor(),
            final(self).taps() == old(self).taps(),
            ({
                let len = old(self).buffered() + added;
                let f = old(self).factor() as int;
                let next = p.first + p.count * f;
                &&& p.first == old(self).counter()
                &&& forall|k: int| 0 <= k < p.count ==> #[trigger] (p.first + k * f) + old(self).taps() <= len
                &&& next + old(self).taps() > len
                &&& p.dropped == if next <= len { next } else { len }
                &&& final(self).counter() == next - p.dropped
                &&& final(self).buffered() == len - p.dropped
                &&& final(self).origin() == old(self).origin() + p.dropped
                &&& final(self).emitted() == old(self).emitted() + p.count
                &&& forall|k: int|
                    0 <= k < p.count ==> old(self).origin() + #[trigger] (p.first + k * f) == (
                    old(self).emitted() + k) * f
            }),
    {
        let len = self.buffered + added;
        let f = self.factor;
        let mut i = self.counter;
        let mut count: usize = 0;
        proof {
            assert(self.counter <= self.counter + 0 * f) by (nonlinear_arith);
        }
        while i + self.taps <= len
            invariant
                len == old(self).buffered() + added,
                f == old(self).factor(),
                f >= 1,
                self.taps == old(self).taps(),
                self.counter == old(self).counter(),
                len + f + self.taps <= usize::MAX,
                i == self.counter + count * f,
                forall|k: int| 0 <= k < count ==> #[trigger] (self.counter + k * f) + self.taps <= len,
                count <= i,
                i <= len + f,
                self.counter <= f,
            decreases len + f - i,
        {
            proof {
                assert(self.counter + (count + 1) * f == i + f) by (nonlinear_arith)
                    requires i == self.counter + count * f;
                assert forall|k: int| 0 <= k < count + 1 implies #[trigger] (self.counter + k * f) + self.taps <= len by {
                    if k == count {
                        assert(self.counter + k * f == i);
                    }
                }
            }
            i = i + f;
            count = count + 1;
        }
        let dropped = if i <= len {
            i
        } else {
            len
        };
        let ghost o0 = self.origin@;
        let ghost e0 = self.emitted@;
        proof {
            assert(o0 + self.counter + count * f == (e0 + count) * f) by (nonlinear_arith)
                requires o0 + self.counter == e0 * f;
            assert forall|k: int| 0 <= k < count implies o0 + #[trigger] (self.counter + k * f) == (e0 + k) * f by {
                assert(o0 + self.counter + k * f == (e0 + k) * f) by (nonlinear_arith)
                    requires o0 + self.counter == e0 * f;
            }
        }
        let first = self.counter;
        self.counter = i - dropped;
        self.buffered = len - dropped;
        self.origin = Ghost((o0 + dropped) as nat);
        self.emitted = Ghost((e0 + count) as nat);
        WindowPlan { first, count, dropped }
    }
}

} // verus!
