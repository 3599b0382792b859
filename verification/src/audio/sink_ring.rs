//! Bounded queue of interleaved samples between a player and the audio callback of a device.

use crate::audio::ring::lesser;
use vstd::prelude::*;

verus! {

/// Fixed-size queue of samples.
pub struct Ring<S> {
    buf: Vec<S>,
    write: usize,
    read: usize,
    filled: usize,
}

impl<S: Copy> View for Ring<S> {
    type V = Seq<S>;

    closed spec fn view(&self) -> Seq<S> {
        Seq::new(self.filled as nat, |i: int| self.buf@[self.slot(i)])
    }
}

impl<S: Copy> Ring<S> {
    /// The place of sample `i` of the queue in the buffer.
    spec fn slot(&self, i: int) -> int {
        if self.read + i < self.buf@.len() {
            self.read + i
        } else {
            self.read + i - self.buf@.len()
        }
    }

    /// How many samples the queue can hold.
    pub closed spec fn capacity(&self) -> nat {
        self.buf@.len()
    }

    /// The queue holds no more than its capacity, and the positions agree.
    pub closed spec fn wf(&self) -> bool {
        &&& self.buf@.len() >= 1
        &&& self.read < self.buf@.len()
        &&& self.write < self.buf@.len()
        &&& self.filled <= self.buf@.len()
        &&& self.write == self.slot(self.filled as int)
    }

    /// A well-formed queue holds no more than its capacity.
    pub broadcast proof fn lemma_wf(&self)
        requires
            #[trigger] self.wf(),
        ensures
            self@.len() <= self.capacity(),
            self.capacity() >= 1,
    {
    }

    /// A queue for `capacity` samples, and for at least one.
    pub fn new(capacity: usize, silence: S) -> (r: Self)
        ensures
            r.wf(),
            r@ == Seq::<S>::empty(),
            r.capacity() == (if capacity == 0 {
                1
            } else {
                capacity as nat
            }),
    {
        let capacity: usize = if capacity == 0 {
            1
        } else {
            capacity
        };
        let r = Ring { buf: vec![silence; capacity], write: 0, read: 0, filled: 0 };
        assert(r@ =~= Seq::<S>::empty());
        r
    }

    /// Puts as many of the samples as fit at the end of the queue, and returns how many.
    pub fn push(&mut self, data: &[S]) -> (taken: usize)
        requires
            old(self).wf(),
        ensures
            final(self).wf(),
            taken == lesser(data@.len(), (old(self).capacity() - old(self)@.len()) as nat),
            final(self)@ == old(self)@ + data@.take(taken as int),
            final(self).capacity() == old(self).capacity(),
    {
        let ghost before = *self;
        let free: usize = self.buf.len() - self.filled;
        let take: usize = if data.len() <= free {
            data.len()
        } else {
            free
        };
        let len: usize = self.buf.len();
        let mut i: usize = 0;
        assert(before@ + data@.take(0) =~= before@);
        while i < take
            invariant
                i <= take,
                take <= data@.len(),
                before.filled + take <= len,
                len == self.buf@.len(),
                len == before.buf@.len(),
                self.wf(),
                self.filled == before.filled + i,
                self@ == before@ + data@.take(i as int),
            decreases take - i,
        {
            let ghost now = *self;
            self.buf[self.write] = data[i];
            self.write = if self.write + 1 == len {
                0
            } else {
                self.write + 1
            };
            self.filled = self.filled + 1;
            proof {
                assert forall|k: int| 0 <= k <= now.filled implies #[trigger] self@[k] == now@.push(
                    data@[i as int],
                )[k] by {
                    if k < now.filled {
                        assert(now@[k] == now.buf@[now.slot(k)]);
                    }
                }
                assert(self@ =~= now@.push(data@[i as int]));
            }
            i = i + 1;
            assert(self@ =~= before@ + data@.take(i as int));
        }
        take
    }

    /// Takes samples from the front of the queue, as many as `out` has room for and the queue
    /// holds, and returns how many. The rest of `out` stays as it is.
    pub fn pop_into(&mut self, out: &mut [S]) -> (taken: usize)
        requires
            old(self).wf(),
        ensures
            final(self).wf(),
            taken == lesser(old(out)@.len(), old(self)@.len()),
            final(self)@ == old(self)@.skip(taken as int),
            final(self).capacity() == old(self).capacity(),
            final(out)@ == old(self)@.take(taken as int) + old(out)@.skip(taken as int),
    {
        let ghost before = *self;
        let ghost out_before = out@;
        let take: usize = if out.len() <= self.filled {
            out.len()
        } else {
            self.filled
        };
        let len: usize = self.buf.len();
        let mut i: usize = 0;
        assert(before@.skip(0) =~= before@);
        assert(out@ =~= before@.take(0) + out_before.skip(0));
        while i < take
            invariant
                i <= take,
                take <= out_before.len(),
                take <= before.filled,
                before.wf(),
                len == self.buf@.len(),
                self.buf@ == before.buf@,
                self.wf(),
                self.filled == before.filled - i,
                self@ == before@.skip(i as int),
                out@ == before@.take(i as int) + out_before.skip(i as int),
            decreases take - i,
        {
            let ghost now = *self;
            assert(now@[0] == before@[i as int]);
            out[i] = self.buf[self.read];
            self.read = if self.read + 1 == len {
                0
            } else {
                self.read + 1
            };
            self.filled = self.filled - 1;
            proof {
                assert forall|k: int| 0 <= k < self@.len() implies #[trigger] self@[k] == now@[k
                    + 1] by {
                    assert(self.slot(k) == now.slot(k + 1));
                }
            }
            i = i + 1;
            assert(self@ =~= before@.skip(i as int));
            assert(out@ =~= before@.take(i as int) + out_before.skip(i as int));
        }
        take
    }

    /// Fills `out` from the queue, and with silence where the queue runs out, so that no stale
    /// samples are repeated.
    pub fn fill(&mut self, out: &mut [S], silence: S)
        requires
            old(self).wf(),
        ensures
            final(self).wf(),
            final(self)@ == old(self)@.skip(lesser(old(out)@.len(), old(self)@.len()) as int),
            final(self).capacity() == old(self).capacity(),
            final(out)@ == old(self)@.take(lesser(old(out)@.len(), old(self)@.len()) as int)
                + Seq::new(
                (old(out)@.len() - lesser(old(out)@.len(), old(self)@.len())) as nat,
                |i: int| silence,
            ),
    {
        let ghost queued = self@;
        let taken: usize = self.pop_into(out);
        let mut i: usize = taken;
        while i < out.len()
            invariant
                taken <= i <= out@.len(),
                out@.len() == old(out)@.len(),
                forall|k: int| 0 <= k < taken ==> #[trigger] out@[k] == queued[k],
                forall|k: int| taken <= k < i ==> #[trigger] out@[k] == silence,
            decreases out@.len() - i,
        {
            out[i] = silence;
            i = i + 1;
        }
        assert(out@ =~= queued.take(taken as int) + Seq::new(
            (out@.len() - taken) as nat,
            |k: int| silence,
        ));
    }

    /// Drops all queued samples.
    pub fn clear(&mut self)
        requires
            old(self).wf(),
        ensures
            final(self).wf(),
            final(self)@ == Seq::<S>::empty(),
            final(self).capacity() == old(self).capacity(),
    {
        self.write = 0;
        self.read = 0;
        self.filled = 0;
        assert(self@ =~= Seq::<S>::empty());
    }
}

} // verus!
