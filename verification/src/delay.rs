//! A sample-exact delay line: emits its carried samples first and carries the
//! tail of each processed block, so the waveform is shifted by a fixed number
//! of samples while its length is preserved.

use vstd::prelude::*;
use crate::fixed::in_range;

verus! {

pub struct DelayLine {
    /// The next `delay` output samples, oldest first.
    pub buf: Vec<i64>,
}

impl DelayLine {
    /// The configured delay, in samples.
    pub open spec fn delay(&self) -> nat {
        self.buf@.len()
    }

    pub open spec fn wf(&self) -> bool {
        forall|i: int| 0 <= i < self.buf@.len() ==> in_range(self.buf@[i] as int)
    }

    /// A delay line of `delay` samples, initially carrying silence.
    pub fn new(delay: usize) -> (r: Self)
        ensures
            r.delay() == delay as nat,
            r.buf@ == Seq::new(delay as nat, |i: int| 0i64),
            r.wf(),
    {
        let mut buf: Vec<i64> = Vec::new();
        let mut i: usize = 0;
        while i < delay
            invariant
                i <= delay,
                buf@ == Seq::new(i as nat, |j: int| 0i64),
            decreases delay - i,
        {
            buf.push(0);
            proof {
                assert(buf@ =~= Seq::new((i + 1) as nat, |j: int| 0i64));
            }
            i = i + 1;
        }
        DelayLine { buf }
    }

    /// Shift the waveform by the configured delay: the carried samples come
    /// out first, the same number of trailing input samples is carried over,
    /// and the sample count is preserved.
    pub fn process_waveform(&mut self, waveform: &mut Vec<i64>)
        requires
            old(self).wf(),
            forall|i: int| 0 <= i < old(waveform)@.len() ==> in_range(old(waveform)@[i] as int),
        ensures
            final(waveform)@.len() == old(waveform)@.len(),
            final(self).delay() == old(self).delay(),
            final(waveform)@ == (old(self).buf@ + old(waveform)@).take(old(waveform)@.len() as int),
            final(self).buf@ == (old(self).buf@ + old(waveform)@).skip(old(waveform)@.len() as int),
            final(self).wf(),
            forall|i: int|
                0 <= i < final(waveform)@.len() ==> in_range(final(waveform)@[i] as int),
    {
        let ghost combined = old(self).buf@ + old(waveform)@;
        let n: usize = waveform.len();
        let d: usize = self.buf.len();
        let mut out: Vec<i64> = Vec::new();
        let mut i: usize = 0;
        while i < n
            invariant
                i <= n,
                n == waveform@.len(),
                d == self.buf@.len(),
                combined == self.buf@ + waveform@,
                out@ == combined.take(i as int),
            decreases n - i,
        {
            let v: i64 = if i < d {
                self.buf[i]
            } else {
                waveform[i - d]
            };
            out.push(v);
            proof {
                assert(out@ =~= combined.take(i + 1));
            }
            i = i + 1;
        }
        let mut carry: Vec<i64> = Vec::new();
        let mut j: usize = 0;
        while j < d
            invariant
                j <= d,
                n == waveform@.len(),
                d == self.buf@.len(),
                combined == self.buf@ + waveform@,
                carry@ == combined.subrange(n as int, n + j),
            decreases d - j,
        {
            let v: i64 = if n < d - j {
                self.buf[n + j]
            } else {
                waveform[n - (d - j)]
            };
            carry.push(v);
            proof {
                assert(carry@ =~= combined.subrange(n as int, n + j + 1));
            }
            j = j + 1;
        }
        *waveform = out;
        self.buf = carry;
        proof {
            assert(final(self).buf@ =~= combined.skip(n as int));
        }
    }
}

} // verus!
