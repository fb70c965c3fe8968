//! The receiver's window on the sample stream.

use vstd::prelude::*;

verus! {

/// The samples that may still be needed, with the absolute index of the first.
pub struct SampleBuffer<T> {
    pub buf: Vec<T>,
    /// Absolute index of `buf[0]`.
    pub buf_abs: u64,
}

/// How many samples a stream may have: absolute indices and the durations
/// added to them stay within 64 bits.
pub const MAX_SAMPLES: u64 = 0x4000_0000_0000_0000;

impl<T> SampleBuffer<T> {
    /// Absolute index just past the last sample.
    pub open spec fn end(&self) -> int {
        self.buf_abs + self.buf@.len()
    }

    /// The stream is not too long.
    pub open spec fn wf(&self) -> bool {
        self.end() <= MAX_SAMPLES
    }

    /// How many samples a trim to `keep_from` drops: those more than 8 before
    /// it, as far as they are there.
    pub open spec fn trimmed(&self, keep_from: u64) -> int {
        let keep = keep_from - 8;
        if keep <= self.buf_abs {
            0
        } else if keep >= self.end() {
            self.buf@.len() as int
        } else {
            keep - self.buf_abs
        }
    }
}

impl<T: Copy> SampleBuffer<T> {
    /// An empty buffer at the start of the stream.
    pub fn new() -> (b: Self)
        ensures
            b.wf(),
            b.buf@ == Seq::<T>::empty(),
            b.buf_abs == 0,
    {
        SampleBuffer { buf: Vec::new(), buf_abs: 0 }
    }

    /// Absolute index just past the last sample: the samples ever pushed.
    pub fn end_abs(&self) -> (e: u64)
        requires
            self.wf(),
        ensures
            e == self.end(),
    {
        self.buf_abs + self.buf.len() as u64
    }

    /// Append samples.
    pub fn push(&mut self, samples: &[T])
        requires
            old(self).end() + samples@.len() <= MAX_SAMPLES,
        ensures
            final(self).buf@ == old(self).buf@ + samples@,
            final(self).buf_abs == old(self).buf_abs,
            final(self).wf(),
    {
        let ghost before = self.buf@;
        proof {
            assert(before =~= before + samples@.take(0));
        }
        for i in 0..samples.len()
            invariant
                self.buf@ == before + samples@.take(i as int),
                self.buf_abs == old(self).buf_abs,
        {
            self.buf.push(samples[i]);
            proof {
                assert(before + samples@.take(i + 1) =~= (before + samples@.take(i as int)).push(
                    samples@[i as int],
                ));
            }
        }
        proof {
            assert(samples@.take(samples@.len() as int) =~= samples@);
        }
    }

    /// Drop what lies more than 8 samples before `keep_from`.
    pub fn trim(&mut self, keep_from: u64)
        requires
            old(self).wf(),
        ensures
            final(self).wf(),
            final(self).buf_abs == old(self).buf_abs + old(self).trimmed(keep_from),
            final(self).buf@ == old(self).buf@.skip(old(self).trimmed(keep_from)),
            final(self).end() == old(self).end(),
    {
        let end: u64 = self.end_abs();
        let keep: u64 = if keep_from < 8 {
            0
        } else {
            keep_from - 8
        };
        let have: usize = self.buf.len();
        let n: usize = if keep <= self.buf_abs {
            0
        } else if keep >= end {
            have
        } else {
            (keep - self.buf_abs) as usize
        };
        if n > 0 {
            let kept: Vec<T> = self.buf.split_off(n);
            self.buf = kept;
            self.buf_abs = self.buf_abs + n as u64;
        }
        proof {
            assert(self.buf@ =~= old(self).buf@.skip(old(self).trimmed(keep_from)));
        }
    }

    /// The `len` samples at absolute index `abs`, or `None` where they are not
    /// all buffered.
    pub fn extract(&self, abs: u64, len: usize) -> (r: Option<Vec<T>>)
        requires
            self.wf(),
        ensures
            r is Some <==> self.buf_abs <= abs && abs + len <= self.end(),
            r matches Some(v) ==> v@ == self.buf@.subrange(
                abs - self.buf_abs,
                abs - self.buf_abs + len,
            ),
    {
        let end: u64 = self.end_abs();
        if abs < self.buf_abs || abs > end || len as u64 > end - abs {
            return None;
        }
        let have: usize = self.buf.len();
        let start: usize = (abs - self.buf_abs) as usize;
        let mut out: Vec<T> = Vec::with_capacity(len);
        for i in 0..len
            invariant
                start + len <= self.buf@.len(),
                have == self.buf@.len(),
                out@ == self.buf@.subrange(start as int, start + i),
        {
            out.push(self.buf[start + i]);
            proof {
                assert(out@ =~= self.buf@.subrange(start as int, start + i + 1));
            }
        }
        Some(out)
    }
}

/// Sample positions are absolute: pushing samples leaves what is read at a
/// position as it was, and puts the new samples behind.
pub proof fn lemma_push_keeps_positions<T>(before: SampleBuffer<T>, after: SampleBuffer<T>, new: Seq<T>, abs: int)
    requires
        after.buf@ == before.buf@ + new,
        after.buf_abs == before.buf_abs,
    ensures
        before.buf_abs <= abs < before.end() ==> after.buf@[abs - after.buf_abs] == before.buf@[abs
            - before.buf_abs],
        before.end() <= abs < after.end() ==> after.buf@[abs - after.buf_abs] == new[abs
            - before.end()],
{
}

/// Trimming drops only what lies more than 8 samples before the position to
/// keep; every other sample stays at its position.
pub proof fn lemma_trim_keeps_positions<T>(
    before: SampleBuffer<T>,
    after: SampleBuffer<T>,
    keep_from: u64,
    abs: int,
)
    requires
        after.buf_abs == before.buf_abs + before.trimmed(keep_from),
        after.buf@ == before.buf@.skip(before.trimmed(keep_from)),
        before.buf_abs <= abs < before.end(),
        abs >= keep_from - 8,
    ensures
        after.buf_abs <= abs < after.end(),
        after.buf@[abs - after.buf_abs] == before.buf@[abs - before.buf_abs],
{
}

/// A trim keeps every sample from eight before `keep_from` on, and drops every
/// sample before that.
pub proof fn lemma_trim<T>(b: SampleBuffer<T>, keep_from: u64)
    ensures
        0 <= b.trimmed(keep_from) <= b.buf@.len(),
        b.trimmed(keep_from) > 0 ==> b.buf_abs + b.trimmed(keep_from) <= keep_from - 8,
        b.trimmed(keep_from) < b.buf@.len() ==> b.buf_abs + b.trimmed(keep_from) >= keep_from - 8,
        b.end() == b.buf_abs + b.buf@.len(),
{
}

} // verus!
