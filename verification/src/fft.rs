//! The samples that a spectrum is made of: the newest of each channel.

use vstd::prelude::*;

verus! {

/// Samples that one spectrum takes.
pub const FFT_SIZE: usize = 2048;

/// Samples of each channel that are kept.
pub const MAX_BUFFER_SIZE: usize = 8192;

/// The newest samples of two channels, in two rings of one length.
pub struct StereoSampleBuffer<T> {
    pub left: Vec<T>,
    pub right: Vec<T>,
    /// Where the next sample goes.
    pub write_pos: usize,
    /// Samples that are held.
    pub len: usize,
    pub enabled: bool,
}

/// The last `k` of a sequence, or all of it.
pub open spec fn newest<T>(s: Seq<T>, k: int) -> Seq<T> {
    if s.len() > k {
        s.skip(s.len() - k)
    } else {
        s
    }
}

/// The pairs of an interleaved sequence; an odd sample at the end belongs to
/// none.
pub open spec fn pairs_of<T>(interleaved: Seq<T>) -> Seq<(T, T)> {
    Seq::new(
        (interleaved.len() / 2) as nat,
        |i: int| (interleaved[2 * i], interleaved[2 * i + 1]),
    )
}

impl<T: Copy> StereoSampleBuffer<T> {
    /// The buffer's invariant.
    pub open spec fn wf(&self) -> bool {
        &&& self.left@.len() == MAX_BUFFER_SIZE
        &&& self.right@.len() == MAX_BUFFER_SIZE
        &&& self.write_pos < MAX_BUFFER_SIZE
        &&& self.len <= MAX_BUFFER_SIZE
    }

    /// Where the sample `i` of those that are held lies, the oldest first.
    pub open spec fn place(&self, i: int) -> int {
        (self.write_pos - self.len + i + MAX_BUFFER_SIZE) % MAX_BUFFER_SIZE as int
    }

    /// What is held, the oldest first.
    pub open spec fn held(&self) -> Seq<(T, T)> {
        Seq::new(
            self.len as nat,
            |i: int| (self.left@[self.place(i)], self.right@[self.place(i)]),
        )
    }

    /// An empty buffer; `fill` stands where no sample is.
    pub fn new(fill: T) -> (r: Self)
        ensures
            r.wf(),
            r.held() == Seq::<(T, T)>::empty(),
            r.write_pos == 0,
            r.len == 0,
            !r.enabled,
    {
        let mut left: Vec<T> = Vec::new();
        let mut right: Vec<T> = Vec::new();
        let mut i: usize = 0;
        while i < MAX_BUFFER_SIZE
            invariant
                i <= MAX_BUFFER_SIZE,
                left@.len() == i,
                right@.len() == i,
            decreases MAX_BUFFER_SIZE - i,
        {
            left.push(fill);
            right.push(fill);
            i += 1;
        }
        let r = StereoSampleBuffer { left, right, write_pos: 0, len: 0, enabled: false };
        assert(r.held() =~= Seq::<(T, T)>::empty());
        r
    }

    fn push_pair(&mut self, l: T, r: T)
        requires
            old(self).wf(),
        ensures
            final(self).wf(),
            final(self).held() == newest(old(self).held().push((l, r)), MAX_BUFFER_SIZE as int),
            final(self).write_pos == (old(self).write_pos + 1) % MAX_BUFFER_SIZE as int,
            final(self).len == if old(self).len < MAX_BUFFER_SIZE {
                old(self).len + 1
            } else {
                MAX_BUFFER_SIZE as int
            },
            final(self).enabled == old(self).enabled,
    {
        let ghost before = *self;
        let at: usize = self.write_pos;
        self.left.set(at, l);
        self.right.set(at, r);
        self.write_pos = (at + 1) % MAX_BUFFER_SIZE;
        if self.len < MAX_BUFFER_SIZE {
            self.len = self.len + 1;
        }
        proof {
            let want = newest(before.held().push((l, r)), MAX_BUFFER_SIZE as int);
            let n = MAX_BUFFER_SIZE as int;
            assert(want.len() == self.len);
            assert forall|i: int| 0 <= i < self.len implies self.held()[i] == want[i] by {
                if before.len < n {
                    assert(self.write_pos - self.len + i + n == before.write_pos - before.len + i
                        + n || self.write_pos - self.len + i + n == before.write_pos - before.len
                        + i);
                    assert(self.place(i) == before.place(i));
                    if i == before.len {
                        assert(before.place(i) == before.write_pos);
                    } else {
                        assert(before.place(i) != before.write_pos);
                    }
                } else {
                    assert(self.place(i) == before.place(i + 1));
                    if i == n - 1 {
                        assert(before.place(i + 1) == before.write_pos);
                    } else {
                        assert(before.place(i + 1) != before.write_pos);
                    }
                }
            }
            assert(self.held() =~= want);
        }
    }

    /// Adds samples of two channels that alternate, the left one first. The
    /// oldest go where there is no room; an odd sample at the end is dropped.
    pub fn push_interleaved_samples(&mut self, interleaved: &[T])
        requires
            old(self).wf(),
        ensures
            final(self).wf(),
            final(self).held() == newest(
                old(self).held() + pairs_of(interleaved@),
                MAX_BUFFER_SIZE as int,
            ),
            final(self).write_pos == (old(self).write_pos + interleaved@.len() / 2)
                % MAX_BUFFER_SIZE as int,
            final(self).enabled == old(self).enabled,
    {
        let count: usize = interleaved.len() / 2;
        let ghost start = self.held();
        let ghost pairs = pairs_of(interleaved@);
        let ghost from = self.write_pos as int;
        let ghost n = MAX_BUFFER_SIZE as int;
        let mut i: usize = 0;
        assert(start + pairs.take(0) =~= start);
        while i < count
            invariant
                i <= count,
                count == interleaved.len() / 2,
                count == interleaved@.len() / 2,
                n == MAX_BUFFER_SIZE,
                pairs == pairs_of(interleaved@),
                self.wf(),
                self.held() == newest(start + pairs.take(i as int), n),
                self.write_pos == (from + i) % n,
                self.enabled == old(self).enabled,
                start == old(self).held(),
                from == old(self).write_pos,
            decreases count - i,
        {
            let ghost so_far = start + pairs.take(i as int);
            self.push_pair(interleaved[2 * i], interleaved[2 * i + 1]);
            proof {
                let pair = pairs[i as int];
                assert(start + pairs.take(i + 1) =~= so_far.push(pair));
                assert(newest(newest(so_far, n).push(pair), n) =~= newest(so_far.push(pair), n));
                assert((from + i + 1) % n == ((from + i) % n + 1) % n);
            }
            i += 1;
        }
        assert(pairs.take(count as int) =~= pairs);
    }

    /// Forgets all samples.
    pub fn reset(&mut self)
        requires
            old(self).wf(),
        ensures
            final(self).wf(),
            final(self).held() == Seq::<(T, T)>::empty(),
            final(self).write_pos == 0,
            final(self).len == 0,
            final(self).enabled == old(self).enabled,
    {
        self.write_pos = 0;
        self.len = 0;
        assert(self.held() =~= Seq::<(T, T)>::empty());
    }

    /// Switches the analysis on or off. Where it is switched on, it begins with
    /// no samples.
    pub fn set_enabled(&mut self, enabled: bool)
        requires
            old(self).wf(),
        ensures
            final(self).wf(),
            final(self).enabled == enabled,
            final(self).held() == if enabled && !old(self).enabled {
                Seq::<(T, T)>::empty()
            } else {
                old(self).held()
            },
    {
        let was_enabled: bool = self.enabled;
        self.enabled = enabled;
        if enabled && !was_enabled {
            self.reset();
        } else {
            assert(self.held() =~= old(self).held());
        }
    }

    /// Whether the analysis is switched on.
    pub fn is_enabled(&self) -> (r: bool)
        ensures
            r == self.enabled,
    {
        self.enabled
    }

    /// The newest samples of each channel that one spectrum takes; `None` while
    /// there are too few.
    pub fn latest(&self) -> (r: Option<(Vec<T>, Vec<T>)>)
        requires
            self.wf(),
        ensures
            match r {
                Some((left, right)) => {
                    &&& self.len >= FFT_SIZE
                    &&& left@.len() == FFT_SIZE
                    &&& right@.len() == FFT_SIZE
                    &&& forall|i: int|
                        0 <= i < FFT_SIZE ==> (#[trigger] left@[i], right@[i])
                            == self.held()[self.len - FFT_SIZE + i]
                },
                None => self.len < FFT_SIZE,
            },
    {
        if self.len < FFT_SIZE {
            return None;
        }
        let start: usize = (self.write_pos + MAX_BUFFER_SIZE - FFT_SIZE) % MAX_BUFFER_SIZE;
        let mut left: Vec<T> = Vec::new();
        let mut right: Vec<T> = Vec::new();
        let mut i: usize = 0;
        while i < FFT_SIZE
            invariant
                i <= FFT_SIZE,
                self.wf(),
                self.len >= FFT_SIZE,
                start == (self.write_pos + MAX_BUFFER_SIZE - FFT_SIZE) % MAX_BUFFER_SIZE as int,
                left@.len() == i,
                right@.len() == i,
                forall|k: int|
                    0 <= k < i ==> (#[trigger] left@[k], right@[k]) == self.held()[self.len
                        - FFT_SIZE + k],
            decreases FFT_SIZE - i,
        {
            let at: usize = (start + i) % MAX_BUFFER_SIZE;
            assert(at == self.place(self.len - FFT_SIZE + i));
            left.push(self.left[at]);
            right.push(self.right[at]);
            i += 1;
        }
        Some((left, right))
    }
}

/// Pushing two rows of samples one after the other is pushing them as one, where
/// the first is even.
pub proof fn law_pushes_join<T>(held: Seq<(T, T)>, a: Seq<T>, b: Seq<T>)
    requires
        a.len() % 2 == 0,
    ensures
        newest(newest(held + pairs_of(a), MAX_BUFFER_SIZE as int) + pairs_of(b), MAX_BUFFER_SIZE
            as int) == newest(held + pairs_of(a + b), MAX_BUFFER_SIZE as int),
{
    let n = MAX_BUFFER_SIZE as int;
    assert(pairs_of(a + b) =~= pairs_of(a) + pairs_of(b));
    assert(newest(newest(held + pairs_of(a), n) + pairs_of(b), n) =~= newest(
        held + pairs_of(a + b),
        n,
    ));
}

/// The newest samples are always held, and never more than there is room for.
pub proof fn law_newest_samples_are_kept<T>(s: Seq<T>, k: int)
    requires
        0 <= k,
    ensures
        newest(s, k).len() <= k,
        newest(s, k).len() == s.len() || newest(s, k).len() == k,
        forall|i: int|
            0 <= i < newest(s, k).len() ==> #[trigger] newest(s, k)[i] == s[s.len() - newest(
                s,
                k,
            ).len() + i],
{
}

/// Samples come in pairs, left before right; a sample without its pair is left out.
/// The buffer holds four windows of 2048 pairs.
pub proof fn law_samples_come_in_pairs<T>(pairs: Seq<(T, T)>, samples: Seq<T>)
    requires
        samples.len() == 2 * pairs.len() || samples.len() == 2 * pairs.len() + 1,
        forall|i: int|
            0 <= i < pairs.len() ==> samples[2 * i] == (#[trigger] pairs[i]).0 && samples[2 * i + 1]
                == pairs[i].1,
    ensures
        pairs_of(samples) == pairs,
        FFT_SIZE == 2048,
        MAX_BUFFER_SIZE == 4 * FFT_SIZE,
{
    assert(pairs_of(samples) =~= pairs);
}

} // verus!
