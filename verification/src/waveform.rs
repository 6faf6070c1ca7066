//! The scrolling waveform display: a ring of the most recent samples.
use vstd::arithmetic::div_mod::{lemma_mod_self_0, lemma_small_mod};
use crate::bits::{bits_abs, bits_lt, lt, magnitude};
use crate::patch::{BITS_ZERO, Bits};
use vstd::prelude::*;

verus! {

/// Default ring capacity in samples: two seconds at 48 kHz.
pub const DEFAULT_CAPACITY: usize = 96_000;

/// Default number of samples on display.
pub const DEFAULT_WINDOW: usize = 4096;

/// A ring of audio samples.
#[derive(Clone, Debug)]
pub struct WaveformState {
    buffer: Vec<Bits>,
    write: usize,
    total: usize,
    capacity: usize,
}

/// The mathematical value of a [`WaveformState`].
#[verifier::ext_equal]
pub struct WaveformModel {
    /// The samples kept, oldest first.
    pub samples: Seq<Bits>,
    /// How many samples were ever written.
    pub total: nat,
    /// How many samples can be kept.
    pub capacity: nat,
}

impl View for WaveformState {
    type V = WaveformModel;

    closed spec fn view(&self) -> WaveformModel {
        WaveformModel {
            samples: ring(
                self.buffer@,
                self.write as int,
                kept(self.total as nat, self.capacity as nat),
            ),
            total: self.total as nat,
            capacity: self.capacity as nat,
        }
    }
}

/// How many samples are kept of all that were written.
pub open spec fn kept(total: nat, capacity: nat) -> nat {
    if total < capacity {
        total
    } else {
        capacity
    }
}

/// The last `n` items of a sequence, or all there are.
pub open spec fn last_of(s: Seq<Bits>, n: nat) -> Seq<Bits> {
    if s.len() <= n {
        s
    } else {
        s.skip(s.len() - n)
    }
}

/// The `n` cells behind the cursor of a ring, oldest first.
spec fn ring(buffer: Seq<Bits>, write: int, n: nat) -> Seq<Bits> {
    Seq::new(n, |i: int| buffer[cell(write - n + i, buffer.len() as int)])
}

/// The cell at an index of a ring of `size` cells that may lie one round before
/// its start.
spec fn cell(i: int, size: int) -> int {
    if i < 0 {
        i + size
    } else {
        i
    }
}

/// A waveform after one more sample.
pub open spec fn sampled(w: WaveformModel, s: Bits) -> WaveformModel {
    WaveformModel {
        samples: last_of(w.samples.push(s), w.capacity),
        total: w.total + 1,
        capacity: w.capacity,
    }
}

/// A waveform after a block of samples.
pub open spec fn sampled_all(w: WaveformModel, block: Seq<Bits>) -> WaveformModel {
    WaveformModel {
        samples: last_of(w.samples + block, w.capacity),
        total: w.total + block.len(),
        capacity: w.capacity,
    }
}

impl WaveformState {
    /// The cursor is in the buffer; before the first round it counts the samples.
    pub closed spec fn wf(&self) -> bool {
        &&& self.capacity > 0
        &&& self.buffer@.len() == self.capacity
        &&& self.write < self.capacity
        &&& self.total < self.capacity ==> self.write == self.total
    }

    /// An empty ring that keeps `capacity` samples, at least one.
    pub fn new(capacity: usize) -> (w: Self)
        ensures
            w.wf(),
            w@ == (WaveformModel {
                samples: Seq::empty(),
                total: 0,
                capacity: if capacity == 0 {
                    1
                } else {
                    capacity as nat
                },
            }),
    {
        let capacity: usize = if capacity == 0 {
            1
        } else {
            capacity
        };
        let w = WaveformState { buffer: vec![BITS_ZERO; capacity], write: 0, total: 0, capacity };
        assert(w@.samples =~= Seq::empty());
        w
    }

    /// Append a block of samples.
    pub fn push(&mut self, samples: &[Bits])
        requires
            old(self).wf(),
            old(self)@.total + samples@.len() <= usize::MAX,
        ensures
            final(self).wf(),
            final(self)@ == sampled_all(old(self)@, samples@),
    {
        let mut i: usize = 0;
        proof {
            kept_is_bounded(*self);
            assert(samples@.take(0) =~= Seq::empty());
            assert(self@.samples + samples@.take(0) =~= self@.samples);
        }
        while i < samples.len()
            invariant
                i <= samples@.len(),
                self.wf(),
                self@ == sampled_all(old(self)@, samples@.take(i as int)),
                self@.total == old(self)@.total + i,
                old(self)@.total + samples@.len() <= usize::MAX,
            decreases samples@.len() - i,
        {
            self.push_sample(samples[i]);
            proof {
                let whole = old(self)@.samples + samples@.take(i as int);
                assert(samples@.take(i as int + 1) =~= samples@.take(i as int).push(
                    samples@[i as int],
                ));
                assert(old(self)@.samples + samples@.take(i as int + 1) =~= whole.push(
                    samples@[i as int],
                ));
                last_of_push(whole, samples@[i as int], old(self)@.capacity);
            }
            i = i + 1;
        }
        assert(samples@.take(i as int) =~= samples@);
    }

    /// Append one sample.
    pub fn push_sample(&mut self, sample: Bits)
        requires
            old(self).wf(),
            old(self)@.total < usize::MAX,
        ensures
            final(self).wf(),
            final(self)@ == sampled(old(self)@, sample),
    {
        let ghost before = self@;
        self.buffer.set(self.write, sample);
        self.write = (self.write + 1) % self.capacity;
        self.total = self.total + 1;
        proof {
            if old(self).write + 1 < self.capacity {
                lemma_small_mod((old(self).write + 1) as nat, self.capacity as nat);
            } else {
                lemma_mod_self_0(self.capacity as int);
            }
            assert(self@.samples =~= last_of(before.samples.push(sample), before.capacity));
        }
    }

    /// How many samples are kept.
    pub fn len(&self) -> (n: usize)
        requires
            self.wf(),
        ensures
            n == self@.samples.len(),
            n == kept(self@.total, self@.capacity),
    {
        if self.total < self.capacity {
            self.total
        } else {
            self.capacity
        }
    }

    /// How many samples were ever written.
    pub fn written(&self) -> (n: usize)
        ensures
            n == self@.total,
    {
        self.total
    }

    /// Whether no sample was written yet.
    pub fn is_empty(&self) -> (r: bool)
        requires
            self.wf(),
        ensures
            r == (self@.samples.len() == 0),
    {
        self.total == 0
    }

    /// The most recent `count` samples in chronological order, fewer where fewer
    /// are kept.
    pub fn recent(&self, count: usize) -> (samples: Vec<Bits>)
        requires
            self.wf(),
        ensures
            samples@ == last_of(self@.samples, count as nat),
    {
        let len: usize = self.len();
        let available: usize = if len < count {
            len
        } else {
            count
        };
        let start: usize = if self.write >= available {
            self.write - available
        } else {
            self.capacity - (available - self.write)
        };
        let mut samples: Vec<Bits> = Vec::new();
        let mut i: usize = 0;
        let mut at: usize = start;
        let ghost want = last_of(self@.samples, count as nat);
        while i < available
            invariant
                self.wf(),
                i <= available <= self.capacity,
                available <= kept(self.total as nat, self.capacity as nat),
                want == last_of(self@.samples, count as nat),
                want.len() == available,
                want == self@.samples.skip(self@.samples.len() - available),
                i < available ==> at == cell(
                    self.write - available + i,
                    self.capacity as int,
                ),
                samples@ == want.take(i as int),
            decreases available - i,
        {
            assert(want[i as int] == self.buffer@[at as int]);
            samples.push(self.buffer[at]);
            at = if at + 1 == self.capacity {
                0
            } else {
                at + 1
            };
            i = i + 1;
            assert(samples@ =~= want.take(i as int));
        }
        assert(samples@ =~= want);
        samples
    }

    /// Forget all samples.
    pub fn reset(&mut self)
        requires
            old(self).wf(),
        ensures
            final(self).wf(),
            final(self)@ == (WaveformModel {
                samples: Seq::empty(),
                total: 0,
                capacity: old(self)@.capacity,
            }),
    {
        self.buffer = vec![BITS_ZERO; self.capacity];
        self.write = 0;
        self.total = 0;
        assert(self@.samples =~= Seq::empty());
    }

    /// How many samples can be kept.
    pub fn capacity(&self) -> (n: usize)
        ensures
            n == self@.capacity,
    {
        self.capacity
    }

    /// The samples to draw in a window of `window` samples.
    pub fn window(&self, window: usize) -> (samples: Vec<Bits>)
        requires
            self.wf(),
        ensures
            samples@ == last_of(self@.samples, window as nat),
    {
        let n: usize = if window < self.capacity {
            window
        } else {
            self.capacity
        };
        self.recent(n)
    }
}

impl Default for WaveformState {
    fn default() -> (w: Self)
        ensures
            w.wf(),
            w@ == (WaveformModel {
                samples: Seq::empty(),
                total: 0,
                capacity: DEFAULT_CAPACITY as nat,
            }),
    {
        WaveformState::new(DEFAULT_CAPACITY)
    }
}

/// As many samples are kept as the capacity allows.
pub proof fn kept_is_bounded(w: WaveformState)
    requires
        w.wf(),
    ensures
        w@.samples.len() == kept(w@.total, w@.capacity),
        w@.samples.len() <= w@.capacity,
{
}

/// Appending in front of cutting to the last items, or behind it, comes to the
/// same.
proof fn last_of_push(s: Seq<Bits>, x: Bits, n: nat)
    requires
        n > 0,
    ensures
        last_of(last_of(s, n).push(x), n) == last_of(s.push(x), n),
{
    assert(last_of(last_of(s, n).push(x), n) =~= last_of(s.push(x), n));
}

/// Blocks may be cut anywhere: appending two in turn is appending their
/// concatenation.
pub proof fn blocks_join(w: WaveformModel, a: Seq<Bits>, b: Seq<Bits>)
    ensures
        sampled_all(sampled_all(w, a), b) == sampled_all(w, a + b),
{
    let x = sampled_all(sampled_all(w, a), b).samples;
    let y = sampled_all(w, a + b).samples;
    assert(w.samples + (a + b) =~= (w.samples + a) + b);
    assert(x =~= y);
}

/// Whether a sample is louder than the display reaches.
pub open spec fn too_loud(samples: Seq<Bits>, amplitude: Bits) -> bool {
    exists|i: int| 0 <= i < samples.len() && lt(amplitude, magnitude(#[trigger] samples[i]))
}

/// Whether the display marks clipping: a sample exceeds the amplitude that fills
/// it, either way.
pub fn clips(samples: &[Bits], amplitude: Bits) -> (r: bool)
    ensures
        r == too_loud(samples@, amplitude),
{
    let mut i: usize = 0;
    while i < samples.len()
        invariant
            i <= samples@.len(),
            forall|j: int| 0 <= j < i ==> !lt(amplitude, magnitude(#[trigger] samples@[j])),
        decreases samples@.len() - i,
    {
        if bits_lt(amplitude, bits_abs(samples[i])) {
            return true;
        }
        i = i + 1;
    }
    false
}

/// The last items of a sequence are its end, in order: as many as asked for, or all
/// there are.
pub proof fn the_last_are_the_end(s: Seq<Bits>, n: nat, i: int)
    ensures
        s.len() <= n ==> last_of(s, n) == s,
        s.len() > n ==> last_of(s, n).len() == n,
        s.len() > n && 0 <= i < n ==> last_of(s, n)[i] == s[s.len() - n + i],
{
}

/// A sample that is appended is the latest, behind those that were there; only when
/// the ring is full is the oldest lost. A block is appended sample by sample.
pub proof fn samples_are_appended(w: WaveformModel, block: Seq<Bits>, x: Bits)
    requires
        w.samples.len() <= w.capacity,
        w.capacity > 0,
    ensures
        ({
            let after = sampled(w, x);
            &&& after.samples.len() > 0 && after.samples.last() == x
            &&& w.samples.len() < w.capacity ==> after.samples.drop_last() == w.samples
            &&& w.samples.len() == w.capacity ==> after.samples.drop_last()
                == w.samples.drop_first()
            &&& after.total == w.total + 1
            &&& after.capacity == w.capacity
        }),
        sampled_all(w, Seq::empty()) == w,
        sampled_all(w, block.push(x)) == sampled(sampled_all(w, block), x),
{
    let after = sampled(w, x);
    if w.samples.len() < w.capacity {
        assert(after.samples.drop_last() =~= w.samples);
    } else {
        assert(after.samples.drop_last() =~= w.samples.drop_first());
    }
    assert(w.samples + Seq::empty() =~= w.samples);
    assert(w.samples + block.push(x) =~= (w.samples + block).push(x));
    last_of_push(w.samples + block, x, w.capacity);
}

/// Clipping is marked for a sample outside the display, above or below.
pub proof fn either_side_clips(samples: Seq<Bits>, amplitude: Bits, i: int)
    requires
        0 <= i < samples.len(),
        amplitude <= 0x7F80_0000,
    ensures
        amplitude < samples[i] <= 0x7F80_0000 ==> too_loud(samples, amplitude),
        0x8000_0000 + amplitude < samples[i] <= 0xFF80_0000 ==> too_loud(samples, amplitude),
        (forall|j: int|
            0 <= j < samples.len() ==> #[trigger] samples[j] <= amplitude || 0x8000_0000
                <= samples[j] <= 0x8000_0000 + amplitude) ==> !too_loud(samples, amplitude),
{
    if amplitude < samples[i] <= 0x7F80_0000 || 0x8000_0000 + amplitude < samples[i]
        <= 0xFF80_0000 {
        assert(lt(amplitude, magnitude(samples[i])));
    }
}

} // verus!
