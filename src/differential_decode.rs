use vstd::prelude::*;
use crate::fft::{FftPoint, reported_phase};

verus! {

/// Bins weaker than this many thousandths count as noise.
pub const NOISE_THRESHOLD: u64 = 5000;

/// The size of the phase circle in the units of `FftPoint::phase`.
pub const PHASE_CIRCLE: u64 = 0x1_0000_0000;

/// What one carrier shows in one window.
#[derive(Copy, Clone, Debug, PartialEq, Eq, Structural)]
pub enum DecodeResult {
    /// A new symbol value on this carrier.
    Signal(u64),
    /// The carrier still holds the value it last showed.
    SameSignal,
    /// Nothing on this carrier, or the first window of a tone.
    Noise,
}

/// The phase that went from `last` to `current`, wrapped onto the circle.
pub open spec fn phase_shift(last: u32, current: u32) -> int {
    (last as int - current as int) % (PHASE_CIRCLE as int)
}

/// The bucket of a phase shift: the nearest multiple of `1 / buckets` of
/// the circle, that is `floor(shift * buckets / circle + 1/2) mod buckets`.
pub open spec fn phase_bucket(buckets: int, shift: int) -> int {
    ((shift * buckets + PHASE_CIRCLE as int / 2) / PHASE_CIRCLE as int) % buckets
}

/// The window count of strong windows in a row after one more window.
pub open spec fn next_in_a_row(in_a_row: nat, point: FftPoint) -> nat {
    if point.amplitude < NOISE_THRESHOLD {
        0
    } else if in_a_row < u64::MAX {
        in_a_row + 1
    } else {
        in_a_row
    }
}

/// What the edge detector alone reports for a window.
pub open spec fn signal_kind(in_a_row: nat, point: FftPoint) -> DecodeResult {
    let n = next_in_a_row(in_a_row, point);
    if n == 0 || n == 1 {
        DecodeResult::Noise
    } else if n == 2 {
        DecodeResult::Signal(0)
    } else {
        DecodeResult::SameSignal
    }
}

/// Reads one carrier: tells noise from tone, and turns the phase step
/// between consecutive tones into a bucket.
#[derive(Copy, Clone, Debug)]
pub struct DifferentialDecoder {
    phase_buckets: u64,
    last_phase: Option<u32>,
    in_a_row: u64,
}

impl DifferentialDecoder {
    pub closed spec fn spec_phase_buckets(&self) -> nat {
        self.phase_buckets as nat
    }

    /// The phase of the last tone read, the reference for the next one.
    pub closed spec fn spec_last_phase(&self) -> Option<u32> {
        self.last_phase
    }

    /// How many strong windows came in a row up to now.
    pub closed spec fn spec_in_a_row(&self) -> nat {
        self.in_a_row as nat
    }

    pub open spec fn wf(&self) -> bool {
        1 <= self.spec_phase_buckets() <= PHASE_CIRCLE
    }

    /// What `sample` reports for `point`.
    pub open spec fn spec_result(&self, point: FftPoint) -> DecodeResult {
        match signal_kind(self.spec_in_a_row(), point) {
            DecodeResult::Signal(_) => DecodeResult::Signal(
                phase_bucket(
                    self.spec_phase_buckets() as int,
                    match self.spec_last_phase() {
                        Some(last) => phase_shift(last, reported_phase(point)),
                        None => 0,
                    },
                ) as u64,
            ),
            other => other,
        }
    }

    /// `next` is the state after `sample` read `point`.
    pub open spec fn spec_next(&self, point: FftPoint, next: DifferentialDecoder) -> bool {
        &&& next.spec_phase_buckets() == self.spec_phase_buckets()
        &&& next.spec_in_a_row() == next_in_a_row(self.spec_in_a_row(), point)
        &&& next.spec_last_phase() == if self.spec_result(point) is Signal {
            Some(reported_phase(point))
        } else {
            self.spec_last_phase()
        }
    }

    pub fn new(phase_buckets: u64) -> (r: Self)
        requires
            1 <= phase_buckets <= PHASE_CIRCLE,
        ensures
            r.wf(),
            r.spec_phase_buckets() == phase_buckets,
            r.spec_last_phase() is None,
            r.spec_in_a_row() == 0,
    {
        Self { phase_buckets, last_phase: None, in_a_row: 0 }
    }

    /// Counts strong windows: the first of a run is taken for the edge of a
    /// tone (`Noise`), the second stands for it (`Signal`), the rest repeat
    /// it (`SameSignal`). A weak window ends the run.
    pub fn is_signal(&mut self, point: &FftPoint) -> (r: DecodeResult)
        ensures
            r == signal_kind(old(self).spec_in_a_row(), *point),
            final(self).spec_in_a_row() == next_in_a_row(old(self).spec_in_a_row(), *point),
            final(self).spec_phase_buckets() == old(self).spec_phase_buckets(),
            final(self).spec_last_phase() == old(self).spec_last_phase(),
    {
        if point.amplitude() < NOISE_THRESHOLD {
            self.in_a_row = 0;
            return DecodeResult::Noise;
        }
        self.in_a_row = self.in_a_row.saturating_add(1);
        if self.in_a_row == 1 {
            DecodeResult::Noise
        } else if self.in_a_row == 2 {
            DecodeResult::Signal(0)
        } else {
            DecodeResult::SameSignal
        }
    }

    /// The bucket of a phase shift given in units of `2^-32` of the circle.
    fn phase_find_bucket(&self, shift: u32) -> (r: u64)
        requires
            self.wf(),
        ensures
            r == phase_bucket(self.spec_phase_buckets() as int, shift as int),
    {
        let b = self.phase_buckets as u128;
        proof {
            assert(shift as int * b <= 0xffff_ffff * 0x1_0000_0000) by (nonlinear_arith)
                requires shift <= 0xffff_ffffu32, b <= 0x1_0000_0000;
        }
        let scaled = (shift as u128 * b + 0x8000_0000) / 0x1_0000_0000;
        (scaled % b) as u64
    }

    /// Reads one window of this carrier. On the window that stands for a
    /// tone, the bucket is that of the phase step from the previous tone (none
    /// before the first), and the tone's phase becomes the new reference.
    pub fn sample(&mut self, point: &FftPoint) -> (r: DecodeResult)
        requires
            old(self).wf(),
        ensures
            final(self).wf(),
            r == old(self).spec_result(*point),
            old(self).spec_next(*point, *final(self)),
    {
        match self.is_signal(point) {
            DecodeResult::Signal(_) => {},
            x => {
                return x;
            },
        }
        let phase = point.phase();
        let mut shift: u32 = 0;
        if let Some(last_phase) = self.last_phase {
            shift = last_phase.wrapping_sub(phase);
            proof {
                assert(shift as int == phase_shift(last_phase, phase));
            }
        }
        self.last_phase = Some(phase);
        DecodeResult::Signal(self.phase_find_bucket(shift))
    }
}

} // verus!
