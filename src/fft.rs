use vstd::prelude::*;

verus! {

/// Amplitudes below this many thousandths have no meaningful phase.
pub const PHASE_FLOOR: u64 = 10;

/// One bin of a DFT: its amplitude, in thousandths, and its phase, as a
/// fraction of the phase circle in units of `2^-32`. The phase circle is the
/// span over which the sender spreads its phase buckets: half a turn of the
/// bin's angle (`pi` radians), since a tone at bucket `d` of `B` starts at
/// `d / B * pi` radians. A caller measuring the angle `a` of a bin in radians
/// passes `(a / pi) mod 1` of the circle.
#[derive(Copy, Clone, Debug, PartialEq, Eq, Structural)]
pub struct FftPoint {
    pub amplitude: u64,
    pub phase: u32,
}

/// The phase that a bin reports: none at all (zero) when the bin is too weak
/// for its angle to mean anything.
pub open spec fn reported_phase(p: FftPoint) -> u32 {
    if p.amplitude < PHASE_FLOOR {
        0
    } else {
        p.phase
    }
}

impl FftPoint {
    pub fn new(amplitude: u64, phase: u32) -> (r: Self)
        ensures
            r.amplitude == amplitude && r.phase == phase,
    {
        Self { amplitude, phase }
    }

    pub fn amplitude(&self) -> (r: u64)
        ensures
            r == self.amplitude,
    {
        self.amplitude
    }

    pub fn phase(&self) -> (r: u32)
        ensures
            r == reported_phase(*self),
    {
        if self.amplitude < PHASE_FLOOR {
            0
        } else {
            self.phase
        }
    }
}

/// `k` is the strongest of the first `n` bins, and no bin below it is as
/// strong.
pub open spec fn is_peak(points: Seq<FftPoint>, n: int, k: int) -> bool {
    &&& 0 <= k < n <= points.len()
    &&& forall|j: int| 0 <= j < n ==> #[trigger] points[j].amplitude <= points[k].amplitude
    &&& forall|j: int| 0 <= j < k ==> #[trigger] points[j].amplitude < points[k].amplitude
}

/// The bins of one transformed window, in order of frequency; the upper half
/// mirrors the lower.
pub struct FftDecoder {
    points: Vec<FftPoint>,
}

impl View for FftDecoder {
    type V = Seq<FftPoint>;

    closed spec fn view(&self) -> Seq<FftPoint> {
        self.points@
    }
}

impl FftDecoder {
    pub fn from_points(points: Vec<FftPoint>) -> (r: Self)
        ensures
            r@ == points@,
    {
        Self { points }
    }

    pub fn len(&self) -> (r: usize)
        ensures
            r == self@.len(),
    {
        self.points.len()
    }

    /// How many bins stand for positive frequencies: half of them.
    pub fn positive_len(&self) -> (r: usize)
        ensures
            r == self@.len() / 2,
    {
        self.points.len() / 2
    }

    pub fn point(&self, index: usize) -> (r: FftPoint)
        requires
            index < self@.len(),
        ensures
            r == self@[index as int],
    {
        self.points[index]
    }

    /// The bin of the strongest positive frequency; the lowest such bin where
    /// several are equally strong.
    pub fn peak_bin(&self) -> (k: usize)
        requires
            self@.len() >= 2,
        ensures
            is_peak(self@, self@.len() as int / 2, k as int),
    {
        let n = self.positive_len();
        let mut best: usize = 0;
        let mut i: usize = 1;
        while i < n
            invariant
                n == self@.len() / 2,
                1 <= i <= n,
                is_peak(self@, i as int, best as int),
            decreases n - i,
        {
            if self.points[i].amplitude > self.points[best].amplitude {
                best = i;
            }
            i += 1;
        }
        best
    }

    /// The strongest positive-frequency bin, as `peak_bin` picks it.
    pub fn peak(&self) -> (r: FftPoint)
        requires
            self@.len() >= 2,
        ensures
            exists|k: int| is_peak(self@, self@.len() as int / 2, k) && r == self@[k],
    {
        let k = self.peak_bin();
        self.points[k]
    }
}

} // verus!
