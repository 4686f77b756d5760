use vstd::prelude::*;
use vstd::arithmetic::power2::{pow2, lemma_pow2_pos, lemma2_to64, lemma_pow2_unfold};
use std::ops::Range;

verus! {

/// Full scale of a volume: a volume is counted in millionths of it.
pub const VOLUME_FULL: u32 = 1_000_000;

/// Which DFT bins carry data, and how each symbol is laid out on them.
///
/// Carrier `i` sits on bin `channel_base + i * channel_step`. Each symbol
/// holds `phase_bits` bits per carrier (`amplitude_bits` is reserved and
/// stays zero), sounds for `symbol_duration` milliseconds, then is silent for
/// `pause_duration` milliseconds. `volume` is the peak amplitude in millionths
/// of full scale.
#[derive(Copy, Clone, Debug)]
pub struct ChannelConfig {
    pub channel_base: usize,
    pub channel_step: usize,
    pub channels: usize,
    pub symbol_duration: u64,
    pub pause_duration: u64,
    pub phase_bits: u32,
    pub amplitude_bits: u32,
    pub volume: u32,
}

/// `2^e` as an integer.
pub open spec fn pow2_int(e: nat) -> int {
    pow2(e) as int
}

impl ChannelConfig {
    /// A plan the modem can run: at least one carrier, carriers on distinct
    /// bins, between one and 31
    /// phase bits per carrier, no amplitude bits, a symbol that fits in 64
    /// bits, carrier bins that fit in `usize`, and a volume within full scale.
    pub open spec fn wf(&self) -> bool {
        &&& self.channels >= 1
        &&& self.channel_step >= 1
        &&& 1 <= self.phase_bits <= 31
        &&& self.amplitude_bits == 0
        &&& self.phase_bits * self.channels <= 64
        &&& self.channel_base + self.channel_step * self.channels <= usize::MAX
        &&& self.volume <= VOLUME_FULL
    }

    pub open spec fn spec_channel_top(&self) -> int {
        self.channel_base + self.channel_step * self.channels
    }

    /// The DFT bin of carrier `i`.
    pub open spec fn spec_channel_bin(&self, i: int) -> int {
        self.channel_base + i * self.channel_step
    }

    pub open spec fn spec_bits_per_channel(&self) -> nat {
        (self.phase_bits + self.amplitude_bits) as nat
    }

    pub open spec fn spec_bits_per_symbol(&self) -> nat {
        self.spec_bits_per_channel() * self.channels as nat
    }

    pub open spec fn spec_phase_buckets(&self) -> int {
        pow2_int(self.phase_bits as nat)
    }

    /// The plan of the low-frequency link: carriers on bins 14, 16, 18 and
    /// 20, two phase bits each, 200 ms symbols, 100 ms pauses, a tenth of full
    /// volume.
    pub fn new() -> (r: Self)
        ensures
            r.wf(),
            r.channel_base == 14 && r.channel_step == 2 && r.channels == 4,
            r.symbol_duration == 200 && r.pause_duration == 100,
            r.phase_bits == 2 && r.amplitude_bits == 0,
            r.volume == 100_000,
    {
        Self {
            channel_base: 14,
            channel_step: 2,
            channels: 4,
            symbol_duration: 200,
            pause_duration: 100,
            phase_bits: 2,
            amplitude_bits: 0,
            volume: 100_000,
        }
    }

    /// The number of phase buckets, `2^phase_bits`.
    pub fn phase_buckets(&self) -> (r: u64)
        requires
            self.phase_bits < 64,
        ensures
            r == self.spec_phase_buckets(),
    {
        proof {
            vstd::bits::lemma_u64_pow2_no_overflow(self.phase_bits as nat);
            vstd::bits::lemma_u64_shl_is_mul(1, self.phase_bits as u64);
        }
        1u64 << self.phase_bits
    }

    /// The number of amplitude buckets, `2^amplitude_bits`.
    pub fn amplitude_buckets(&self) -> (r: u64)
        requires
            self.amplitude_bits < 64,
        ensures
            r == pow2_int(self.amplitude_bits as nat),
    {
        proof {
            vstd::bits::lemma_u64_pow2_no_overflow(self.amplitude_bits as nat);
            vstd::bits::lemma_u64_shl_is_mul(1, self.amplitude_bits as u64);
        }
        1u64 << self.amplitude_bits
    }

    /// One past the bin of the last carrier's slot: `base + step * count`.
    pub fn channel_top(&self) -> (r: usize)
        requires
            self.wf(),
        ensures
            r == self.spec_channel_top(),
    {
        self.channel_base + self.channel_step * self.channels
    }

    /// The bin of carrier `i`.
    pub fn channel_bin(&self, i: usize) -> (r: usize)
        requires
            self.wf(),
            i < self.channels,
        ensures
            r == self.spec_channel_bin(i as int),
    {
        proof {
            assert(i * self.channel_step <= self.channel_step * self.channels) by (nonlinear_arith)
                requires i < self.channels;
        }
        self.channel_base + i * self.channel_step
    }

    /// The bins of all carriers, lowest first.
    pub fn channels(&self) -> (r: Vec<usize>)
        requires
            self.wf(),
        ensures
            r@.len() == self.channels,
            forall|i: int| 0 <= i < self.channels ==> r@[i] == self.spec_channel_bin(i),
    {
        let mut r: Vec<usize> = Vec::new();
        let mut i: usize = 0;
        while i < self.channels
            invariant
                self.wf(),
                i <= self.channels,
                r@.len() == i,
                forall|j: int| 0 <= j < i ==> r@[j] == self.spec_channel_bin(j),
            decreases self.channels - i,
        {
            r.push(self.channel_bin(i));
            i += 1;
        }
        r
    }

    /// The bins worth showing around the carriers: from two below the first
    /// carrier to one past the top slot, clipped to `usize`.
    pub fn channels_range(&self) -> (r: Range<usize>)
        requires
            self.wf(),
        ensures
            r.start == if self.channel_base >= 2 { self.channel_base - 2 } else { 0 },
            r.end == if self.spec_channel_top() < usize::MAX {
                self.spec_channel_top() + 1
            } else {
                usize::MAX as int
            },
    {
        let top = self.channel_top();
        self.channel_base.saturating_sub(2)..top.saturating_add(1)
    }

    pub fn bits_per_channel(&self) -> (r: u32)
        requires
            self.wf(),
        ensures
            r == self.spec_bits_per_channel(),
    {
        self.phase_bits + self.amplitude_bits
    }

    pub fn bits_per_symbol(&self) -> (r: u32)
        requires
            self.wf(),
        ensures
            r == self.spec_bits_per_symbol(),
            1 <= r <= 64,
    {
        proof {
            assert(self.phase_bits * self.channels >= 1 && self.channels <= 64) by (nonlinear_arith)
                requires self.phase_bits >= 1, self.channels >= 1, self.phase_bits * self.channels <= 64;
        }
        self.bits_per_channel() * self.channels as u32
    }
}

/// The base-two logarithm of `v`, rounded down.
pub fn log2(v: u64) -> (r: u32)
    requires
        v >= 1,
    ensures
        r < 64,
        pow2(r as nat) <= v < pow2(r as nat + 1),
{
    let mut r: u32 = 0;
    let mut rest: u64 = v;
    proof {
        lemma2_to64();
    }
    while rest > 1
        invariant
            1 <= rest,
            r < 64,
            rest == v as nat / pow2(r as nat),
            pow2(r as nat) <= v,
        decreases rest,
    {
        proof {
            lemma_pow2_pos(r as nat);
            lemma_pow2_unfold(r as nat + 1);
            vstd::arithmetic::div_mod::lemma_div_denominator(v as int, pow2(r as nat) as int, 2);
            vstd::arithmetic::div_mod::lemma_fundamental_div_mod(v as int, pow2(r as nat) as int);
            assert(pow2(r as nat) * 2 <= v) by (nonlinear_arith)
                requires
                    rest >= 2,
                    rest == v as int / pow2(r as nat) as int,
                    pow2(r as nat) > 0,
                    v as int == pow2(r as nat) * (v as int / pow2(r as nat) as int) + v as int % pow2(r as nat) as int,
                    v as int % pow2(r as nat) as int >= 0,
            ;
            lemma2_to64();
        }
        rest = rest / 2;
        r = r + 1;
    }
    proof {
        lemma_pow2_pos(r as nat);
        lemma_pow2_unfold(r as nat + 1);
        vstd::arithmetic::div_mod::lemma_fundamental_div_mod(v as int, pow2(r as nat) as int);
        assert(v < pow2(r as nat) * 2) by (nonlinear_arith)
            requires
                rest == 1,
                rest == v as int / pow2(r as nat) as int,
                pow2(r as nat) > 0,
                v as int == pow2(r as nat) * (v as int / pow2(r as nat) as int) + v as int % pow2(r as nat) as int,
                (v as int % pow2(r as nat) as int) < (pow2(r as nat) as int),
        ;
    }
    r
}

/// A band to show: either DFT bins, or frequencies in hertz.
#[derive(Debug)]
pub enum SoundRange {
    Channels(Range<usize>),
    Frequencies(Range<usize>),
}

impl SoundRange {
    /// The bin that frequency `f` falls in, for a window of `fft_len`
    /// samples at `sample_rate`.
    pub open spec fn spec_bin(f: int, sample_rate: int, fft_len: int) -> int {
        f * fft_len / sample_rate
    }

    pub open spec fn spec_channels(&self, sample_rate: int, fft_len: int) -> (int, int) {
        match self {
            SoundRange::Channels(r) => (r.start as int, r.end as int),
            SoundRange::Frequencies(r) => (
                Self::spec_bin(r.start as int, sample_rate, fft_len),
                Self::spec_bin(r.end as int, sample_rate, fft_len) + 1,
            ),
        }
    }

    /// The bins that the band covers. A band of frequencies runs from the bin
    /// of its lowest frequency to one past the bin of its highest.
    pub fn channels(&self, sample_rate: u32, fft_len: usize) -> (r: Range<usize>)
        requires
            sample_rate > 0,
            match self {
                SoundRange::Channels(_) => true,
                SoundRange::Frequencies(f) => Self::spec_bin(
                    f.start as int,
                    sample_rate as int,
                    fft_len as int,
                ) <= usize::MAX && Self::spec_bin(
                    f.end as int,
                    sample_rate as int,
                    fft_len as int,
                ) < usize::MAX,
            },
        ensures
            (r.start as int, r.end as int) == self.spec_channels(
                sample_rate as int,
                fft_len as int,
            ),
    {
        match self {
            SoundRange::Channels(v) => v.start..v.end,
            SoundRange::Frequencies(v) => {
                proof {
                    assert(v.start as int * fft_len as int <= u128::MAX && v.end as int * fft_len as int <= u128::MAX) by (nonlinear_arith)
                        requires v.start <= usize::MAX, v.end <= usize::MAX, fft_len <= usize::MAX, usize::MAX <= u64::MAX;
                    assert(v.start as int * fft_len as int / sample_rate as int <= v.start as int * fft_len as int) by (nonlinear_arith)
                        requires sample_rate > 0, v.start >= 0, fft_len >= 0;
                }
                let min = (v.start as u128 * fft_len as u128 / sample_rate as u128) as usize;
                let max = (v.end as u128 * fft_len as u128 / sample_rate as u128) as usize + 1;
                proof {
                    assert(v.start as int * fft_len as int / sample_rate as int <= v.end as int
                        * fft_len as int / sample_rate as int || v.start > v.end) by {
                        if v.start <= v.end {
                            assert(v.start as int * fft_len as int <= v.end as int * fft_len as int)
                                by (nonlinear_arith)
                                requires v.start <= v.end;
                            vstd::arithmetic::div_mod::lemma_div_is_ordered(
                                v.start as int * fft_len as int,
                                v.end as int * fft_len as int,
                                sample_rate as int,
                            );
                        }
                    }
                }
                min..max
            },
        }
    }

    /// The bins of the band widened by `side` bins on each side, clipped to
    /// `usize`.
    pub fn channels_side(&self, sample_rate: u32, fft_len: usize, side: usize) -> (r: Range<
        usize,
    >)
        requires
            sample_rate > 0,
            match self {
                SoundRange::Channels(_) => true,
                SoundRange::Frequencies(f) => Self::spec_bin(
                    f.start as int,
                    sample_rate as int,
                    fft_len as int,
                ) <= usize::MAX && Self::spec_bin(
                    f.end as int,
                    sample_rate as int,
                    fft_len as int,
                ) < usize::MAX,
            },
        ensures
            r.start == if self.spec_channels(sample_rate as int, fft_len as int).0 >= side {
                self.spec_channels(sample_rate as int, fft_len as int).0 - side
            } else {
                0
            },
            r.end == if self.spec_channels(sample_rate as int, fft_len as int).1 + side
                <= usize::MAX {
                self.spec_channels(sample_rate as int, fft_len as int).1 + side
            } else {
                usize::MAX as int
            },
    {
        let range = self.channels(sample_rate, fft_len);
        range.start.saturating_sub(side)..range.end.saturating_add(side)
    }
}

} // verus!
