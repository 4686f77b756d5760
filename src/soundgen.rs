use vstd::prelude::*;
use crate::config::VOLUME_FULL;

verus! {

/// How long a volume transition takes, in milliseconds.
pub const TRANSITION_MS: u64 = 5;

/// One sinusoid of the mix: the frequency of DFT bin `bin` over a window of
/// `window` samples (`bin * sample_rate / window` hertz), started at phase
/// `phase / phase_buckets * pi` radians, weighted by `relative_volume`.
#[derive(Copy, Clone, Debug, PartialEq, Eq, Structural)]
pub struct FrequencyComponent {
    pub bin: u64,
    pub window: u64,
    pub phase: u64,
    pub phase_buckets: u64,
    pub relative_volume: u32,
}

impl FrequencyComponent {
    /// A sinusoid at phase zero with weight one.
    pub fn new_simple(bin: u64, window: u64) -> (r: Self)
        ensures
            r == (FrequencyComponent { bin, window, phase: 0, phase_buckets: 1, relative_volume: 1 }),
    {
        Self { bin, window, phase: 0, phase_buckets: 1, relative_volume: 1 }
    }

    /// A sinusoid at phase zero with weight `volume`.
    pub fn new_volume(bin: u64, window: u64, volume: u32) -> (r: Self)
        ensures
            r == (FrequencyComponent {
                bin,
                window,
                phase: 0,
                phase_buckets: 1,
                relative_volume: volume,
            }),
    {
        Self { bin, window, phase: 0, phase_buckets: 1, relative_volume: volume }
    }

    pub fn new(bin: u64, window: u64, phase: u64, phase_buckets: u64, volume: u32) -> (r: Self)
        ensures
            r == (FrequencyComponent { bin, window, phase, phase_buckets, relative_volume: volume }),
    {
        Self { bin, window, phase, phase_buckets, relative_volume: volume }
    }

    /// Both sinusoids have the same frequency.
    pub open spec fn same_frequency(&self, bin: u64, window: u64) -> bool {
        self.bin as int * window as int == bin as int * self.window as int
    }
}

/// What the tone generator can be told to do.
#[derive(Copy, Clone, Debug, PartialEq, Eq, Structural)]
pub enum SoundCommand {
    /// Jump to this volume at once.
    SetVolume(u32),
    /// Glide to this volume over `TRANSITION_MS`.
    TransitionVolume(u32),
    /// Add a sinusoid to the mix.
    AddWaveform(FrequencyComponent),
    /// Drop every sinusoid of the frequency of bin `.0` over `.1` samples.
    RemoveWaveform(u64, u64),
    /// Drop every sinusoid.
    ClearWaveform,
}

impl SoundCommand {
    /// Its volumes are within full scale.
    pub open spec fn wf(&self) -> bool {
        match self {
            SoundCommand::SetVolume(v) => *v <= VOLUME_FULL,
            SoundCommand::TransitionVolume(v) => *v <= VOLUME_FULL,
            _ => true,
        }
    }
}

/// The volume `left` samples before the end of a linear glide of `len`
/// samples from `from` to `target`.
pub open spec fn ramp_volume(from: int, target: int, left: int, len: int) -> int {
    if from >= target {
        target + (from - target) * left / len
    } else {
        target - (target - from) * left / len
    }
}

/// A glide starts at its first volume, ends at its target, and never leaves
/// the range between the two.
pub proof fn law_glide_stays_between(from: int, target: int, left: int, len: int)
    requires
        0 <= left <= len,
        len > 0,
    ensures
        vstd::math::min(from, target) <= ramp_volume(from, target, left, len) <= vstd::math::max(
            from,
            target,
        ),
        ramp_volume(from, target, 0, len) == target,
        ramp_volume(from, target, len, len) == from,
{
    if from >= target {
        assert(0 <= (from - target) * left / len <= from - target) by (nonlinear_arith)
            requires from >= target, 0 <= left <= len, len > 0;
        assert((from - target) * len / len == from - target) by (nonlinear_arith)
            requires len > 0;
    } else {
        assert(0 <= (target - from) * left / len <= target - from) by (nonlinear_arith)
            requires from < target, 0 <= left <= len, len > 0;
        assert((target - from) * len / len == target - from) by (nonlinear_arith)
            requires len > 0;
    }
    assert((from - target) * 0 / len == 0) by (nonlinear_arith)
        requires len > 0;
    assert((target - from) * 0 / len == 0) by (nonlinear_arith)
        requires len > 0;
}

/// Each step of a glide moves from the current volume toward the target and
/// never past it.
pub proof fn law_glide_steps_toward_target(from: int, target: int, left: int, len: int)
    requires
        0 < left <= len,
    ensures
        vstd::math::min(ramp_volume(from, target, left, len), target) <= ramp_volume(
            from,
            target,
            left - 1,
            len,
        ) <= vstd::math::max(ramp_volume(from, target, left, len), target),
{
    let d = if from >= target { from - target } else { target - from };
    assert(d >= 0);
    assert(d * (left - 1) <= d * left) by (nonlinear_arith)
        requires d >= 0, left > 0;
    vstd::arithmetic::div_mod::lemma_div_is_ordered(d * (left - 1), d * left, len);
    assert(0 <= d * (left - 1)) by (nonlinear_arith)
        requires d >= 0, left > 0;
    vstd::arithmetic::div_mod::lemma_div_pos_is_pos(d * (left - 1), len);
}

/// The mix of sinusoids after `c` was applied to `w`.
pub open spec fn apply_to_waveform(w: Seq<FrequencyComponent>, c: SoundCommand) -> Seq<
    FrequencyComponent,
> {
    match c {
        SoundCommand::AddWaveform(f) => w.push(f),
        SoundCommand::RemoveWaveform(bin, window) => w.filter(
            |f: FrequencyComponent| !f.same_frequency(bin, window),
        ),
        SoundCommand::ClearWaveform => Seq::empty(),
        _ => w,
    }
}

/// The control side of a sum-of-sinusoids generator: its sample clock, its
/// volume envelope and the sinusoids it mixes. Sample `n` of the output is
/// `volume * sum_i(sin(2 pi f_i n / rate + phi_i) * v_i) / sum_i(v_i)`,
/// with `n` the clock after the tick that made it.
pub struct SoundGenerator {
    sample_clock: u64,
    sample_rate: u64,
    volume: u32,
    volume_target: u32,
    volume_from: u32,
    transition_len: u64,
    transition_left: u64,
    waveform: Vec<FrequencyComponent>,
}

impl SoundGenerator {
    pub closed spec fn spec_clock(&self) -> nat {
        self.sample_clock as nat
    }

    pub closed spec fn spec_rate(&self) -> nat {
        self.sample_rate as nat
    }

    /// The current volume, in millionths of full scale.
    pub closed spec fn spec_volume(&self) -> nat {
        self.volume as nat
    }

    pub closed spec fn spec_target(&self) -> nat {
        self.volume_target as nat
    }

    pub closed spec fn spec_from(&self) -> nat {
        self.volume_from as nat
    }

    /// Samples left in the current glide; zero when none is under way.
    pub closed spec fn spec_left(&self) -> nat {
        self.transition_left as nat
    }

    pub closed spec fn spec_transition_len(&self) -> nat {
        self.transition_len as nat
    }

    pub closed spec fn spec_waveform(&self) -> Seq<FrequencyComponent> {
        self.waveform@
    }

    /// Samples in one glide at this rate.
    pub open spec fn spec_glide_len(rate: nat) -> nat {
        rate * TRANSITION_MS as nat / 1000
    }

    pub open spec fn wf(&self) -> bool {
        &&& 0 < self.spec_rate() <= u64::MAX
        &&& self.spec_clock() <= u64::MAX
        &&& self.spec_volume() <= VOLUME_FULL
        &&& self.spec_target() <= VOLUME_FULL
        &&& self.spec_from() <= VOLUME_FULL
        &&& self.spec_left() <= self.spec_transition_len()
        &&& self.spec_transition_len() == Self::spec_glide_len(self.spec_rate())
        &&& self.spec_left() > 0 ==> self.spec_volume() == ramp_volume(
            self.spec_from() as int,
            self.spec_target() as int,
            self.spec_left() as int,
            self.spec_transition_len() as int,
        )
    }

    /// `next` is this generator after `command` was carried out.
    pub open spec fn spec_applied(&self, command: SoundCommand, next: SoundGenerator) -> bool {
        &&& next.spec_clock() == self.spec_clock()
        &&& next.spec_rate() == self.spec_rate()
        &&& next.spec_transition_len() == self.spec_transition_len()
        &&& next.spec_waveform() == apply_to_waveform(self.spec_waveform(), command)
        &&& match command {
            SoundCommand::SetVolume(v) => next.spec_volume() == v && next.spec_target() == v
                && next.spec_from() == v && next.spec_left() == 0,
            SoundCommand::TransitionVolume(v) => next.spec_target() == v && next.spec_from()
                == self.spec_volume() && next.spec_volume() == self.spec_volume()
                && next.spec_left() == self.spec_transition_len(),
            _ => next.spec_volume() == self.spec_volume() && next.spec_target()
                == self.spec_target() && next.spec_from() == self.spec_from() && next.spec_left()
                == self.spec_left(),
        }
    }

    /// `next` is this generator one sample later: the clock moved on, and
    /// the volume took one step of the glide under way.
    pub open spec fn spec_ticked(&self, next: SoundGenerator) -> bool {
        &&& next.spec_clock() == self.spec_clock() + 1
        &&& next.spec_rate() == self.spec_rate()
        &&& next.spec_transition_len() == self.spec_transition_len()
        &&& next.spec_waveform() == self.spec_waveform()
        &&& next.spec_target() == self.spec_target()
        &&& next.spec_from() == self.spec_from()
        &&& if self.spec_left() == 0 {
            next.spec_left() == 0 && next.spec_volume() == self.spec_volume()
        } else {
            next.spec_left() == self.spec_left() - 1 && next.spec_volume() == ramp_volume(
                self.spec_from() as int,
                self.spec_target() as int,
                next.spec_left() as int,
                self.spec_transition_len() as int,
            )
        }
    }

    /// A silent generator at clock zero.
    pub fn new(sample_rate: u64) -> (r: Self)
        requires
            sample_rate > 0,
        ensures
            r.wf(),
            r.spec_clock() == 0,
            r.spec_rate() == sample_rate,
            r.spec_volume() == 0 && r.spec_target() == 0,
            r.spec_left() == 0,
            r.spec_waveform() == Seq::<FrequencyComponent>::empty(),
    {
        proof {
            assert(sample_rate * 5 / 1000 <= sample_rate) by (nonlinear_arith)
                requires sample_rate > 0;
        }
        Self {
            sample_clock: 0,
            sample_rate,
            volume: 0,
            volume_target: 0,
            volume_from: 0,
            transition_len: sample_rate / 200,
            transition_left: 0,
            waveform: Vec::new(),
        }
    }

    pub fn sample_clock(&self) -> (r: u64)
        ensures
            r == self.spec_clock(),
    {
        self.sample_clock
    }

    pub fn sample_rate(&self) -> (r: u64)
        ensures
            r == self.spec_rate(),
    {
        self.sample_rate
    }

    pub fn volume(&self) -> (r: u32)
        ensures
            r == self.spec_volume(),
    {
        self.volume
    }

    pub fn waveform(&self) -> (r: &Vec<FrequencyComponent>)
        ensures
            r@ == self.spec_waveform(),
    {
        &self.waveform
    }

    /// Adds a sinusoid of weight one at phase zero to the mix.
    pub fn push_frequency(&mut self, bin: u64, window: u64)
        requires
            old(self).wf(),
        ensures
            final(self).wf(),
            final(self).spec_waveform() == old(self).spec_waveform().push(
                FrequencyComponent::new_simple_spec(bin, window),
            ),
            final(self).spec_clock() == old(self).spec_clock(),
            final(self).spec_rate() == old(self).spec_rate(),
            final(self).spec_volume() == old(self).spec_volume(),
            final(self).spec_left() == old(self).spec_left(),
            final(self).spec_target() == old(self).spec_target(),
            final(self).spec_from() == old(self).spec_from(),
    {
        self.waveform.push(FrequencyComponent::new_simple(bin, window));
    }

    /// Adds a sinusoid to the mix.
    pub fn push(&mut self, c: FrequencyComponent)
        requires
            old(self).wf(),
        ensures
            final(self).wf(),
            final(self).spec_waveform() == old(self).spec_waveform().push(c),
            final(self).spec_clock() == old(self).spec_clock(),
            final(self).spec_rate() == old(self).spec_rate(),
            final(self).spec_volume() == old(self).spec_volume(),
            final(self).spec_left() == old(self).spec_left(),
            final(self).spec_target() == old(self).spec_target(),
            final(self).spec_from() == old(self).spec_from(),
    {
        self.waveform.push(c);
    }

    /// Carries out one command. A glide starts from the current volume and
    /// lasts `TRANSITION_MS`; a jump cancels any glide.
    pub fn apply(&mut self, command: SoundCommand)
        requires
            old(self).wf(),
            command.wf(),
        ensures
            final(self).wf(),
            old(self).spec_applied(command, *final(self)),
    {
        match command {
            SoundCommand::SetVolume(v) => {
                self.volume = v;
                self.volume_target = v;
                self.volume_from = v;
                self.transition_left = 0;
            },
            SoundCommand::TransitionVolume(v) => {
                self.volume_target = v;
                self.volume_from = self.volume;
                self.transition_left = self.transition_len;
                proof {
                    if self.transition_len > 0 {
                        law_glide_stays_between(
                            self.volume as int,
                            v as int,
                            self.transition_len as int,
                            self.transition_len as int,
                        );
                    }
                }
            },
            SoundCommand::AddWaveform(w) => {
                self.waveform.push(w);
            },
            SoundCommand::RemoveWaveform(bin, window) => {
                let ghost before = self.waveform@;
                let mut kept: Vec<FrequencyComponent> = Vec::new();
                let mut i: usize = 0;
                proof {
                    reveal(Seq::filter);
                    assert(before.take(0).len() == 0);
                }
                while i < self.waveform.len()
                    invariant
                        self.waveform@ == before,
                        i <= before.len(),
                        kept@ == before.take(i as int).filter(
                            |f: FrequencyComponent| !f.same_frequency(bin, window),
                        ),
                    decreases before.len() - i,
                {
                    let f = self.waveform[i];
                    proof {
                        assert(before.take(i + 1).drop_last() =~= before.take(i as int));
                        reveal(Seq::filter);
                        assert(before.take(i + 1) =~= before.take(i as int).push(f));
                    }
                    proof {
                        assert(f.bin as int * window as int <= u128::MAX && bin as int * f.window as int <= u128::MAX)
                            by (nonlinear_arith)
                            requires f.bin <= u64::MAX, window <= u64::MAX, bin <= u64::MAX, f.window <= u64::MAX;
                    }
                    if f.bin as u128 * window as u128 != bin as u128 * f.window as u128 {
                        kept.push(f);
                    }
                    i += 1;
                }
                proof {
                    assert(before.take(before.len() as int) =~= before);
                }
                self.waveform = kept;
            },
            SoundCommand::ClearWaveform => {
                self.waveform.clear();
            },
        }
    }

    /// Advances the clock by one sample, and the volume by one step of the
    /// glide under way.
    pub fn tick(&mut self)
        requires
            old(self).wf(),
            old(self).spec_clock() < u64::MAX,
        ensures
            final(self).wf(),
            old(self).spec_ticked(*final(self)),
    {
        self.sample_clock = self.sample_clock + 1;
        if self.transition_left > 0 {
            self.transition_left = self.transition_left - 1;
            let from = self.volume_from as u128;
            let target = self.volume_target as u128;
            let left = self.transition_left as u128;
            let len = self.transition_len as u128;
            proof {
                let (f, t, l, n) = (from as int, target as int, left as int, len as int);
                if f >= t {
                    assert(0 <= (f - t) * l / n <= f - t) by (nonlinear_arith)
                        requires f >= t, 0 <= l < n;
                    assert((f - t) * l <= 0xffff_ffff_ffff_ffff * 0xffff_ffff_ffff_ffff) by (nonlinear_arith)
                        requires 0 <= f - t <= 0xffff_ffff_ffff_ffff, 0 <= l <= 0xffff_ffff_ffff_ffff;
                } else {
                    assert(0 <= (t - f) * l / n <= t - f) by (nonlinear_arith)
                        requires f < t, 0 <= l < n;
                    assert((t - f) * l <= 0xffff_ffff_ffff_ffff * 0xffff_ffff_ffff_ffff) by (nonlinear_arith)
                        requires 0 <= t - f <= 0xffff_ffff_ffff_ffff, 0 <= l <= 0xffff_ffff_ffff_ffff;
                }
            }
            if from >= target {
                self.volume = (target + (from - target) * left / len) as u32;
            } else {
                self.volume = (target - (target - from) * left / len) as u32;
            }
        }
    }
}

impl FrequencyComponent {
    pub open spec fn new_simple_spec(bin: u64, window: u64) -> FrequencyComponent {
        FrequencyComponent { bin, window, phase: 0, phase_buckets: 1, relative_volume: 1 }
    }
}

} // verus!
