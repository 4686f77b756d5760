use vstd::prelude::*;
use vstd::arithmetic::power2::{pow2, lemma_pow2_pos, lemma_pow2_adds, lemma2_to64};
use std::collections::VecDeque;
use crate::bit_org::{bits_value, bytes_bits, byte_bits, lemma_bytes_bits_push, lemma_bits_value_bound, lemma_mask_bit};
use crate::config::{ChannelConfig, log2};
use crate::soundgen::{FrequencyComponent, SoundCommand, SoundGenerator};

verus! {

/// A command for the tone generator, due `time` milliseconds into the
/// schedule.
#[derive(Copy, Clone, Debug, PartialEq, Eq, Structural)]
pub struct TimedCommand {
    pub command: SoundCommand,
    pub time: u64,
}

/// The value of carrier `i` in a symbol: its `bits` bits, the first carrier
/// in the lowest.
pub open spec fn channel_value(data: u64, i: int, bits: nat) -> int {
    (data as nat / pow2((i * bits) as nat)) as int % pow2(bits) as int
}

/// The phase bucket sent for value `v` after bucket `prev`: the phase steps
/// back by `v` buckets.
pub open spec fn differential_bucket(prev: int, v: int, buckets: int) -> int {
    (prev - v) % buckets
}

/// The buckets that a symbol leaves on the carriers.
pub open spec fn symbol_buckets(config: ChannelConfig, prev: Seq<u64>, data: u64) -> Seq<u64> {
    Seq::new(
        config.channels as nat,
        |i: int|
            differential_bucket(
                prev[i] as int,
                channel_value(data, i, config.phase_bits as nat),
                config.spec_phase_buckets(),
            ) as u64,
    )
}

/// The sinusoid of carrier `i` at phase bucket `phase`.
pub open spec fn carrier_component(config: ChannelConfig, window: u64, i: int, phase: u64) -> FrequencyComponent {
    FrequencyComponent {
        bin: config.spec_channel_bin(i) as u64,
        window,
        phase,
        phase_buckets: config.spec_phase_buckets() as u64,
        relative_volume: 1,
    }
}

pub open spec fn timed(command: SoundCommand, time: int) -> TimedCommand {
    TimedCommand { command, time: time as u64 }
}

/// The commands of one symbol due from `t`: clear the mix, add one sinusoid
/// per carrier, glide in, and glide out after the symbol's duration.
pub open spec fn symbol_commands(
    config: ChannelConfig,
    window: u64,
    prev: Seq<u64>,
    data: u64,
    t: int,
) -> Seq<TimedCommand> {
    let b = symbol_buckets(config, prev, data);
    seq![timed(SoundCommand::ClearWaveform, t)] + Seq::new(
        config.channels as nat,
        |i: int| timed(SoundCommand::AddWaveform(carrier_component(config, window, i, b[i])), t),
    ) + seq![
        timed(SoundCommand::TransitionVolume(config.volume), t),
        timed(SoundCommand::TransitionVolume(0), t + config.symbol_duration),
    ]
}

/// The commands of the calibration symbol due from `t`: clear the mix, add
/// every carrier at phase zero, glide in, and glide out after two symbol
/// durations.
pub open spec fn calibration_commands(config: ChannelConfig, window: u64, t: int) -> Seq<
    TimedCommand,
> {
    seq![timed(SoundCommand::ClearWaveform, t)] + Seq::new(
        config.channels as nat,
        |i: int|
            timed(
                SoundCommand::AddWaveform(
                    FrequencyComponent::new_simple_spec(config.spec_channel_bin(i) as u64, window),
                ),
                t,
            ),
    ) + seq![
        timed(SoundCommand::TransitionVolume(config.volume), t),
        timed(SoundCommand::TransitionVolume(0), t + 2 * config.symbol_duration),
    ]
}

/// Milliseconds that one symbol takes, tone and pause.
pub open spec fn symbol_span(config: ChannelConfig) -> int {
    config.symbol_duration + config.pause_duration
}

/// Milliseconds that the calibration takes.
pub open spec fn calibration_span(config: ChannelConfig) -> int {
    2 * config.symbol_duration + config.pause_duration
}

/// The carrier buckets after a run of symbols.
pub open spec fn buckets_after(config: ChannelConfig, prev: Seq<u64>, syms: Seq<u64>) -> Seq<u64>
    decreases syms.len(),
{
    if syms.len() == 0 {
        prev
    } else {
        symbol_buckets(config, buckets_after(config, prev, syms.drop_last()), syms.last())
    }
}

/// The commands of a run of symbols due from `t`, one after the other.
pub open spec fn symbols_commands(
    config: ChannelConfig,
    window: u64,
    prev: Seq<u64>,
    syms: Seq<u64>,
    t: int,
) -> Seq<TimedCommand>
    decreases syms.len(),
{
    if syms.len() == 0 {
        Seq::empty()
    } else {
        symbols_commands(config, window, prev, syms.drop_last(), t) + symbol_commands(
            config,
            window,
            buckets_after(config, prev, syms.drop_last()),
            syms.last(),
            t + (syms.len() - 1) * symbol_span(config),
        )
    }
}

/// How many symbols `n` bits make, the last one possibly short.
pub open spec fn symbol_count(n: nat, bps: nat) -> nat {
    ((n + bps - 1) / bps as int) as nat
}

/// The symbols that carry a bit stream: groups of `bps` bits, most
/// significant first; a short last group stands for its own value.
pub open spec fn data_symbols(bits: Seq<bool>, bps: nat) -> Seq<u64> {
    Seq::new(
        symbol_count(bits.len(), bps),
        |k: int| bits_value(bits.subrange(k * bps, vstd::math::min((k + 1) * bps, bits.len() as int))) as u64,
    )
}

/// `time` milliseconds have passed by sample `clock` at `rate` samples per
/// second.
pub open spec fn is_due(time: int, clock: int, rate: int) -> bool {
    time * rate <= clock * 1000
}

/// The first sample count at which `queued` milliseconds have passed at
/// `rate` samples per second.
pub open spec fn end_sample(queued: int, rate: int) -> int {
    (queued * rate + 999) / 1000
}

/// A schedule is over exactly from the sample count that reaches its end on:
/// for every clock value, the time of `queued` milliseconds is due just when
/// the clock has reached `end_sample`, so `done` turns true at that sample
/// and stays true.
pub proof fn law_done_exactly_at_end(queued: nat, rate: nat)
    ensures
        forall|clock: nat|
            #[trigger] is_due(queued as int, clock as int, rate as int) <==> clock >= end_sample(
                queued as int,
                rate as int,
            ),
{
    assert forall|clock: nat|
        #[trigger] is_due(queued as int, clock as int, rate as int) <==> clock >= end_sample(
            queued as int,
            rate as int,
        ) by {
        let x = queued as int * rate as int;
        assert(queued as int * rate as int >= 0) by (nonlinear_arith)
            requires queued >= 0, rate >= 0;
        vstd::arithmetic::div_mod::lemma_fundamental_div_mod(x + 999, 1000);
    }
}

/// The base-two logarithm of a power of two is its exponent.
proof fn lemma_log2_of_pow2(r: nat, e: nat)
    requires
        pow2(r) <= pow2(e) < pow2(r + 1),
    ensures
        r == e,
{
    if r < e {
        if r + 1 < e {
            vstd::arithmetic::power2::lemma_pow2_strictly_increases(r + 1, e);
        }
    } else if r > e {
        vstd::arithmetic::power2::lemma_pow2_strictly_increases(e, r);
    }
}

/// Turns bytes into a schedule of tone-generator commands, and runs the
/// generator along that schedule one sample at a time.
pub struct DifferentialEncoder2 {
    window: u64,
    channel_config: ChannelConfig,
    previous_symbol: Vec<u64>,
    queued_duration: u64,
    command_queue: VecDeque<TimedCommand>,
    generator: SoundGenerator,
}

impl DifferentialEncoder2 {
    pub closed spec fn spec_window(&self) -> u64 {
        self.window
    }

    pub closed spec fn spec_config(&self) -> ChannelConfig {
        self.channel_config
    }

    /// The phase bucket each carrier last sent.
    pub closed spec fn spec_previous(&self) -> Seq<u64> {
        self.previous_symbol@
    }

    /// Milliseconds scheduled so far: when the last command's span ends.
    pub closed spec fn spec_queued(&self) -> nat {
        self.queued_duration as nat
    }

    /// The commands not yet carried out, earliest first.
    pub closed spec fn spec_queue(&self) -> Seq<TimedCommand> {
        self.command_queue@
    }

    pub closed spec fn spec_generator(&self) -> SoundGenerator {
        self.generator
    }

    /// The schedule has fully elapsed.
    pub open spec fn spec_done(&self) -> bool {
        is_due(
            self.spec_queued() as int,
            self.spec_generator().spec_clock() as int,
            self.spec_generator().spec_rate() as int,
        )
    }

    pub open spec fn wf(&self) -> bool {
        &&& self.spec_config().wf()
        &&& self.spec_generator().wf()
        &&& self.spec_previous().len() == self.spec_config().channels
        &&& forall|i: int|
            0 <= i < self.spec_previous().len() ==> #[trigger] self.spec_previous()[i]
                < self.spec_config().spec_phase_buckets()
        &&& forall|i: int|
            0 <= i < self.spec_queue().len() ==> (#[trigger] self.spec_queue()[i]).command.wf()
                && self.spec_queue()[i].time <= self.spec_queued()
        &&& forall|i: int, j: int|
            0 <= i < j < self.spec_queue().len() ==> (#[trigger] self.spec_queue()[i]).time
                <= (#[trigger] self.spec_queue()[j]).time
    }

    /// A fresh encoder: nothing scheduled, every carrier at bucket zero, the
    /// generator silent at clock zero.
    pub open spec fn fresh(&self, sample_rate: u64, window: u64, config: ChannelConfig) -> bool {
        &&& self.wf()
        &&& self.spec_window() == window
        &&& self.spec_config() == config
        &&& self.spec_previous() == Seq::new(config.channels as nat, |i: int| 0u64)
        &&& self.spec_queued() == 0
        &&& self.spec_queue() == Seq::<TimedCommand>::empty()
        &&& self.spec_generator().spec_clock() == 0
        &&& self.spec_generator().spec_rate() == sample_rate
        &&& self.spec_generator().spec_volume() == 0
        &&& self.spec_generator().spec_waveform() == Seq::<FrequencyComponent>::empty()
    }

    /// An encoder for the plan of `ChannelConfig::new`.
    pub fn new(sample_rate: u64, window: u64) -> (r: Self)
        requires
            sample_rate > 0,
        ensures
            r.fresh(sample_rate, window, r.spec_config()),
            r.spec_config().channel_base == 14,
            r.spec_config().channel_step == 2,
            r.spec_config().channels == 4,
            r.spec_config().symbol_duration == 200,
            r.spec_config().pause_duration == 100,
            r.spec_config().phase_bits == 2,
            r.spec_config().amplitude_bits == 0,
            r.spec_config().volume == 100_000,
    {
        Self::new_config(sample_rate, window, ChannelConfig::new())
    }

    pub fn new_config(sample_rate: u64, window: u64, config: ChannelConfig) -> (r: Self)
        requires
            sample_rate > 0,
            config.wf(),
        ensures
            r.fresh(sample_rate, window, config),
    {
        let mut encoder = Self {
            window,
            channel_config: config,
            previous_symbol: Vec::new(),
            queued_duration: 0,
            command_queue: VecDeque::new(),
            generator: SoundGenerator::new(sample_rate),
        };
        proof {
            lemma_pow2_pos(config.phase_bits as nat);
        }
        let mut i: usize = 0;
        while i < config.channels
            invariant
                config.wf(),
                encoder.channel_config == config,
                i <= config.channels,
                encoder.previous_symbol@ == Seq::new(i as nat, |j: int| 0u64),
                encoder.window == window,
                encoder.queued_duration == 0,
                encoder.command_queue@ == Seq::<TimedCommand>::empty(),
                encoder.generator.wf(),
                encoder.generator.spec_clock() == 0,
                encoder.generator.spec_rate() == sample_rate,
                encoder.generator.spec_volume() == 0,
                encoder.generator.spec_waveform() == Seq::<FrequencyComponent>::empty(),
                config.spec_phase_buckets() > 0,
            decreases config.channels - i,
        {
            encoder.previous_symbol.push(0);
            i += 1;
            assert(encoder.previous_symbol@ =~= Seq::new(i as nat, |j: int| 0u64));
        }
        encoder
    }

    fn enqueue_action(&mut self, command: SoundCommand, duration: u64)
        requires
            old(self).wf(),
            command.wf(),
            old(self).spec_queued() + duration <= u64::MAX,
        ensures
            final(self).wf(),
            final(self).spec_queue() == old(self).spec_queue().push(
                TimedCommand { command, time: old(self).queued_duration },
            ),
            final(self).spec_queued() == old(self).spec_queued() + duration,
            final(self).window == old(self).window,
            final(self).channel_config == old(self).channel_config,
            final(self).previous_symbol == old(self).previous_symbol,
            final(self).generator == old(self).generator,
    {
        self.command_queue.push_back(TimedCommand { command, time: self.queued_duration });
        self.queued_duration = self.queued_duration + duration;
    }

    /// The first queued command, taken off the queue if it is due.
    fn try_dequeue_command(&mut self) -> (r: Option<SoundCommand>)
        requires
            old(self).wf(),
        ensures
            final(self).wf(),
            final(self).window == old(self).window,
            final(self).channel_config == old(self).channel_config,
            final(self).previous_symbol == old(self).previous_symbol,
            final(self).generator == old(self).generator,
            final(self).queued_duration == old(self).queued_duration,
            ({
                let q = old(self).spec_queue();
                let g = old(self).spec_generator();
                if q.len() > 0 && is_due(q[0].time as int, g.spec_clock() as int, g.spec_rate() as int) {
                    r == Some(q[0].command) && final(self).spec_queue() == q.skip(1)
                } else {
                    r is None && final(self).spec_queue() == q
                }
            }),
    {
        if self.command_queue.len() == 0 {
            return None;
        }
        let head = self.command_queue[0];
        proof {
            assert(head.time as int * self.generator.spec_rate() <= 0xffff_ffff_ffff_ffff * 0xffff_ffff_ffff_ffff)
                by (nonlinear_arith)
                requires head.time <= 0xffff_ffff_ffff_ffffu64, self.generator.spec_rate() <= 0xffff_ffff_ffff_ffffu64;
        }
        let due = head.time as u128 * self.generator.sample_rate() as u128
            <= self.generator.sample_clock() as u128 * 1000;
        if due {
            let ghost q = self.command_queue@;
            let popped = self.command_queue.pop_front();
            proof {
                assert forall|i: int, j: int|
                    0 <= i < j < self.command_queue@.len() implies (#[trigger] self.command_queue@[i]).time
                        <= (#[trigger] self.command_queue@[j]).time by {
                    assert(self.command_queue@[i] == q[i + 1]);
                    assert(self.command_queue@[j] == q[j + 1]);
                }
                assert forall|i: int| 0 <= i < self.command_queue@.len() implies (#[trigger] self.command_queue@[i]).command.wf()
                    && self.command_queue@[i].time <= self.queued_duration by {
                    assert(self.command_queue@[i] == q[i + 1]);
                }
            }
            match popped {
                Some(v) => Some(v.command),
                None => None,
            }
        } else {
            None
        }
    }

    /// The whole schedule has elapsed: the clock, in seconds, has reached the
    /// end of the last command's span.
    pub fn done(&self) -> (r: bool)
        requires
            self.wf(),
        ensures
            r == self.spec_done(),
    {
        proof {
            assert(self.queued_duration as int * self.generator.spec_rate() <= 0xffff_ffff_ffff_ffff * 0xffff_ffff_ffff_ffff)
                by (nonlinear_arith)
                requires self.queued_duration <= 0xffff_ffff_ffff_ffffu64, self.generator.spec_rate() <= 0xffff_ffff_ffff_ffffu64;
        }
        self.queued_duration as u128 * self.generator.sample_rate() as u128
            <= self.generator.sample_clock() as u128 * 1000
    }

    /// Milliseconds scheduled so far.
    pub fn queued_duration(&self) -> (r: u64)
        ensures
            r == self.spec_queued(),
    {
        self.queued_duration
    }

    pub fn generator(&self) -> (r: &SoundGenerator)
        ensures
            *r == self.spec_generator(),
    {
        &self.generator
    }

    pub fn config(&self) -> (r: ChannelConfig)
        ensures
            r == self.spec_config(),
    {
        self.channel_config
    }

    fn on(&mut self, duration: u64)
        requires
            old(self).wf(),
            old(self).spec_queued() + duration <= u64::MAX,
        ensures
            final(self).wf(),
            final(self).spec_queue() == old(self).spec_queue().push(
                timed(SoundCommand::TransitionVolume(old(self).channel_config.volume), old(self).queued_duration as int),
            ),
            final(self).spec_queued() == old(self).spec_queued() + duration,
            final(self).window == old(self).window,
            final(self).channel_config == old(self).channel_config,
            final(self).previous_symbol == old(self).previous_symbol,
            final(self).generator == old(self).generator,
    {
        self.enqueue_action(SoundCommand::TransitionVolume(self.channel_config.volume), duration)
    }

    fn off(&mut self, duration: u64)
        requires
            old(self).wf(),
            old(self).spec_queued() + duration <= u64::MAX,
        ensures
            final(self).wf(),
            final(self).spec_queue() == old(self).spec_queue().push(
                timed(SoundCommand::TransitionVolume(0), old(self).queued_duration as int),
            ),
            final(self).spec_queued() == old(self).spec_queued() + duration,
            final(self).window == old(self).window,
            final(self).channel_config == old(self).channel_config,
            final(self).previous_symbol == old(self).previous_symbol,
            final(self).generator == old(self).generator,
    {
        self.enqueue_action(SoundCommand::TransitionVolume(0), duration)
    }

    fn add(&mut self, wave: FrequencyComponent)
        requires
            old(self).wf(),
        ensures
            final(self).wf(),
            final(self).spec_queue() == old(self).spec_queue().push(
                timed(SoundCommand::AddWaveform(wave), old(self).queued_duration as int),
            ),
            final(self).spec_queued() == old(self).spec_queued(),
            final(self).window == old(self).window,
            final(self).channel_config == old(self).channel_config,
            final(self).previous_symbol == old(self).previous_symbol,
            final(self).generator == old(self).generator,
    {
        self.enqueue_action(SoundCommand::AddWaveform(wave), 0)
    }

    fn clear(&mut self)
        requires
            old(self).wf(),
        ensures
            final(self).wf(),
            final(self).spec_queue() == old(self).spec_queue().push(
                timed(SoundCommand::ClearWaveform, old(self).queued_duration as int),
            ),
            final(self).spec_queued() == old(self).spec_queued(),
            final(self).window == old(self).window,
            final(self).channel_config == old(self).channel_config,
            final(self).previous_symbol == old(self).previous_symbol,
            final(self).generator == old(self).generator,
    {
        self.enqueue_action(SoundCommand::ClearWaveform, 0)
    }

    fn phase_bits_per_channel(&self) -> (r: u32)
        requires
            self.wf(),
        ensures
            r == self.channel_config.phase_bits,
    {
        let b = self.channel_config.phase_buckets();
        proof {
            lemma_pow2_pos(self.channel_config.phase_bits as nat);
        }
        let r = log2(b);
        proof {
            lemma_log2_of_pow2(r as nat, self.channel_config.phase_bits as nat);
        }
        r
    }

    fn amplitude_bits_per_channel(&self) -> (r: u32)
        requires
            self.wf(),
        ensures
            r == self.channel_config.amplitude_bits,
    {
        let b = self.channel_config.amplitude_buckets();
        proof {
            lemma_pow2_pos(self.channel_config.amplitude_bits as nat);
        }
        let r = log2(b);
        proof {
            lemma_log2_of_pow2(r as nat, self.channel_config.amplitude_bits as nat);
        }
        r
    }

    /// Bits carried by one symbol: amplitude and phase bits of every carrier.
    fn bits_per_symbol(&self) -> (r: u32)
        requires
            self.wf(),
        ensures
            r == self.channel_config.spec_bits_per_symbol(),
            1 <= r <= 64,
    {
        let bits = self.amplitude_bits_per_channel() + self.phase_bits_per_channel();
        proof {
            assert(bits * self.channel_config.channels >= 1 && self.channel_config.channels <= 64) by (nonlinear_arith)
                requires
                    bits >= 1,
                    self.channel_config.channels >= 1,
                    bits * self.channel_config.channels <= 64;
        }
        bits * self.channel_config.channels as u32
    }

    /// Schedules the calibration symbol: every carrier at phase zero for two
    /// symbol durations, then a pause.
    pub fn send_calibration(&mut self)
        requires
            old(self).wf(),
            old(self).spec_queued() + calibration_span(old(self).spec_config()) <= u64::MAX,
        ensures
            final(self).wf(),
            final(self).spec_queue() == old(self).spec_queue() + calibration_commands(
                old(self).spec_config(),
                old(self).spec_window(),
                old(self).spec_queued() as int,
            ),
            final(self).spec_queued() == old(self).spec_queued() + calibration_span(
                old(self).spec_config(),
            ),
            final(self).spec_previous() == old(self).spec_previous(),
            final(self).spec_config() == old(self).spec_config(),
            final(self).spec_window() == old(self).spec_window(),
            final(self).spec_generator() == old(self).spec_generator(),
    {
        let ghost q0 = self.command_queue@;
        let ghost t = self.queued_duration as int;
        let ghost config = self.channel_config;
        let ghost window = self.window;
        self.clear();
        let ghost adds = Seq::new(
            config.channels as nat,
            |i: int|
                timed(
                    SoundCommand::AddWaveform(
                        FrequencyComponent::new_simple_spec(config.spec_channel_bin(i) as u64, window),
                    ),
                    t,
                ),
        );
        let ghost head = seq![timed(SoundCommand::ClearWaveform, t)];
        assert(self.command_queue@ =~= q0 + head);
        let mut i: usize = 0;
        while i < self.channel_config.channels
            invariant
                self.wf(),
                self.channel_config == config,
                self.window == window,
                self.previous_symbol == old(self).previous_symbol,
                self.generator == old(self).generator,
                self.queued_duration == t,
                t + calibration_span(config) <= u64::MAX,
                i <= config.channels,
                adds == Seq::new(
                    config.channels as nat,
                    |i: int|
                        timed(
                            SoundCommand::AddWaveform(
                                FrequencyComponent::new_simple_spec(config.spec_channel_bin(i) as u64, window),
                            ),
                            t,
                        ),
                ),
                self.command_queue@ == q0 + head + adds.take(i as int),
            decreases config.channels - i,
        {
            let bin = self.channel_config.channel_bin(i);
            let wave = FrequencyComponent::new_simple(bin as u64, self.window);
            self.add(wave);
            proof {
                assert(adds.take(i + 1) =~= adds.take(i as int).push(adds[i as int]));
                assert(self.command_queue@ =~= q0 + head + adds.take(i + 1));
            }
            i += 1;
        }
        self.on(self.channel_config.symbol_duration * 2);
        self.off(self.channel_config.pause_duration);
        proof {
            assert(adds.take(config.channels as int) =~= adds);
            assert(self.command_queue@ =~= q0 + calibration_commands(config, window, t));
        }
    }

    /// Schedules one symbol: each carrier's `phase_bits` bits of `data`,
    /// lowest carrier first, sent as a step back of that many phase buckets.
    /// Expects the volume to be zero and the previous pause to be over.
    pub fn send_symbol(&mut self, data: u64)
        requires
            old(self).wf(),
            old(self).spec_queued() + symbol_span(old(self).spec_config()) <= u64::MAX,
        ensures
            final(self).wf(),
            final(self).spec_queue() == old(self).spec_queue() + symbol_commands(
                old(self).spec_config(),
                old(self).spec_window(),
                old(self).spec_previous(),
                data,
                old(self).spec_queued() as int,
            ),
            final(self).spec_previous() == symbol_buckets(
                old(self).spec_config(),
                old(self).spec_previous(),
                data,
            ),
            final(self).spec_queued() == old(self).spec_queued() + symbol_span(
                old(self).spec_config(),
            ),
            final(self).spec_config() == old(self).spec_config(),
            final(self).spec_window() == old(self).spec_window(),
            final(self).spec_generator() == old(self).spec_generator(),
    {
        let ghost q0 = self.command_queue@;
        let ghost p0 = self.previous_symbol@;
        let ghost t = self.queued_duration as int;
        let ghost config = self.channel_config;
        let ghost window = self.window;
        let ghost b = symbol_buckets(config, p0, data);
        let ghost adds = Seq::new(
            config.channels as nat,
            |i: int| timed(SoundCommand::AddWaveform(carrier_component(config, window, i, b[i])), t),
        );
        self.clear();
        let bits = self.amplitude_bits_per_channel() + self.phase_bits_per_channel();
        let buckets = self.channel_config.phase_buckets();
        proof {
            lemma_pow2_pos(bits as nat);
            lemma2_to64();
            if bits < 31 {
                vstd::arithmetic::power2::lemma_pow2_strictly_increases(bits as nat, 31);
            }
            assert(data as nat / pow2(0) == data);
            assert(self.command_queue@ =~= q0 + seq![timed(SoundCommand::ClearWaveform, t)]);
        }
        let mut rest: u64 = data;
        let mut channel: usize = 0;
        while channel < self.channel_config.channels
            invariant
                self.wf(),
                self.channel_config == config,
                self.window == window,
                self.generator == old(self).generator,
                self.queued_duration == t,
                t + symbol_span(config) <= u64::MAX,
                bits == config.phase_bits,
                buckets == pow2(bits as nat),
                0 < buckets <= 0x8000_0000,
                adds == Seq::new(
                    config.channels as nat,
                    |i: int| timed(SoundCommand::AddWaveform(carrier_component(config, window, i, b[i])), t),
                ),
                b == symbol_buckets(config, p0, data),
                p0.len() == config.channels,
                forall|i: int| 0 <= i < p0.len() ==> #[trigger] p0[i] < config.spec_phase_buckets(),
                channel <= config.channels,
                rest == data as nat / pow2((channel * bits) as nat),
                self.previous_symbol@ == b.take(channel as int) + p0.skip(channel as int),
                self.command_queue@ == q0 + seq![timed(SoundCommand::ClearWaveform, t)] + adds.take(channel as int),
            decreases config.channels - channel,
        {
            let channel_data = rest % buckets;
            let prev = self.previous_symbol[channel];
            proof {
                assert(prev == p0[channel as int]);
                lemma_pow2_pos((channel * bits) as nat);
                lemma_pow2_adds((channel * bits) as nat, bits as nat);
                vstd::arithmetic::div_mod::lemma_div_denominator(
                    data as int,
                    pow2((channel * bits) as nat) as int,
                    pow2(bits as nat) as int,
                );
                assert((channel + 1) * bits == channel * bits + bits) by (nonlinear_arith);
            }
            let d = if prev >= channel_data {
                prev - channel_data
            } else {
                prev + buckets - channel_data
            };
            proof {
                let v = channel_value(data, channel as int, bits as nat);
                assert(channel_data == v);
                if prev >= channel_data {
                    vstd::arithmetic::div_mod::lemma_small_mod((prev - channel_data) as nat, buckets as nat);
                } else {
                    vstd::arithmetic::div_mod::lemma_mod_add_multiples_vanish(
                        prev as int - channel_data as int,
                        buckets as int,
                    );
                    vstd::arithmetic::div_mod::lemma_small_mod(
                        (prev as int - channel_data as int + buckets as int) as nat,
                        buckets as nat,
                    );
                }
                assert(d == b[channel as int]);
            }
            rest = rest / buckets;
            let bin = self.channel_config.channel_bin(channel);
            let wave = FrequencyComponent::new(bin as u64, self.window, d, buckets, 1);
            self.add(wave);
            self.previous_symbol.set(channel, d);
            proof {
                assert(adds.take(channel + 1) =~= adds.take(channel as int).push(adds[channel as int]));
                assert(self.previous_symbol@ =~= b.take(channel + 1) + p0.skip(channel + 1));
            }
            channel += 1;
        }
        self.on(self.channel_config.symbol_duration);
        self.off(self.channel_config.pause_duration);
        proof {
            assert(adds.take(config.channels as int) =~= adds);
            assert(b.take(config.channels as int) + p0.skip(config.channels as int) =~= b);
            assert(self.command_queue@ =~= q0 + symbol_commands(config, window, p0, data, t));
        }
    }

    /// The bits of `data`, each byte most significant bit first.
    fn to_bit_vector(data: &[u8]) -> (r: Vec<bool>)
        requires
            8 * data@.len() <= usize::MAX,
        ensures
            r@ == bytes_bits(data@),
    {
        let mut r: Vec<bool> = Vec::new();
        let mut i: usize = 0;
        proof {
            assert(data@.take(0) =~= Seq::<u8>::empty());
            assert(bytes_bits(Seq::<u8>::empty()) =~= Seq::<bool>::empty());
        }
        while i < data.len()
            invariant
                i <= data@.len(),
                r@ == bytes_bits(data@.take(i as int)),
            decreases data@.len() - i,
        {
            let v = data[i];
            let ghost start = r@;
            let mut j: u32 = 0;
            while j < 8
                invariant
                    j <= 8,
                    v == data@[i as int],
                    r@ == start + byte_bits(v).take(j as int),
                decreases 8 - j,
            {
                let b = (v as u64) & (1u64 << (7 - j)) != 0;
                proof {
                    lemma_mask_bit(v as u64, (7 - j) as u32);
                    assert(byte_bits(v)[j as int] == b);
                    assert(byte_bits(v).take(j + 1) =~= byte_bits(v).take(j as int).push(b));
                }
                r.push(b);
                j += 1;
            }
            proof {
                assert(byte_bits(v).take(8) =~= byte_bits(v));
                lemma_bytes_bits_push(data@.take(i as int), v);
                assert(data@.take(i + 1) =~= data@.take(i as int).push(v));
            }
            i += 1;
        }
        proof {
            assert(data@.take(data@.len() as int) =~= data@);
        }
        r
    }

    /// The number that `bits[start..end]` spells, most significant first.
    fn to_int(bits: &Vec<bool>, start: usize, end: usize) -> (r: u64)
        requires
            start <= end <= bits@.len(),
            end - start <= 64,
        ensures
            r == bits_value(bits@.subrange(start as int, end as int)),
    {
        let mut v: u64 = 0;
        let mut j: usize = start;
        proof {
            lemma2_to64();
        }
        while j < end
            invariant
                start <= j <= end <= bits@.len(),
                end - start <= 64,
                v == bits_value(bits@.subrange(start as int, j as int)),
            decreases end - j,
        {
            proof {
                lemma_bits_value_bound(bits@.subrange(start as int, j as int));
                lemma2_to64();
                vstd::arithmetic::power2::lemma2_to64_rest();
                let e = (j - start) as nat;
                assert(e <= 63);
                if e < 63 {
                    vstd::arithmetic::power2::lemma_pow2_strictly_increases(e, 63);
                } else {
                    assert(e == 63);
                }
                assert(pow2(e) <= 0x8000_0000_0000_0000);
                assert(bits@.subrange(start as int, j as int).len() == e);
                assert(v < 0x8000_0000_0000_0000u64);
                assert(bits@.subrange(start as int, j + 1).drop_last() =~= bits@.subrange(
                    start as int,
                    j as int,
                ));
            }
            v = v * 2 + if bits[j] { 1u64 } else { 0u64 };
            j += 1;
        }
        v
    }

    /// Schedules `data`: its bits, most significant first, cut into symbols
    /// of `bits_per_symbol` bits; a short last group is sent as its own
    /// value.
    pub fn send_data(&mut self, data: &[u8])
        requires
            old(self).wf(),
            8 * data@.len() + 64 <= usize::MAX,
            old(self).spec_queued() + symbol_count(
                8 * data@.len(),
                old(self).spec_config().spec_bits_per_symbol(),
            ) * symbol_span(old(self).spec_config()) <= u64::MAX,
        ensures
            final(self).wf(),
            ({
                let syms = data_symbols(
                    bytes_bits(data@),
                    old(self).spec_config().spec_bits_per_symbol(),
                );
                &&& final(self).spec_queue() == old(self).spec_queue() + symbols_commands(
                    old(self).spec_config(),
                    old(self).spec_window(),
                    old(self).spec_previous(),
                    syms,
                    old(self).spec_queued() as int,
                )
                &&& final(self).spec_previous() == buckets_after(
                    old(self).spec_config(),
                    old(self).spec_previous(),
                    syms,
                )
                &&& final(self).spec_queued() == old(self).spec_queued() + syms.len()
                    * symbol_span(old(self).spec_config())
            }),
            final(self).spec_config() == old(self).spec_config(),
            final(self).spec_window() == old(self).spec_window(),
            final(self).spec_generator() == old(self).spec_generator(),
    {
        let ghost q0 = self.command_queue@;
        let ghost p0 = self.previous_symbol@;
        let ghost t = self.queued_duration as int;
        let ghost config = self.channel_config;
        let ghost window = self.window;
        let bits = Self::to_bit_vector(data);
        let bps = self.bits_per_symbol() as usize;
        let n = bits.len();
        let ghost syms = data_symbols(bits@, bps as nat);
        let ghost span = symbol_span(config);
        let ghost count = symbol_count(n as nat, bps as nat);
        proof {
            crate::bit_org::lemma_bytes_bits_len(data@);
            assert(syms.take(0) =~= Seq::<u64>::empty());
        }
        let count_exec = (n + bps - 1) / bps;
        let mut k: usize = 0;
        while k < count_exec
            invariant
                self.wf(),
                self.channel_config == config,
                self.window == window,
                self.generator == old(self).generator,
                n == bits@.len(),
                n + 64 <= usize::MAX,
                1 <= bps <= 64,
                bps == config.spec_bits_per_symbol(),
                syms == data_symbols(bits@, bps as nat),
                count == symbol_count(n as nat, bps as nat),
                count_exec == count,
                span == symbol_span(config),
                span >= 0,
                t + count * span <= u64::MAX,
                k <= count,
                self.command_queue@ == q0 + symbols_commands(config, window, p0, syms.take(k as int), t),
                self.previous_symbol@ == buckets_after(config, p0, syms.take(k as int)),
                self.queued_duration == t + k * span,
            decreases count - k,
        {
            proof {
                vstd::arithmetic::div_mod::lemma_fundamental_div_mod((n + bps - 1) as int, bps as int);
                assert(k * bps + 1 <= n) by (nonlinear_arith)
                    requires
                        k + 1 <= count,
                        bps >= 1,
                        (n + bps - 1) == bps * count + (n + bps - 1) % (bps as int),
                        0 <= (n + bps - 1) % (bps as int) < bps,
                ;
            }
            let start = k * bps;
            let end = if start + bps < n {
                start + bps
            } else {
                n
            };
            let value = Self::to_int(&bits, start, end);
            proof {
                assert(value == syms[k as int]) by {
                    assert((k + 1) * bps == start + bps) by (nonlinear_arith)
                        requires start == k * bps;
                }
                assert(t + (k + 1) * span <= t + count * span) by (nonlinear_arith)
                    requires k + 1 <= count, span >= 0;
                assert((k + 1) * span == k * span + span) by (nonlinear_arith);
            }
            self.send_symbol(value);
            proof {
                let done = syms.take(k as int);
                assert(syms.take(k + 1) =~= done.push(value));
                assert(syms.take(k + 1).drop_last() =~= done);
                assert(self.command_queue@ =~= q0 + symbols_commands(config, window, p0, syms.take(k + 1), t));
            }
            k += 1;
        }
        proof {
            assert(syms.take(k as int) =~= syms);
        }
    }

    /// Schedules `buf` and says how many bytes it took: all of them.
    pub fn write(&mut self, buf: &[u8]) -> (r: usize)
        requires
            old(self).wf(),
            8 * buf@.len() + 64 <= usize::MAX,
            old(self).spec_queued() + symbol_count(
                8 * buf@.len(),
                old(self).spec_config().spec_bits_per_symbol(),
            ) * symbol_span(old(self).spec_config()) <= u64::MAX,
        ensures
            final(self).wf(),
            r == buf@.len(),
            ({
                let syms = data_symbols(
                    bytes_bits(buf@),
                    old(self).spec_config().spec_bits_per_symbol(),
                );
                &&& final(self).spec_queue() == old(self).spec_queue() + symbols_commands(
                    old(self).spec_config(),
                    old(self).spec_window(),
                    old(self).spec_previous(),
                    syms,
                    old(self).spec_queued() as int,
                )
                &&& final(self).spec_previous() == buckets_after(
                    old(self).spec_config(),
                    old(self).spec_previous(),
                    syms,
                )
                &&& final(self).spec_queued() == old(self).spec_queued() + syms.len()
                    * symbol_span(old(self).spec_config())
            }),
            final(self).spec_config() == old(self).spec_config(),
            final(self).spec_window() == old(self).spec_window(),
            final(self).spec_generator() == old(self).spec_generator(),
    {
        self.send_data(buf);
        buf.len()
    }

    /// Carries out the first queued command if it is due.
    fn receive_command(&mut self)
        requires
            old(self).wf(),
        ensures
            final(self).wf(),
            final(self).window == old(self).window,
            final(self).channel_config == old(self).channel_config,
            final(self).previous_symbol == old(self).previous_symbol,
            final(self).queued_duration == old(self).queued_duration,
            ({
                let q = old(self).spec_queue();
                let g = old(self).spec_generator();
                if q.len() > 0 && is_due(q[0].time as int, g.spec_clock() as int, g.spec_rate() as int) {
                    &&& final(self).spec_queue() == q.skip(1)
                    &&& g.spec_applied(q[0].command, final(self).generator)
                } else {
                    &&& final(self).spec_queue() == q
                    &&& final(self).generator == g
                }
            }),
    {
        let ghost q = self.command_queue@;
        if let Some(command) = self.try_dequeue_command() {
            proof {
                assert(q[0].command.wf());
            }
            self.generator.apply(command);
        }
    }

    /// Produces the next sample's state: carries out the first queued command
    /// if it is due, then advances the generator by one sample.
    pub fn tick(&mut self)
        requires
            old(self).wf(),
            old(self).spec_generator().spec_clock() < u64::MAX,
        ensures
            final(self).wf(),
            final(self).spec_config() == old(self).spec_config(),
            final(self).spec_window() == old(self).spec_window(),
            final(self).spec_previous() == old(self).spec_previous(),
            final(self).spec_queued() == old(self).spec_queued(),
            ({
                let q = old(self).spec_queue();
                let g = old(self).spec_generator();
                if q.len() > 0 && is_due(q[0].time as int, g.spec_clock() as int, g.spec_rate() as int) {
                    &&& final(self).spec_queue() == q.skip(1)
                    &&& exists|mid: SoundGenerator|
                        g.spec_applied(q[0].command, mid) && #[trigger] mid.spec_ticked(
                            final(self).spec_generator(),
                        )
                } else {
                    &&& final(self).spec_queue() == q
                    &&& g.spec_ticked(final(self).spec_generator())
                }
            }),
    {
        let ghost q = self.command_queue@;
        let ghost g = self.generator;
        self.receive_command();
        let ghost mid = self.generator;
        self.generator.tick();
        proof {
            if q.len() > 0 && is_due(q[0].time as int, g.spec_clock() as int, g.spec_rate() as int) {
                assert(g.spec_applied(q[0].command, mid) && mid.spec_ticked(self.spec_generator()));
            }
        }
    }

    /// Adds a sinusoid of weight one at phase zero straight to the mix.
    pub fn push_frequency(&mut self, bin: u64)
        requires
            old(self).wf(),
        ensures
            final(self).wf(),
            final(self).spec_generator().spec_waveform() == old(self).spec_generator().spec_waveform().push(
                FrequencyComponent::new_simple_spec(bin, old(self).spec_window()),
            ),
            final(self).spec_queue() == old(self).spec_queue(),
            final(self).spec_queued() == old(self).spec_queued(),
            final(self).spec_generator().spec_clock() == old(self).spec_generator().spec_clock(),
            final(self).spec_generator().spec_rate() == old(self).spec_generator().spec_rate(),
            final(self).spec_generator().spec_volume() == old(self).spec_generator().spec_volume(),
            final(self).spec_generator().spec_left() == old(self).spec_generator().spec_left(),
            final(self).spec_config() == old(self).spec_config(),
            final(self).spec_window() == old(self).spec_window(),
            final(self).spec_previous() == old(self).spec_previous(),
    {
        self.generator.push_frequency(bin, self.window);
    }

    /// Adds a sinusoid straight to the mix.
    pub fn push(&mut self, c: FrequencyComponent)
        requires
            old(self).wf(),
        ensures
            final(self).wf(),
            final(self).spec_generator().spec_waveform() == old(self).spec_generator().spec_waveform().push(c),
            final(self).spec_queue() == old(self).spec_queue(),
            final(self).spec_queued() == old(self).spec_queued(),
            final(self).spec_generator().spec_clock() == old(self).spec_generator().spec_clock(),
            final(self).spec_generator().spec_rate() == old(self).spec_generator().spec_rate(),
            final(self).spec_generator().spec_volume() == old(self).spec_generator().spec_volume(),
            final(self).spec_generator().spec_left() == old(self).spec_generator().spec_left(),
            final(self).spec_config() == old(self).spec_config(),
            final(self).spec_window() == old(self).spec_window(),
            final(self).spec_previous() == old(self).spec_previous(),
    {
        self.generator.push(c);
    }
}

} // verus!
