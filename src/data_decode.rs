use vstd::prelude::*;
use vstd::arithmetic::power2::{pow2, lemma_pow2_pos, lemma_pow2_adds};
use crate::bit_org::{BitOrg, value_bits, bits_bytes};
use crate::config::ChannelConfig;
use crate::differential_decode::{DecodeResult, DifferentialDecoder, NOISE_THRESHOLD};
use crate::fft::{FftDecoder, FftPoint};

verus! {

/// A carrier's remembered value after it showed `r`: a new value replaces
/// it, noise forgets it, a repeat keeps it.
pub open spec fn coalesce(cached: Option<u64>, r: DecodeResult) -> Option<u64> {
    match r {
        DecodeResult::Noise => None,
        DecodeResult::Signal(v) => Some(v),
        DecodeResult::SameSignal => cached,
    }
}

/// Every carrier holds a value.
pub open spec fn all_held(cache: Seq<Option<u64>>) -> bool {
    forall|i: int| 0 <= i < cache.len() ==> (#[trigger] cache[i]) is Some
}

/// The values of the carriers put together, `bits` bits each, the first
/// carrier in the lowest bits.
pub open spec fn joined_value(cache: Seq<Option<u64>>, bits: nat) -> int
    decreases cache.len(),
{
    if cache.len() == 0 {
        0
    } else {
        (match cache[0] {
            Some(v) => v as int,
            None => 0,
        }) + pow2(bits) * joined_value(cache.skip(1), bits)
    }
}

/// The symbol that the carriers show together, if all of them hold a value.
pub open spec fn joined_symbol(cache: Seq<Option<u64>>, bits: nat) -> Option<u64> {
    if all_held(cache) {
        Some(joined_value(cache, bits) as u64)
    } else {
        None
    }
}

/// Each held value fits in `bits` bits.
pub open spec fn values_fit(cache: Seq<Option<u64>>, bits: nat) -> bool {
    forall|i: int|
        0 <= i < cache.len() && (#[trigger] cache[i]) is Some ==> cache[i]->0 < pow2(bits)
}

pub proof fn lemma_joined_value_bound(cache: Seq<Option<u64>>, bits: nat)
    requires
        values_fit(cache, bits),
    ensures
        0 <= joined_value(cache, bits) < pow2(bits * cache.len()),
    decreases cache.len(),
{
    lemma_pow2_pos(bits);
    if cache.len() == 0 {
        vstd::arithmetic::power2::lemma2_to64();
    } else {
        let rest = cache.skip(1);
        assert(values_fit(rest, bits)) by {
            assert forall|i: int| 0 <= i < rest.len() && (#[trigger] rest[i]) is Some implies rest[i]->0
                < pow2(bits) by {
                assert(rest[i] == cache[i + 1]);
            }
        }
        lemma_joined_value_bound(rest, bits);
        let p = pow2(bits) as int;
        let q = pow2(bits * rest.len()) as int;
        let v: int = match cache[0] {
            Some(x) => x as int,
            None => 0,
        };
        let j = joined_value(rest, bits);
        assert(v < p);
        lemma_pow2_adds(bits, bits * rest.len());
        assert(bits * cache.len() == bits + bits * rest.len()) by (nonlinear_arith)
            requires cache.len() == rest.len() + 1;
        assert(v + p * j < p * q) by (nonlinear_arith)
            requires 0 <= v < p, 0 <= j < q, p > 0;
        assert(v + p * j >= 0) by (nonlinear_arith)
            requires 0 <= v, 0 <= j, p > 0;
    }
}

/// Every carrier's bin in the window is strong enough to count as a tone.
pub open spec fn all_strong(config: ChannelConfig, fft: Seq<FftPoint>) -> bool {
    forall|i: int|
        0 <= i < config.channels ==> #[trigger] carrier_points(config, fft)[i].amplitude
            >= NOISE_THRESHOLD
}

/// A tone burst that lasts four windows on every carrier is reported exactly
/// once, on its second window, and not again while it lasts, provided some
/// carrier was quiet in the window before it (or the decoder is new). The
/// four windows may differ; only their strength matters for this.
pub proof fn law_burst_reported_once(
    d0: DataDecoder,
    d1: DataDecoder,
    d2: DataDecoder,
    d3: DataDecoder,
    d4: DataDecoder,
    w1: Seq<FftPoint>,
    w2: Seq<FftPoint>,
    w3: Seq<FftPoint>,
    w4: Seq<FftPoint>,
    r1: Option<u64>,
    r2: Option<u64>,
    r3: Option<u64>,
    r4: Option<u64>,
    quiet: int,
)
    requires
        d0.wf(),
        0 <= quiet < d0.spec_config().channels,
        d0.spec_decoders()[quiet].spec_in_a_row() == 0,
        all_strong(d0.spec_config(), w1),
        all_strong(d0.spec_config(), w2),
        all_strong(d0.spec_config(), w3),
        all_strong(d0.spec_config(), w4),
        d0.spec_sampled(w1, d1, r1),
        d1.spec_sampled(w2, d2, r2),
        d2.spec_sampled(w3, d3, r3),
        d3.spec_sampled(w4, d4, r4),
    ensures
        r1 is None,
        r2 is Some,
        r3 is None,
        r4 is None,
{
    let config = d0.spec_config();
    let n = config.channels as int;
    let p1 = carrier_points(config, w1);
    let p2 = carrier_points(config, w2);
    let p3 = carrier_points(config, w3);
    let p4 = carrier_points(config, w4);
    // The quiet carrier starts a run: edge, tone, then repeats.
    assert(p1[quiet].amplitude >= NOISE_THRESHOLD);
    assert(d0.spec_decoders()[quiet].spec_next(p1[quiet], d1.spec_decoders()[quiet]));
    assert(d0.spec_decoders()[quiet].spec_result(p1[quiet]) == DecodeResult::Noise);
    assert(d1.spec_cache()[quiet] is None);
    assert(!all_held(d1.spec_cache()));
    // Every carrier's run is at least one window long after the first window.
    assert forall|i: int| 0 <= i < n implies (#[trigger] d1.spec_decoders()[i]).spec_in_a_row() >= 1
        && (d1.spec_decoders()[i].spec_in_a_row() >= 2 ==> d1.spec_cache()[i] is Some) by {
        assert(p1[i].amplitude >= NOISE_THRESHOLD);
        assert(d0.spec_decoders()[i].spec_next(p1[i], d1.spec_decoders()[i]));
        if d0.spec_decoders()[i].spec_in_a_row() >= 2 {
            assert(d0.spec_cache()[i] is Some);
        }
    }
    assert forall|i: int| 0 <= i < n implies (#[trigger] d2.spec_decoders()[i]).spec_in_a_row() >= 2
        && d2.spec_cache()[i] is Some by {
        assert(p2[i].amplitude >= NOISE_THRESHOLD);
        assert(d1.spec_decoders()[i].spec_next(p2[i], d2.spec_decoders()[i]));
        assert(d1.spec_decoders()[i].spec_in_a_row() >= 1);
    }
    assert(all_held(d2.spec_cache())) by {
        assert forall|i: int| 0 <= i < d2.spec_cache().len() implies (#[trigger] d2.spec_cache()[i]) is Some by {
            assert(d2.spec_decoders()[i].spec_in_a_row() >= 2);
        }
    }
    assert forall|i: int| 0 <= i < n implies (#[trigger] d3.spec_decoders()[i]).spec_in_a_row() >= 3
        && d2.spec_decoders()[i].spec_result(p3[i]) == DecodeResult::SameSignal by {
        assert(p3[i].amplitude >= NOISE_THRESHOLD);
        assert(d2.spec_decoders()[i].spec_in_a_row() >= 2);
        assert(d2.spec_decoders()[i].spec_next(p3[i], d3.spec_decoders()[i]));
    }
    assert(d3.spec_cache() =~= d2.spec_cache()) by {
        assert forall|i: int| 0 <= i < n implies #[trigger] d3.spec_cache()[i] == d2.spec_cache()[i] by {
            assert(d2.spec_decoders()[i].spec_result(p3[i]) == DecodeResult::SameSignal);
        }
    }
    assert forall|i: int| 0 <= i < n implies d3.spec_decoders()[i].spec_result(p4[i])
        == DecodeResult::SameSignal by {
        assert(p4[i].amplitude >= NOISE_THRESHOLD);
        assert(d3.spec_decoders()[i].spec_in_a_row() >= 3);
    }
    assert(d4.spec_cache() =~= d3.spec_cache()) by {
        assert forall|i: int| 0 <= i < n implies #[trigger] d4.spec_cache()[i] == d3.spec_cache()[i] by {
            assert(d3.spec_decoders()[i].spec_result(p4[i]) == DecodeResult::SameSignal);
        }
    }
}

/// Turns windows of carrier bins back into symbols and bytes.
pub struct DataDecoder {
    config: ChannelConfig,
    decoders: Vec<DifferentialDecoder>,
    cache: Vec<Option<u64>>,
    last_symbol: Option<u64>,
    data: BitOrg,
}

/// The carrier bins of one window.
pub open spec fn carrier_points(config: ChannelConfig, fft: Seq<FftPoint>) -> Seq<FftPoint> {
    Seq::new(config.channels as nat, |i: int| fft[config.spec_channel_bin(i)])
}

impl DataDecoder {
    pub closed spec fn spec_config(&self) -> ChannelConfig {
        self.config
    }

    pub closed spec fn spec_decoders(&self) -> Seq<DifferentialDecoder> {
        self.decoders@
    }

    /// The value each carrier holds, lowest carrier first.
    pub closed spec fn spec_cache(&self) -> Seq<Option<u64>> {
        self.cache@
    }

    /// The symbol last reported; none after a window without one.
    pub closed spec fn spec_last_symbol(&self) -> Option<u64> {
        self.last_symbol
    }

    /// The decoded bits that have not been read yet.
    pub closed spec fn spec_stream(&self) -> Seq<bool> {
        self.data.stream()
    }

    pub closed spec fn wf(&self) -> bool {
        &&& self.config.wf()
        &&& self.decoders@.len() == self.config.channels
        &&& self.cache@.len() == self.config.channels
        &&& forall|i: int|
            0 <= i < self.decoders@.len() ==> (#[trigger] self.decoders@[i]).wf()
                && self.decoders@[i].spec_phase_buckets() == pow2(self.config.phase_bits as nat)
        &&& values_fit(self.cache@, self.config.phase_bits as nat)
        &&& forall|i: int|
            0 <= i < self.cache@.len() ==> ((#[trigger] self.cache@[i]) is Some <==> self.decoders@[i].spec_in_a_row()
                >= 2)
        &&& self.data.wf()
    }

    /// `next` is this decoder after it read the window `fft`, and `r` what it
    /// reported: each carrier's demodulator read its bin, each carrier's
    /// value was updated from what it showed, the carriers' joint symbol (if
    /// all hold a value) became the last symbol, and that symbol is reported
    /// unless it equals the one before.
    pub open spec fn spec_sampled(&self, fft: Seq<FftPoint>, next: DataDecoder, r: Option<u64>) -> bool {
        let pts = carrier_points(self.spec_config(), fft);
        &&& next.spec_config() == self.spec_config()
        &&& next.spec_decoders().len() == pts.len()
        &&& forall|i: int|
            0 <= i < pts.len() ==> self.spec_decoders()[i].spec_next(
                pts[i],
                #[trigger] next.spec_decoders()[i],
            )
        &&& next.spec_cache() == Seq::new(
            pts.len(),
            |i: int| coalesce(self.spec_cache()[i], self.spec_decoders()[i].spec_result(pts[i])),
        )
        &&& next.spec_last_symbol() == joined_symbol(
            next.spec_cache(),
            self.spec_config().spec_bits_per_channel(),
        )
        &&& r == if next.spec_last_symbol() == self.spec_last_symbol() {
            None
        } else {
            next.spec_last_symbol()
        }
    }

    pub fn new(config: ChannelConfig) -> (r: Self)
        requires
            config.wf(),
        ensures
            r.wf(),
            r.spec_config() == config,
            r.spec_cache() == Seq::new(config.channels as nat, |i: int| None::<u64>),
            r.spec_last_symbol() is None,
            r.spec_stream() == Seq::<bool>::empty(),
            forall|i: int|
                0 <= i < config.channels ==> (#[trigger] r.spec_decoders()[i]).spec_last_phase()
                    is None && r.spec_decoders()[i].spec_in_a_row() == 0
                    && r.spec_decoders()[i].spec_phase_buckets() == pow2(config.phase_bits as nat),
    {
        let mut s = Self {
            config,
            decoders: Vec::new(),
            cache: Vec::new(),
            last_symbol: None,
            data: BitOrg::new(),
        };
        let buckets = config.phase_buckets();
        proof {
            vstd::arithmetic::power2::lemma2_to64();
            if config.phase_bits < 32 {
                vstd::arithmetic::power2::lemma_pow2_strictly_increases(config.phase_bits as nat, 32);
            }
        }
        let mut i: usize = 0;
        while i < config.channels
            invariant
                config.wf(),
                s.config == config,
                buckets == pow2(config.phase_bits as nat),
                1 <= buckets <= 0x1_0000_0000u64,
                i <= config.channels,
                s.decoders@.len() == i,
                s.cache@.len() == i,
                forall|j: int| 0 <= j < i ==> (#[trigger] s.cache@[j]) is None,
                forall|j: int|
                    0 <= j < i ==> (#[trigger] s.decoders@[j]).wf()
                        && s.decoders@[j].spec_phase_buckets() == buckets
                        && s.decoders@[j].spec_last_phase() is None
                        && s.decoders@[j].spec_in_a_row() == 0,
                s.last_symbol is None,
                s.data.wf(),
                s.data.stream() == Seq::<bool>::empty(),
            decreases config.channels - i,
        {
            s.decoders.push(DifferentialDecoder::new(buckets));
            s.cache.push(None);
            i += 1;
        }
        assert(s.cache@ =~= Seq::new(config.channels as nat, |i: int| None::<u64>));
        s
    }

    fn cache_coalesce(&mut self, i: usize, v: DecodeResult) -> (r: Option<u64>)
        requires
            i < old(self).cache@.len(),
        ensures
            r == coalesce(old(self).cache@[i as int], v),
            final(self).cache@ == old(self).cache@.update(i as int, r),
            final(self).config == old(self).config,
            final(self).decoders == old(self).decoders,
            final(self).last_symbol == old(self).last_symbol,
            final(self).data == old(self).data,
    {
        match v {
            DecodeResult::Noise => {
                self.cache[i] = None;
                None
            },
            DecodeResult::Signal(v) => {
                self.cache[i] = Some(v);
                Some(v)
            },
            DecodeResult::SameSignal => self.cache[i],
        }
    }

    /// Shifts the symbol built so far up by one carrier and adds the next
    /// carrier's value below it; nothing if either is missing.
    fn fold_channels_to_symbol(bits: u32, acc: Option<u64>, v: Option<u64>) -> (r: Option<u64>)
        requires
            bits < 64,
            acc is Some ==> acc->0 * pow2(bits as nat) + pow2(bits as nat) <= u64::MAX + 1,
            v is Some ==> v->0 < pow2(bits as nat),
        ensures
            r is Some <==> acc is Some && v is Some,
            r is Some ==> r->0 == acc->0 * pow2(bits as nat) + v->0,
    {
        if acc.is_some() && v.is_some() {
            let a = acc.unwrap();
            proof {
                vstd::bits::lemma_u64_shl_is_mul(a, bits as u64);
            }
            Some((a << bits) + v.unwrap())
        } else {
            None
        }
    }

    /// Reads one window: feeds each carrier's bin to its demodulator, updates
    /// what each carrier holds, and reports the symbol that all carriers
    /// show together, unless it is the one reported last.
    pub fn sample(&mut self, fft: &FftDecoder) -> (r: Option<u64>)
        requires
            old(self).wf(),
            old(self).spec_config().spec_channel_top() <= fft@.len() / 2,
        ensures
            final(self).wf(),
            final(self).spec_stream() == old(self).spec_stream(),
            old(self).spec_sampled(fft@, *final(self), r),
            values_fit(final(self).spec_cache(), old(self).spec_config().spec_bits_per_channel()),
            r is Some ==> r->0 == joined_value(
                final(self).spec_cache(),
                old(self).spec_config().spec_bits_per_channel(),
            ) && r->0 < pow2(old(self).spec_config().spec_bits_per_symbol()),
    {
        let ghost old_self = *self;
        let ghost pts = carrier_points(self.config, fft@);
        let ghost bits = self.config.phase_bits as nat;
        let n = self.config.channels;
        let mut i: usize = 0;
        while i < n
            invariant
                n == self.config.channels == old_self.config.channels,
                self.config == old_self.config,
                self.config.wf(),
                self.config.spec_channel_top() <= fft@.len() / 2,
                pts == carrier_points(self.config, fft@),
                bits == self.config.phase_bits as nat,
                i <= n,
                self.decoders@.len() == n,
                self.cache@.len() == n,
                self.last_symbol == old_self.last_symbol,
                self.data == old_self.data,
                self.data.wf(),
                forall|j: int|
                    0 <= j < n ==> (#[trigger] self.decoders@[j]).wf()
                        && self.decoders@[j].spec_phase_buckets() == pow2(bits),
                values_fit(self.cache@, bits),
                forall|j: int|
                    0 <= j < n ==> ((#[trigger] self.cache@[j]) is Some <==> self.decoders@[j].spec_in_a_row()
                        >= 2),
                forall|j: int|
                    0 <= j < i ==> old_self.decoders@[j].spec_next(
                        pts[j],
                        #[trigger] self.decoders@[j],
                    ),
                forall|j: int|
                    i <= j < n ==> #[trigger] self.decoders@[j] == old_self.decoders@[j],
                forall|j: int|
                    0 <= j < i ==> #[trigger] self.cache@[j] == coalesce(
                        old_self.cache@[j],
                        old_self.decoders@[j].spec_result(pts[j]),
                    ),
                forall|j: int| i <= j < n ==> #[trigger] self.cache@[j] == old_self.cache@[j],
            decreases n - i,
        {
            let bin = self.config.channel_bin(i);
            proof {
                assert(bin < fft@.len()) by (nonlinear_arith)
                    requires
                        bin == self.config.channel_base + i * self.config.channel_step,
                        i < self.config.channels,
                        self.config.channel_step >= 1,
                        self.config.channel_base + self.config.channel_step * self.config.channels
                            <= fft@.len() / 2,
                ;
            }
            let point = fft.point(bin);
            let mut d = self.decoders[i];
            let res = d.sample(&point);
            self.decoders[i] = d;
            proof {
                assert(res == old_self.decoders@[i as int].spec_result(pts[i as int]));
                match res {
                    DecodeResult::Signal(v) => {
                        assert(v < pow2(bits)) by {
                            lemma_pow2_pos(bits);
                        }
                    },
                    _ => {},
                }
            }
            self.cache_coalesce(i, res);
            i += 1;
        }
        let bits_per_channel = self.config.bits_per_channel();
        proof {
            assert(self.cache@ =~= Seq::new(
                pts.len(),
                |j: int| coalesce(old_self.cache@[j], old_self.decoders@[j].spec_result(pts[j])),
            ));
            assert(bits_per_channel == bits);
        }
        let mut symbol: Option<u64> = Some(0);
        let mut k: usize = n;
        while k > 0
            invariant
                k <= n == self.cache@.len(),
                bits == bits_per_channel,
                1 <= bits_per_channel <= 31,
                bits_per_channel * n <= 64,
                values_fit(self.cache@, bits),
                symbol is Some <==> all_held(self.cache@.skip(k as int)),
                symbol is Some ==> symbol->0 == joined_value(self.cache@.skip(k as int), bits),
            decreases k,
        {
            let ghost tail = self.cache@.skip(k as int);
            let ghost next = self.cache@.skip(k - 1);
            proof {
                assert(next.skip(1) =~= tail);
                assert(next[0] == self.cache@[k - 1]);
                assert(values_fit(tail, bits)) by {
                    assert forall|j: int| 0 <= j < tail.len() && (#[trigger] tail[j]) is Some implies tail[j]->0
                        < pow2(bits) by {
                        assert(tail[j] == self.cache@[k + j]);
                    }
                }
                lemma_joined_value_bound(tail, bits);
                lemma_pow2_adds(bits, bits * tail.len());
                assert(bits * (tail.len() + 1) == bits + bits * tail.len()) by (nonlinear_arith);
                assert(bits * (tail.len() + 1) <= 64) by (nonlinear_arith)
                    requires tail.len() + 1 <= n, bits * n <= 64;
                if symbol is Some {
                    let a = symbol->0 as int;
                    let p = pow2(bits) as int;
                    let q = pow2(bits * tail.len()) as int;
                    assert(symbol->0 == joined_value(tail, bits));
                    assert(joined_value(tail, bits) < pow2(bits * tail.len()));
                    assert(a < q);
                    lemma_pow2_pos(bits);
                    assert(a * p + p <= p * q) by (nonlinear_arith)
                        requires a < q, p > 0;
                    if bits * (tail.len() + 1) < 64 {
                        vstd::arithmetic::power2::lemma_pow2_strictly_increases(bits * (tail.len() + 1), 64);
                    }
                    vstd::arithmetic::power2::lemma2_to64();
                }
                assert(all_held(next) <==> next[0] is Some && all_held(tail)) by {
                    if next[0] is Some && all_held(tail) {
                        assert forall|j: int| 0 <= j < next.len() implies (#[trigger] next[j]) is Some by {
                            if j > 0 {
                                assert(next[j] == tail[j - 1]);
                            }
                        }
                    }
                    if all_held(next) {
                        assert forall|j: int| 0 <= j < tail.len() implies (#[trigger] tail[j]) is Some by {
                            assert(next[j + 1] == tail[j]);
                        }
                    }
                }
            }
            let ghost before = symbol;
            symbol = Self::fold_channels_to_symbol(bits_per_channel, symbol, self.cache[k - 1]);
            proof {
                if symbol is Some {
                    assert(joined_value(next, bits) == next[0]->0 + pow2(bits) * joined_value(tail, bits));
                    assert(symbol->0 == before->0 * pow2(bits) + next[0]->0);
                }
            }
            k -= 1;
        }
        proof {
            assert(self.cache@.skip(0) =~= self.cache@);
            lemma_joined_value_bound(self.cache@, bits);
            assert(bits * n == self.config.spec_bits_per_symbol());
        }
        if symbol.is_none() {
            self.last_symbol = None;
        }
        if symbol == self.last_symbol {
            None
        } else {
            self.last_symbol = symbol;
            symbol
        }
    }

    /// Reads one window, and queues the bits of a newly reported symbol for
    /// reading as bytes.
    pub fn write(&mut self, fft: &FftDecoder) -> (r: Option<u64>)
        requires
            old(self).wf(),
            old(self).spec_config().spec_channel_top() <= fft@.len() / 2,
        ensures
            final(self).wf(),
            old(self).spec_sampled(fft@, *final(self), r),
            values_fit(final(self).spec_cache(), old(self).spec_config().spec_bits_per_channel()),
            r is Some ==> r->0 == joined_value(
                final(self).spec_cache(),
                old(self).spec_config().spec_bits_per_channel(),
            ) && r->0 < pow2(old(self).spec_config().spec_bits_per_symbol()),
            final(self).spec_stream() == match r {
                Some(s) => old(self).spec_stream() + value_bits(
                    old(self).spec_config().spec_bits_per_symbol(),
                    s as nat,
                ),
                None => old(self).spec_stream(),
            },
    {
        let symbol = self.sample(fft);
        if let Some(s) = symbol {
            let bits = self.config.bits_per_symbol();
            self.data.push_bits(bits, s);
        }
        symbol
    }

    pub fn config(&self) -> (r: ChannelConfig)
        ensures
            r == self.spec_config(),
    {
        self.config
    }

    /// Moves decoded bytes into `buf`, as `BitOrg::read` does.
    pub fn read(&mut self, buf: &mut [u8]) -> (n: usize)
        requires
            old(self).wf(),
        ensures
            final(self).wf(),
            final(self).spec_config() == old(self).spec_config(),
            final(self).spec_decoders() == old(self).spec_decoders(),
            final(self).spec_cache() == old(self).spec_cache(),
            final(self).spec_last_symbol() == old(self).spec_last_symbol(),
            n == vstd::math::min(old(buf)@.len() as int, old(self).spec_stream().len() as int / 8),
            final(buf)@.len() == old(buf)@.len(),
            final(buf)@.take(n as int) == bits_bytes(old(self).spec_stream()).take(n as int),
            final(buf)@.skip(n as int) == old(buf)@.skip(n as int),
            final(self).spec_stream() == old(self).spec_stream().skip(8 * n),
    {
        self.data.read(buf)
    }
}

} // verus!
