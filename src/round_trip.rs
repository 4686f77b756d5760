use vstd::prelude::*;
use vstd::arithmetic::power2::{pow2, lemma_pow2_pos, lemma_pow2_adds, lemma2_to64};
use vstd::arithmetic::div_mod::{
    lemma_fundamental_div_mod,
    lemma_fundamental_div_mod_converse,
    lemma_small_mod,
    lemma_sub_mod_noop,
    lemma_mod_multiples_vanish,
    lemma_div_denominator,
    lemma_mod_breakdown,
};
use crate::bit_org::{bits_bytes, bytes_bits, lemma_bits_bytes_of_bytes_bits, lemma_bits_value_bound, lemma_bytes_bits_len};
use crate::config::ChannelConfig;
use crate::data_decode::joined_value;
use crate::differential_decode::{phase_bucket, phase_shift, PHASE_CIRCLE};
use crate::differential_encode::{buckets_after, channel_value, data_symbols, differential_bucket, symbol_buckets};

verus! {

/// The phase that a receiver measures for a tone sent at phase bucket
/// `bucket` of `buckets`, seen through a fixed `offset` (how the window
/// lines up with the tone): the bucket's share of the circle, plus the
/// offset, wrapped.
pub open spec fn measured_phase(bucket: int, buckets: int, offset: u32) -> u32 {
    ((bucket * (PHASE_CIRCLE as int / buckets) + offset) % PHASE_CIRCLE as int) as u32
}

/// The symbol a receiver reads when each carrier `i` steps from phase bucket
/// `prev[i]` to `next[i]`, each seen through its offset.
pub open spec fn received_symbol(
    config: ChannelConfig,
    offsets: Seq<u32>,
    prev: Seq<u64>,
    next: Seq<u64>,
) -> int {
    let b = config.spec_phase_buckets();
    joined_value(
        Seq::new(
            config.channels as nat,
            |i: int|
                Some(
                    phase_bucket(
                        b,
                        phase_shift(
                            measured_phase(prev[i] as int, b, offsets[i]),
                            measured_phase(next[i] as int, b, offsets[i]),
                        ),
                    ) as u64,
                ),
        ),
        config.phase_bits as nat,
    )
}

/// A carrier that steps back by `v` buckets is read as `v`, whatever the
/// offset it is seen through.
pub proof fn lemma_phase_step_read_back(k: nat, p: int, v: int, offset: u32)
    requires
        1 <= k <= 31,
        0 <= p < pow2(k),
        0 <= v < pow2(k),
    ensures
        phase_bucket(
            pow2(k) as int,
            phase_shift(
                measured_phase(p, pow2(k) as int, offset),
                measured_phase(differential_bucket(p, v, pow2(k) as int), pow2(k) as int, offset),
            ),
        ) == v,
{
    let b = pow2(k) as int;
    let m = PHASE_CIRCLE as int;
    lemma2_to64();
    lemma_pow2_pos(k);
    lemma_pow2_pos((32 - k) as nat);
    lemma_pow2_adds(k, (32 - k) as nat);
    let w = pow2((32 - k) as nat) as int;
    assert(b * w == m);
    lemma_fundamental_div_mod_converse(m, b, w, 0);
    assert(m / b == w);
    let d = differential_bucket(p, v, b);
    lemma_fundamental_div_mod(p - v, b);
    let q = (p - v) / b;
    assert(p - v == b * q + d);
    let up = (p * w + offset) % m;
    let ud = (d * w + offset) % m;
    assert(measured_phase(p, b, offset) as int == up);
    assert(measured_phase(d, b, offset) as int == ud);
    lemma_sub_mod_noop(p * w + offset, d * w + offset, m);
    assert((p * w + offset) - (d * w + offset) == m * q + v * w) by (nonlinear_arith)
        requires p - v == b * q + d, b * w == m;
    lemma_mod_multiples_vanish(q, v * w, m);
    assert(0 <= v * w < m) by (nonlinear_arith)
        requires 0 <= v < b, b * w == m, w > 0;
    lemma_small_mod((v * w) as nat, m as nat);
    assert(phase_shift(measured_phase(p, b, offset), measured_phase(d, b, offset)) == v * w);
    assert(v * w * b + m / 2 == v * m + m / 2) by (nonlinear_arith)
        requires b * w == m;
    lemma_fundamental_div_mod_converse(v * m + m / 2, m, v, m / 2);
    lemma_small_mod(v as nat, b as nat);
}

/// The values of the carriers of a symbol, put together again, give the
/// symbol's low `bits * n` bits.
pub proof fn lemma_joined_channel_values(data: u64, bits: nat, n: nat)
    requires
        1 <= bits <= 31,
    ensures
        joined_value(
            Seq::new(n, |i: int| Some(channel_value(data, i, bits) as u64)),
            bits,
        ) == data as nat % pow2(bits * n),
    decreases n,
{
    let cache = Seq::new(n, |i: int| Some(channel_value(data, i, bits) as u64));
    lemma_pow2_pos(bits);
    lemma2_to64();
    if bits < 31 {
        vstd::arithmetic::power2::lemma_pow2_strictly_increases(bits, 31);
    }
    assert(pow2(bits) <= 0x8000_0000);
    if n == 0 {
        lemma2_to64();
        assert(bits * 0 == 0) by (nonlinear_arith);
    } else {
        let p = pow2(bits) as int;
        let rest_data = (data as int / p) as u64;
        assert(data as int / p <= data) by (nonlinear_arith)
            requires p > 0, data >= 0;
        let rest = Seq::new((n - 1) as nat, |i: int| Some(channel_value(rest_data, i, bits) as u64));
        lemma_joined_channel_values(rest_data, bits, (n - 1) as nat);
        assert forall|i: int| 0 <= i < n - 1 implies cache.skip(1)[i] == #[trigger] rest[i] by {
            lemma_pow2_pos((i * bits) as nat);
            lemma_pow2_adds(bits, (i * bits) as nat);
            assert(((i + 1) * bits) as nat == bits + (i * bits) as nat) by (nonlinear_arith)
                requires i >= 0;
            lemma_div_denominator(data as int, p, pow2((i * bits) as nat) as int);
            let cv = channel_value(data, i + 1, bits);
            assert(0 <= cv < p) by {
                vstd::arithmetic::div_mod::lemma_mod_bound(
                    (data as nat / pow2(((i + 1) * bits) as nat)) as int,
                    p,
                );
            }
            let cr = channel_value(rest_data, i, bits);
            assert(0 <= cr < p) by {
                vstd::arithmetic::div_mod::lemma_mod_bound(
                    (rest_data as nat / pow2((i * bits) as nat)) as int,
                    p,
                );
            }
        }
        assert(cache.skip(1) =~= rest);
        assert(pow2(0) == 1) by {
            lemma2_to64();
        }
        assert(channel_value(data, 0, bits) == data as int % p) by {
            assert((0 * bits) as nat == 0) by (nonlinear_arith);
        }
        vstd::arithmetic::div_mod::lemma_mod_bound(data as int, p);
        let q = pow2(bits * (n - 1) as nat) as int;
        lemma_pow2_pos(bits * (n - 1) as nat);
        lemma_mod_breakdown(data as int, p, q);
        lemma_pow2_adds(bits, bits * (n - 1) as nat);
        assert(bits * n == bits + bits * (n - 1) as nat) by (nonlinear_arith)
            requires n >= 1;
    }
}

/// Eight-bit symbols cut from a byte string are its bytes.
pub proof fn lemma_byte_symbols(s: Seq<u8>)
    ensures
        data_symbols(bytes_bits(s), 8).len() == s.len(),
        forall|k: int| 0 <= k < s.len() ==> #[trigger] data_symbols(bytes_bits(s), 8)[k] == s[k],
{
    let bits = bytes_bits(s);
    lemma_bytes_bits_len(s);
    lemma_fundamental_div_mod_converse(8 * s.len() as int + 7, 8, s.len() as int, 7);
    lemma_bits_bytes_of_bytes_bits(s);
    assert forall|k: int| 0 <= k < s.len() implies #[trigger] data_symbols(bits, 8)[k] == s[k] by {
        let chunk = bits.subrange(8 * k, 8 * k + 8);
        assert(vstd::math::min((k + 1) * 8, bits.len() as int) == 8 * k + 8);
        assert(bits.subrange(k * 8, vstd::math::min((k + 1) * 8, bits.len() as int)) == chunk);
        lemma_bits_value_bound(chunk);
        lemma2_to64();
        assert(bits_bytes(bits)[k] == s[k]);
    }
}

/// Every bucket a run of symbols leaves is below the number of buckets.
pub proof fn lemma_buckets_after_bounded(config: ChannelConfig, prev: Seq<u64>, syms: Seq<u64>)
    requires
        config.wf(),
        prev.len() == config.channels,
        forall|i: int| 0 <= i < prev.len() ==> #[trigger] prev[i] < config.spec_phase_buckets(),
    ensures
        buckets_after(config, prev, syms).len() == config.channels,
        forall|i: int|
            0 <= i < config.channels ==> #[trigger] buckets_after(config, prev, syms)[i]
                < config.spec_phase_buckets(),
    decreases syms.len(),
{
    if syms.len() > 0 {
        lemma_buckets_after_bounded(config, prev, syms.drop_last());
        let b = config.spec_phase_buckets();
        lemma_pow2_pos(config.phase_bits as nat);
        lemma2_to64();
        if config.phase_bits < 32 {
            vstd::arithmetic::power2::lemma_pow2_strictly_increases(config.phase_bits as nat, 32);
        }
        let before = buckets_after(config, prev, syms.drop_last());
        assert forall|i: int| 0 <= i < config.channels implies #[trigger] symbol_buckets(
            config,
            before,
            syms.last(),
        )[i] < b by {
            vstd::arithmetic::div_mod::lemma_mod_bound(
                before[i] as int - channel_value(syms.last(), i, config.phase_bits as nat),
                b,
            );
        }
    }
}

/// Sending bytes and reading them back, at the level of symbols: for a plan
/// of eight-bit symbols and every byte string `s`, the encoder cuts `s` into
/// one symbol per byte, and a receiver that reads each symbol's carrier
/// phases as steps from the previous symbol's (the calibration's, at phase
/// zero, before the first), each carrier seen through any fixed offset,
/// reads back each byte of `s` in turn. The packer then turns the eight bits
/// of each byte read back into `s` again.
pub proof fn law_round_trip(config: ChannelConfig, s: Seq<u8>, offsets: Seq<u32>)
    requires
        config.wf(),
        config.spec_bits_per_symbol() == 8,
        offsets.len() == config.channels,
    ensures
        ({
            let syms = data_symbols(bytes_bits(s), 8);
            let start = Seq::new(config.channels as nat, |i: int| 0u64);
            &&& syms.len() == s.len()
            &&& forall|k: int|
                0 <= k < s.len() ==> #[trigger] received_symbol(
                    config,
                    offsets,
                    buckets_after(config, start, syms.take(k)),
                    buckets_after(config, start, syms.take(k + 1)),
                ) == s[k]
        }),
        bits_bytes(bytes_bits(s)) == s,
{
    let syms = data_symbols(bytes_bits(s), 8);
    let start = Seq::new(config.channels as nat, |i: int| 0u64);
    let bits = config.phase_bits as nat;
    let b = config.spec_phase_buckets();
    lemma_byte_symbols(s);
    lemma_bits_bytes_of_bytes_bits(s);
    lemma_pow2_pos(bits);
    assert forall|k: int| 0 <= k < s.len() implies #[trigger] received_symbol(
        config,
        offsets,
        buckets_after(config, start, syms.take(k)),
        buckets_after(config, start, syms.take(k + 1)),
    ) == s[k] by {
        let prev = buckets_after(config, start, syms.take(k));
        assert(syms.take(k + 1).drop_last() =~= syms.take(k));
        let next = buckets_after(config, start, syms.take(k + 1));
        assert(next == symbol_buckets(config, prev, syms[k]));
        lemma_buckets_after_bounded(config, start, syms.take(k));
        let sym = syms[k];
        let read = Seq::new(
            config.channels as nat,
            |i: int|
                Some(
                    phase_bucket(
                        b,
                        phase_shift(
                            measured_phase(prev[i] as int, b, offsets[i]),
                            measured_phase(next[i] as int, b, offsets[i]),
                        ),
                    ) as u64,
                ),
        );
        let sent = Seq::new(config.channels as nat, |i: int| Some(channel_value(sym, i, bits) as u64));
        assert forall|i: int| 0 <= i < config.channels implies #[trigger] read[i] == sent[i] by {
            let cv = channel_value(sym, i, bits);
            vstd::arithmetic::div_mod::lemma_mod_bound(
                (sym as nat / pow2((i * bits) as nat)) as int,
                b,
            );
            lemma_pow2_pos(bits);
            vstd::arithmetic::div_mod::lemma_mod_bound(prev[i] as int - cv, b);
            lemma2_to64();
            if config.phase_bits < 32 {
                vstd::arithmetic::power2::lemma_pow2_strictly_increases(bits, 32);
            }
            assert(symbol_buckets(config, prev, sym)[i] == differential_bucket(prev[i] as int, cv, b) as u64);
            assert(next[i] as int == differential_bucket(prev[i] as int, cv, b));
            lemma_phase_step_read_back(bits, prev[i] as int, cv, offsets[i]);
        }
        assert(read =~= sent);
        lemma_joined_channel_values(sym, bits, config.channels as nat);
        assert(bits * config.channels == 8);
        lemma2_to64();
        lemma_small_mod(sym as nat, 256);
    }
}

} // verus!
